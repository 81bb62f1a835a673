use vstd::prelude::*;

use crate::main_loop::spawn_random::{kind_of_roll, spec_kind_of_roll};
use crate::puyo_chara::PuyoType;

verus! {

/// A puyo of a cartesian 6x12 board: the board entity it belongs to, its cell
/// (column, row) and its kind.
#[derive(Clone, Copy, Debug)]
pub struct Puyo {
    pub board: u64,
    pub grid_pos: (u32, u32),
    pub ty: PuyoType,
}

/// The first entry of `s` that satisfies `f`.
pub open spec fn find_first(s: Seq<(Puyo, u64)>, f: spec_fn((Puyo, u64)) -> bool) -> Option<
    (Puyo, u64),
>
    decreases s.len(),
{
    if s.len() == 0 {
        None
    } else if f(s[0]) {
        Some(s[0])
    } else {
        find_first(s.drop_first(), f)
    }
}

/// `find_first` finds the entry at `i` when no entry before it satisfies `f`.
proof fn lemma_find_first_at(s: Seq<(Puyo, u64)>, f: spec_fn((Puyo, u64)) -> bool, i: int)
    requires
        0 <= i < s.len(),
        f(s[i]),
        forall|j: int| 0 <= j < i ==> !f(#[trigger] s[j]),
    ensures
        find_first(s, f) == Some(s[i]),
    decreases i,
{
    if i > 0 {
        assert(!f(s[0]));
        assert forall|j: int| 0 <= j < i - 1 implies !f(#[trigger] s.drop_first()[j]) by {
            assert(s.drop_first()[j] == s[j + 1]);
        }
        lemma_find_first_at(s.drop_first(), f, i - 1);
    }
}

/// `find_first` finds nothing when no entry satisfies `f`.
proof fn lemma_find_first_none(s: Seq<(Puyo, u64)>, f: spec_fn((Puyo, u64)) -> bool)
    requires
        forall|j: int| 0 <= j < s.len() ==> !f(#[trigger] s[j]),
    ensures
        find_first(s, f) is None,
    decreases s.len(),
{
    if s.len() > 0 {
        assert(!f(s[0]));
        assert forall|j: int| 0 <= j < s.len() - 1 implies !f(#[trigger] s.drop_first()[j]) by {
            assert(s.drop_first()[j] == s[j + 1]);
        }
        lemma_find_first_none(s.drop_first(), f);
    }
}

/// The index of the first entry of `s` that belongs to `board` and, where they
/// are given, lies at `pos` and is `entity`.
fn first_index(s: &Vec<(Puyo, u64)>, board: u64, pos: Option<(u32, u32)>, entity: Option<u64>) -> (r:
    Option<usize>)
    ensures
        r matches Some(i) ==> i < s@.len() && entry_matches(s@[i as int], board, pos, entity) && forall|
            j: int,
        | 0 <= j < i ==> !entry_matches(#[trigger] s@[j], board, pos, entity),
        r is None ==> forall|j: int|
            0 <= j < s@.len() ==> !entry_matches(#[trigger] s@[j], board, pos, entity),
{
    let mut i: usize = 0;
    while i < s.len()
        invariant
            i <= s@.len(),
            forall|j: int| 0 <= j < i ==> !entry_matches(#[trigger] s@[j], board, pos, entity),
        decreases s@.len() - i,
    {
        let (p, e) = s[i];
        let at_pos = match pos {
            Some(q) => p.grid_pos.0 == q.0 && p.grid_pos.1 == q.1,
            None => true,
        };
        let is_entity = match entity {
            Some(x) => e == x,
            None => true,
        };
        if p.board == board && at_pos && is_entity {
            return Some(i);
        }
        i = i + 1;
    }
    None
}

/// Whether `x` belongs to `board`, lies at `pos` (when given) and is `entity`
/// (when given).
pub open spec fn entry_matches(
    x: (Puyo, u64),
    board: u64,
    pos: Option<(u32, u32)>,
    entity: Option<u64>,
) -> bool {
    &&& x.0.board == board
    &&& (pos matches Some(q) ==> x.0.grid_pos == q)
    &&& (entity matches Some(e) ==> x.1 == e)
}

/// The puyos of every board with their entities, seen from one board.
pub struct CartBoart {
    pub board: u64,
    pub puyos: Vec<(Puyo, u64)>,
}

impl CartBoart {
    /// The first puyo of this board at `pos`.
    pub open spec fn spec_at_coord(&self, pos: (u32, u32)) -> Option<(Puyo, u64)> {
        find_first(self.puyos@, |x: (Puyo, u64)| entry_matches(x, self.board, Some(pos), None))
    }

    /// The first puyo of this board shown by `entity`.
    pub open spec fn spec_puyo(&self, entity: u64) -> Option<Puyo> {
        match find_first(
            self.puyos@,
            |x: (Puyo, u64)| entry_matches(x, self.board, None, Some(entity)),
        ) {
            Some(x) => Some(x.0),
            None => None,
        }
    }

    /// The puyo at `pos` given with signed coordinates; nothing at negative ones.
    pub open spec fn spec_at_icoord(&self, pos: (i32, i32)) -> Option<(Puyo, u64)> {
        if pos.0 < 0 || pos.1 < 0 {
            None
        } else {
            self.spec_at_coord((pos.0 as u32, pos.1 as u32))
        }
    }

    /// The puyo shown by the entity `handle` names, if any.
    pub open spec fn spec_handle_puyo(&self, handle: Option<u64>) -> Option<Puyo> {
        match handle {
            Some(e) => self.spec_puyo(e),
            None => None,
        }
    }

    /// Entries of the first `n` puyos of this board, as handles.
    pub open spec fn tiles_upto(&self, n: nat) -> Seq<Option<u64>>
        decreases n,
    {
        if n == 0 {
            Seq::empty()
        } else if self.puyos@[n - 1].0.board == self.board {
            self.tiles_upto((n - 1) as nat).push(Some(self.puyos@[n - 1].1))
        } else {
            self.tiles_upto((n - 1) as nat)
        }
    }

    /// The first puyo of this board at `pos`.
    pub fn get_at_coord(&self, pos: (u32, u32)) -> (r: Option<(Puyo, u64)>)
        ensures
            r == self.spec_at_coord(pos),
    {
        let ghost f = |x: (Puyo, u64)| entry_matches(x, self.board, Some(pos), None);
        match first_index(&self.puyos, self.board, Some(pos), None) {
            Some(i) => {
                proof {
                    lemma_find_first_at(self.puyos@, f, i as int);
                }
                Some(self.puyos[i])
            },
            None => {
                proof {
                    lemma_find_first_none(self.puyos@, f);
                }
                None
            },
        }
    }

    /// The puyo at `pos` given with signed coordinates; nothing at negative ones.
    pub fn get_at_icoord(&self, pos: (i32, i32)) -> (r: Option<(Puyo, u64)>)
        ensures
            r == self.spec_at_icoord(pos),
    {
        if pos.0 < 0 || pos.1 < 0 {
            None
        } else {
            self.get_at_coord((pos.0 as u32, pos.1 as u32))
        }
    }

    /// The first puyo of this board shown by `entity`.
    pub fn get_puyo(&self, entity: u64) -> (r: Option<Puyo>)
        ensures
            r == self.spec_puyo(entity),
    {
        let ghost f = |x: (Puyo, u64)| entry_matches(x, self.board, None, Some(entity));
        match first_index(&self.puyos, self.board, None, Some(entity)) {
            Some(i) => {
                proof {
                    lemma_find_first_at(self.puyos@, f, i as int);
                }
                Some(self.puyos[i].0)
            },
            None => {
                proof {
                    lemma_find_first_none(self.puyos@, f);
                }
                None
            },
        }
    }

    /// The entities of this board's puyos, in the order the puyos are listed.
    pub fn tiles(&self) -> (r: Vec<Option<u64>>)
        ensures
            r@ == self.tiles_upto(self.puyos@.len()),
    {
        let mut r: Vec<Option<u64>> = Vec::new();
        let mut i: usize = 0;
        while i < self.puyos.len()
            invariant
                i <= self.puyos@.len(),
                r@ == self.tiles_upto(i as nat),
            decreases self.puyos@.len() - i,
        {
            let (p, e) = self.puyos[i];
            if p.board == self.board {
                r.push(Some(e));
            }
            i = i + 1;
        }
        r
    }

    /// The handles of the puyos left of, right of, below and above the puyo of
    /// `handle`, each `None` where there is none; all `None` for an unknown handle.
    /// Cells are reckoned as `i32`: a coordinate past `i32::MAX` reads as
    /// negative, and stepping past `i32::MAX` or `i32::MIN` would overflow.
    pub fn neighbors(&self, handle: &Option<u64>) -> (r: [Option<u64>; 4])
        requires
            self.spec_handle_puyo(*handle) matches Some(p) ==> {
                &&& p.grid_pos.0 != 0x7fff_ffff
                &&& p.grid_pos.0 != 0x8000_0000
                &&& p.grid_pos.1 != 0x7fff_ffff
                &&& p.grid_pos.1 != 0x8000_0000
            },
        ensures
            r@ == match self.spec_handle_puyo(*handle) {
                None => seq![None, None, None, None],
                Some(p) => {
                    let x = p.grid_pos.0 as i32;
                    let y = p.grid_pos.1 as i32;
                    seq![
                        entity_of(self.spec_at_icoord(((x - 1) as i32, y))),
                        entity_of(self.spec_at_icoord(((x + 1) as i32, y))),
                        entity_of(self.spec_at_icoord((x, (y - 1) as i32))),
                        entity_of(self.spec_at_icoord((x, (y + 1) as i32))),
                    ]
                },
            },
    {
        let entity = match handle {
            Some(e) => *e,
            None => {
                let r: [Option<u64>; 4] = [None, None, None, None];
                assert(r@ =~= seq![None, None, None, None]);
                return r;
            },
        };
        let puy = match self.get_puyo(entity) {
            Some(p) => p,
            None => {
                let r: [Option<u64>; 4] = [None, None, None, None];
                assert(r@ =~= seq![None, None, None, None]);
                return r;
            },
        };
        let gx = puy.grid_pos.0;
        let gy = puy.grid_pos.1;
        proof {
            assert(gx != 0x7fff_ffffu32 && gx != 0x8000_0000u32 ==> i32::MIN < (gx as i32) && (
            gx as i32) < i32::MAX) by (bit_vector);
            assert(gy != 0x7fff_ffffu32 && gy != 0x8000_0000u32 ==> i32::MIN < (gy as i32) && (
            gy as i32) < i32::MAX) by (bit_vector);
        }
        let x = gx as i32;
        let y = gy as i32;
        let r: [Option<u64>; 4] = [
            entity_option(self.get_at_icoord((x - 1, y))),
            entity_option(self.get_at_icoord((x + 1, y))),
            entity_option(self.get_at_icoord((x, y - 1))),
            entity_option(self.get_at_icoord((x, y + 1))),
        ];
        assert(r@ =~= seq![
            entity_of(self.spec_at_icoord(((x - 1) as i32, y))),
            entity_of(self.spec_at_icoord(((x + 1) as i32, y))),
            entity_of(self.spec_at_icoord((x, (y - 1) as i32))),
            entity_of(self.spec_at_icoord((x, (y + 1) as i32))),
        ]);
        r
    }

    /// Two puyos connect when neither is a small nuisance puyo and both are of
    /// one kind.
    pub open spec fn spec_connects(&self, a: Option<u64>, b: Option<u64>) -> bool {
        match (self.spec_handle_puyo(a), self.spec_handle_puyo(b)) {
            (Some(pa), Some(pb)) => pa.ty != PuyoType::Nuisance && pb.ty != PuyoType::Nuisance
                && pa.ty == pb.ty,
            _ => false,
        }
    }

    /// Whether the puyos of `a` and `b` connect.
    pub fn connects(&self, a: &Option<u64>, b: &Option<u64>) -> (r: bool)
        ensures
            r == self.spec_connects(*a, *b),
    {
        let a = match a {
            Some(a) => *a,
            None => {
                return false;
            },
        };
        let b = match b {
            Some(b) => *b,
            None => {
                return false;
            },
        };
        match (self.get_puyo(a), self.get_puyo(b)) {
            (Some(pa), Some(pb)) => {
                if pa.ty == PuyoType::Nuisance || pb.ty == PuyoType::Nuisance {
                    false
                } else {
                    pa.ty == pb.ty
                }
            },
            _ => false,
        }
    }

    /// Whether the puyo of `handle` is a small nuisance puyo.
    pub fn nuisance(&self, handle: &Option<u64>) -> (r: bool)
        ensures
            r == (self.spec_handle_puyo(*handle) matches Some(p) && p.ty == PuyoType::Nuisance),
    {
        let h = match handle {
            Some(h) => *h,
            None => {
                return false;
            },
        };
        match self.get_puyo(h) {
            Some(p) => p.ty == PuyoType::Nuisance,
            None => false,
        }
    }

    /// The kind of the puyo of `handle`, unless it is a small nuisance puyo.
    pub fn color(&self, handle: &Option<u64>) -> (r: Option<PuyoType>)
        ensures
            r == match self.spec_handle_puyo(*handle) {
                Some(p) => if p.ty != PuyoType::Nuisance {
                    Some(p.ty)
                } else {
                    None
                },
                None => None,
            },
    {
        let h = match handle {
            Some(h) => *h,
            None => {
                return None;
            },
        };
        match self.get_puyo(h) {
            Some(p) => if p.ty != PuyoType::Nuisance {
                Some(p.ty)
            } else {
                None
            },
            None => None,
        }
    }
}

/// Connection on a cartesian board goes both ways.
pub proof fn lemma_cart_connects_symmetric(board: &CartBoart, a: Option<u64>, b: Option<u64>)
    ensures
        board.spec_connects(a, b) == board.spec_connects(b, a),
{
}

/// Two puyos of this board of one kind that is not a small nuisance always
/// connect; puyos of different kinds never do.
pub proof fn lemma_cart_same_kind_connects(board: &CartBoart, a: Option<u64>, b: Option<u64>)
    requires
        board.spec_handle_puyo(a) is Some,
        board.spec_handle_puyo(b) is Some,
    ensures
        ({
            let pa = board.spec_handle_puyo(a)->0;
            let pb = board.spec_handle_puyo(b)->0;
            &&& pa.ty != PuyoType::Nuisance && pa.ty == pb.ty ==> board.spec_connects(a, b)
            &&& pa.ty != pb.ty ==> !board.spec_connects(a, b)
        }),
{
}

/// Nothing connects to an unknown handle or to a small nuisance puyo.
pub proof fn lemma_cart_nuisance_connects_nothing(
    board: &CartBoart,
    a: Option<u64>,
    b: Option<u64>,
)
    requires
        !(board.spec_handle_puyo(a) matches Some(p) && p.ty != PuyoType::Nuisance),
    ensures
        !board.spec_connects(a, b),
        !board.spec_connects(b, a),
{
}

/// The entity of an entry, if there is one.
pub open spec fn entity_of(x: Option<(Puyo, u64)>) -> Option<u64> {
    match x {
        Some(x) => Some(x.1),
        None => None,
    }
}

/// The entity of an entry, if there is one.
fn entity_option(x: Option<(Puyo, u64)>) -> (r: Option<u64>)
    ensures
        r == entity_of(x),
{
    match x {
        Some(x) => Some(x.1),
        None => None,
    }
}

// ---------------------------------------------------------------------------
// Gravity
// ---------------------------------------------------------------------------

/// How many `k < n` satisfy `p`.
pub open spec fn count_where(p: spec_fn(int) -> bool, n: nat) -> nat
    decreases n,
{
    if n == 0 {
        0
    } else {
        count_where(p, (n - 1) as nat) + if p(n - 1) {
            1nat
        } else {
            0nat
        }
    }
}

/// Whether the puyo at `j` belongs to `board` and stands in the column of the puyo at `i`.
pub open spec fn same_column(s: Seq<(Puyo, u64)>, board: u64, j: int, i: int) -> bool {
    s[j].0.board == board && s[j].0.grid_pos.0 == s[i].0.grid_pos.0
}

/// Whether the puyo at `j` comes before the one at `i` when a column is sorted
/// by row, ties keeping list order.
pub open spec fn sorts_before(s: Seq<(Puyo, u64)>, j: int, i: int) -> bool {
    s[j].0.grid_pos.1 < s[i].0.grid_pos.1 || (s[j].0.grid_pos.1 == s[i].0.grid_pos.1 && j < i)
}

/// The row the puyo at `i` lands on: how many puyos of its board and column
/// sort before it.
pub open spec fn landing_row(s: Seq<(Puyo, u64)>, board: u64, i: int) -> nat {
    count_where(|j: int| same_column(s, board, j, i) && sorts_before(s, j, i), s.len())
}

/// The puyos after gravity: every puyo of `board` lands on its landing row;
/// puyos of other boards stay.
pub open spec fn fallen(s: Seq<(Puyo, u64)>, board: u64) -> Seq<(Puyo, u64)> {
    Seq::new(
        s.len(),
        |i: int|
            if s[i].0.board == board {
                (
                    Puyo {
                        grid_pos: (s[i].0.grid_pos.0, landing_row(s, board, i) as u32),
                        ..s[i].0
                    },
                    s[i].1,
                )
            } else {
                s[i]
            },
    )
}

/// Whether the puyo at `i`, of `board`, moves when gravity acts.
pub open spec fn moves(s: Seq<(Puyo, u64)>, board: u64, i: int) -> bool {
    s[i].0.board == board && s[i].0.grid_pos.1 != landing_row(s, board, i) as u32
}

/// The entities of the puyos among the first `n` that move, in list order.
pub open spec fn moving_upto(s: Seq<(Puyo, u64)>, board: u64, n: nat) -> Seq<u64>
    decreases n,
{
    if n == 0 {
        Seq::empty()
    } else if moves(s, board, n - 1) {
        moving_upto(s, board, (n - 1) as nat).push(s[n - 1].1)
    } else {
        moving_upto(s, board, (n - 1) as nat)
    }
}

/// Counting a weaker property finds no fewer, and more when it holds somewhere
/// the stronger one does not.
proof fn lemma_count_mono(p: spec_fn(int) -> bool, q: spec_fn(int) -> bool, n: nat, w: int)
    requires
        forall|k: int| 0 <= k < n && #[trigger] p(k) ==> q(k),
    ensures
        count_where(p, n) <= count_where(q, n),
        0 <= w < n && q(w) && !p(w) ==> count_where(p, n) < count_where(q, n),
    decreases n,
{
    if n > 0 {
        lemma_count_mono(p, q, (n - 1) as nat, w);
    }
}

/// Counting properties that agree below `n` finds the same number.
proof fn lemma_count_same(p: spec_fn(int) -> bool, q: spec_fn(int) -> bool, n: nat)
    requires
        forall|k: int| 0 <= k < n ==> #[trigger] p(k) == q(k),
    ensures
        count_where(p, n) == count_where(q, n),
{
    lemma_count_mono(p, q, n, -1);
    lemma_count_mono(q, p, n, -1);
}

/// A puyo that sorts before another of its column lands strictly lower.
proof fn lemma_landing_strict(s: Seq<(Puyo, u64)>, board: u64, j: int, i: int)
    requires
        0 <= j < s.len(),
        0 <= i < s.len(),
        same_column(s, board, j, i),
        sorts_before(s, j, i),
    ensures
        landing_row(s, board, j) < landing_row(s, board, i),
{
    let p = |k: int| same_column(s, board, k, j) && sorts_before(s, k, j);
    let q = |k: int| same_column(s, board, k, i) && sorts_before(s, k, i);
    assert forall|k: int| 0 <= k < s.len() && #[trigger] p(k) implies q(k) by {}
    lemma_count_mono(p, q, s.len(), j);
}

/// Whether every puyo of `board` lands on a row that a `u32` holds.
pub open spec fn landing_rows_fit(s: Seq<(Puyo, u64)>, board: u64) -> bool {
    forall|i: int| 0 <= i < s.len() && s[i].0.board == board ==> #[trigger] landing_row(s, board, i) <= u32::MAX
}

/// Gravity is done after one fall: a puyo that has landed stays where it is
/// (when the landing rows fit a `u32`; otherwise they wrap around).
pub proof fn lemma_fall_idempotent(s: Seq<(Puyo, u64)>, board: u64)
    requires
        landing_rows_fit(s, board),
    ensures
        fallen(fallen(s, board), board) == fallen(s, board),
        moving_upto(fallen(s, board), board, s.len()).len() == 0,
{
    let t = fallen(s, board);
    assert forall|i: int| 0 <= i < s.len() && s[i].0.board == board implies landing_row(t, board, i)
        == landing_row(s, board, i) by {
        let p = |j: int| same_column(s, board, j, i) && sorts_before(s, j, i);
        let q = |j: int| same_column(t, board, j, i) && sorts_before(t, j, i);
        assert forall|j: int| 0 <= j < s.len() implies #[trigger] p(j) == q(j) by {
            if same_column(s, board, j, i) {
                assert(landing_row(s, board, j) <= u32::MAX);
                assert(landing_row(s, board, i) <= u32::MAX);
                if sorts_before(s, j, i) {
                    lemma_landing_strict(s, board, j, i);
                } else if j != i {
                    assert(sorts_before(s, i, j));
                    assert(same_column(s, board, i, j));
                    lemma_landing_strict(s, board, i, j);
                }
            }
        }
        lemma_count_same(p, q, s.len());
    }
    assert forall|i: int| 0 <= i < s.len() implies #[trigger] fallen(t, board)[i] == t[i] by {
        if s[i].0.board == board {
            assert(landing_row(s, board, i) <= u32::MAX);
        }
    }
    assert(fallen(t, board) =~= t);
    assert forall|n: nat| n <= s.len() implies #[trigger] moving_upto(t, board, n).len() == 0 by {
        lemma_no_moves(s, board, n);
    }
}

proof fn lemma_no_moves(s: Seq<(Puyo, u64)>, board: u64, n: nat)
    requires
        landing_rows_fit(s, board),
        n <= s.len(),
        forall|i: int|
            0 <= i < s.len() && s[i].0.board == board ==> landing_row(fallen(s, board), board, i)
                == landing_row(s, board, i),
    ensures
        moving_upto(fallen(s, board), board, n).len() == 0,
    decreases n,
{
    if n > 0 {
        lemma_no_moves(s, board, (n - 1) as nat);
        let i = n - 1;
        if s[i].0.board == board {
            assert(landing_row(s, board, i) <= u32::MAX);
        }
    }
}

/// Every puyo of one board, seen together to let gravity act on them.
pub struct GravityCartBoart {
    pub board: u64,
    pub puyos: Vec<(Puyo, u64)>,
}

impl GravityCartBoart {
    /// Lets the puyos of this board fall: in each column they close up from
    /// row `0`, keeping their order (a row is kept as a `u32`, wrapping around).
    /// Returns the entities of the puyos that moved, which start falling; none
    /// moved when it is empty.
    pub fn fall(&mut self) -> (started: Vec<u64>)
        ensures
            final(self).board == old(self).board,
            final(self).puyos@ == fallen(old(self).puyos@, old(self).board),
            started@ == moving_upto(old(self).puyos@, old(self).board, old(self).puyos@.len()),
    {
        let ghost s = self.puyos@;
        let board = self.board;
        let n = self.puyos.len();
        let mut rows: Vec<u32> = Vec::new();
        let mut i: usize = 0;
        while i < n
            invariant
                n == s.len(),
                self.puyos@ == s,
                self.board == board,
                i <= n,
                rows@.len() == i,
                forall|k: int|
                    0 <= k < i ==> #[trigger] rows@[k] == landing_row(s, board, k) as u32,
            decreases n - i,
        {
            let ghost p = |j: int| same_column(s, board, j, i as int) && sorts_before(s, j, i as int);
            let (pi, _) = self.puyos[i];
            let mut count: usize = 0;
            let mut j: usize = 0;
            while j < n
                invariant
                    n == s.len(),
                    self.puyos@ == s,
                    i < n,
                    j <= n,
                    pi == s[i as int].0,
                    p == (|k: int| same_column(s, board, k, i as int) && sorts_before(s, k, i as int)),
                    count == count_where(p, j as nat),
                    count <= j,
                decreases n - j,
            {
                let (pj, _) = self.puyos[j];
                proof {
                    assert(s[j as int].0 == pj);
                    assert(count_where(p, (j + 1) as nat) == count_where(p, j as nat) + if p(j as int) {
                        1nat
                    } else {
                        0nat
                    });
                    assert(p(j as int) == (pj.board == board && pj.grid_pos.0 == pi.grid_pos.0 && (
                    pj.grid_pos.1 < pi.grid_pos.1 || (pj.grid_pos.1 == pi.grid_pos.1 && j < i))));
                }
                if pj.board == board && pj.grid_pos.0 == pi.grid_pos.0 && (pj.grid_pos.1
                    < pi.grid_pos.1 || (pj.grid_pos.1 == pi.grid_pos.1 && j < i)) {
                    count = count + 1;
                }
                j = j + 1;
            }
            rows.push(count as u32);
            i = i + 1;
        }
        let mut started: Vec<u64> = Vec::new();
        let mut i: usize = 0;
        while i < n
            invariant
                n == s.len(),
                self.board == board,
                i <= n,
                rows@.len() == n,
                forall|k: int| 0 <= k < n ==> #[trigger] rows@[k] == landing_row(s, board, k) as u32,
                self.puyos@.len() == n,
                forall|k: int| 0 <= k < i ==> #[trigger] self.puyos@[k] == fallen(s, board)[k],
                forall|k: int| i <= k < n ==> #[trigger] self.puyos@[k] == s[k],
                started@ == moving_upto(s, board, i as nat),
            decreases n - i,
        {
            let (p, e) = self.puyos[i];
            if p.board == board {
                let row = rows[i];
                if p.grid_pos.1 != row {
                    started.push(e);
                }
                let moved = Puyo { grid_pos: (p.grid_pos.0, row), ..p };
                self.puyos.set(i, (moved, e));
            }
            i = i + 1;
        }
        proof {
            assert(self.puyos@ =~= fallen(s, board));
        }
        started
    }
}

// ---------------------------------------------------------------------------
// Board states
// ---------------------------------------------------------------------------

/// What a cartesian board is doing.
#[derive(Clone, Copy, PartialEq, Eq, Structural, Debug)]
pub enum CartesianState {
    Still,
    JustPlaced,
    Physics,
    TransitionToFallOrStill,
    Owanimo,
    /// Owanimo found targets
    Banishing,
}

impl Default for CartesianState {
    fn default() -> (r: CartesianState)
        ensures
            r == CartesianState::Still,
    {
        CartesianState::Still
    }
}

/// The entities that the first `n` handles of `group` name.
pub open spec fn named_entities(group: Seq<Option<u64>>, n: nat) -> Seq<u64>
    decreases n,
{
    if n == 0 {
        Seq::empty()
    } else {
        match group[n - 1] {
            Some(e) => named_entities(group, (n - 1) as nat).push(e),
            None => named_entities(group, (n - 1) as nat),
        }
    }
}

/// The entities that the handles of the first `n` groups name, group by group.
pub open spec fn grouped_upto(groups: Seq<Vec<Option<u64>>>, n: nat) -> Seq<u64>
    decreases n,
{
    if n == 0 {
        Seq::empty()
    } else {
        grouped_upto(groups, (n - 1) as nat) + named_entities(groups[n - 1]@, groups[n - 1]@.len())
    }
}

proof fn lemma_named_entities(group: Seq<Option<u64>>, n: nat)
    requires
        n <= group.len(),
    ensures
        forall|k: int|
            0 <= k < n && (#[trigger] group[k]) is Some ==> named_entities(group, n).contains(
                group[k]->0,
            ),
        forall|i: int|
            0 <= i < named_entities(group, n).len() ==> exists|k: int|
                0 <= k < n && group[k] == Some(#[trigger] named_entities(group, n)[i]),
    decreases n,
{
    if n > 0 {
        lemma_named_entities(group, (n - 1) as nat);
        let prev = named_entities(group, (n - 1) as nat);
        let cur = named_entities(group, n);
        assert forall|k: int| 0 <= k < n && (#[trigger] group[k]) is Some implies cur.contains(
            group[k]->0,
        ) by {
            let e = group[k]->0;
            if k < n - 1 {
                assert(prev.contains(e));
                let i = choose|i: int| 0 <= i < prev.len() && prev[i] == e;
                if let Some(x) = group[n - 1] {
                    assert(cur == prev.push(x));
                    assert(cur[i] == e);
                } else {
                    assert(cur == prev);
                }
            } else {
                assert(cur == prev.push(e));
                assert(cur[prev.len() as int] == e);
            }
        }
        assert forall|i: int| 0 <= i < cur.len() implies exists|k: int|
            0 <= k < n && group[k] == Some(#[trigger] cur[i]) by {
            if let Some(x) = group[n - 1] {
                assert(cur == prev.push(x));
                if i < prev.len() {
                    assert(cur[i] == prev[i]);
                    let k = choose|k: int| 0 <= k < n - 1 && #[trigger] group[k] == Some(prev[i]);
                    assert(group[k] == Some(cur[i]));
                } else {
                    assert(group[n - 1] == Some(cur[i]));
                }
            } else {
                assert(cur == prev);
                let k = choose|k: int| 0 <= k < n - 1 && #[trigger] group[k] == Some(prev[i]);
                assert(group[k] == Some(cur[i]));
            }
        }
    }
}

/// Casting pops exactly what the groups name: every entity a handle of a
/// group names starts popping, and nothing else does.
pub proof fn lemma_cast_pops_the_groups(groups: Seq<Vec<Option<u64>>>, n: nat)
    requires
        n <= groups.len(),
    ensures
        forall|g: int, k: int|
            0 <= g < n && 0 <= k < groups[g]@.len() && (#[trigger] groups[g]@[k]) is Some
                ==> grouped_upto(groups, n).contains(groups[g]@[k]->0),
        forall|i: int|
            0 <= i < grouped_upto(groups, n).len() ==> exists|g: int, k: int|
                0 <= g < n && 0 <= k < groups[g]@.len() && groups[g]@[k] == Some(
                    #[trigger] grouped_upto(groups, n)[i],
                ),
    decreases n,
{
    if n > 0 {
        lemma_cast_pops_the_groups(groups, (n - 1) as nat);
        let prev = grouped_upto(groups, (n - 1) as nat);
        let last = named_entities(groups[n - 1]@, groups[n - 1]@.len());
        lemma_named_entities(groups[n - 1]@, groups[n - 1]@.len());
        let cur = grouped_upto(groups, n);
        assert(cur == prev + last);
        assert forall|g: int, k: int|
            0 <= g < n && 0 <= k < groups[g]@.len() && (#[trigger] groups[g]@[k]) is Some implies cur.contains(
            groups[g]@[k]->0,
        ) by {
            let e = groups[g]@[k]->0;
            if g < n - 1 {
                assert(prev.contains(e));
                let i = choose|i: int| 0 <= i < prev.len() && prev[i] == e;
                assert(cur[i] == e);
            } else {
                assert(last.contains(e));
                let i = choose|i: int| 0 <= i < last.len() && last[i] == e;
                assert(cur[prev.len() + i] == e);
            }
        }
        assert forall|i: int| 0 <= i < cur.len() implies exists|g: int, k: int|
            0 <= g < n && 0 <= k < groups[g]@.len() && groups[g]@[k] == Some(#[trigger] cur[i]) by {
            if i < prev.len() {
                assert(cur[i] == prev[i]);
                let (g, k) = choose|g: int, k: int|
                    0 <= g < n - 1 && 0 <= k < groups[g]@.len() && #[trigger] groups[g]@[k] == Some(prev[i]);
                assert(groups[g]@[k] == Some(cur[i]));
            } else {
                assert(cur[i] == last[i - prev.len()]);
                let k = choose|k: int|
                    0 <= k < groups[n - 1]@.len() && #[trigger] groups[n - 1]@[k] == Some(last[i - prev.len()]);
                assert(groups[n - 1]@[k] == Some(cur[i]));
            }
        }
    }
}

/// What casting owanimo does to a cartesian board in `state`, given the groups
/// it found: a board that is not casting stays as it is; with no groups it
/// comes to rest; otherwise it starts banishing, and every entity the groups
/// name starts popping (returned in group order).
pub fn owanimo_cart(state: CartesianState, groups: &Vec<Vec<Option<u64>>>) -> (r: (
    CartesianState,
    Vec<u64>,
))
    ensures
        state != CartesianState::Owanimo ==> r.0 == state && r.1@.len() == 0,
        state == CartesianState::Owanimo && groups@.len() == 0 ==> r.0 == CartesianState::Still
            && r.1@.len() == 0,
        state == CartesianState::Owanimo && groups@.len() > 0 ==> r.0 == CartesianState::Banishing
            && r.1@ == grouped_upto(groups@, groups@.len()),
{
    if state != CartesianState::Owanimo {
        return (state, Vec::new());
    }
    if groups.len() == 0 {
        return (CartesianState::Still, Vec::new());
    }
    let mut popping: Vec<u64> = Vec::new();
    let mut g: usize = 0;
    while g < groups.len()
        invariant
            g <= groups@.len(),
            popping@ == grouped_upto(groups@, g as nat),
        decreases groups@.len() - g,
    {
        let group = &groups[g];
        let ghost before = popping@;
        let mut k: usize = 0;
        while k < group.len()
            invariant
                g < groups@.len(),
                group@ == groups@[g as int]@,
                k <= group@.len(),
                popping@ == before + named_entities(group@, k as nat),
            decreases group@.len() - k,
        {
            match group[k] {
                Some(e) => {
                    popping.push(e);
                },
                None => {},
            }
            k = k + 1;
            assert(popping@ =~= before + named_entities(group@, k as nat));
        }
        g = g + 1;
        assert(popping@ =~= grouped_upto(groups@, g as nat));
    }
    (CartesianState::Banishing, popping)
}

/// The puyos that the first `n` rolls of column `x` place: one of the kind of
/// each roll that gives a kind, at its row.
pub open spec fn rolled_column(rolls: Seq<u32>, x: usize, n: nat) -> Seq<(PuyoType, (usize, usize))>
    decreases n,
{
    if n == 0 {
        Seq::empty()
    } else {
        match spec_kind_of_roll(rolls[n - 1]) {
            Some(k) => rolled_column(rolls, x, (n - 1) as nat).push((k, (x, (n - 1) as usize))),
            None => rolled_column(rolls, x, (n - 1) as nat),
        }
    }
}

/// The puyos that the rolls of the first `n` columns place, column by column.
pub open spec fn rolled_upto(rolls: Seq<Vec<u32>>, n: nat) -> Seq<(PuyoType, (usize, usize))>
    decreases n,
{
    if n == 0 {
        Seq::empty()
    } else {
        rolled_upto(rolls, (n - 1) as nat) + rolled_column(
            rolls[n - 1]@,
            (n - 1) as usize,
            rolls[n - 1]@.len(),
        )
    }
}

proof fn lemma_rolled_column(rolls: Seq<u32>, x: usize, n: nat)
    requires
        n <= rolls.len(),
        n <= usize::MAX + 1,
    ensures
        forall|y: int|
            0 <= y < n && rolls[y] < 6 ==> #[trigger] rolled_column(rolls, x, n).contains(
                (spec_kind_of_roll(rolls[y])->0, (x, y as usize)),
            ),
        forall|i: int|
            0 <= i < rolled_column(rolls, x, n).len() ==> {
                let e = #[trigger] rolled_column(rolls, x, n)[i];
                &&& e.1.0 == x
                &&& e.1.1 < n
                &&& rolls[e.1.1 as int] < 6
                &&& spec_kind_of_roll(rolls[e.1.1 as int]) == Some(e.0)
            },
    decreases n,
{
    if n > 0 {
        lemma_rolled_column(rolls, x, (n - 1) as nat);
        let prev = rolled_column(rolls, x, (n - 1) as nat);
        let cur = rolled_column(rolls, x, n);
        let y0 = n - 1;
        if let Some(k) = spec_kind_of_roll(rolls[y0]) {
            assert(cur == prev.push((k, (x, y0 as usize))));
        } else {
            assert(cur == prev);
        }
        assert forall|y: int| 0 <= y < n && rolls[y] < 6 implies #[trigger] cur.contains(
            (spec_kind_of_roll(rolls[y])->0, (x, y as usize)),
        ) by {
            let e = (spec_kind_of_roll(rolls[y])->0, (x, y as usize));
            if y < y0 {
                assert(prev.contains(e));
                let i = choose|i: int| 0 <= i < prev.len() && prev[i] == e;
                assert(cur[i] == e);
            } else {
                assert(cur[prev.len() as int] == e);
            }
        }
        assert forall|i: int| 0 <= i < cur.len() implies {
            let e = #[trigger] cur[i];
            &&& e.1.0 == x
            &&& e.1.1 < n
            &&& rolls[e.1.1 as int] < 6
            &&& spec_kind_of_roll(rolls[e.1.1 as int]) == Some(e.0)
        } by {
            if i < prev.len() {
                assert(cur[i] == prev[i]);
            }
        }
    }
}

/// Filling at random places a puyo on exactly the cells whose roll gives a
/// kind, of that kind: every such cell appears, and every puyo placed lies on a
/// rolled cell whose roll gives its kind.
pub proof fn lemma_randomise_places_every_kind_roll(rolls: Seq<Vec<u32>>, n: nat)
    requires
        n <= rolls.len(),
        n <= usize::MAX + 1,
        forall|x: int| 0 <= x < rolls.len() ==> #[trigger] rolls[x]@.len() <= usize::MAX + 1,
    ensures
        forall|x: int, y: int|
            0 <= x < n && 0 <= y < rolls[x]@.len() && rolls[x]@[y] < 6
                ==> #[trigger] rolled_upto(rolls, n).contains(
                (spec_kind_of_roll(rolls[x]@[y])->0, (x as usize, y as usize)),
            ),
        forall|i: int|
            0 <= i < rolled_upto(rolls, n).len() ==> {
                let e = #[trigger] rolled_upto(rolls, n)[i];
                &&& e.1.0 < n
                &&& e.1.1 < rolls[e.1.0 as int]@.len()
                &&& spec_kind_of_roll(rolls[e.1.0 as int]@[e.1.1 as int]) == Some(e.0)
            },
    decreases n,
{
    if n > 0 {
        let x0 = n - 1;
        lemma_randomise_places_every_kind_roll(rolls, x0 as nat);
        lemma_rolled_column(rolls[x0]@, x0 as usize, rolls[x0]@.len());
        let prev = rolled_upto(rolls, x0 as nat);
        let col = rolled_column(rolls[x0]@, x0 as usize, rolls[x0]@.len());
        let cur = rolled_upto(rolls, n);
        assert(cur == prev + col);
        assert forall|x: int, y: int|
            0 <= x < n && 0 <= y < rolls[x]@.len() && rolls[x]@[y] < 6 implies #[trigger] cur.contains(
            (spec_kind_of_roll(rolls[x]@[y])->0, (x as usize, y as usize)),
        ) by {
            let e = (spec_kind_of_roll(rolls[x]@[y])->0, (x as usize, y as usize));
            if x < x0 {
                assert(prev.contains(e));
                let i = choose|i: int| 0 <= i < prev.len() && prev[i] == e;
                assert(cur[i] == e);
            } else {
                assert(col.contains(e));
                let i = choose|i: int| 0 <= i < col.len() && col[i] == e;
                assert(cur[prev.len() + i] == e);
            }
        }
        assert forall|i: int| 0 <= i < cur.len() implies {
            let e = #[trigger] cur[i];
            &&& e.1.0 < n
            &&& e.1.1 < rolls[e.1.0 as int]@.len()
            &&& spec_kind_of_roll(rolls[e.1.0 as int]@[e.1.1 as int]) == Some(e.0)
        } by {
            if i < prev.len() {
                assert(cur[i] == prev[i]);
            } else {
                assert(cur[i] == col[i - prev.len()]);
            }
        }
    }
}

/// Fills a cartesian board at random from one die roll per cell (`rolls[x][y]`
/// for column `x`, row `y`): every roll that gives a kind places a puyo of that
/// kind on its cell; the others leave the cell empty. Returns the puyos column
/// by column, each from row `0` up.
pub fn randomise_cart(rolls: &Vec<Vec<u32>>) -> (r: Vec<(PuyoType, (usize, usize))>)
    ensures
        r@ == rolled_upto(rolls@, rolls@.len()),
{
    let mut out: Vec<(PuyoType, (usize, usize))> = Vec::new();
    let mut x: usize = 0;
    while x < rolls.len()
        invariant
            x <= rolls@.len(),
            out@ == rolled_upto(rolls@, x as nat),
        decreases rolls@.len() - x,
    {
        let column = &rolls[x];
        let ghost before = out@;
        let mut y: usize = 0;
        while y < column.len()
            invariant
                x < rolls@.len(),
                column@ == rolls@[x as int]@,
                y <= column@.len(),
                out@ == before + rolled_column(column@, x, y as nat),
            decreases column@.len() - y,
        {
            match kind_of_roll(column[y]) {
                Some(kind) => {
                    out.push((kind, (x, y)));
                },
                None => {},
            }
            y = y + 1;
            assert(out@ =~= before + rolled_column(column@, x, y as nat));
        }
        x = x + 1;
        assert(out@ =~= rolled_upto(rolls@, x as nat));
    }
    out
}

} // verus!
