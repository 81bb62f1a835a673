use vstd::prelude::*;

use crate::board::{SBoard, SPuyo};
use crate::puyo_chara::{spec_is_nuisance, PuyoType};

verus! {

/// The cells of the first `n` columns, column by column, each from row `0` up.
pub open spec fn tiles_upto(cols: Seq<Seq<SPuyo>>, n: nat) -> Seq<(usize, usize)>
    decreases n,
{
    if n == 0 {
        Seq::empty()
    } else {
        tiles_upto(cols, (n - 1) as nat) + Seq::new(
            cols[n - 1].len(),
            |r: int| ((n - 1) as usize, r as usize),
        )
    }
}

/// The index before `i` as the neighbour search reckons it, turning `i` into an
/// `isize`: none before `0`, and none for an index past `isize::MAX`, which
/// reads as negative.
pub open spec fn index_before(i: usize) -> Option<usize> {
    if 0 < i <= isize::MAX {
        Some((i - 1) as usize)
    } else {
        None
    }
}

/// The index after `i` as the neighbour search reckons it, turning `i` into an
/// `isize`: an index past `isize::MAX` reads as negative, so of those only
/// `usize::MAX`, read as `-1`, has one, `0`.
pub open spec fn index_after(i: usize) -> Option<usize> {
    if i < isize::MAX {
        Some((i + 1) as usize)
    } else if i == usize::MAX {
        Some(0)
    } else {
        None
    }
}

/// The cell left of `h`.
pub open spec fn left_cell(h: (usize, usize)) -> Option<(usize, usize)> {
    match index_before(h.0) {
        Some(x) => Some((x, h.1)),
        None => None,
    }
}

/// The cell right of `h`.
pub open spec fn right_cell(h: (usize, usize)) -> Option<(usize, usize)> {
    match index_after(h.0) {
        Some(x) => Some((x, h.1)),
        None => None,
    }
}

/// The cell below `h`.
pub open spec fn below_cell(h: (usize, usize)) -> Option<(usize, usize)> {
    match index_before(h.1) {
        Some(y) => Some((h.0, y)),
        None => None,
    }
}

/// The cell above `h`.
pub open spec fn above_cell(h: (usize, usize)) -> Option<(usize, usize)> {
    match index_after(h.1) {
        Some(y) => Some((h.0, y)),
        None => None,
    }
}

impl SBoard {
    /// All cells that hold a puyo, column by column, each from row `0` up.
    pub open spec fn spec_tiles(&self) -> Seq<(usize, usize)> {
        tiles_upto(self.cols(), self.cols().len())
    }

    /// Two puyos connect into a group when both are coloured and of one colour.
    pub open spec fn spec_connects(&self, a: (usize, usize), b: (usize, usize)) -> bool {
        &&& self.has(a)
        &&& self.has(b)
        &&& !spec_is_nuisance(self.spec_at(a)->0.kind)
        &&& !spec_is_nuisance(self.spec_at(b)->0.kind)
        &&& self.spec_at(a)->0.kind == self.spec_at(b)->0.kind
    }

    /// Whether the puyo at `h` is a nuisance puyo.
    pub open spec fn spec_nuisance(&self, h: (usize, usize)) -> bool {
        self.has(h) && spec_is_nuisance(self.spec_at(h)->0.kind)
    }

    /// The colour of the puyo at `h`; none for an empty cell or a nuisance puyo.
    pub open spec fn spec_color(&self, h: (usize, usize)) -> Option<PuyoType> {
        if self.has(h) && !spec_is_nuisance(self.spec_at(h)->0.kind) {
            Some(self.spec_at(h)->0.kind)
        } else {
            None
        }
    }

    /// `c`, as a sequence of at most one cell, if it holds a puyo.
    pub open spec fn keep_cell(&self, c: Option<(usize, usize)>) -> Seq<(usize, usize)> {
        match c {
            Some(h) => if self.has(h) {
                seq![h]
            } else {
                Seq::empty()
            },
            None => Seq::empty(),
        }
    }

    /// The occupied cells left of, right of, below and above `h`, in that order,
    /// with indices reckoned as `isize` (see `index_before` and `index_after`).
    pub open spec fn spec_neighbors(&self, h: (usize, usize)) -> Seq<(usize, usize)> {
        self.keep_cell(left_cell(h)) + self.keep_cell(right_cell(h)) + self.keep_cell(
            below_cell(h),
        ) + self.keep_cell(above_cell(h))
    }

    /// All cells that hold a puyo, column by column, each from row `0` up.
    pub fn tiles(&self) -> (r: Vec<(usize, usize)>)
        ensures
            r@ == self.spec_tiles(),
    {
        let mut r: Vec<(usize, usize)> = Vec::new();
        let mut col_n: usize = 0;
        while col_n < self.columns.len()
            invariant
                col_n <= self.columns.len(),
                r@ == tiles_upto(self.cols(), col_n as nat),
            decreases self.columns.len() - col_n,
        {
            let len = self.columns[col_n].len();
            let ghost before = r@;
            let mut row_n: usize = 0;
            while row_n < len
                invariant
                    col_n < self.columns.len(),
                    len == self.cols()[col_n as int].len(),
                    row_n <= len,
                    r@ == before + Seq::new(row_n as nat, |k: int| (col_n, k as usize)),
                decreases len - row_n,
            {
                r.push((col_n, row_n));
                row_n = row_n + 1;
                assert(r@ =~= before + Seq::new(row_n as nat, |k: int| (col_n, k as usize)));
            }
            col_n = col_n + 1;
            assert(r@ =~= tiles_upto(self.cols(), col_n as nat));
        }
        r
    }

    /// Whether the puyos at `a` and `b` are coloured and of one colour.
    pub fn connects(&self, a: &(usize, usize), b: &(usize, usize)) -> (r: bool)
        ensures
            r == self.spec_connects(*a, *b),
    {
        match (self.get_at(*a), self.get_at(*b)) {
            (Some(pa), Some(pb)) => {
                if pa.kind.is_nuisance() || pb.kind.is_nuisance() {
                    false
                } else {
                    pa.kind == pb.kind
                }
            },
            _ => false,
        }
    }

    /// The occupied cells left of, right of, below and above `handle`, in that
    /// order. Indices are reckoned as `isize`: an index past `isize::MAX` reads as
    /// negative, and stepping past `isize::MAX` either way would overflow.
    pub fn neighbors(&self, handle: &(usize, usize)) -> (r: Vec<(usize, usize)>)
        requires
            handle.0 != isize::MAX,
            handle.0 != isize::MAX + 1,
            handle.1 != isize::MAX,
            handle.1 != isize::MAX + 1,
        ensures
            r@ == self.spec_neighbors(*handle),
    {
        let (x, y) = *handle;
        let imax = isize::MAX as usize;
        let mut r: Vec<(usize, usize)> = Vec::new();
        if x > 0 && x <= imax && self.get_at((x - 1, y)).is_some() {
            r.push((x - 1, y));
        }
        let ghost after_left = r@;
        if x < imax {
            if self.get_at((x + 1, y)).is_some() {
                r.push((x + 1, y));
            }
        } else if x == usize::MAX {
            if self.get_at((0, y)).is_some() {
                r.push((0, y));
            }
        }
        let ghost after_right = r@;
        if y > 0 && y <= imax && self.get_at((x, y - 1)).is_some() {
            r.push((x, y - 1));
        }
        let ghost after_down = r@;
        if y < imax {
            if self.get_at((x, y + 1)).is_some() {
                r.push((x, y + 1));
            }
        } else if y == usize::MAX {
            if self.get_at((x, 0)).is_some() {
                r.push((x, 0));
            }
        }
        proof {
            assert(after_left =~= self.keep_cell(left_cell(*handle)));
            assert(after_right =~= after_left + self.keep_cell(right_cell(*handle)));
            assert(after_down =~= after_right + self.keep_cell(below_cell(*handle)));
            assert(r@ =~= after_down + self.keep_cell(above_cell(*handle)));
        }
        r
    }

    /// Whether the puyo at `handle` is a nuisance puyo.
    pub fn nuisance(&self, handle: &(usize, usize)) -> (r: bool)
        ensures
            r == self.spec_nuisance(*handle),
    {
        match self.get_at(*handle) {
            Some(p) => p.kind.is_nuisance(),
            None => false,
        }
    }

    /// The colour of the puyo at `handle`; none for an empty cell or a nuisance puyo.
    pub fn color(&self, handle: &(usize, usize)) -> (r: Option<PuyoType>)
        ensures
            r == self.spec_color(*handle),
    {
        match self.get_at(*handle) {
            Some(p) => if p.kind.is_nuisance() {
                None
            } else {
                Some(p.kind)
            },
            None => None,
        }
    }
}

/// Cells of the first `n` columns are listed in `tiles_upto` exactly when they
/// hold a puyo, and each of them once.
proof fn lemma_tiles_upto(cols: Seq<Seq<SPuyo>>, n: nat)
    requires
        n <= cols.len(),
        cols.len() <= usize::MAX,
        forall|c: int| 0 <= c < cols.len() ==> #[trigger] cols[c].len() <= usize::MAX,
    ensures
        forall|h: (usize, usize)|
            tiles_upto(cols, n).contains(h) <==> (h.0 < n && h.1 < cols[h.0 as int].len()),
        tiles_upto(cols, n).no_duplicates(),
        forall|i: int| 0 <= i < tiles_upto(cols, n).len() ==> (#[trigger] tiles_upto(cols, n)[i]).0 < n,
    decreases n,
{
    if n > 0 {
        lemma_tiles_upto(cols, (n - 1) as nat);
        let prev = tiles_upto(cols, (n - 1) as nat);
        let last = Seq::new(cols[n - 1].len(), |r: int| ((n - 1) as usize, r as usize));
        let t = tiles_upto(cols, n);
        assert(t == prev + last);
        assert forall|h: (usize, usize)| t.contains(h) implies (h.0 < n && h.1 < cols[h.0 as int].len()) by {
            let i = choose|i: int| 0 <= i < t.len() && t[i] == h;
            if i < prev.len() {
                assert(prev[i] == h);
                assert(prev.contains(h));
            } else {
                assert(last[i - prev.len()] == h);
            }
        }
        assert forall|h: (usize, usize)| (h.0 < n && h.1 < cols[h.0 as int].len()) implies t.contains(h) by {
            if h.0 < n - 1 {
                assert(prev.contains(h));
                let i = choose|i: int| 0 <= i < prev.len() && prev[i] == h;
                assert(t[i] == h);
            } else {
                let k = prev.len() + h.1 as int;
                assert(last[h.1 as int] == h);
                assert(t[k] == h);
            }
        }
        assert forall|i: int| 0 <= i < t.len() implies (#[trigger] t[i]).0 < n by {
            if i < prev.len() {
                assert(prev[i].0 < n - 1);
            }
        }
        assert forall|i: int, j: int|
            0 <= i < t.len() && 0 <= j < t.len() && i != j implies t[i] != t[j] by {
            if i < prev.len() && j < prev.len() {
                assert(prev[i] == t[i] && prev[j] == t[j]);
            } else if i < prev.len() && j >= prev.len() {
                assert(prev[i].0 < n - 1);
            } else if j < prev.len() && i >= prev.len() {
                assert(prev[j].0 < n - 1);
            } else {
                assert(last[i - prev.len()] == t[i] && last[j - prev.len()] == t[j]);
                assert(cols[n - 1].len() <= usize::MAX);
            }
        }
    }
}

/// The tiles of a board are exactly the cells that hold a puyo, each listed once.
pub proof fn lemma_tiles_are_the_puyos(board: &SBoard, h: (usize, usize))
    ensures
        board.spec_tiles().contains(h) <==> board.has(h),
        board.spec_tiles().no_duplicates(),
{
    assert forall|c: int| 0 <= c < board.cols().len() implies #[trigger] board.cols()[c].len()
        <= usize::MAX by {
        assert(board.cols()[c].len() == board.columns@[c].len());
    }
    assert(board.cols().len() == board.columns.len());
    lemma_tiles_upto(board.cols(), board.cols().len());
}

/// Connection goes both ways.
pub proof fn lemma_connects_symmetric(board: &SBoard, a: (usize, usize), b: (usize, usize))
    ensures
        board.spec_connects(a, b) == board.spec_connects(b, a),
{
}

/// Connected puyos share one colour.
pub proof fn lemma_connected_share_color(board: &SBoard, a: (usize, usize), b: (usize, usize))
    requires
        board.spec_connects(a, b),
    ensures
        board.spec_color(a) is Some,
        board.spec_color(a) == board.spec_color(b),
{
}

/// Two coloured puyos of one colour always connect, and a coloured puyo shows
/// its own kind as its colour.
pub proof fn lemma_same_colour_connects(board: &SBoard, a: (usize, usize), b: (usize, usize))
    requires
        board.has(a),
        board.has(b),
        !spec_is_nuisance(board.spec_at(a)->0.kind),
        board.spec_at(a)->0.kind == board.spec_at(b)->0.kind,
    ensures
        board.spec_connects(a, b),
        board.spec_connects(b, a),
        board.spec_color(a) == Some(board.spec_at(a)->0.kind),
{
}

/// Puyos of different kinds never connect.
pub proof fn lemma_different_kinds_apart(board: &SBoard, a: (usize, usize), b: (usize, usize))
    requires
        board.has(a),
        board.has(b),
        board.spec_at(a)->0.kind != board.spec_at(b)->0.kind,
    ensures
        !board.spec_connects(a, b),
{
}

/// A nuisance puyo has no colour and connects to nothing.
pub proof fn lemma_nuisance_connects_nothing(
    board: &SBoard,
    a: (usize, usize),
    b: (usize, usize),
)
    requires
        board.spec_nuisance(a),
    ensures
        board.spec_color(a) is None,
        !board.spec_connects(a, b),
        !board.spec_connects(b, a),
{
}

/// `c` is a neighbour of `h` exactly when it holds a puyo and lies left of,
/// right of, below or above `h`.
pub proof fn lemma_neighbors_contains(board: &SBoard, h: (usize, usize), c: (usize, usize))
    ensures
        board.spec_neighbors(h).contains(c) <==> board.has(c) && (left_cell(h) == Some(c)
            || right_cell(h) == Some(c) || below_cell(h) == Some(c) || above_cell(h) == Some(c)),
{
    let kl = board.keep_cell(left_cell(h));
    let kr = board.keep_cell(right_cell(h));
    let kd = board.keep_cell(below_cell(h));
    let ku = board.keep_cell(above_cell(h));
    let all = kl + kr + kd + ku;
    assert(board.spec_neighbors(h) == all);
    if all.contains(c) {
        let i = choose|i: int| 0 <= i < all.len() && all[i] == c;
        if i < kl.len() {
            assert(kl[i] == c);
        } else if i < kl.len() + kr.len() {
            assert(kr[i - kl.len()] == c);
        } else if i < kl.len() + kr.len() + kd.len() {
            assert(kd[i - kl.len() - kr.len()] == c);
        } else {
            assert(ku[i - kl.len() - kr.len() - kd.len()] == c);
        }
    }
    if board.has(c) {
        if left_cell(h) == Some(c) {
            assert(all[0] == c);
        } else if right_cell(h) == Some(c) {
            assert(all[kl.len() as int] == c);
        } else if below_cell(h) == Some(c) {
            assert(all[(kl.len() + kr.len()) as int] == c);
        } else if above_cell(h) == Some(c) {
            assert(all[(kl.len() + kr.len() + kd.len()) as int] == c);
        }
    }
}

/// Neighbourhood goes both ways: when `b` is a neighbour of the puyo at `a`,
/// then `a` is a neighbour of `b`.
pub proof fn lemma_neighbors_symmetric(board: &SBoard, a: (usize, usize), b: (usize, usize))
    requires
        board.has(a),
        board.spec_neighbors(a).contains(b),
    ensures
        board.spec_neighbors(b).contains(a),
{
    assert(board.cols().len() == board.columns.len());
    assert(board.cols()[a.0 as int].len() == board.columns@[a.0 as int].len());
    lemma_neighbors_contains(board, a, b);
    lemma_neighbors_contains(board, b, a);
}

/// Every neighbour holds a puyo.
pub proof fn lemma_neighbors_are_puyos(board: &SBoard, a: (usize, usize), b: (usize, usize))
    requires
        board.spec_neighbors(a).contains(b),
    ensures
        board.has(b),
{
    lemma_neighbors_contains(board, a, b);
}

} // verus!
