use vstd::prelude::*;

use super::{NextUp, WhyImpossible};
use crate::board::{spec_falling, SBState, SBoard, SPState, SPuyo};

verus! {

/// Whether some puyo of `col` is being banished.
pub open spec fn any_banishing(col: Seq<SPuyo>) -> bool {
    exists|i: int| 0 <= i < col.len() && (#[trigger] col[i]).state is Banish
}

/// Whether some puyo of the board falls or jiggles.
pub open spec fn any_moving(cols: Seq<Seq<SPuyo>>) -> bool {
    exists|c: int, r: int|
        0 <= c < cols.len() && 0 <= r < cols[c].len() && (#[trigger] cols[c][r]).state is Physics
}

/// Whether some puyo of some column is being banished.
pub open spec fn any_banishing_anywhere(cols: Seq<Seq<SPuyo>>) -> bool {
    exists|c: int| 0 <= c < cols.len() && any_banishing(#[trigger] cols[c])
}

/// `col` once its banished puyos are gone: the others keep their order, and
/// every resting puyo that stood above a banished one starts to fall.
pub open spec fn banished_column(col: Seq<SPuyo>) -> Seq<SPuyo>
    decreases col.len(),
{
    if col.len() == 0 {
        Seq::empty()
    } else {
        let rest = banished_column(col.drop_last());
        let p = col.last();
        if p.state is Banish {
            rest
        } else if p.state is Still && any_banishing(col.drop_last()) {
            rest.push(SPuyo { state: spec_falling(), ..p })
        } else {
            rest.push(p)
        }
    }
}

/// The entities of the banished puyos of `col`, from the bottom up.
pub open spec fn banished_entities(col: Seq<SPuyo>) -> Seq<u64>
    decreases col.len(),
{
    if col.len() == 0 {
        Seq::empty()
    } else if col.last().state is Banish {
        banished_entities(col.drop_last()).push(col.last().entity)
    } else {
        banished_entities(col.drop_last())
    }
}

/// The entities of the banished puyos of the first `n` columns, column by column.
pub open spec fn banished_entities_upto(cols: Seq<Seq<SPuyo>>, n: nat) -> Seq<u64>
    decreases n,
{
    if n == 0 {
        Seq::empty()
    } else {
        banished_entities_upto(cols, (n - 1) as nat) + banished_entities(cols[n - 1])
    }
}

pub(crate) proof fn lemma_any_banishing_push(col: Seq<SPuyo>, p: SPuyo)
    ensures
        any_banishing(col.push(p)) == (any_banishing(col) || p.state is Banish),
{
    let s = col.push(p);
    if any_banishing(col) {
        let i = choose|i: int| 0 <= i < col.len() && (#[trigger] col[i]).state is Banish;
        assert(s[i] == col[i]);
    }
    if p.state is Banish {
        assert(s[col.len() as int] == p);
    }
    if any_banishing(s) {
        let i = choose|i: int| 0 <= i < s.len() && (#[trigger] s[i]).state is Banish;
        if i < col.len() {
            assert(s[i] == col[i]);
        }
    }
}

/// Whether `cell` (column, row) holds the first moving puyo of `cols`: the
/// first in the first column that has one, counted from the bottom.
pub open spec fn first_moving(cols: Seq<Seq<SPuyo>>, k: int, row: int) -> bool {
    &&& 0 <= k < cols.len()
    &&& 0 <= row < cols[k].len()
    &&& cols[k][row].state is Physics
    &&& forall|c: int, j: int|
        0 <= c < k && 0 <= j < cols[c].len() ==> !((#[trigger] cols[c][j]).state is Physics)
    &&& forall|j: int| 0 <= j < row ==> !((#[trigger] cols[k][j]).state is Physics)
}

/// `cols` as banishing leaves them when it stops at the moving puyo at row `row`
/// of column `k`: the columns before `k` banished, column `k` banished below that
/// puyo and untouched from it up, the columns after `k` untouched.
pub open spec fn banished_until(cols: Seq<Seq<SPuyo>>, k: int, row: int) -> Seq<Seq<SPuyo>> {
    Seq::new(
        cols.len(),
        |i: int|
            if i < k {
                banished_column(cols[i])
            } else if i == k {
                banished_column(cols[k].take(row)) + cols[k].skip(row)
            } else {
                cols[i]
            },
    )
}

/// A board with a moving puyo has a first one.
pub proof fn lemma_first_moving_exists(cols: Seq<Seq<SPuyo>>)
    requires
        any_moving(cols),
    ensures
        exists|k: int, row: int| first_moving(cols, k, row),
    decreases cols.len(),
{
    let last = cols.len() - 1;
    let init = cols.drop_last();
    if any_moving(init) {
        lemma_first_moving_exists(init);
        let (k, row) = choose|k: int, row: int| first_moving(init, k, row);
        assert forall|c: int, j: int| 0 <= c < k && 0 <= j < cols[c].len() implies !((
        #[trigger] cols[c][j]).state is Physics) by {
            assert(cols[c] == init[c]);
        }
        assert(cols[k] == init[k]);
        assert(first_moving(cols, k, row));
    } else {
        let (c0, r0) = choose|c: int, r: int|
            0 <= c < cols.len() && 0 <= r < cols[c].len() && (#[trigger] cols[c][r]).state is Physics;
        if c0 < last {
            assert(init[c0][r0] == cols[c0][r0]);
            assert(false);
        }
        assert forall|c: int, j: int| 0 <= c < last && 0 <= j < cols[c].len() implies !((
        #[trigger] cols[c][j]).state is Physics) by {
            assert(init[c][j] == cols[c][j]);
        }
        lemma_first_in_column(cols[last], r0);
        let row = choose|row: int|
            0 <= row < cols[last].len() && cols[last][row].state is Physics && forall|j: int|
                0 <= j < row ==> !((#[trigger] cols[last][j]).state is Physics);
        assert(first_moving(cols, last, row));
    }
}

proof fn lemma_first_in_column(col: Seq<SPuyo>, r0: int)
    requires
        0 <= r0 < col.len(),
        col[r0].state is Physics,
    ensures
        exists|row: int|
            0 <= row < col.len() && col[row].state is Physics && forall|j: int|
                0 <= j < row ==> !((#[trigger] col[j]).state is Physics),
    decreases r0,
{
    if exists|j: int| 0 <= j < r0 && (#[trigger] col[j]).state is Physics {
        let j = choose|j: int| 0 <= j < r0 && (#[trigger] col[j]).state is Physics;
        lemma_first_in_column(col, j);
    } else {
        assert(0 <= r0 < col.len() && col[r0].state is Physics && forall|j: int|
            0 <= j < r0 ==> !((#[trigger] col[j]).state is Physics));
    }
}

/// Whether `p` is moving.
fn is_moving(p: &SPuyo) -> (r: bool)
    ensures
        r == p.state is Physics,
{
    match p.state {
        SPState::Physics(..) => true,
        _ => false,
    }
}

/// Banishes the puyos of one column from the bottom up, stopping at its first
/// moving puyo: returns the column with the banished puyos below that point
/// gone, the entities of those puyos, whether there were any, and the row it
/// stopped at (the column's length when nothing moves).
fn banish_column(col: &Vec<SPuyo>) -> (r: (Vec<SPuyo>, Vec<u64>, bool, usize))
    ensures
        r.3 <= col@.len(),
        forall|i: int| 0 <= i < r.3 ==> !((#[trigger] col@[i]).state is Physics),
        r.3 < col@.len() ==> col@[r.3 as int].state is Physics,
        r.0@ == banished_column(col@.take(r.3 as int)) + col@.skip(r.3 as int),
        r.1@ == banished_entities(col@.take(r.3 as int)),
        r.2 == any_banishing(col@.take(r.3 as int)),
{
    let mut kept: Vec<SPuyo> = Vec::new();
    let mut gone: Vec<u64> = Vec::new();
    let mut falling = false;
    let mut row: usize = 0;
    while row < col.len() && !is_moving(&col[row])
        invariant
            row <= col@.len(),
            forall|i: int| 0 <= i < row ==> !((#[trigger] col@[i]).state is Physics),
            kept@ == banished_column(col@.take(row as int)),
            gone@ == banished_entities(col@.take(row as int)),
            falling == any_banishing(col@.take(row as int)),
        decreases col@.len() - row,
    {
        let p = col[row];
        proof {
            assert(col@.take(row + 1).drop_last() =~= col@.take(row as int));
            assert(col@.take(row + 1).last() == p);
            lemma_any_banishing_push(col@.take(row as int), p);
            assert(col@.take(row + 1) =~= col@.take(row as int).push(p));
        }
        match p.state {
            SPState::Banish(..) => {
                gone.push(p.entity);
                falling = true;
            },
            _ => {
                if falling {
                    kept.push(SPuyo { state: SPState::new_falling(), ..p });
                } else {
                    kept.push(p);
                }
            },
        }
        row = row + 1;
    }
    let stop = row;
    let ghost done = kept@;
    let mut k: usize = stop;
    while k < col.len()
        invariant
            stop <= k <= col@.len(),
            kept@ == done + col@.subrange(stop as int, k as int),
        decreases col@.len() - k,
    {
        kept.push(col[k]);
        k = k + 1;
        assert(kept@ =~= done + col@.subrange(stop as int, k as int));
    }
    assert(col@.subrange(stop as int, col@.len() as int) =~= col@.skip(stop as int));
    (kept, gone, falling, stop)
}

/// The banishing step of a board; `expired` tells whether its banish animation
/// has run out. Until then nothing changes. Then the banished puyos go, the
/// resting puyos above them start to fall, and the physics starts next, or the
/// board comes to rest when nothing was banished; the entities of the banished
/// puyos are returned for despawning. A board that is not banishing is in an
/// impossible state and stays as it is. So is a board that holds a moving puyo
/// when the animation runs out: banishing goes column by column and stops at
/// the first moving puyo, leaving what it has done so far.
pub fn board_banish(board: &mut SBoard, expired: bool) -> (r: (NextUp, Vec<u64>))
    ensures
        !(old(board).state is Banish) ==> r.0 == NextUp::Impossible(
            WhyImpossible::BanishingWhenNotBanishing,
        ) && r.1@.len() == 0 && *final(board) == *old(board),
        old(board).state is Banish && !expired ==> r.0 == NextUp::Continue && r.1@.len() == 0
            && *final(board) == *old(board),
        old(board).state is Banish && expired ==> {
            &&& final(board).score == old(board).score
            &&& final(board).chain == old(board).chain
            &&& final(board).state == old(board).state
        },
        old(board).state is Banish && expired && any_moving(old(board).cols()) ==> {
            &&& r.0 == NextUp::Impossible(WhyImpossible::PuyoPhysicsInBanishUpdate)
            &&& forall|k: int, row: int|
                #[trigger] first_moving(old(board).cols(), k, row) ==> {
                    &&& final(board).cols() == banished_until(old(board).cols(), k, row)
                    &&& r.1@ == banished_entities_upto(old(board).cols(), k as nat)
                        + banished_entities(old(board).cols()[k].take(row))
                }
        },
        old(board).state is Banish && expired && !any_moving(old(board).cols()) ==> {
            &&& final(board).cols() == old(board).cols().map_values(
                |c: Seq<SPuyo>| banished_column(c),
            )
            &&& r.1@ == banished_entities_upto(old(board).cols(), old(board).cols().len())
            &&& r.0 == if any_banishing_anywhere(old(board).cols()) {
                NextUp::StartPhysics
            } else {
                NextUp::Still
            }
        },
{
    if let SBState::Banish { .. } = board.state {
    } else {
        return (NextUp::Impossible(WhyImpossible::BanishingWhenNotBanishing), Vec::new());
    }
    if !expired {
        return (NextUp::Continue, Vec::new());
    }
    let ghost cols0 = board.cols();
    let mut next_up = NextUp::Still;
    let mut despawn: Vec<u64> = Vec::new();
    let mut c: usize = 0;
    while c < board.columns.len()
        invariant
            c <= board.columns@.len(),
            board.columns@.len() == cols0.len(),
            board.score == old(board).score,
            board.chain == old(board).chain,
            board.state == old(board).state,
            old(board).state is Banish,
            expired,
            cols0 == old(board).cols(),
            forall|i: int, j: int|
                0 <= i < c && 0 <= j < cols0[i].len() ==> !((#[trigger] cols0[i][j]).state is Physics),
            forall|i: int| 0 <= i < c ==> #[trigger] board.cols()[i] == banished_column(cols0[i]),
            forall|i: int| c <= i < cols0.len() ==> #[trigger] board.cols()[i] == cols0[i],
            despawn@ == banished_entities_upto(cols0, c as nat),
            (next_up == NextUp::StartPhysics) == (exists|i: int|
                0 <= i < c && any_banishing(#[trigger] cols0[i])),
            next_up == NextUp::StartPhysics || next_up == NextUp::Still,
        decreases board.columns@.len() - c,
    {
        assert(board.cols()[c as int] == cols0[c as int]);
        let (kept, gone, any, stop) = banish_column(&board.columns[c]);
        let ghost before = board.cols();
        let stopped = stop < board.columns[c].len();
        board.columns.set(c, kept);
        proof {
            assert forall|i: int| 0 <= i < c implies #[trigger] board.cols()[i]
                == banished_column(cols0[i]) by {
                assert(board.cols()[i] == before[i]);
            }
            assert forall|i: int| c + 1 <= i < cols0.len() implies #[trigger] board.cols()[i]
                == cols0[i] by {
                assert(board.cols()[i] == before[i]);
            }
            if !stopped {
                assert(cols0[c as int].take(stop as int) =~= cols0[c as int]);
                assert(cols0[c as int].skip(stop as int) =~= Seq::<SPuyo>::empty());
                assert(board.cols()[c as int] =~= banished_column(cols0[c as int]));
            }
        }
        let mut k: usize = 0;
        while k < gone.len()
            invariant
                k <= gone@.len(),
                despawn@ == banished_entities_upto(cols0, c as nat) + gone@.take(k as int),
            decreases gone@.len() - k,
        {
            despawn.push(gone[k]);
            k = k + 1;
            assert(gone@.take(k as int) =~= gone@.take(k - 1).push(gone@[k - 1]));
            assert(despawn@ =~= banished_entities_upto(cols0, c as nat) + gone@.take(k as int));
        }
        assert(gone@.take(gone@.len() as int) =~= gone@);
        if stopped {
            proof {
                let kc = c as int;
                let row = stop as int;
                assert(first_moving(cols0, kc, row));
                assert(any_moving(cols0));
                assert forall|k2: int, row2: int| #[trigger] first_moving(cols0, k2, row2) implies k2
                    == kc && row2 == row by {
                    if k2 < kc {
                        assert(!(cols0[k2][row2].state is Physics));
                    } else if k2 > kc {
                        assert(!(cols0[kc][row].state is Physics));
                    } else if row2 < row {
                        assert(!(cols0[kc][row2].state is Physics));
                    } else if row2 > row {
                        assert(!(cols0[kc][row].state is Physics));
                    }
                }
                assert(board.cols() =~= banished_until(cols0, kc, row));
            }
            return (NextUp::Impossible(WhyImpossible::PuyoPhysicsInBanishUpdate), despawn);
        }
        proof {
            assert(cols0[c as int].take(stop as int) =~= cols0[c as int]);
        }
        if any {
            next_up = NextUp::StartPhysics;
        }
        c = c + 1;
        assert(despawn@ =~= banished_entities_upto(cols0, c as nat));
    }
    proof {
        assert(!any_moving(cols0));
        assert(board.cols() =~= cols0.map_values(|c: Seq<SPuyo>| banished_column(c)));
    }
    (next_up, despawn)
}

/// After banishing, no puyo of the column is being banished; every puyo
/// either stayed, keeping its kind and entity, or was handed out for despawning.
pub proof fn lemma_banished_column(col: Seq<SPuyo>)
    ensures
        !any_banishing(banished_column(col)),
        banished_column(col).len() + banished_entities(col).len() == col.len(),
        banished_column(col).map_values(|p: SPuyo| (p.kind, p.entity)) == col.filter(
            |p: SPuyo| !(p.state is Banish),
        ).map_values(|p: SPuyo| (p.kind, p.entity)),
    decreases col.len(),
{
    reveal_with_fuel(Seq::filter, 1);
    if col.len() > 0 {
        let init = col.drop_last();
        let p = col.last();
        lemma_banished_column(init);
        let rest = banished_column(init);
        assert(col.filter(|p: SPuyo| !(p.state is Banish)) == (if !(p.state is Banish) {
            init.filter(|p: SPuyo| !(p.state is Banish)).push(p)
        } else {
            init.filter(|p: SPuyo| !(p.state is Banish))
        }));
        if !(p.state is Banish) {
            let q = if p.state is Still && any_banishing(init) {
                SPuyo { state: spec_falling(), ..p }
            } else {
                p
            };
            assert(banished_column(col) == rest.push(q));
            lemma_any_banishing_push(rest, q);
            assert(rest.push(q).map_values(|p: SPuyo| (p.kind, p.entity)) =~= rest.map_values(
                |p: SPuyo| (p.kind, p.entity),
            ).push((p.kind, p.entity)));
            assert(init.filter(|p: SPuyo| !(p.state is Banish)).push(p).map_values(
                |p: SPuyo| (p.kind, p.entity),
            ) =~= init.filter(|p: SPuyo| !(p.state is Banish)).map_values(
                |p: SPuyo| (p.kind, p.entity),
            ).push((p.kind, p.entity)));
        }
    }
}

/// A finished banishing leaves no puyo of the board being banished.
pub proof fn lemma_banish_leaves_none(cols: Seq<Seq<SPuyo>>)
    ensures
        !any_banishing_anywhere(cols.map_values(|c: Seq<SPuyo>| banished_column(c))),
{
    let after = cols.map_values(|c: Seq<SPuyo>| banished_column(c));
    assert forall|c: int| 0 <= c < after.len() implies !any_banishing(#[trigger] after[c]) by {
        lemma_banished_column(cols[c]);
    }
}

} // verus!
