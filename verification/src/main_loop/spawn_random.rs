use rand::Rng;
use vstd::prelude::*;

use super::NextUp;
use crate::board::{spec_falling, spec_still, SBoard, SPState, SPuyo};
use crate::puyo_chara::{spec_is_nuisance, PuyoType};

verus! {

/// The entities of all puyos of the first `n` columns, column by column.
pub open spec fn entities_upto(cols: Seq<Seq<SPuyo>>, n: nat) -> Seq<u64>
    decreases n,
{
    if n == 0 {
        Seq::empty()
    } else {
        entities_upto(cols, (n - 1) as nat) + cols[n - 1].map_values(|p: SPuyo| p.entity)
    }
}

/// How many rows of puyos a still board is filled with.
pub const SPAWN_ROWS: usize = 24;

/// A puyo to place in a column: the row it appears at, its kind, and whether
/// it starts out falling (because a gap lies below it).
#[derive(Clone, Copy, PartialEq, Eq, Structural, Debug)]
pub struct SpawnSlot {
    pub row: usize,
    pub kind: PuyoType,
    pub falling: bool,
}

/// The kind a die roll gives; rolls of `6` and more leave a gap.
pub open spec fn spec_kind_of_roll(roll: u32) -> Option<PuyoType> {
    if roll == 0 {
        Some(PuyoType::Nuisance)
    } else if roll == 1 {
        Some(PuyoType::Red)
    } else if roll == 2 {
        Some(PuyoType::Green)
    } else if roll == 3 {
        Some(PuyoType::Blue)
    } else if roll == 4 {
        Some(PuyoType::Yellow)
    } else if roll == 5 {
        Some(PuyoType::Purple)
    } else {
        None
    }
}

/// Whether one of the first `n` rolls left a gap.
pub open spec fn gap_below(rolls: Seq<u32>, n: int) -> bool {
    exists|k: int| 0 <= k < n && spec_kind_of_roll(#[trigger] rolls[k]) is None
}

/// The puyos that the first `n` rolls of a column place, from the bottom up.
pub open spec fn spawn_plan_upto(rolls: Seq<u32>, n: nat) -> Seq<SpawnSlot>
    decreases n,
{
    if n == 0 {
        Seq::empty()
    } else {
        let y = n - 1;
        match spec_kind_of_roll(rolls[y]) {
            Some(kind) => spawn_plan_upto(rolls, y as nat).push(
                SpawnSlot { row: y as usize, kind, falling: gap_below(rolls, y) },
            ),
            None => spawn_plan_upto(rolls, y as nat),
        }
    }
}

/// The plan of a column places its puyos on distinct rows, from the bottom up,
/// each on a row that was rolled; once one puyo falls, every puyo above it falls
/// too; and no plan places a quarter of a big nuisance puyo.
pub proof fn lemma_spawn_plan_shape(rolls: Seq<u32>, n: nat)
    requires
        n <= rolls.len(),
        n <= usize::MAX,
    ensures
        forall|i: int, j: int|
            0 <= i < j < spawn_plan_upto(rolls, n).len() ==> #[trigger] spawn_plan_upto(rolls, n)[i].row
                < #[trigger] spawn_plan_upto(rolls, n)[j].row && (spawn_plan_upto(rolls, n)[i].falling
                ==> spawn_plan_upto(rolls, n)[j].falling),
        forall|i: int|
            0 <= i < spawn_plan_upto(rolls, n).len() ==> {
                let slot = #[trigger] spawn_plan_upto(rolls, n)[i];
                &&& slot.row < n
                &&& spec_kind_of_roll(rolls[slot.row as int]) == Some(slot.kind)
                &&& slot.falling == gap_below(rolls, slot.row as int)
            },
    decreases n,
{
    if n > 0 {
        let y = n - 1;
        lemma_spawn_plan_shape(rolls, y as nat);
        let prev = spawn_plan_upto(rolls, y as nat);
        if let Some(kind) = spec_kind_of_roll(rolls[y]) {
            let slot = SpawnSlot { row: y as usize, kind, falling: gap_below(rolls, y) };
            let cur = prev.push(slot);
            assert(spawn_plan_upto(rolls, n) == cur);
            assert forall|i: int| 0 <= i < prev.len() && prev[i].falling implies slot.falling by {
                let k = choose|k: int| 0 <= k < prev[i].row && spec_kind_of_roll(#[trigger] rolls[k]) is None;
                assert(spec_kind_of_roll(rolls[k]) is None);
            }
            assert forall|i: int, j: int| 0 <= i < j < cur.len() implies #[trigger] cur[i].row
                < #[trigger] cur[j].row && (cur[i].falling ==> cur[j].falling) by {
                if j == prev.len() {
                    assert(cur[i] == prev[i]);
                } else {
                    assert(cur[i] == prev[i] && cur[j] == prev[j]);
                }
            }
            assert forall|i: int| 0 <= i < cur.len() implies {
                let s = #[trigger] cur[i];
                &&& s.row < n
                &&& spec_kind_of_roll(rolls[s.row as int]) == Some(s.kind)
                &&& s.falling == gap_below(rolls, s.row as int)
            } by {
                if i < prev.len() {
                    assert(cur[i] == prev[i]);
                }
            }
        }
    }
}

/// The die's faces: `0` to `5` give a nuisance, red, green, blue, yellow and
/// purple puyo, every larger roll a gap.
pub proof fn lemma_roll_table(roll: u32)
    ensures
        spec_kind_of_roll(roll) == Some(PuyoType::Nuisance) <==> roll == 0,
        spec_kind_of_roll(roll) == Some(PuyoType::Red) <==> roll == 1,
        spec_kind_of_roll(roll) == Some(PuyoType::Green) <==> roll == 2,
        spec_kind_of_roll(roll) == Some(PuyoType::Blue) <==> roll == 3,
        spec_kind_of_roll(roll) == Some(PuyoType::Yellow) <==> roll == 4,
        spec_kind_of_roll(roll) == Some(PuyoType::Purple) <==> roll == 5,
        spec_kind_of_roll(roll) is None <==> roll >= 6,
{
}

/// Every roll that gives a kind places a puyo of that kind on its row, falling
/// exactly when a gap (a roll of `6` or more) lies below it; whatever rolls come
/// above, nothing below is lost.
pub proof fn lemma_spawn_plan_complete(rolls: Seq<u32>, n: nat)
    requires
        n <= rolls.len(),
        n <= usize::MAX,
    ensures
        forall|y: int|
            0 <= y < n && rolls[y] < 6 ==> exists|i: int|
                0 <= i < spawn_plan_upto(rolls, n).len() && {
                    let slot = #[trigger] spawn_plan_upto(rolls, n)[i];
                    &&& slot.row == y
                    &&& Some(slot.kind) == spec_kind_of_roll(rolls[y])
                    &&& slot.falling == (exists|j: int| 0 <= j < y && rolls[j] >= 6)
                },
    decreases n,
{
    if n > 0 {
        let y0 = n - 1;
        lemma_spawn_plan_complete(rolls, y0 as nat);
        let prev = spawn_plan_upto(rolls, y0 as nat);
        let cur = spawn_plan_upto(rolls, n);
        assert forall|y: int| 0 <= y < n && rolls[y] < 6 implies exists|i: int|
            0 <= i < cur.len() && {
                let slot = #[trigger] cur[i];
                &&& slot.row == y
                &&& Some(slot.kind) == spec_kind_of_roll(rolls[y])
                &&& slot.falling == (exists|j: int| 0 <= j < y && rolls[j] >= 6)
            } by {
            if y < y0 {
                let i = choose|i: int|
                    0 <= i < prev.len() && {
                        let slot = #[trigger] prev[i];
                        &&& slot.row == y
                        &&& Some(slot.kind) == spec_kind_of_roll(rolls[y])
                        &&& slot.falling == (exists|j: int| 0 <= j < y && rolls[j] >= 6)
                    };
                if let Some(kind) = spec_kind_of_roll(rolls[y0]) {
                    assert(cur == prev.push(
                        SpawnSlot { row: y0 as usize, kind, falling: gap_below(rolls, y0) },
                    ));
                    assert(cur[i] == prev[i]);
                } else {
                    assert(cur == prev);
                }
            } else {
                let kind = spec_kind_of_roll(rolls[y0])->0;
                let slot = SpawnSlot { row: y0 as usize, kind, falling: gap_below(rolls, y0) };
                assert(cur == prev.push(slot));
                assert(cur[prev.len() as int] == slot);
                assert(gap_below(rolls, y0) == (exists|j: int| 0 <= j < y0 && rolls[j] >= 6)) by {
                    if gap_below(rolls, y0) {
                        let j = choose|j: int| 0 <= j < y0 && spec_kind_of_roll(#[trigger] rolls[j]) is None;
                        assert(rolls[j] >= 6);
                    }
                    if exists|j: int| 0 <= j < y0 && rolls[j] >= 6 {
                        let j = choose|j: int| 0 <= j < y0 && rolls[j] >= 6;
                        assert(spec_kind_of_roll(rolls[j]) is None);
                    }
                }
            }
        }
    }
}

/// No die roll gives a quarter of a big nuisance puyo.
pub proof fn lemma_rolls_give_small_puyos(roll: u32)
    ensures
        spec_kind_of_roll(roll) matches Some(k) ==> k == PuyoType::Nuisance || !spec_is_nuisance(k),
{
}

/// The puyos placed in a column, shown by `entities`, in plan order.
pub open spec fn spawned_column(plan: Seq<SpawnSlot>, entities: Seq<u64>) -> Seq<SPuyo> {
    Seq::new(
        plan.len(),
        |i: int|
            SPuyo {
                kind: plan[i].kind,
                entity: entities[i],
                state: if plan[i].falling {
                    spec_falling()
                } else {
                    spec_still()
                },
            },
    )
}

/// A filled column holds one puyo per slot of its plan, in plan order: of the
/// slot's kind, shown by the entity spawned for it, falling from rest when the
/// slot falls and resting otherwise.
pub proof fn lemma_spawned_column(plan: Seq<SpawnSlot>, entities: Seq<u64>)
    ensures
        spawned_column(plan, entities).len() == plan.len(),
        forall|i: int|
            0 <= i < plan.len() ==> {
                let p = #[trigger] spawned_column(plan, entities)[i];
                &&& p.kind == plan[i].kind
                &&& p.entity == entities[i]
                &&& plan[i].falling ==> p.state == SPState::Physics(
                    crate::board::SPPhysics::Fall(
                        crate::board::SPFall { velocity: crate::board::F32Bits { bits: 0 } },
                    ),
                )
                &&& !plan[i].falling ==> p.state == SPState::Still(crate::board::SPStill {  })
            },
{
}

/// The kind a die roll gives; rolls of `6` and more leave a gap.
pub fn kind_of_roll(roll: u32) -> (r: Option<PuyoType>)
    ensures
        r == spec_kind_of_roll(roll),
{
    match roll {
        0 => Some(PuyoType::Nuisance),
        1 => Some(PuyoType::Red),
        2 => Some(PuyoType::Green),
        3 => Some(PuyoType::Blue),
        4 => Some(PuyoType::Yellow),
        5 => Some(PuyoType::Purple),
        _ => None,
    }
}

/// The puyos that a column of die rolls places, from the bottom up: one for each
/// roll below `6`, falling when a gap lies below it.
pub fn spawn_plan(rolls: &Vec<u32>) -> (r: Vec<SpawnSlot>)
    ensures
        r@ == spawn_plan_upto(rolls@, rolls@.len()),
{
    let mut r: Vec<SpawnSlot> = Vec::new();
    let mut falling = false;
    let mut y: usize = 0;
    while y < rolls.len()
        invariant
            y <= rolls@.len(),
            r@ == spawn_plan_upto(rolls@, y as nat),
            falling == gap_below(rolls@, y as int),
        decreases rolls@.len() - y,
    {
        let roll = rolls[y];
        match kind_of_roll(roll) {
            Some(kind) => {
                r.push(SpawnSlot { row: y, kind, falling });
            },
            None => {
                falling = true;
            },
        }
        proof {
            if gap_below(rolls@, y + 1) && !gap_below(rolls@, y as int) {
                let k = choose|k: int| 0 <= k < y + 1 && spec_kind_of_roll(#[trigger] rolls@[k]) is None;
                assert(k == y);
            }
            if gap_below(rolls@, y as int) {
                let k = choose|k: int| 0 <= k < y && spec_kind_of_roll(#[trigger] rolls@[k]) is None;
                assert(spec_kind_of_roll(rolls@[k]) is None);
            }
        }
        y = y + 1;
    }
    r
}

#[verifier::external_type_specification]
#[verifier::external_body]
pub struct ExSmallRng(rand::rngs::SmallRng);

/// Rolls a die of `n` faces with `rand`'s `Rng::random_range(0..n)`, which
/// returns a value of the range `0..n`, and panics on an empty range; which
/// value comes is left to chance.
#[verifier::external_body]
fn roll_below(rng: &mut rand::rngs::SmallRng, n: u32) -> (r: u32)
    requires
        n > 0,
    ensures
        r < n,
{
    rng.random_range(0..n)
}

/// How many faces the die that fills a board has: six kinds, and a gap.
pub const DIE_FACES: u32 = 7;

/// `rows` die rolls for one column, from the bottom up.
pub fn roll_column(rng: &mut rand::rngs::SmallRng, rows: usize) -> (r: Vec<u32>)
    ensures
        r@.len() == rows,
        forall|i: int| 0 <= i < rows ==> #[trigger] r@[i] < 7,
{
    let mut r: Vec<u32> = Vec::new();
    let mut y: usize = 0;
    while y < rows
        invariant
            y <= rows,
            r@.len() == y,
            forall|i: int| 0 <= i < y ==> #[trigger] r@[i] < 7,
        decreases rows - y,
    {
        let roll = roll_below(rng, DIE_FACES);
        r.push(roll);
        y = y + 1;
    }
    r
}

/// Fills the board anew: score and chain start at `0`, every column holds the
/// puyos of its plan, shown by the entities spawned for them, and the entities
/// of all former puyos are returned for despawning. The physics starts next.
pub fn spawn_random(board: &mut SBoard, plans: &Vec<Vec<SpawnSlot>>, entities: &Vec<Vec<u64>>) -> (r: (
    NextUp,
    Vec<u64>,
))
    requires
        plans@.len() == old(board).columns@.len(),
        entities@.len() == plans@.len(),
        forall|x: int| 0 <= x < plans@.len() ==> #[trigger] entities@[x]@.len() == plans@[x]@.len(),
    ensures
        r.0 == NextUp::StartPhysics,
        r.1@ == entities_upto(old(board).cols(), old(board).cols().len()),
        final(board).score == 0,
        final(board).chain == 0,
        final(board).state == old(board).state,
        final(board).cols() == Seq::new(
            plans@.len(),
            |x: int| spawned_column(plans@[x]@, entities@[x]@),
        ),
{
    let ghost cols0 = board.cols();
    board.score = 0;
    board.chain = 0;
    let mut despawn: Vec<u64> = Vec::new();
    let mut x: usize = 0;
    while x < board.columns.len()
        invariant
            x <= board.columns@.len(),
            board.columns@.len() == cols0.len(),
            board.columns@.len() == plans@.len(),
            entities@.len() == plans@.len(),
            forall|x: int| 0 <= x < plans@.len() ==> #[trigger] entities@[x]@.len() == plans@[x]@.len(),
            board.score == 0,
            board.chain == 0,
            board.state == old(board).state,
            forall|i: int| 0 <= i < x ==> #[trigger] board.cols()[i] == spawned_column(plans@[i]@, entities@[i]@),
            forall|i: int| x <= i < cols0.len() ==> #[trigger] board.cols()[i] == cols0[i],
            despawn@ == entities_upto(cols0, x as nat),
        decreases board.columns@.len() - x,
    {
        let ghost before = board.cols();
        let mut k: usize = 0;
        while k < board.columns[x].len()
            invariant
                x < board.columns@.len(),
                board.cols() == before,
                before[x as int] == cols0[x as int],
                k <= cols0[x as int].len(),
                despawn@ == entities_upto(cols0, x as nat) + cols0[x as int].take(k as int).map_values(
                    |p: SPuyo| p.entity,
                ),
            decreases cols0[x as int].len() - k,
        {
            despawn.push(board.columns[x][k].entity);
            k = k + 1;
            assert(cols0[x as int].take(k as int).map_values(|p: SPuyo| p.entity) =~= cols0[x as int].take(
                k - 1,
            ).map_values(|p: SPuyo| p.entity).push(cols0[x as int][k - 1].entity));
        }
        assert(cols0[x as int].take(k as int) =~= cols0[x as int]);
        let plan = &plans[x];
        let ents = &entities[x];
        let mut col: Vec<SPuyo> = Vec::new();
        let mut i: usize = 0;
        while i < plan.len()
            invariant
                i <= plan@.len(),
                ents@.len() == plan@.len(),
                col@ =~= spawned_column(plan@.take(i as int), ents@.take(i as int)),
            decreases plan@.len() - i,
        {
            let slot = plan[i];
            let state = if slot.falling {
                SPState::new_falling()
            } else {
                SPState::default()
            };
            col.push(SPuyo { kind: slot.kind, entity: ents[i], state });
            i = i + 1;
            assert(col@ =~= spawned_column(plan@.take(i as int), ents@.take(i as int)));
        }
        assert(plan@.take(i as int) =~= plan@);
        assert(ents@.take(i as int) =~= ents@);
        board.columns.set(x, col);
        proof {
            assert forall|i: int| 0 <= i < x + 1 implies #[trigger] board.cols()[i] == spawned_column(
                plans@[i]@,
                entities@[i]@,
            ) by {
                if i < x {
                    assert(board.cols()[i] == before[i]);
                }
            }
            assert forall|i: int| x + 1 <= i < cols0.len() implies #[trigger] board.cols()[i]
                == cols0[i] by {
                assert(board.cols()[i] == before[i]);
            }
        }
        x = x + 1;
        assert(despawn@ =~= entities_upto(cols0, x as nat));
    }
    assert(board.cols() =~= Seq::new(
        plans@.len(),
        |x: int| spawned_column(plans@[x]@, entities@[x]@),
    ));
    (NextUp::StartPhysics, despawn)
}

} // verus!
