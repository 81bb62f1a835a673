use vstd::prelude::*;

use crate::board::{
    spec_banishing, spec_falling, F32Bits, SBState, SBoard, SPState, SPuyo,
};

pub mod board_banish;
pub mod board_physics;
pub mod spawn_random;

pub use board_banish::board_banish;
pub use spawn_random::{kind_of_roll, roll_column, spawn_plan, spawn_random, SpawnSlot, SPAWN_ROWS};

use board_banish::{
    any_banishing, any_banishing_anywhere, any_moving, banished_column, banished_entities,
    lemma_any_banishing_push,
};

verus! {

/// Why a board update found the board in a state the rule never produces.
#[derive(Clone, Copy, PartialEq, Eq, Structural, Debug)]
pub enum WhyImpossible {
    PuyoBanishingInPhysicsUpdate,
    BanishingWhenNotBanishing,
    PuyoPhysicsInBanishUpdate,
}

/// What a board does next, decided by one step of its update.
#[derive(Clone, Copy, PartialEq, Eq, Structural, Debug)]
pub enum NextUp {
    /// Nothing more to do in this update.
    Continue,
    /// Look for groups to pop.
    CastOwanimo,
    /// Let puyos fall and jiggle.
    StartPhysics,
    /// Come to rest.
    Still,
    /// The board is in a state the rule never produces.
    Impossible(WhyImpossible),
}

/// Groups found by a cast: the cells to banish and the two factors of the score
/// the cast earns.
pub struct OwanimoCast {
    pub groups: Vec<Vec<(usize, usize)>>,
    pub score: (u64, u64),
}

/// Whether cell `h` belongs to one of `groups`.
pub open spec fn in_groups(groups: Seq<Vec<(usize, usize)>>, h: (usize, usize)) -> bool {
    exists|g: int, k: int|
        0 <= g < groups.len() && 0 <= k < groups[g]@.len() && #[trigger] groups[g]@[k] == h
}

/// The cells of the first `g` groups, and the first `k` cells of group `g`.
spec fn in_groups_before(
    groups: Seq<Vec<(usize, usize)>>,
    g: int,
    k: int,
    h: (usize, usize),
) -> bool {
    (exists|i: int, j: int|
        0 <= i < g && 0 <= j < groups[i]@.len() && #[trigger] groups[i]@[j] == h) || (exists|
        j: int,
    | 0 <= j < k && #[trigger] groups[g]@[j] == h)
}

/// `p`, being banished when `marked`.
pub open spec fn banish_if(p: SPuyo, marked: bool) -> SPuyo {
    if marked {
        SPuyo { state: spec_banishing(), ..p }
    } else {
        p
    }
}

/// The columns `cols` with every puyo of `groups` being banished.
pub open spec fn with_groups_banished(
    cols: Seq<Seq<SPuyo>>,
    groups: Seq<Vec<(usize, usize)>>,
) -> Seq<Seq<SPuyo>> {
    Seq::new(
        cols.len(),
        |c: int|
            Seq::new(
                cols[c].len(),
                |r: int| banish_if(cols[c][r], in_groups(groups, (c as usize, r as usize))),
            ),
    )
}

/// The columns `cols` with every puyo of the cells before group `g`, cell `k`
/// being banished.
spec fn with_banished_before(
    cols: Seq<Seq<SPuyo>>,
    groups: Seq<Vec<(usize, usize)>>,
    g: int,
    k: int,
) -> Seq<Seq<SPuyo>> {
    Seq::new(
        cols.len(),
        |c: int|
            Seq::new(
                cols[c].len(),
                |r: int|
                    banish_if(cols[c][r], in_groups_before(groups, g, k, (c as usize, r as usize))),
            ),
    )
}

/// The puyos of column `c` that no group holds, from the bottom up; a resting
/// puyo above a grouped one starts to fall.
pub open spec fn survivors(col: Seq<SPuyo>, c: usize, groups: Seq<Vec<(usize, usize)>>) -> Seq<SPuyo>
    decreases col.len(),
{
    if col.len() == 0 {
        Seq::empty()
    } else {
        let prev = survivors(col.drop_last(), c, groups);
        let r = col.len() - 1;
        let p = col.last();
        if in_groups(groups, (c, r as usize)) {
            prev
        } else if exists|k: int| 0 <= k < r && #[trigger] in_groups(groups, (c, k as usize)) {
            prev.push(SPuyo { state: spec_falling(), ..p })
        } else {
            prev.push(p)
        }
    }
}

/// The entities of the puyos of column `c` that a group holds, from the bottom up.
pub open spec fn grouped_entities(col: Seq<SPuyo>, c: usize, groups: Seq<Vec<(usize, usize)>>) -> Seq<
    u64,
>
    decreases col.len(),
{
    if col.len() == 0 {
        Seq::empty()
    } else if in_groups(groups, (c, (col.len() - 1) as usize)) {
        grouped_entities(col.drop_last(), c, groups).push(col.last().entity)
    } else {
        grouped_entities(col.drop_last(), c, groups)
    }
}

/// Column `c` with the puyos of `groups` being banished.
spec fn banish_marked(col: Seq<SPuyo>, c: usize, groups: Seq<Vec<(usize, usize)>>) -> Seq<SPuyo> {
    Seq::new(col.len(), |r: int| banish_if(col[r], in_groups(groups, (c, r as usize))))
}

proof fn lemma_marked_column_banished(col: Seq<SPuyo>, c: usize, groups: Seq<Vec<(usize, usize)>>)
    requires
        col.len() <= usize::MAX,
        forall|r: int| 0 <= r < col.len() ==> (#[trigger] col[r]).state is Still,
    ensures
        banished_column(banish_marked(col, c, groups)) == survivors(col, c, groups),
        banished_entities(banish_marked(col, c, groups)) == grouped_entities(col, c, groups),
        any_banishing(banish_marked(col, c, groups)) <==> exists|k: int|
            0 <= k < col.len() && #[trigger] in_groups(groups, (c, k as usize)),
    decreases col.len(),
{
    let m = banish_marked(col, c, groups);
    if col.len() > 0 {
        let init = col.drop_last();
        lemma_marked_column_banished(init, c, groups);
        assert(m.drop_last() =~= banish_marked(init, c, groups));
        let r = col.len() - 1;
        assert(m.last() == banish_if(col.last(), in_groups(groups, (c, r as usize))));
        assert(any_banishing(m.drop_last()) == exists|k: int|
            0 <= k < r && #[trigger] in_groups(groups, (c, k as usize))) by {
            if any_banishing(m.drop_last()) {
                let k = choose|k: int| 0 <= k < m.drop_last().len() && (#[trigger] m.drop_last()[k]).state is Banish;
                assert(in_groups(groups, (c, k as usize)));
            }
            if exists|k: int| 0 <= k < r && #[trigger] in_groups(groups, (c, k as usize)) {
                let k = choose|k: int| 0 <= k < r && #[trigger] in_groups(groups, (c, k as usize));
                assert(m.drop_last()[k].state is Banish);
            }
        }
        lemma_any_banishing_push(m.drop_last(), m.last());
        assert(m.drop_last().push(m.last()) =~= m);
        if (exists|k: int| 0 <= k < col.len() && #[trigger] in_groups(groups, (c, k as usize))) {
            let k = choose|k: int| 0 <= k < col.len() && #[trigger] in_groups(groups, (c, k as usize));
            if k < r {
                assert(exists|k: int| 0 <= k < r && #[trigger] in_groups(groups, (c, k as usize)));
            }
        }
    } else {
        assert(m =~= Seq::<SPuyo>::empty());
    }
}

/// Popped groups disappear: on a board at rest, a cast followed by the end of
/// its banishing leaves in each column exactly the puyos no group holds, in
/// their order, the resting ones above a popped puyo falling; the entities of
/// the grouped puyos are the ones handed out, and the physics starts next
/// exactly when some group held a puyo of the board.
pub proof fn lemma_cast_then_banish(cols: Seq<Seq<SPuyo>>, groups: Seq<Vec<(usize, usize)>>)
    requires
        cols.len() <= usize::MAX,
        forall|c: int| 0 <= c < cols.len() ==> #[trigger] cols[c].len() <= usize::MAX,
        forall|c: int, r: int|
            0 <= c < cols.len() && 0 <= r < cols[c].len() ==> (#[trigger] cols[c][r]).state is Still,
    ensures
        !any_moving(with_groups_banished(cols, groups)),
        with_groups_banished(cols, groups).map_values(|col: Seq<SPuyo>| banished_column(col))
            == Seq::new(cols.len(), |c: int| survivors(cols[c], c as usize, groups)),
        forall|c: int|
            0 <= c < cols.len() ==> #[trigger] banished_entities(with_groups_banished(cols, groups)[c])
                == grouped_entities(cols[c], c as usize, groups),
        any_banishing_anywhere(with_groups_banished(cols, groups)) <==> exists|c: int, r: int|
            0 <= c < cols.len() && 0 <= r < cols[c].len() && #[trigger] in_groups(
                groups,
                (c as usize, r as usize),
            ),
{
    let w = with_groups_banished(cols, groups);
    assert forall|c: int| 0 <= c < cols.len() implies #[trigger] w[c] == banish_marked(
        cols[c],
        c as usize,
        groups,
    ) by {
        assert(w[c] =~= banish_marked(cols[c], c as usize, groups));
    }
    assert forall|c: int| 0 <= c < cols.len() implies {
        &&& banished_column(#[trigger] w[c]) == survivors(cols[c], c as usize, groups)
        &&& banished_entities(w[c]) == grouped_entities(cols[c], c as usize, groups)
        &&& any_banishing(w[c]) <==> exists|k: int|
            0 <= k < cols[c].len() && #[trigger] in_groups(groups, (c as usize, k as usize))
    } by {
        assert forall|r: int| 0 <= r < cols[c].len() implies (#[trigger] cols[c][r]).state is Still by {}
        lemma_marked_column_banished(cols[c], c as usize, groups);
    }
    if any_moving(w) {
        let (c, r) = choose|c: int, r: int|
            0 <= c < w.len() && 0 <= r < w[c].len() && (#[trigger] w[c][r]).state is Physics;
        assert(cols[c][r].state is Still);
    }
    assert(w.map_values(|col: Seq<SPuyo>| banished_column(col)) =~= Seq::new(
        cols.len(),
        |c: int| survivors(cols[c], c as usize, groups),
    ));
    if any_banishing_anywhere(w) {
        let c = choose|c: int| 0 <= c < w.len() && any_banishing(#[trigger] w[c]);
        let k = choose|k: int| 0 <= k < cols[c].len() && #[trigger] in_groups(groups, (c as usize, k as usize));
        assert(in_groups(groups, (c as usize, k as usize)));
    }
    if exists|c: int, r: int|
        0 <= c < cols.len() && 0 <= r < cols[c].len() && #[trigger] in_groups(
            groups,
            (c as usize, r as usize),
        ) {
        let (c, r) = choose|c: int, r: int|
            0 <= c < cols.len() && 0 <= r < cols[c].len() && #[trigger] in_groups(
                groups,
                (c as usize, r as usize),
            );
        assert(any_banishing(w[c]));
    }
}

impl SBoard {
    /// Follows `next_up` after one step of the board's update. Starting the
    /// physics or coming to rest sets the board's state; a cast returns `true`,
    /// leaving the board as it is for `cast_owanimo`.
    pub fn follow_next_up(&mut self, next_up: NextUp) -> (cast: bool)
        requires
            !(next_up is Impossible),
        ensures
            cast == (next_up == NextUp::CastOwanimo),
            final(self).cols() == old(self).cols(),
            final(self).score == old(self).score,
            final(self).chain == old(self).chain,
            final(self).state == match next_up {
                NextUp::StartPhysics => SBState::Physics,
                NextUp::Still => SBState::Still,
                _ => old(self).state,
            },
    {
        match next_up {
            NextUp::Continue => false,
            NextUp::CastOwanimo => true,
            NextUp::StartPhysics => {
                self.state = SBState::Physics;
                false
            },
            NextUp::Still => {
                self.state = SBState::Still;
                false
            },
            NextUp::Impossible(..) => false,
        }
    }

    /// Applies a cast. Without groups to pop the board comes to rest
    /// (`NextUp::Still`). Otherwise the cast adds the product of its two score
    /// factors to the score, lengthens the chain, starts the banishing, and marks
    /// every puyo of its groups as being banished.
    pub fn cast_owanimo(&mut self, cast: Option<OwanimoCast>) -> (next: NextUp)
        requires
            cast matches Some(c) ==> old(self).score + c.score.0 * c.score.1 <= u64::MAX,
            cast is Some ==> old(self).chain < usize::MAX,
        ensures
            cast is None ==> next == NextUp::Still && *final(self) == *old(self),
            cast matches Some(c) ==> {
                &&& next == NextUp::Continue
                &&& final(self).score == old(self).score + c.score.0 * c.score.1
                &&& final(self).chain == old(self).chain + 1
                &&& final(self).state == (SBState::Banish { life: F32Bits { bits: 0x3f80_0000 } })
                &&& final(self).cols() == with_groups_banished(old(self).cols(), c.groups@)
            },
    {
        match cast {
            None => NextUp::Still,
            Some(c) => {
                let ghost cols0 = self.cols();
                let (base, multiplier) = c.score;
                proof {
                    assert(0 <= base * multiplier) by (nonlinear_arith);
                }
                let points = base * multiplier;
                self.score = self.score + points;
                self.chain = self.chain + 1;
                self.state = SBState::Banish { life: F32Bits::one() };
                let groups = c.groups;
                let ghost score1 = self.score;
                let ghost chain1 = self.chain;
                let ghost state1 = self.state;
                proof {
                    assert(cols0.len() == self.columns.len());
                    assert forall|c: int| 0 <= c < cols0.len() implies #[trigger] cols0[c].len()
                        <= usize::MAX by {
                        assert(cols0[c].len() == self.columns@[c].len());
                    }
                    let a = with_banished_before(cols0, groups@, 0, 0);
                    assert forall|c: int| 0 <= c < a.len() implies #[trigger] a[c] =~= cols0[c] by {}
                    assert(a =~= cols0);
                }
                let mut g: usize = 0;
                while g < groups.len()
                    invariant
                        g <= groups@.len(),
                        self.cols() == with_banished_before(cols0, groups@, g as int, 0),
                        self.score == score1 && self.chain == chain1 && self.state == state1,
                        cols0.len() <= usize::MAX,
                        forall|c: int| 0 <= c < cols0.len() ==> #[trigger] cols0[c].len() <= usize::MAX,
                    decreases groups@.len() - g,
                {
                    let mut k: usize = 0;
                    while k < groups[g].len()
                        invariant
                            g < groups@.len(),
                            k <= groups@[g as int]@.len(),
                            self.cols() == with_banished_before(cols0, groups@, g as int, k as int),
                            self.score == score1 && self.chain == chain1 && self.state == state1,
                            cols0.len() <= usize::MAX,
                            forall|c: int| 0 <= c < cols0.len() ==> #[trigger] cols0[c].len() <= usize::MAX,
                        decreases groups@[g as int]@.len() - k,
                    {
                        let handle = groups[g][k];
                        let ghost before = self.cols();
                        let ghost had = self.has(handle);
                        match self.get_mut_at(handle) {
                            Some(puy) => {
                                puy.state = SPState::new_banishing();
                            },
                            None => {},
                        }
                        proof {
                            let next = with_banished_before(cols0, groups@, g as int, k + 1);
                            assert forall|h: (usize, usize)| #[trigger]
                                in_groups_before(groups@, g as int, k + 1, h) == (
                                in_groups_before(groups@, g as int, k as int, h) || h == handle) by {
                                if h == handle {
                                    assert(groups@[g as int]@[k as int] == h);
                                }
                                if in_groups_before(groups@, g as int, k + 1, h) && h != handle
                                    && !(exists|i: int, j: int|
                                    0 <= i < g && 0 <= j < groups@[i]@.len() && #[trigger] groups@[i]@[j]
                                        == h) {
                                    let j = choose|j: int|
                                        0 <= j < k + 1 && #[trigger] groups@[g as int]@[j] == h;
                                    assert(j < k);
                                }
                            }
                            assert(self.cols().len() == next.len());
                            assert forall|c: int| 0 <= c < next.len() implies #[trigger] self.cols()[c]
                                =~= next[c] by {
                                assert forall|r: int| 0 <= r < next[c].len() implies self.cols()[c][r]
                                    == #[trigger] next[c][r] by {
                                    let h = (c as usize, r as usize);
                                    assert(in_groups_before(groups@, g as int, k + 1, h) == (
                                    in_groups_before(groups@, g as int, k as int, h) || h == handle));
                                    assert(cols0[c].len() <= usize::MAX);
                                    if h == handle {
                                        assert(had);
                                    }
                                }
                            }
                            assert(self.cols() =~= next);
                        }
                        k = k + 1;
                    }
                    proof {
                        let a = with_banished_before(cols0, groups@, g as int, k as int);
                        let b = with_banished_before(cols0, groups@, g + 1, 0);
                        assert forall|h: (usize, usize)| #[trigger]
                            in_groups_before(groups@, g + 1, 0, h) == in_groups_before(
                                groups@,
                                g as int,
                                k as int,
                                h,
                            ) by {
                            if in_groups_before(groups@, g + 1, 0, h) {
                                let (i, j) = choose|i: int, j: int|
                                    0 <= i < g + 1 && 0 <= j < groups@[i]@.len() && #[trigger] groups@[i]@[j]
                                        == h;
                                if i == g {
                                    assert(groups@[g as int]@[j] == h);
                                }
                            }
                            if in_groups_before(groups@, g as int, k as int, h) {
                                if exists|j: int| 0 <= j < k && #[trigger] groups@[g as int]@[j] == h {
                                    let j = choose|j: int| 0 <= j < k && #[trigger] groups@[g as int]@[j] == h;
                                    assert(groups@[g as int]@[j] == h);
                                }
                            }
                        }
                        assert forall|c: int| 0 <= c < a.len() implies #[trigger] a[c] =~= b[c] by {
                            assert forall|r: int| 0 <= r < a[c].len() implies a[c][r] == #[trigger] b[c][r] by {
                                let h = (c as usize, r as usize);
                                assert(in_groups_before(groups@, g + 1, 0, h) == in_groups_before(
                                    groups@, g as int, k as int, h));
                            }
                        }
                        assert(a =~= b);
                    }
                    g = g + 1;
                }
                proof {
                    let a = with_banished_before(cols0, groups@, g as int, 0);
                    let b = with_groups_banished(cols0, groups@);
                    assert forall|c: int| 0 <= c < a.len() implies #[trigger] a[c] =~= b[c] by {
                        assert forall|r: int| 0 <= r < a[c].len() implies a[c][r] == #[trigger] b[c][r] by {
                            let h = (c as usize, r as usize);
                            if in_groups(groups@, h) {
                                let (i, j) = choose|i: int, j: int|
                                    0 <= i < groups@.len() && 0 <= j < groups@[i]@.len() && #[trigger] groups@[i]@[j] == h;
                                assert(in_groups_before(groups@, g as int, 0, h));
                            }
                            if in_groups_before(groups@, g as int, 0, h) {
                                let (i, j) = choose|i: int, j: int|
                                    0 <= i < g && 0 <= j < groups@[i]@.len() && #[trigger] groups@[i]@[j] == h;
                                assert(in_groups(groups@, h));
                            }
                        }
                    }
                    assert(a =~= b);
                }
                NextUp::Continue
            },
        }
    }
}

/// The state a board update leaves a board in, from the state it started in,
/// what its step decided, and, for a cast, whether groups were found.
pub open spec fn update_state(state: SBState, step: NextUp, found: bool) -> SBState {
    match step {
        NextUp::StartPhysics => SBState::Physics,
        NextUp::Still => SBState::Still,
        NextUp::CastOwanimo => if found {
            SBState::Banish { life: F32Bits { bits: 0x3f80_0000 } }
        } else {
            SBState::Still
        },
        _ => state,
    }
}

impl SBoard {
    /// Finishes a board update after its step decided `step`: follows it, and
    /// for a cast applies `cast`, the groups found (none when nothing pops),
    /// then follows what the cast decides. The board ends in `update_state`.
    pub fn finish_update(&mut self, step: NextUp, cast: Option<OwanimoCast>)
        requires
            !(step is Impossible),
            step != NextUp::CastOwanimo ==> cast is None,
            cast matches Some(c) ==> old(self).score + c.score.0 * c.score.1 <= u64::MAX,
            cast is Some ==> old(self).chain < usize::MAX,
        ensures
            final(self).state == update_state(old(self).state, step, cast is Some),
            cast is None ==> final(self).cols() == old(self).cols() && final(self).score == old(
                self,
            ).score && final(self).chain == old(self).chain,
            cast matches Some(c) ==> {
                &&& final(self).score == old(self).score + c.score.0 * c.score.1
                &&& final(self).chain == old(self).chain + 1
                &&& final(self).cols() == with_groups_banished(old(self).cols(), c.groups@)
            },
    {
        if self.follow_next_up(step) {
            let next = self.cast_owanimo(cast);
            self.follow_next_up(next);
        }
    }
}

/// A board update moves the board's state round the cycle: a still board that
/// was filled starts its physics; a moving board keeps moving, comes to rest or
/// starts banishing popped groups with a full banish life; a banishing board
/// keeps banishing, lets puyos fall, or comes to rest.
pub proof fn lemma_update_cycle(state: SBState, step: NextUp, found: bool)
    ensures
        state is Still && step == NextUp::StartPhysics ==> update_state(state, step, found)
            == SBState::Physics,
        state is Physics && (step == NextUp::Continue || step == NextUp::CastOwanimo) ==> {
            let s = update_state(state, step, found);
            s == SBState::Physics || s == SBState::Still || s == (SBState::Banish {
                life: F32Bits { bits: 0x3f80_0000 },
            })
        },
        state is Banish && (step == NextUp::Continue || step == NextUp::StartPhysics || step
            == NextUp::Still) ==> {
            let s = update_state(state, step, found);
            s == state || s == SBState::Physics || s == SBState::Still
        },
{
}

// ---------------------------------------------------------------------------
// Scoring
// ---------------------------------------------------------------------------

/// The chain power of each link of a chain; longer chains keep the last one.
pub open spec fn chain_power_table() -> Seq<u64> {
    seq![
        0u64, 8, 16, 32, 64, 96, 128, 160, 192, 224, 256, 288, 320, 352, 384, 416, 448, 480, 512,
        544, 576, 608, 640, 672,
    ]
}

/// The chain power for a chain of `chain` links before this one.
pub open spec fn spec_chain_power(chain: usize) -> u64 {
    if chain < 24 {
        chain_power_table()[chain as int]
    } else {
        chain_power_table()[23]
    }
}

/// The chain power for a chain of `chain` links before this one.
pub fn chain_power(chain: usize) -> (r: u64)
    ensures
        r == spec_chain_power(chain),
{
    let table: [u64; 24] = [
        0, 8, 16, 32, 64, 96, 128, 160, 192, 224, 256, 288, 320, 352, 384, 416, 448, 480, 512, 544,
        576, 608, 640, 672,
    ];
    assert(table@ =~= chain_power_table());
    if chain < 24 {
        table[chain]
    } else {
        table[23]
    }
}

/// A longer chain never has less power.
pub proof fn lemma_chain_power_monotone(i: usize, j: usize)
    requires
        i <= j,
    ensures
        spec_chain_power(i) <= spec_chain_power(j),
    decreases j - i,
{
    if i < j {
        lemma_chain_power_monotone(i, (j - 1) as usize);
        let t = chain_power_table();
        assert(t[0] <= t[1] && t[1] <= t[2] && t[2] <= t[3] && t[3] <= t[4] && t[4] <= t[5] && t[5]
            <= t[6] && t[6] <= t[7] && t[7] <= t[8] && t[8] <= t[9] && t[9] <= t[10] && t[10] <= t[11]
            && t[11] <= t[12] && t[12] <= t[13] && t[13] <= t[14] && t[14] <= t[15] && t[15] <= t[16]
            && t[16] <= t[17] && t[17] <= t[18] && t[18] <= t[19] && t[19] <= t[20] && t[20] <= t[21]
            && t[21] <= t[22] && t[22] <= t[23]);
    }
}

} // verus!
