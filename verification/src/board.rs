use vstd::prelude::*;

use crate::puyo_chara::PuyoType;

verus! {

/// An `f32` of the animation carried through the rule as its IEEE-754 bit
/// pattern. The rule only stores and copies it; the animation reads and
/// writes it with `f32::from_bits` and `f32::to_bits`.
#[derive(Clone, Copy, PartialEq, Eq, Structural, Debug)]
pub struct F32Bits {
    pub bits: u32,
}

impl F32Bits {
    /// `0.0_f32`.
    pub fn zero() -> (r: F32Bits)
        ensures
            r.bits == 0,
    {
        F32Bits { bits: 0 }
    }

    /// `1.0_f32`.
    pub fn one() -> (r: F32Bits)
        ensures
            r.bits == 0x3f80_0000,
    {
        F32Bits { bits: 0x3f80_0000 }
    }
}

/// A puyo that rests where it is.
#[derive(Clone, Copy, PartialEq, Eq, Structural, Debug, Default)]
pub struct SPStill {}

/// A puyo falling with `velocity`.
#[derive(Clone, Copy, PartialEq, Eq, Structural, Debug)]
pub struct SPFall {
    pub velocity: F32Bits,
}

/// A landed puyo that still jiggles.
#[derive(Clone, Copy, PartialEq, Eq, Structural, Debug)]
pub struct SPJiggle {
    pub momentum: F32Bits,
    pub offset: F32Bits,
    pub life: F32Bits,
}

/// A puyo that is being banished.
#[derive(Clone, Copy, PartialEq, Eq, Structural, Debug)]
pub struct SPBanish {}

/// The moving states of a puyo.
#[derive(Clone, Copy, PartialEq, Eq, Structural, Debug)]
pub enum SPPhysics {
    Fall(SPFall),
    Jiggle(SPJiggle),
}

/// The state of one puyo of a board.
#[derive(Clone, Copy, PartialEq, Eq, Structural, Debug)]
pub enum SPState {
    Still(SPStill),
    Physics(SPPhysics),
    Banish(SPBanish),
}

/// A puyo at rest.
pub open spec fn spec_still() -> SPState {
    SPState::Still(SPStill {  })
}

/// A puyo that starts to fall from rest.
pub open spec fn spec_falling() -> SPState {
    SPState::Physics(SPPhysics::Fall(SPFall { velocity: F32Bits { bits: 0 } }))
}

/// A puyo that is being banished.
pub open spec fn spec_banishing() -> SPState {
    SPState::Banish(SPBanish {  })
}

impl Default for SPState {
    fn default() -> (r: SPState)
        ensures
            r == spec_still(),
    {
        SPState::Still(SPStill {  })
    }
}

impl SPState {
    /// A puyo that starts to fall, at velocity `0.0`.
    pub fn new_falling() -> (r: SPState)
        ensures
            r == spec_falling(),
    {
        SPState::Physics(SPPhysics::Fall(SPFall { velocity: F32Bits::zero() }))
    }

    /// A puyo that is being banished.
    pub fn new_banishing() -> (r: SPState)
        ensures
            r == spec_banishing(),
    {
        SPState::Banish(SPBanish {  })
    }

    /// A puyo that starts to jiggle with `momentum`, at offset `0.0` and life `1.0`.
    pub fn new_jiggle(momentum: F32Bits) -> (r: SPState)
        ensures
            r == SPState::Physics(
                SPPhysics::Jiggle(
                    SPJiggle {
                        momentum,
                        offset: F32Bits { bits: 0 },
                        life: F32Bits { bits: 0x3f80_0000 },
                    },
                ),
            ),
    {
        SPState::Physics(
            SPPhysics::Jiggle(SPJiggle { momentum, offset: F32Bits::zero(), life: F32Bits::one() }),
        )
    }
}

/// One puyo of a board: its kind, the entity that shows it, and its state.
#[derive(Clone, Copy, PartialEq, Eq, Structural, Debug)]
pub struct SPuyo {
    pub kind: PuyoType,
    pub entity: u64,
    pub state: SPState,
}

/// What a whole board is doing.
#[derive(Clone, Copy, PartialEq, Eq, Structural, Debug)]
pub enum SBState {
    /// Nothing moves: time to fill the board anew.
    Still,
    /// Puyos fall and jiggle.
    Physics,
    /// Popped puyos shrink away; `life` runs from `1.0` down to `0.0`.
    Banish { life: F32Bits },
}

impl Default for SBState {
    fn default() -> (r: SBState)
        ensures
            r == SBState::Still,
    {
        SBState::Still
    }
}

/// A board of the screensaver: columns of puyos stacked from row `0` upwards.
#[derive(Debug)]
pub struct SBoard {
    pub score: u64,
    pub chain: usize,
    pub columns: Vec<Vec<SPuyo>>,
    pub state: SBState,
}

impl SBoard {
    /// The columns as sequences of puyos.
    pub open spec fn cols(&self) -> Seq<Seq<SPuyo>> {
        self.columns@.map_values(|c: Vec<SPuyo>| c@)
    }

    /// Whether `h` (column, row) names a puyo of the board.
    pub open spec fn has(&self, h: (usize, usize)) -> bool {
        h.0 < self.cols().len() && h.1 < self.cols()[h.0 as int].len()
    }

    /// The puyo at `h`, if there is one.
    pub open spec fn spec_at(&self, h: (usize, usize)) -> Option<SPuyo> {
        if self.has(h) {
            Some(self.cols()[h.0 as int][h.1 as int])
        } else {
            None
        }
    }

    /// An empty board of `n_columns` columns, score and chain `0`, at rest.
    pub fn new(n_columns: usize) -> (r: SBoard)
        ensures
            r.score == 0,
            r.chain == 0,
            r.state == SBState::Still,
            r.cols() == Seq::new(n_columns as nat, |i: int| Seq::<SPuyo>::empty()),
    {
        let mut columns: Vec<Vec<SPuyo>> = Vec::new();
        let mut i: usize = 0;
        while i < n_columns
            invariant
                i <= n_columns,
                columns@.len() == i,
                forall|j: int| 0 <= j < i ==> (#[trigger] columns@[j])@.len() == 0,
            decreases n_columns - i,
        {
            columns.push(Vec::new());
            i = i + 1;
        }
        let r = SBoard { score: 0, chain: 0, columns, state: SBState::Still };
        assert forall|j: int| 0 <= j < n_columns implies r.cols()[j] =~= Seq::<SPuyo>::empty() by {}
        assert(r.cols() =~= Seq::new(n_columns as nat, |i: int| Seq::<SPuyo>::empty()));
        r
    }

    /// The puyo at `(col_n, row_n)`, if there is one.
    pub fn get_at(&self, h: (usize, usize)) -> (r: Option<&SPuyo>)
        ensures
            r is Some <==> self.has(h),
            r matches Some(p) ==> *p == self.cols()[h.0 as int][h.1 as int],
    {
        let (col_n, row_n) = h;
        if col_n < self.columns.len() && row_n < self.columns[col_n].len() {
            Some(&self.columns[col_n][row_n])
        } else {
            None
        }
    }
}

impl SBoard {
    /// The puyo at `(col_n, row_n)`, if there is one, to change in place.
    pub fn get_mut_at(&mut self, h: (usize, usize)) -> (r: Option<&mut SPuyo>)
        ensures
            r is Some <==> old(self).has(h),
            r matches Some(p) ==> *p == old(self).cols()[h.0 as int][h.1 as int],
            r matches Some(p) ==> final(self).cols() == old(self).cols().update(
                h.0 as int,
                old(self).cols()[h.0 as int].update(h.1 as int, *final(p)),
            ),
            r matches Some(p) ==> final(self).score == old(self).score && final(self).chain == old(
                self,
            ).chain && final(self).state == old(self).state,
            r is None ==> *final(self) == *old(self),
    {
        let (col_n, row_n) = h;
        if col_n < self.columns.len() && row_n < self.columns[col_n].len() {
            Some(&mut self.columns[col_n][row_n])
        } else {
            None
        }
    }
}

} // verus!
