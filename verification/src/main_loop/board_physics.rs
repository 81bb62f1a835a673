use vstd::prelude::*;

use crate::board::{SBoard, SPPhysics, SPState, SPuyo};
use crate::dir::{spec_step, Dir};
use crate::puyo_chara::{spec_is_nuisance, PuyoType};

verus! {

/// Two quarters of one big nuisance puyo, `b` lying from `a` in `dir`, through
/// which an impulse passes: side by side, or the top one onto the bottom one.
pub open spec fn spec_big_nuisance_link(a: PuyoType, b: PuyoType, dir: Dir) -> bool {
    ||| (a, b, dir) == (PuyoType::NuisanceBL, PuyoType::NuisanceBR, Dir::R)
    ||| (a, b, dir) == (PuyoType::NuisanceBR, PuyoType::NuisanceBL, Dir::L)
    ||| (a, b, dir) == (PuyoType::NuisanceTL, PuyoType::NuisanceBL, Dir::D)
    ||| (a, b, dir) == (PuyoType::NuisanceTR, PuyoType::NuisanceBR, Dir::D)
    ||| (a, b, dir) == (PuyoType::NuisanceTL, PuyoType::NuisanceTR, Dir::R)
    ||| (a, b, dir) == (PuyoType::NuisanceTR, PuyoType::NuisanceTL, Dir::L)
}

/// A puyo that rests or jiggles.
pub open spec fn resting_or_jiggling(s: SPState) -> bool {
    s is Still || s matches SPState::Physics(SPPhysics::Jiggle(_))
}

/// Whether an impulse passes from puyo `a` to puyo `b`, its neighbour in `dir`:
/// never upwards; between the quarters of a big nuisance puyo; never otherwise
/// to or from a nuisance puyo; downwards between any coloured puyos; sideways
/// between coloured puyos of one colour that rest or jiggle.
pub open spec fn spec_impulse_passes(a: SPuyo, b: SPuyo, dir: Dir) -> bool {
    &&& dir != Dir::U
    &&& (spec_big_nuisance_link(a.kind, b.kind, dir) || (!spec_is_nuisance(a.kind)
        && !spec_is_nuisance(b.kind) && (dir == Dir::D || (resting_or_jiggling(a.state)
        && resting_or_jiggling(b.state) && a.kind == b.kind))))
}

impl SBoard {
    /// The cell in direction `dir` from `loc` to which an impulse of the puyo at
    /// `loc` passes, if it passes. The impulse itself scales by the board's
    /// impact falloff on the way.
    pub open spec fn spec_apply_dir_to_loc(&self, dir: Dir, loc: (usize, usize)) -> Option<
        (usize, usize),
    > {
        match spec_step(dir, loc) {
            Some(o) => if self.has(loc) && self.has(o) && spec_impulse_passes(
                self.spec_at(loc)->0,
                self.spec_at(o)->0,
                dir,
            ) {
                Some(o)
            } else {
                None
            },
            None => None,
        }
    }

    /// The cell in direction `dir` from `loc` to which an impulse of the puyo at
    /// `loc` passes, if it passes.
    pub fn apply_dir_to_loc(&self, dir: Dir, loc: (usize, usize)) -> (r: Option<(usize, usize)>)
        requires
            !(dir == Dir::R && loc.0 == usize::MAX),
            !(dir == Dir::U && loc.1 == usize::MAX),
        ensures
            r == self.spec_apply_dir_to_loc(dir, loc),
    {
        let o = match dir + loc {
            Some(o) => o,
            None => {
                return None;
            },
        };
        let a = match self.get_at(loc) {
            Some(a) => a,
            None => {
                return None;
            },
        };
        let b = match self.get_at(o) {
            Some(b) => b,
            None => {
                return None;
            },
        };
        match (a.kind, b.kind, dir) {
            (_, _, Dir::U) => None,
            (PuyoType::NuisanceBL, PuyoType::NuisanceBR, Dir::R)
            | (PuyoType::NuisanceBR, PuyoType::NuisanceBL, Dir::L)
            | (PuyoType::NuisanceTL, PuyoType::NuisanceBL, Dir::D)
            | (PuyoType::NuisanceTR, PuyoType::NuisanceBR, Dir::D)
            | (PuyoType::NuisanceTL, PuyoType::NuisanceTR, Dir::R)
            | (PuyoType::NuisanceTR, PuyoType::NuisanceTL, Dir::L) => Some(o),
            (ak, bk, d) => {
                if ak.is_nuisance() || bk.is_nuisance() {
                    None
                } else if d == Dir::D {
                    Some(o)
                } else {
                    let a_calm = match a.state {
                        SPState::Still(..) | SPState::Physics(SPPhysics::Jiggle(..)) => true,
                        _ => false,
                    };
                    let b_calm = match b.state {
                        SPState::Still(..) | SPState::Physics(SPPhysics::Jiggle(..)) => true,
                        _ => false,
                    };
                    if a_calm && b_calm && ak == bk {
                        Some(o)
                    } else {
                        None
                    }
                }
            },
        }
    }
}

/// Sideways, an impulse passes from one puyo to its neighbour exactly when it
/// passes back.
pub proof fn lemma_sideways_impulse_symmetric(board: &SBoard, a: (usize, usize), b: (usize, usize))
    requires
        spec_step(Dir::R, a) == Some(b),
    ensures
        board.spec_apply_dir_to_loc(Dir::R, a) == Some(b) <==> board.spec_apply_dir_to_loc(
            Dir::L,
            b,
        ) == Some(a),
{
    crate::dir::lemma_step_undone(Dir::R, a);
}

/// An impulse never passes upwards.
pub proof fn lemma_no_impulse_upwards(board: &SBoard, loc: (usize, usize))
    ensures
        board.spec_apply_dir_to_loc(Dir::U, loc) is None,
{
}

/// Whether `t` is a quarter of a big nuisance puyo.
pub open spec fn is_big_quarter(t: PuyoType) -> bool {
    t == PuyoType::NuisanceBL || t == PuyoType::NuisanceBR || t == PuyoType::NuisanceTL || t
        == PuyoType::NuisanceTR
}

/// How an impulse passes from the puyo at `loc` to its neighbour `o` in `dir`:
/// sideways, never between puyos of different kinds unless both are quarters
/// of a big nuisance puyo, and never from or to a falling puyo; sideways
/// between two resting or jiggling coloured puyos of one colour, always;
/// downwards between any two coloured puyos, always; never to or from a small
/// nuisance puyo.
pub proof fn lemma_impulse_rules(board: &SBoard, dir: Dir, loc: (usize, usize), o: (usize, usize))
    requires
        spec_step(dir, loc) == Some(o),
        board.has(loc),
        board.has(o),
    ensures
        ({
            let a = board.spec_at(loc)->0;
            let b = board.spec_at(o)->0;
            let calm_a = a.state is Still || a.state matches SPState::Physics(SPPhysics::Jiggle(_));
            let calm_b = b.state is Still || b.state matches SPState::Physics(SPPhysics::Jiggle(_));
            let r = board.spec_apply_dir_to_loc(dir, loc);
            &&& r is Some ==> r == Some(o)
            &&& (dir == Dir::L || dir == Dir::R) && a.kind != b.kind && !(is_big_quarter(a.kind)
                && is_big_quarter(b.kind)) ==> r is None
            &&& (dir == Dir::L || dir == Dir::R) && !spec_is_nuisance(a.kind) && a.kind == b.kind
                && calm_a && calm_b ==> r == Some(o)
            &&& (dir == Dir::L || dir == Dir::R) && (!calm_a || !calm_b) && !is_big_quarter(a.kind)
                ==> r is None
            &&& dir == Dir::D && !spec_is_nuisance(a.kind) && !spec_is_nuisance(b.kind) ==> r
                == Some(o)
            &&& (a.kind == PuyoType::Nuisance || b.kind == PuyoType::Nuisance) ==> r is None
        }),
{
}

} // verus!
