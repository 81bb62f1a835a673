use vstd::prelude::*;

verus! {

/// The kinds of puyo. The four `Nuisance??` kinds are the quarters of a big
/// nuisance puyo: bottom-left, top-left, bottom-right and top-right.
#[derive(Clone, Copy, PartialEq, Eq, Structural, Debug, Hash)]
pub enum PuyoType {
    Nuisance,
    NuisanceBL,
    NuisanceTL,
    NuisanceBR,
    NuisanceTR,
    Red,
    Green,
    Blue,
    Yellow,
    Purple,
}

impl Default for PuyoType {
    /// A small nuisance puyo.
    fn default() -> (r: PuyoType)
        ensures
            r == PuyoType::Nuisance,
    {
        PuyoType::Nuisance
    }
}

/// A direction from one puyo to its neighbour.
#[derive(Clone, Copy, PartialEq, Eq, Structural, Debug, Hash)]
pub enum Direction {
    Up,
    Down,
    Left,
    Right,
}

/// Nuisance puyos, small or a quarter of a big one.
pub open spec fn spec_is_nuisance(t: PuyoType) -> bool {
    match t {
        PuyoType::Nuisance | PuyoType::NuisanceBL | PuyoType::NuisanceTL | PuyoType::NuisanceBR
        | PuyoType::NuisanceTR => true,
        _ => false,
    }
}

/// Two quarters of one big nuisance puyo that sit side by side in `direction`.
pub open spec fn spec_big_nuisance_halves(a: PuyoType, b: PuyoType, direction: Direction) -> bool {
    ||| (a, b, direction) == (PuyoType::NuisanceBL, PuyoType::NuisanceBR, Direction::Right)
    ||| (a, b, direction) == (PuyoType::NuisanceBR, PuyoType::NuisanceBL, Direction::Left)
    ||| (a, b, direction) == (PuyoType::NuisanceTL, PuyoType::NuisanceTR, Direction::Right)
    ||| (a, b, direction) == (PuyoType::NuisanceTR, PuyoType::NuisanceTL, Direction::Left)
    ||| (a, b, direction) == (PuyoType::NuisanceBL, PuyoType::NuisanceTL, Direction::Up)
    ||| (a, b, direction) == (PuyoType::NuisanceTL, PuyoType::NuisanceBL, Direction::Down)
    ||| (a, b, direction) == (PuyoType::NuisanceBR, PuyoType::NuisanceTR, Direction::Up)
    ||| (a, b, direction) == (PuyoType::NuisanceTR, PuyoType::NuisanceBR, Direction::Down)
}

/// A jiggle spreads between the quarters of one big nuisance puyo, and
/// between two coloured puyos of the same colour; never otherwise.
pub open spec fn spec_spreads_jiggle(a: PuyoType, b: PuyoType, direction: Direction) -> bool {
    spec_big_nuisance_halves(a, b, direction) || (!spec_is_nuisance(a) && !spec_is_nuisance(
        b,
    ) && a == b)
}

/// The direction pointing the other way.
pub open spec fn spec_direction_opposite(d: Direction) -> Direction {
    match d {
        Direction::Up => Direction::Down,
        Direction::Down => Direction::Up,
        Direction::Left => Direction::Right,
        Direction::Right => Direction::Left,
    }
}

impl PuyoType {
    /// Whether this is a nuisance puyo (small, or a quarter of a big one).
    pub fn is_nuisance(&self) -> (r: bool)
        ensures
            r == spec_is_nuisance(*self),
    {
        match self {
            PuyoType::Nuisance | PuyoType::NuisanceBL | PuyoType::NuisanceTL
            | PuyoType::NuisanceBR | PuyoType::NuisanceTR => true,
            _ => false,
        }
    }

    /// The puyo as a terminal shows it: a dot in its colour (a quarter of a dot
    /// for a quarter of a big nuisance puyo), with the colour reset after it.
    pub fn colored(&self) -> (r: &'static str)
        ensures
            r@ == match *self {
                PuyoType::Nuisance => "\x1B[0m●\x1B[0m"@,
                PuyoType::NuisanceBL => "\x1B[0m𜰹\x1B[0m"@,
                PuyoType::NuisanceBR => "\x1B[0m𜰺\x1B[0m"@,
                PuyoType::NuisanceTL => "\x1B[0m𜰵\x1B[0m"@,
                PuyoType::NuisanceTR => "\x1B[0m𜰶\x1B[0m"@,
                PuyoType::Green => "\x1B[92m●\x1B[0m"@,
                PuyoType::Red => "\x1B[91m●\x1B[0m"@,
                PuyoType::Blue => "\x1B[94m●\x1B[0m"@,
                PuyoType::Yellow => "\x1B[93m●\x1B[0m"@,
                PuyoType::Purple => "\x1B[35m●\x1B[0m"@,
            },
    {
        match self {
            PuyoType::Nuisance => "\x1B[0m●\x1B[0m",
            PuyoType::NuisanceBL => "\x1B[0m𜰹\x1B[0m",
            PuyoType::NuisanceBR => "\x1B[0m𜰺\x1B[0m",
            PuyoType::NuisanceTL => "\x1B[0m𜰵\x1B[0m",
            PuyoType::NuisanceTR => "\x1B[0m𜰶\x1B[0m",
            PuyoType::Green => "\x1B[92m●\x1B[0m",
            PuyoType::Red => "\x1B[91m●\x1B[0m",
            PuyoType::Blue => "\x1B[94m●\x1B[0m",
            PuyoType::Yellow => "\x1B[93m●\x1B[0m",
            PuyoType::Purple => "\x1B[35m●\x1B[0m",
        }
    }

    /// Whether a jiggle of this puyo spreads to `other`, its neighbour in `direction`.
    pub fn spreads_jiggle(&self, other: Self, direction: Direction) -> (r: bool)
        ensures
            r == spec_spreads_jiggle(*self, other, direction),
    {
        match (*self, other, direction) {
            (PuyoType::NuisanceBL, PuyoType::NuisanceBR, Direction::Right)
            | (PuyoType::NuisanceBR, PuyoType::NuisanceBL, Direction::Left)
            | (PuyoType::NuisanceTL, PuyoType::NuisanceTR, Direction::Right)
            | (PuyoType::NuisanceTR, PuyoType::NuisanceTL, Direction::Left)
            | (PuyoType::NuisanceBL, PuyoType::NuisanceTL, Direction::Up)
            | (PuyoType::NuisanceTL, PuyoType::NuisanceBL, Direction::Down)
            | (PuyoType::NuisanceBR, PuyoType::NuisanceTR, Direction::Up)
            | (PuyoType::NuisanceTR, PuyoType::NuisanceBR, Direction::Down) => true,
            (a, b, _) => {
                if a.is_nuisance() || b.is_nuisance() {
                    false
                } else {
                    a == b
                }
            },
        }
    }
}

/// A jiggle spreads from `a` to its neighbour `b` exactly when it spreads
/// back from `b` to `a`.
pub proof fn lemma_spreads_jiggle_symmetric(a: PuyoType, b: PuyoType, direction: Direction)
    ensures
        spec_spreads_jiggle(a, b, direction) == spec_spreads_jiggle(
            b,
            a,
            spec_direction_opposite(direction),
        ),
{
}

/// Nothing spreads a jiggle to or from a small nuisance puyo.
pub proof fn lemma_small_nuisance_isolated(t: PuyoType, direction: Direction)
    ensures
        !spec_spreads_jiggle(PuyoType::Nuisance, t, direction),
        !spec_spreads_jiggle(t, PuyoType::Nuisance, direction),
{
}

} // verus!
