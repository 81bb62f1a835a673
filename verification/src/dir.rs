use core::ops::Neg;
use vstd::prelude::*;

verus! {

/// One of the four directions between neighbouring cells of a board.
/// Columns grow to the right (`R`), rows grow upwards (`U`).
#[derive(Clone, Copy, PartialEq, Eq, Structural, Debug)]
pub enum Dir {
    U,
    D,
    L,
    R,
}

/// The direction pointing the other way.
pub open spec fn spec_opposite(d: Dir) -> Dir {
    match d {
        Dir::U => Dir::D,
        Dir::D => Dir::U,
        Dir::L => Dir::R,
        Dir::R => Dir::L,
    }
}

/// The cell one step from `loc` in direction `d`, if it is a cell
/// (no column left of `0`, no row below `0`, no index past `usize::MAX`).
pub open spec fn spec_step(d: Dir, loc: (usize, usize)) -> Option<(usize, usize)> {
    let (col, row) = loc;
    match d {
        Dir::L => if col == 0 { None } else { Some(((col - 1) as usize, row)) },
        Dir::D => if row == 0 { None } else { Some((col, (row - 1) as usize)) },
        Dir::R => if col == usize::MAX { None } else { Some(((col + 1) as usize, row)) },
        Dir::U => if row == usize::MAX { None } else { Some((col, (row + 1) as usize)) },
    }
}

/// The three other directions, clockwise starting from the one after `d`.
pub open spec fn spec_others(d: Dir) -> Seq<Dir> {
    match d {
        Dir::U => seq![Dir::R, Dir::D, Dir::L],
        Dir::R => seq![Dir::D, Dir::L, Dir::U],
        Dir::D => seq![Dir::L, Dir::U, Dir::R],
        Dir::L => seq![Dir::U, Dir::R, Dir::D],
    }
}

impl core::ops::Neg for Dir {
    type Output = Dir;

    fn neg(self) -> (r: Dir) {
        match self {
            Dir::U => Dir::D,
            Dir::D => Dir::U,
            Dir::L => Dir::R,
            Dir::R => Dir::L,
        }
    }
}

impl vstd::std_specs::ops::NegSpecImpl for Dir {
    open spec fn obeys_neg_spec() -> bool {
        true
    }

    open spec fn neg_req(self) -> bool {
        true
    }

    open spec fn neg_spec(self) -> Dir {
        spec_opposite(self)
    }
}

impl core::ops::Add<(usize, usize)> for Dir {
    type Output = Option<(usize, usize)>;

    /// Steps from `rhs` one cell in this direction.
    fn add(self, rhs: (usize, usize)) -> (r: Option<(usize, usize)>) {
        let (col, row) = rhs;
        match self {
            Dir::L => if col == 0 { None } else { Some((col - 1, row)) },
            Dir::D => if row == 0 { None } else { Some((col, row - 1)) },
            Dir::R => Some((col + 1, row)),
            Dir::U => Some((col, row + 1)),
        }
    }
}

impl vstd::std_specs::ops::AddSpecImpl<(usize, usize)> for Dir {
    open spec fn obeys_add_spec() -> bool {
        true
    }

    /// A step right or up from the last column or row would overflow.
    open spec fn add_req(self, rhs: (usize, usize)) -> bool {
        !(self == Dir::R && rhs.0 == usize::MAX) && !(self == Dir::U && rhs.1 == usize::MAX)
    }

    open spec fn add_spec(self, rhs: (usize, usize)) -> Option<(usize, usize)> {
        spec_step(self, rhs)
    }
}

impl Dir {
    /// The direction pointing the other way (the same as `-self`).
    pub fn opposite(self) -> (r: Dir)
        ensures
            r == spec_opposite(self),
    {
        self.neg()
    }

    /// The three other directions, clockwise starting after `self`.
    pub fn others(self) -> (r: [Dir; 3])
        ensures
            r@ == spec_others(self),
    {
        let r = match self {
            Dir::U => [Dir::R, Dir::D, Dir::L],
            Dir::R => [Dir::D, Dir::L, Dir::U],
            Dir::D => [Dir::L, Dir::U, Dir::R],
            Dir::L => [Dir::U, Dir::R, Dir::D],
        };
        proof {
            assert(r@ =~= spec_others(self));
        }
        r
    }

    /// The arrow that shows this direction: `↑`, `↓`, `←` or `→`.
    pub fn arrow(self) -> (c: char)
        ensures
            c == match self {
                Dir::U => '↑',
                Dir::D => '↓',
                Dir::L => '←',
                Dir::R => '→',
            },
    {
        match self {
            Dir::U => '↑',
            Dir::D => '↓',
            Dir::L => '←',
            Dir::R => '→',
        }
    }
}

/// Turning around twice gives back the direction one started with.
pub proof fn lemma_opposite_involutive(d: Dir)
    ensures
        spec_opposite(spec_opposite(d)) == d,
{
}

/// The other directions of `d` are exactly the three directions that are not `d`,
/// each once.
pub proof fn lemma_others_are_the_rest(d: Dir, e: Dir)
    ensures
        spec_others(d).len() == 3,
        spec_others(d).contains(e) <==> e != d,
        spec_others(d)[0] != spec_others(d)[1],
        spec_others(d)[1] != spec_others(d)[2],
        spec_others(d)[0] != spec_others(d)[2],
{
    if e != d {
        let s = spec_others(d);
        assert(s.contains(e)) by {
            if s[0] == e {
            } else if s[1] == e {
            } else {
                assert(s[2] == e);
            }
        }
    }
}

/// A step that lands on a cell is undone by a step the other way.
pub proof fn lemma_step_undone(d: Dir, loc: (usize, usize))
    requires
        spec_step(d, loc) is Some,
    ensures
        spec_step(spec_opposite(d), spec_step(d, loc)->0) == Some(loc),
{
}

} // verus!
