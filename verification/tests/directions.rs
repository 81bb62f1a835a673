use puyo_screensaver::dir::Dir;
use puyo_screensaver::puyo_chara::{Direction, PuyoType};
use puyo_screensaver::puyo_chara::PuyoType::{
    Blue, Green, Nuisance, NuisanceBL, NuisanceBR, NuisanceTL, NuisanceTR, Purple, Red, Yellow,
};

const ALL_DIRS: [Dir; 4] = [Dir::U, Dir::D, Dir::L, Dir::R];

const ALL_TYPES: [PuyoType; 10] = [
    PuyoType::Nuisance,
    PuyoType::NuisanceBL,
    PuyoType::NuisanceTL,
    PuyoType::NuisanceBR,
    PuyoType::NuisanceTR,
    PuyoType::Red,
    PuyoType::Green,
    PuyoType::Blue,
    PuyoType::Yellow,
    PuyoType::Purple,
];

const ALL_DIRECTIONS: [Direction; 4] =
    [Direction::Up, Direction::Down, Direction::Left, Direction::Right];

fn opposite_direction(d: Direction) -> Direction {
    match d {
        Direction::Up => Direction::Down,
        Direction::Down => Direction::Up,
        Direction::Left => Direction::Right,
        Direction::Right => Direction::Left,
    }
}

#[test]
fn negation_turns_around() {
    assert_eq!(-Dir::U, Dir::D);
    assert_eq!(-Dir::D, Dir::U);
    assert_eq!(-Dir::L, Dir::R);
    assert_eq!(-Dir::R, Dir::L);
    for d in ALL_DIRS {
        assert_eq!(-(-d), d);
        assert_eq!(d.opposite(), -d);
    }
}

#[test]
fn others_go_clockwise() {
    assert_eq!(Dir::U.others(), [Dir::R, Dir::D, Dir::L]);
    assert_eq!(Dir::R.others(), [Dir::D, Dir::L, Dir::U]);
    assert_eq!(Dir::D.others(), [Dir::L, Dir::U, Dir::R]);
    assert_eq!(Dir::L.others(), [Dir::U, Dir::R, Dir::D]);
    for d in ALL_DIRS {
        let others = d.others();
        assert!(!others.contains(&d));
        for e in ALL_DIRS {
            if e != d {
                assert!(others.contains(&e));
            }
        }
    }
}

#[test]
fn stepping_between_cells() {
    assert_eq!(Dir::L + (0, 4), None);
    assert_eq!(Dir::D + (3, 0), None);
    assert_eq!(Dir::L + (3, 4), Some((2, 4)));
    assert_eq!(Dir::R + (3, 4), Some((4, 4)));
    assert_eq!(Dir::U + (3, 4), Some((3, 5)));
    assert_eq!(Dir::D + (3, 4), Some((3, 3)));
}

#[test]
fn a_step_back_undoes_a_step() {
    for d in ALL_DIRS {
        for loc in [(0usize, 0usize), (1, 0), (0, 1), (5, 7)] {
            if let Some(o) = d + loc {
                assert_eq!(-d + o, Some(loc));
            }
        }
    }
}

#[test]
fn arrows() {
    assert_eq!(Dir::U.arrow(), '↑');
    assert_eq!(Dir::D.arrow(), '↓');
    assert_eq!(Dir::L.arrow(), '←');
    assert_eq!(Dir::R.arrow(), '→');
}

#[test]
fn jiggles_spread_between_big_nuisance_quarters() {
    assert!(NuisanceBL.spreads_jiggle(NuisanceBR, Direction::Right));
    assert!(NuisanceBR.spreads_jiggle(NuisanceBL, Direction::Left));
    assert!(NuisanceTL.spreads_jiggle(NuisanceTR, Direction::Right));
    assert!(NuisanceTR.spreads_jiggle(NuisanceTL, Direction::Left));
    assert!(NuisanceBL.spreads_jiggle(NuisanceTL, Direction::Up));
    assert!(NuisanceTL.spreads_jiggle(NuisanceBL, Direction::Down));
    assert!(NuisanceBR.spreads_jiggle(NuisanceTR, Direction::Up));
    assert!(NuisanceTR.spreads_jiggle(NuisanceBR, Direction::Down));
    assert!(!NuisanceBL.spreads_jiggle(NuisanceBR, Direction::Left));
    assert!(!NuisanceBL.spreads_jiggle(NuisanceBL, Direction::Right));
    assert!(!NuisanceTR.spreads_jiggle(NuisanceBL, Direction::Down));
}

#[test]
fn jiggles_spread_between_puyos_of_one_colour() {
    assert!(Red.spreads_jiggle(Red, Direction::Up));
    assert!(Blue.spreads_jiggle(Blue, Direction::Left));
    assert!(!Red.spreads_jiggle(Blue, Direction::Up));
    assert!(!Nuisance.spreads_jiggle(Nuisance, Direction::Up));
    assert!(!Red.spreads_jiggle(Nuisance, Direction::Down));
    assert!(!Green.spreads_jiggle(NuisanceBL, Direction::Right));
}

#[test]
fn jiggle_spreading_is_symmetric() {
    for a in ALL_TYPES {
        for b in ALL_TYPES {
            for d in ALL_DIRECTIONS {
                assert_eq!(
                    a.spreads_jiggle(b, d),
                    b.spreads_jiggle(a, opposite_direction(d))
                );
            }
        }
    }
}

#[test]
fn nuisance_kinds() {
    for t in [Nuisance, NuisanceBL, NuisanceTL, NuisanceBR, NuisanceTR] {
        assert!(t.is_nuisance());
    }
    for t in [Red, Green, Blue, Yellow, Purple] {
        assert!(!t.is_nuisance());
    }
}
