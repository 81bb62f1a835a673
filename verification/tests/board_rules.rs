use puyo_screensaver::board::{F32Bits, SBState, SBoard, SPFall, SPJiggle, SPPhysics, SPState, SPuyo};
use puyo_screensaver::dir::Dir;
use puyo_screensaver::main_loop::{
    board_banish, chain_power, kind_of_roll, roll_column, spawn_plan, spawn_random, NextUp,
    OwanimoCast, SpawnSlot, WhyImpossible, SPAWN_ROWS,
};
use puyo_screensaver::puyo_chara::PuyoType;
use puyo_screensaver::puyo_chara::PuyoType::{
    Blue, Green, Nuisance, NuisanceBL, NuisanceBR, NuisanceTL, NuisanceTR, Purple, Red, Yellow,
};
use rand::rngs::SmallRng;
use rand::SeedableRng;

fn still(kind: PuyoType, entity: u64) -> SPuyo {
    SPuyo { kind, entity, state: SPState::default() }
}

fn with_state(kind: PuyoType, entity: u64, state: SPState) -> SPuyo {
    SPuyo { kind, entity, state }
}

fn board(columns: Vec<Vec<SPuyo>>, state: SBState) -> SBoard {
    SBoard { score: 0, chain: 0, columns, state }
}

fn falling() -> SPState {
    SPState::Physics(SPPhysics::Fall(SPFall { velocity: F32Bits { bits: 0 } }))
}

fn jiggling() -> SPState {
    SPState::new_jiggle(F32Bits { bits: 0x4000_0000 })
}

/// A board of three columns:
/// column 0: Red, Red, Nuisance
/// column 1: Red, Blue
/// column 2: (empty)
fn sample() -> SBoard {
    board(
        vec![
            vec![still(Red, 1), still(Red, 2), still(Nuisance, 3)],
            vec![still(Red, 4), still(Blue, 5)],
            vec![],
        ],
        SBState::Still,
    )
}

#[test]
fn f32_bits_constants() {
    assert_eq!(F32Bits::zero().bits, 0.0f32.to_bits());
    assert_eq!(F32Bits::one().bits, 1.0f32.to_bits());
}

#[test]
fn state_constructors() {
    assert_eq!(SPState::new_falling(), falling());
    assert_eq!(SPState::new_banishing(), SPState::Banish(puyo_screensaver::board::SPBanish {}));
    assert_eq!(
        SPState::new_jiggle(F32Bits { bits: 7 }),
        SPState::Physics(SPPhysics::Jiggle(SPJiggle {
            momentum: F32Bits { bits: 7 },
            offset: F32Bits { bits: 0 },
            life: F32Bits { bits: 1.0f32.to_bits() },
        }))
    );
    assert_eq!(SPState::default(), SPState::Still(puyo_screensaver::board::SPStill {}));
    assert_eq!(SBState::default(), SBState::Still);
}

#[test]
fn new_board_is_empty() {
    let b = SBoard::new(10);
    assert_eq!(b.columns.len(), 10);
    assert!(b.columns.iter().all(|c| c.is_empty()));
    assert_eq!(b.score, 0);
    assert_eq!(b.chain, 0);
    assert_eq!(b.state, SBState::Still);
}

#[test]
fn lookups() {
    let mut b = sample();
    assert_eq!(b.get_at((0, 2)).map(|p| p.entity), Some(3));
    assert_eq!(b.get_at((1, 2)), None);
    assert_eq!(b.get_at((3, 0)), None);
    if let Some(p) = b.get_mut_at((1, 1)) {
        p.state = SPState::new_banishing();
    }
    assert_eq!(b.columns[1][1].state, SPState::new_banishing());
    assert!(b.get_mut_at((2, 0)).is_none());
}

#[test]
fn tiles_lists_every_puyo_once() {
    let b = sample();
    assert_eq!(b.tiles(), vec![(0, 0), (0, 1), (0, 2), (1, 0), (1, 1)]);
    assert_eq!(SBoard::new(3).tiles(), vec![]);
}

#[test]
fn connections_and_colours() {
    let b = sample();
    assert!(b.connects(&(0, 0), &(0, 1)));
    assert!(b.connects(&(0, 0), &(1, 0)));
    assert!(b.connects(&(1, 0), &(0, 0)));
    assert!(!b.connects(&(0, 1), &(1, 1)));
    assert!(!b.connects(&(0, 2), &(0, 2)));
    assert!(!b.connects(&(0, 0), &(2, 0)));
    assert!(b.nuisance(&(0, 2)));
    assert!(!b.nuisance(&(0, 0)));
    assert!(!b.nuisance(&(5, 5)));
    assert_eq!(b.color(&(0, 0)), Some(PuyoType::Red));
    assert_eq!(b.color(&(1, 1)), Some(PuyoType::Blue));
    assert_eq!(b.color(&(0, 2)), None);
    assert_eq!(b.color(&(2, 0)), None);
}

#[test]
fn neighbours_left_right_below_above() {
    let b = sample();
    assert_eq!(b.neighbors(&(0, 0)), vec![(1, 0), (0, 1)]);
    assert_eq!(b.neighbors(&(0, 1)), vec![(1, 1), (0, 0), (0, 2)]);
    assert_eq!(b.neighbors(&(1, 1)), vec![(0, 1), (1, 0)]);
    assert_eq!(b.neighbors(&(2, 0)), vec![(1, 0)]);
    // neighbourhood goes both ways
    for a in b.tiles() {
        for n in b.neighbors(&a) {
            assert!(b.neighbors(&n).contains(&a));
        }
    }
}

#[test]
fn banishing_needs_a_banishing_board() {
    let mut b = sample();
    let (next, gone) = board_banish(&mut b, true);
    assert_eq!(next, NextUp::Impossible(WhyImpossible::BanishingWhenNotBanishing));
    assert!(gone.is_empty());
    assert_eq!(b.columns, sample().columns);
}

#[test]
fn banishing_waits_for_the_animation() {
    let mut b = sample();
    b.state = SBState::Banish { life: F32Bits { bits: 0.5f32.to_bits() } };
    b.columns[0][0].state = SPState::new_banishing();
    let before = b.columns.clone();
    let (next, gone) = board_banish(&mut b, false);
    assert_eq!(next, NextUp::Continue);
    assert!(gone.is_empty());
    assert_eq!(b.columns, before);
}

#[test]
fn banishing_with_a_moving_puyo_is_impossible() {
    let mut b = sample();
    b.state = SBState::Banish { life: F32Bits::zero() };
    b.columns[1][0].state = falling();
    let before = b.columns.clone();
    let (next, gone) = board_banish(&mut b, true);
    assert_eq!(next, NextUp::Impossible(WhyImpossible::PuyoPhysicsInBanishUpdate));
    assert!(gone.is_empty());
    assert_eq!(b.columns, before);
}

#[test]
fn banishing_removes_and_drops() {
    let banish = SPState::new_banishing();
    let mut b = board(
        vec![
            vec![still(Red, 1), with_state(Red, 2, banish), still(Blue, 3), still(Green, 4)],
            vec![with_state(Blue, 5, banish), with_state(Blue, 6, banish)],
            vec![still(Yellow, 7)],
        ],
        SBState::Banish { life: F32Bits::zero() },
    );
    b.score = 40;
    b.chain = 1;
    let (next, gone) = board_banish(&mut b, true);
    assert_eq!(next, NextUp::StartPhysics);
    assert_eq!(gone, vec![2, 5, 6]);
    assert_eq!(
        b.columns,
        vec![
            vec![still(Red, 1), with_state(Blue, 3, falling()), with_state(Green, 4, falling())],
            vec![],
            vec![still(Yellow, 7)],
        ]
    );
    assert_eq!(b.score, 40);
    assert_eq!(b.chain, 1);
    assert_eq!(b.state, SBState::Banish { life: F32Bits::zero() });
    // nothing is left to banish
    assert!(b.columns.iter().flatten().all(|p| !matches!(p.state, SPState::Banish(..))));
}

#[test]
fn banishing_nothing_comes_to_rest() {
    let mut b = sample();
    b.state = SBState::Banish { life: F32Bits::zero() };
    let (next, gone) = board_banish(&mut b, true);
    assert_eq!(next, NextUp::Still);
    assert!(gone.is_empty());
    assert_eq!(b.columns, sample().columns);
}

#[test]
fn following_next_up() {
    let mut b = sample();
    assert!(!b.follow_next_up(NextUp::Continue));
    assert_eq!(b.state, SBState::Still);
    assert!(!b.follow_next_up(NextUp::StartPhysics));
    assert_eq!(b.state, SBState::Physics);
    assert!(b.follow_next_up(NextUp::CastOwanimo));
    assert_eq!(b.state, SBState::Physics);
    assert!(!b.follow_next_up(NextUp::Still));
    assert_eq!(b.state, SBState::Still);
    assert_eq!(b.columns, sample().columns);
}

#[test]
fn a_cast_without_groups_comes_to_rest() {
    let mut b = sample();
    b.state = SBState::Physics;
    assert_eq!(b.cast_owanimo(None), NextUp::Still);
    assert_eq!(b.state, SBState::Physics);
    assert_eq!(b.score, 0);
}

#[test]
fn a_cast_scores_and_banishes() {
    let mut b = sample();
    b.score = 100;
    b.chain = 2;
    let cast = OwanimoCast { groups: vec![vec![(0, 0), (0, 1), (1, 0)], vec![(9, 9)]], score: (30, 12) };
    assert_eq!(b.cast_owanimo(Some(cast)), NextUp::Continue);
    assert_eq!(b.score, 100 + 30 * 12);
    assert_eq!(b.chain, 3);
    assert_eq!(b.state, SBState::Banish { life: F32Bits::one() });
    let banish = SPState::new_banishing();
    assert_eq!(b.columns[0][0].state, banish);
    assert_eq!(b.columns[0][1].state, banish);
    assert_eq!(b.columns[1][0].state, banish);
    assert_eq!(b.columns[0][2].state, SPState::default());
    assert_eq!(b.columns[1][1].state, SPState::default());
    assert_eq!(b.columns[0][0].entity, 1);
}

#[test]
fn chain_power_table() {
    assert_eq!(chain_power(0), 0);
    assert_eq!(chain_power(1), 8);
    assert_eq!(chain_power(2), 16);
    assert_eq!(chain_power(3), 32);
    assert_eq!(chain_power(10), 256);
    assert_eq!(chain_power(23), 672);
    assert_eq!(chain_power(24), 672);
    assert_eq!(chain_power(usize::MAX), 672);
    for c in 0..40 {
        assert!(chain_power(c) <= chain_power(c + 1));
    }
}

#[test]
fn impulses_between_puyos() {
    let b = board(
        vec![
            vec![still(Red, 1), still(Blue, 2), still(NuisanceBL, 3), still(NuisanceTL, 4)],
            vec![still(Red, 5), with_state(Blue, 6, falling()), still(NuisanceBR, 7), still(NuisanceTR, 8)],
            vec![with_state(Red, 9, jiggling()), still(Green, 10), still(Nuisance, 11)],
        ],
        SBState::Physics,
    );
    // never upwards
    assert_eq!(b.apply_dir_to_loc(Dir::U, (0, 0)), None);
    // downwards between any coloured puyos
    assert_eq!(b.apply_dir_to_loc(Dir::D, (0, 1)), Some((0, 0)));
    assert_eq!(b.apply_dir_to_loc(Dir::D, (1, 1)), Some((1, 0)));
    // sideways between resting or jiggling puyos of one colour
    assert_eq!(b.apply_dir_to_loc(Dir::R, (0, 0)), Some((1, 0)));
    assert_eq!(b.apply_dir_to_loc(Dir::L, (1, 0)), Some((0, 0)));
    assert_eq!(b.apply_dir_to_loc(Dir::R, (1, 0)), Some((2, 0)));
    assert_eq!(b.apply_dir_to_loc(Dir::R, (0, 1)), None);
    assert_eq!(b.apply_dir_to_loc(Dir::R, (1, 1)), None);
    // between the quarters of a big nuisance puyo
    assert_eq!(b.apply_dir_to_loc(Dir::R, (0, 2)), Some((1, 2)));
    assert_eq!(b.apply_dir_to_loc(Dir::L, (1, 3)), Some((0, 3)));
    assert_eq!(b.apply_dir_to_loc(Dir::D, (0, 3)), Some((0, 2)));
    assert_eq!(b.apply_dir_to_loc(Dir::U, (0, 2)), None);
    // never otherwise to or from a nuisance puyo
    assert_eq!(b.apply_dir_to_loc(Dir::D, (0, 2)), None);
    assert_eq!(b.apply_dir_to_loc(Dir::R, (1, 2)), None);
    // not beyond the board
    assert_eq!(b.apply_dir_to_loc(Dir::L, (0, 0)), None);
    assert_eq!(b.apply_dir_to_loc(Dir::D, (2, 0)), None);
    assert_eq!(b.apply_dir_to_loc(Dir::R, (2, 0)), None);
}

#[test]
fn die_rolls_and_kinds() {
    assert_eq!(kind_of_roll(0), Some(PuyoType::Nuisance));
    assert_eq!(kind_of_roll(1), Some(PuyoType::Red));
    assert_eq!(kind_of_roll(2), Some(PuyoType::Green));
    assert_eq!(kind_of_roll(3), Some(PuyoType::Blue));
    assert_eq!(kind_of_roll(4), Some(PuyoType::Yellow));
    assert_eq!(kind_of_roll(5), Some(PuyoType::Purple));
    assert_eq!(kind_of_roll(6), None);
}

#[test]
fn a_column_plan_falls_above_a_gap() {
    let plan = spawn_plan(&vec![1, 0, 6, 3, 6, 5]);
    assert_eq!(
        plan,
        vec![
            SpawnSlot { row: 0, kind: Red, falling: false },
            SpawnSlot { row: 1, kind: Nuisance, falling: false },
            SpawnSlot { row: 3, kind: Blue, falling: true },
            SpawnSlot { row: 5, kind: Purple, falling: true },
        ]
    );
    assert!(spawn_plan(&vec![]).is_empty());
    assert!(spawn_plan(&vec![6, 6]).is_empty());
}

#[test]
fn rolled_columns() {
    let mut rng = SmallRng::seed_from_u64(7);
    let rolls = roll_column(&mut rng, SPAWN_ROWS);
    assert_eq!(rolls.len(), 24);
    assert!(rolls.iter().all(|r| *r < 7));
    // seven faces, over many rolls each one shows up
    let many = roll_column(&mut rng, 2000);
    for face in 0..7u32 {
        assert!(many.contains(&face));
    }
}

#[test]
fn filling_a_board_anew() {
    let mut b = sample();
    b.score = 77;
    b.chain = 4;
    b.state = SBState::Still;
    let plans = vec![
        spawn_plan(&vec![2, 6, 4]),
        spawn_plan(&vec![6]),
        spawn_plan(&vec![5]),
    ];
    let entities = vec![vec![10, 11], vec![], vec![12]];
    let (next, gone) = spawn_random(&mut b, &plans, &entities);
    assert_eq!(next, NextUp::StartPhysics);
    assert_eq!(gone, vec![1, 2, 3, 4, 5]);
    assert_eq!(b.score, 0);
    assert_eq!(b.chain, 0);
    assert_eq!(b.state, SBState::Still);
    assert_eq!(
        b.columns,
        vec![
            vec![still(Green, 10), with_state(Yellow, 11, falling())],
            vec![],
            vec![still(Purple, 12)],
        ]
    );
}

#[test]
fn default_kind_is_a_small_nuisance() {
    assert_eq!(PuyoType::default(), Nuisance);
}

#[test]
fn popped_groups_disappear() {
    let mut b = board(
        vec![
            vec![still(Red, 1), still(Red, 2), still(Blue, 3)],
            vec![still(Red, 4), still(Red, 5), still(Nuisance, 6)],
            vec![still(Green, 7)],
        ],
        SBState::Physics,
    );
    let cast = OwanimoCast {
        groups: vec![vec![(0, 0), (0, 1), (1, 0), (1, 1)], vec![(1, 2)]],
        score: (40, 1),
    };
    assert!(b.follow_next_up(NextUp::CastOwanimo));
    let next = b.cast_owanimo(Some(cast));
    assert!(!b.follow_next_up(next));
    assert_eq!(b.state, SBState::Banish { life: F32Bits::one() });
    let (next, gone) = board_banish(&mut b, true);
    assert_eq!(next, NextUp::StartPhysics);
    assert_eq!(gone, vec![1, 2, 4, 5, 6]);
    assert!(!b.follow_next_up(next));
    assert_eq!(b.state, SBState::Physics);
    assert_eq!(b.columns, vec![vec![with_state(Blue, 3, falling())], vec![], vec![still(Green, 7)]]);
    assert_eq!(b.score, 40);
    assert_eq!(b.chain, 1);
}

#[test]
fn banishing_stops_at_the_first_moving_puyo() {
    let banish = SPState::new_banishing();
    let mut b = board(
        vec![
            vec![with_state(Red, 1, banish), still(Blue, 2)],
            vec![with_state(Green, 3, banish), still(Green, 4), with_state(Red, 5, falling()), with_state(Red, 6, banish)],
            vec![with_state(Yellow, 7, banish)],
        ],
        SBState::Banish { life: F32Bits::zero() },
    );
    let (next, gone) = board_banish(&mut b, true);
    assert_eq!(next, NextUp::Impossible(WhyImpossible::PuyoPhysicsInBanishUpdate));
    assert_eq!(gone, vec![1, 3]);
    assert_eq!(
        b.columns,
        vec![
            vec![with_state(Blue, 2, falling())],
            vec![with_state(Green, 4, falling()), with_state(Red, 5, falling()), with_state(Red, 6, banish)],
            vec![with_state(Yellow, 7, banish)],
        ]
    );
    assert_eq!(b.state, SBState::Banish { life: F32Bits::zero() });
}

#[test]
fn neighbours_reckon_indices_as_isize() {
    let b = sample();
    assert_eq!(b.neighbors(&(usize::MAX, 0)), vec![(0, 0)]);
    assert_eq!(b.neighbors(&(isize::MAX as usize + 5, 1)), vec![]);
    assert_eq!(b.neighbors(&(1, usize::MAX)), vec![(1, 0)]);
}

#[test]
fn finishing_updates() {
    let mut b = sample();
    b.finish_update(NextUp::StartPhysics, None);
    assert_eq!(b.state, SBState::Physics);
    b.finish_update(NextUp::Continue, None);
    assert_eq!(b.state, SBState::Physics);
    b.finish_update(NextUp::CastOwanimo, None);
    assert_eq!(b.state, SBState::Still);
    assert_eq!(b.columns, sample().columns);
    b.state = SBState::Physics;
    b.finish_update(
        NextUp::CastOwanimo,
        Some(OwanimoCast { groups: vec![vec![(1, 1)]], score: (3, 4) }),
    );
    assert_eq!(b.state, SBState::Banish { life: F32Bits::one() });
    assert_eq!(b.score, 12);
    assert_eq!(b.chain, 1);
    assert_eq!(b.columns[1][1].state, SPState::new_banishing());
    b.finish_update(NextUp::Still, None);
    assert_eq!(b.state, SBState::Still);
}

#[test]
fn coloured_dots() {
    assert_eq!(Red.colored(), "\x1B[91m●\x1B[0m");
    assert_eq!(Green.colored(), "\x1B[92m●\x1B[0m");
    assert_eq!(Blue.colored(), "\x1B[94m●\x1B[0m");
    assert_eq!(Yellow.colored(), "\x1B[93m●\x1B[0m");
    assert_eq!(Purple.colored(), "\x1B[35m●\x1B[0m");
    assert_eq!(Nuisance.colored(), "\x1B[0m●\x1B[0m");
    assert_eq!(NuisanceBL.colored(), "\x1B[0m𜰹\x1B[0m");
    assert_eq!(NuisanceBR.colored(), "\x1B[0m𜰺\x1B[0m");
    assert_eq!(NuisanceTL.colored(), "\x1B[0m𜰵\x1B[0m");
    assert_eq!(NuisanceTR.colored(), "\x1B[0m𜰶\x1B[0m");
}
