use puyo_screensaver::cartesian::{
    owanimo_cart, randomise_cart, CartBoart, CartesianState, GravityCartBoart, Puyo,
};
use puyo_screensaver::layout::{cartes_board_layout, is_whitespace, kind_of_char};
use puyo_screensaver::puyo_chara::PuyoType;
use puyo_screensaver::puyo_chara::PuyoType::{
    Blue, Green, Nuisance, NuisanceBL, NuisanceBR, NuisanceTL, NuisanceTR, Purple, Red, Yellow,
};

fn puyo(board: u64, x: u32, y: u32, ty: PuyoType) -> Puyo {
    Puyo { board, grid_pos: (x, y), ty }
}

fn cart() -> CartBoart {
    CartBoart {
        board: 100,
        puyos: vec![
            (puyo(100, 0, 0, Red), 1),
            (puyo(200, 1, 0, Red), 2),
            (puyo(100, 1, 0, Red), 3),
            (puyo(100, 0, 1, Nuisance), 4),
            (puyo(100, 1, 0, Blue), 5),
            (puyo(100, 2, 0, NuisanceBL), 6),
            (puyo(100, 3, 0, NuisanceBL), 7),
        ],
    }
}

#[test]
fn coordinates_find_the_first_puyo_of_the_board() {
    let c = cart();
    assert_eq!(c.get_at_coord((1, 0)).map(|(_, e)| e), Some(3));
    assert_eq!(c.get_at_coord((0, 1)).map(|(_, e)| e), Some(4));
    assert_eq!(c.get_at_coord((4, 4)).map(|(_, e)| e), None);
    assert_eq!(c.get_at_icoord((-1, 0)).map(|(_, e)| e), None);
    assert_eq!(c.get_at_icoord((0, -1)).map(|(_, e)| e), None);
    assert_eq!(c.get_at_icoord((0, 0)).map(|(_, e)| e), Some(1));
}

#[test]
fn entities_find_puyos_of_the_board_only() {
    let c = cart();
    assert_eq!(c.get_puyo(3).map(|p| p.ty), Some(PuyoType::Red));
    assert!(c.get_puyo(2).is_none());
    assert!(c.get_puyo(99).is_none());
    assert_eq!(c.tiles(), vec![Some(1), Some(3), Some(4), Some(5), Some(6), Some(7)]);
}

#[test]
fn cartesian_neighbours() {
    let c = cart();
    assert_eq!(c.neighbors(&Some(1)), [None, Some(3), None, Some(4)]);
    assert_eq!(c.neighbors(&Some(4)), [None, None, Some(1), None]);
    assert_eq!(c.neighbors(&None), [None, None, None, None]);
    assert_eq!(c.neighbors(&Some(2)), [None, None, None, None]);
}

#[test]
fn cartesian_connections() {
    let c = cart();
    assert!(c.connects(&Some(1), &Some(3)));
    assert!(!c.connects(&Some(1), &Some(5)));
    assert!(!c.connects(&Some(1), &Some(2)));
    assert!(!c.connects(&Some(4), &Some(4)));
    assert!(!c.connects(&None, &Some(1)));
    // only small nuisance puyos keep apart
    assert!(c.connects(&Some(6), &Some(7)));
    assert!(c.nuisance(&Some(4)));
    assert!(!c.nuisance(&Some(6)));
    assert!(!c.nuisance(&None));
    assert_eq!(c.color(&Some(5)), Some(PuyoType::Blue));
    assert_eq!(c.color(&Some(4)), None);
    assert_eq!(c.color(&Some(2)), None);
}

#[test]
fn gravity_closes_columns_up() {
    let mut g = GravityCartBoart {
        board: 100,
        puyos: vec![
            (puyo(100, 0, 3, Red), 1),
            (puyo(100, 0, 1, Blue), 2),
            (puyo(200, 0, 7, Green), 3),
            (puyo(100, 1, 0, Yellow), 4),
            (puyo(100, 0, 5, Purple), 5),
        ],
    };
    let started = g.fall();
    assert_eq!(started, vec![1, 2, 5]);
    let rows: Vec<(u64, (u32, u32))> = g.puyos.iter().map(|(p, e)| (*e, p.grid_pos)).collect();
    assert_eq!(rows, vec![(1, (0, 1)), (2, (0, 0)), (3, (0, 7)), (4, (1, 0)), (5, (0, 2))]);
    // a second fall moves nothing
    let again = g.fall();
    assert!(again.is_empty());
    let rows_again: Vec<(u64, (u32, u32))> = g.puyos.iter().map(|(p, e)| (*e, p.grid_pos)).collect();
    assert_eq!(rows_again, rows);
}

#[test]
fn gravity_keeps_list_order_for_shared_cells() {
    let mut g = GravityCartBoart {
        board: 1,
        puyos: vec![(puyo(1, 2, 4, Red), 10), (puyo(1, 2, 4, Blue), 11)],
    };
    assert_eq!(g.fall(), vec![10, 11]);
    assert_eq!(g.puyos[0].0.grid_pos, (2, 0));
    assert_eq!(g.puyos[1].0.grid_pos, (2, 1));
}

#[test]
fn whitespace_and_kinds() {
    for c in [' ', '\t', '\n', '\r', '\u{a0}', '\u{3000}', '\u{2009}'] {
        assert!(is_whitespace(c));
        assert_eq!(is_whitespace(c), c.is_whitespace());
    }
    for c in ['a', '_', '0', '\u{200b}'] {
        assert!(!is_whitespace(c));
        assert_eq!(is_whitespace(c), c.is_whitespace());
    }
    for u in 0..0x3100u32 {
        if let Some(c) = char::from_u32(u) {
            assert_eq!(is_whitespace(c), c.is_whitespace());
        }
    }
    assert_eq!(kind_of_char('o'), Some(PuyoType::Nuisance));
    assert_eq!(kind_of_char('0'), Some(PuyoType::Nuisance));
    assert_eq!(kind_of_char('R'), Some(PuyoType::Red));
    assert_eq!(kind_of_char('g'), Some(PuyoType::Green));
    assert_eq!(kind_of_char('b'), Some(PuyoType::Blue));
    assert_eq!(kind_of_char('Y'), Some(PuyoType::Yellow));
    assert_eq!(kind_of_char('p'), Some(PuyoType::Purple));
    assert_eq!(kind_of_char('_'), None);
    assert_eq!(kind_of_char(' '), None);
    assert_eq!(kind_of_char('x'), None);
}

fn layout(text: &str) -> Vec<(PuyoType, (usize, usize))> {
    cartes_board_layout(&text.chars().collect())
}

#[test]
fn reading_a_written_board() {
    let cells = layout("\n  R_g  \n\n   oBYPrr\r\n");
    assert_eq!(
        cells,
        vec![
            (Red, (0, 1)),
            (Green, (2, 1)),
            (Nuisance, (0, 0)),
            (Blue, (1, 0)),
            (Yellow, (2, 0)),
            (Purple, (3, 0)),
            (Red, (4, 0)),
            (Red, (5, 0)),
        ]
    );
}

#[test]
fn a_written_board_keeps_six_columns_and_twelve_rows() {
    let mut text = String::new();
    for _ in 0..15 {
        text.push_str("RRRRRRRRR\n");
    }
    let cells = layout(&text);
    assert_eq!(cells.len(), 12 * 6);
    assert!(cells.iter().all(|(_, (x, y))| *x < 6 && *y < 12));
    assert_eq!(cells[0].1, (0, 11));
    assert_eq!(cells[71].1, (5, 0));
}

#[test]
fn unknown_characters_leave_gaps() {
    assert_eq!(layout("x?r"), vec![(Red, (2, 0))]);
    assert_eq!(layout("___"), vec![]);
}

#[test]
fn neighbours_past_i32_max_read_as_negative() {
    let c = CartBoart {
        board: 100,
        puyos: vec![(puyo(100, 0, 0, Red), 1), (puyo(100, u32::MAX, 0, Blue), 9), (puyo(100, 0x8000_0001, 3, Red), 10)],
    };
    assert_eq!(c.neighbors(&Some(9)), [None, Some(1), None, None]);
    assert_eq!(c.neighbors(&Some(10)), [None, None, None, None]);
}

#[test]
fn casting_on_a_cartesian_board() {
    let groups = vec![vec![Some(4), None, Some(7)], vec![Some(2)]];
    assert_eq!(owanimo_cart(CartesianState::Owanimo, &groups), (CartesianState::Banishing, vec![4, 7, 2]));
    assert_eq!(owanimo_cart(CartesianState::Owanimo, &vec![]), (CartesianState::Still, vec![]));
    assert_eq!(owanimo_cart(CartesianState::Physics, &groups), (CartesianState::Physics, vec![]));
    assert_eq!(CartesianState::default(), CartesianState::Still);
}

#[test]
fn randomising_a_cartesian_board() {
    let rolls = vec![vec![0, 6, 3], vec![], vec![6, 5]];
    assert_eq!(
        randomise_cart(&rolls),
        vec![(Nuisance, (0, 0)), (Blue, (0, 2)), (Purple, (2, 1))]
    );
}
