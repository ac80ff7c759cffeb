use tiledrop::board::Board;
use tiledrop::display::{tint_of, Tint};
use tiledrop::input::{command_of, KeyPress};
use tiledrop::game::Command;

fn nonzero_cells(b: &Board) -> Vec<(usize, usize, u64)> {
    let mut out = Vec::new();
    for c in 0..8 {
        for r in 0..8 {
            let v = b.get(c, r);
            if v != 0 {
                out.push((c, r, v));
            }
        }
    }
    out
}

#[test]
fn new_board_is_empty() {
    let b = Board::new();
    assert!(nonzero_cells(&b).is_empty());
    assert_eq!(b.score(), 0);
    assert!(!b.is_full());
    assert!(b.can_accept(3, 5));
}

#[test]
fn placing_without_neighbour_rests() {
    let mut b = Board::new();
    b.place_and_cascade(8, 2, 3);
    assert_eq!(nonzero_cells(&b), vec![(2, 3, 8)]);
    assert!(!b.can_accept(2, 3));
    assert_eq!(b.score(), 8);
}

#[test]
fn scenario_settled_tile_above_merges_down() {
    // the lower tile settles first, the one above lands on it
    let mut b = Board::new();
    b.place_and_cascade(2, 0, 1);
    b.place_and_cascade(2, 0, 0);
    assert_eq!(b.get(0, 1), 4);
    assert_eq!(b.get(0, 0), 0);
    assert_eq!(nonzero_cells(&b), vec![(0, 1, 4)]);
}

#[test]
fn placing_below_merges_upward_into_the_older_tile() {
    let mut b = Board::new();
    b.place_and_cascade(2, 0, 0);
    b.place_and_cascade(2, 0, 1);
    assert_eq!(b.get(0, 0), 4);
    assert_eq!(b.get(0, 1), 0);
}

#[test]
fn downward_merge_wins_over_rightward() {
    let mut b = Board::new();
    b.place_and_cascade(2, 3, 5);
    b.place_and_cascade(2, 4, 4);
    b.place_and_cascade(2, 3, 4);
    assert_eq!(nonzero_cells(&b), vec![(3, 5, 4), (4, 4, 2)]);
}

#[test]
fn upward_merge_wins_over_sideways() {
    let mut b = Board::new();
    b.place_and_cascade(4, 5, 2);
    b.place_and_cascade(4, 6, 3);
    b.place_and_cascade(4, 4, 3);
    b.place_and_cascade(4, 5, 3);
    assert_eq!(nonzero_cells(&b), vec![(4, 3, 4), (5, 2, 8), (6, 3, 4)]);
}

#[test]
fn rightward_then_leftward() {
    let mut b = Board::new();
    b.place_and_cascade(16, 1, 7);
    b.place_and_cascade(16, 3, 7);
    b.place_and_cascade(16, 2, 7);
    assert_eq!(nonzero_cells(&b), vec![(1, 7, 16), (3, 7, 32)]);
    let mut b = Board::new();
    b.place_and_cascade(16, 1, 7);
    b.place_and_cascade(16, 2, 7);
    assert_eq!(nonzero_cells(&b), vec![(1, 7, 32)]);
}

#[test]
fn cascade_chains_merges() {
    let mut b = Board::new();
    b.place_and_cascade(4, 0, 7);
    b.place_and_cascade(2, 0, 6);
    b.place_and_cascade(2, 0, 5);
    assert_eq!(nonzero_cells(&b), vec![(0, 7, 8)]);
    assert_eq!(b.score(), 8);
}

#[test]
fn long_cascade_across_the_board() {
    let mut b = Board::new();
    b.place_and_cascade(64, 7, 7);
    b.place_and_cascade(32, 6, 7);
    b.place_and_cascade(16, 5, 7);
    b.place_and_cascade(8, 4, 7);
    b.place_and_cascade(4, 3, 7);
    b.place_and_cascade(2, 2, 7);
    b.place_and_cascade(2, 1, 7);
    assert_eq!(nonzero_cells(&b), vec![(7, 7, 128)]);
    assert_eq!(b.score(), 128);
}

#[test]
fn merge_of_two_twos_keeps_the_score() {
    let mut b = Board::new();
    b.place_and_cascade(2, 4, 6);
    b.place_and_cascade(8, 0, 0);
    let before = b.score() + 2;
    b.place_and_cascade(2, 4, 5);
    assert_eq!(b.get(4, 6), 4);
    assert_eq!(b.score(), before);
    assert_eq!(b.score(), 12);
}

#[test]
fn full_when_every_top_cell_is_taken() {
    let mut b = Board::new();
    for c in 0..8 {
        b.place_and_cascade(if c % 2 == 0 { 2 } else { 4 }, c, 0);
    }
    assert!(b.is_full());
    assert!(b.open_columns().is_empty());
}

#[test]
fn open_columns_lists_empty_tops_in_order() {
    let mut b = Board::new();
    b.place_and_cascade(2, 1, 0);
    b.place_and_cascade(4, 5, 0);
    b.place_and_cascade(8, 6, 3);
    assert_eq!(b.open_columns(), vec![0, 2, 3, 4, 6, 7]);
    assert!(!b.is_full());
}

#[test]
fn keys_map_to_commands() {
    assert_eq!(command_of(KeyPress::Char('q')), Some(Command::Quit));
    assert_eq!(command_of(KeyPress::Ctrl('c')), Some(Command::Quit));
    assert_eq!(command_of(KeyPress::Char('j')), Some(Command::MoveDown));
    assert_eq!(command_of(KeyPress::Down), Some(Command::MoveDown));
    assert_eq!(command_of(KeyPress::Char('h')), Some(Command::MoveLeft));
    assert_eq!(command_of(KeyPress::Left), Some(Command::MoveLeft));
    assert_eq!(command_of(KeyPress::Char('l')), Some(Command::MoveRight));
    assert_eq!(command_of(KeyPress::Right), Some(Command::MoveRight));
    assert_eq!(command_of(KeyPress::Up), None);
    assert_eq!(command_of(KeyPress::Char('c')), None);
    assert_eq!(command_of(KeyPress::Ctrl('q')), None);
    assert_eq!(command_of(KeyPress::Other), None);
}

#[test]
fn tints_follow_value_bands() {
    assert_eq!(tint_of(0), Tint::White);
    assert_eq!(tint_of(2), Tint::Cyan);
    assert_eq!(tint_of(4), Tint::Cyan);
    assert_eq!(tint_of(8), Tint::Blue);
    assert_eq!(tint_of(16), Tint::Blue);
    assert_eq!(tint_of(32), Tint::Yellow);
    assert_eq!(tint_of(64), Tint::Yellow);
    assert_eq!(tint_of(128), Tint::Magenta);
    assert_eq!(tint_of(256), Tint::Magenta);
    assert_eq!(tint_of(512), Tint::Red);
    assert_eq!(tint_of(1), Tint::Red);
}
