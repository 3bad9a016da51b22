use filler::game_state::GameState;
use filler::player::Player;

fn grid_of(lines: &[&str]) -> Vec<Vec<char>> {
    lines.iter().map(|line| line.chars().collect()).collect()
}

fn turn_of(player: Player, board: &[&str], piece: &[&str]) -> GameState {
    let mut state = GameState::new(player);
    assert_eq!(state.read_grid(grid_of(board)), Ok(()));
    assert_eq!(state.read_piece(grid_of(piece)), Ok(()));
    state
}

#[test]
fn single_cell_piece_is_legal_only_on_the_own_cell() {
    let state = turn_of(Player::One, &[".....", ".....", "..@..", ".....", "....."], &["O"]);
    for y in 0..5 {
        for x in 0..5 {
            assert_eq!(state.is_valid_placement((x, y)), x == 2 && y == 2);
        }
    }
}

#[test]
fn active_cell_outside_the_board_is_rejected() {
    let state = turn_of(Player::One, &["..", ".@"], &["OO"]);
    // The left cell lands on the own cell, the right one beyond the edge.
    assert!(!state.is_valid_placement((1, 1)));
    let state = turn_of(Player::One, &["..", ".@"], &["O", "O"]);
    assert!(!state.is_valid_placement((1, 1)));
}

#[test]
fn corner_outside_the_board_is_rejected() {
    let state = turn_of(Player::One, &["..", ".@"], &["O"]);
    assert!(!state.is_valid_placement((2, 1)));
    assert!(!state.is_valid_placement((1, 2)));
    assert!(!state.is_valid_placement((5, 5)));
    assert!(!state.is_valid_placement((usize::MAX, 0)));
    assert!(!state.is_valid_placement((0, usize::MAX)));
    assert!(!state.is_valid_placement((usize::MAX, usize::MAX)));
}

#[test]
fn inactive_cells_may_hang_over_the_edge() {
    let state = turn_of(Player::One, &["..", ".@"], &["O.", ".."]);
    assert!(state.is_valid_placement((1, 1)));
}

#[test]
fn opponent_cell_under_the_piece_is_rejected() {
    let state = turn_of(Player::One, &["@$"], &["OO"]);
    assert!(!state.is_valid_placement((0, 0)));
    let state = turn_of(Player::One, &["@s"], &["OO"]);
    assert!(!state.is_valid_placement((0, 0)));
    let state = turn_of(Player::Two, &["$a"], &["OO"]);
    assert!(!state.is_valid_placement((0, 0)));
}

#[test]
fn opponent_cell_is_rejected_whatever_the_overlap() {
    // One overlap, then an opponent cell.
    let state = turn_of(Player::One, &["@.$"], &["OOO"]);
    assert!(!state.is_valid_placement((0, 0)));
    // An opponent cell, then one overlap.
    let state = turn_of(Player::One, &["$.@"], &["OOO"]);
    assert!(!state.is_valid_placement((0, 0)));
    // No overlap at all.
    let state = turn_of(Player::One, &["..$"], &["OOO"]);
    assert!(!state.is_valid_placement((0, 0)));
}

#[test]
fn exactly_one_overlap_is_accepted() {
    let state = turn_of(Player::One, &["@.."], &["OOO"]);
    assert!(state.is_valid_placement((0, 0)));
    let state = turn_of(Player::One, &[".@."], &["OOO"]);
    assert!(state.is_valid_placement((0, 0)));
    let state = turn_of(Player::One, &["..@"], &["OOO"]);
    assert!(state.is_valid_placement((0, 0)));
}

#[test]
fn no_overlap_is_rejected() {
    let state = turn_of(Player::One, &["...", "..@"], &["OOO"]);
    assert!(!state.is_valid_placement((0, 0)));
}

#[test]
fn two_overlaps_are_rejected() {
    let state = turn_of(Player::One, &["@.@"], &["OOO"]);
    assert!(!state.is_valid_placement((0, 0)));
    let state = turn_of(Player::One, &["@@."], &["OOO"]);
    assert!(!state.is_valid_placement((0, 0)));
    let state = turn_of(Player::One, &["@a@"], &["OOO"]);
    assert!(!state.is_valid_placement((0, 0)));
}

#[test]
fn fresh_piece_marker_counts_as_own() {
    let state = turn_of(Player::One, &["a."], &["OO"]);
    assert!(state.is_valid_placement((0, 0)));
    let state = turn_of(Player::Two, &["s."], &["OO"]);
    assert!(state.is_valid_placement((0, 0)));
    let state = turn_of(Player::Two, &["$."], &["OO"]);
    assert!(state.is_valid_placement((0, 0)));
}

#[test]
fn ownership_depends_on_the_player() {
    let state = turn_of(Player::One, &["@."], &["OO"]);
    assert!(state.is_valid_placement((0, 0)));
    let state = turn_of(Player::Two, &["@."], &["OO"]);
    assert!(!state.is_valid_placement((0, 0)));
}

#[test]
fn unknown_marker_under_the_piece_is_rejected() {
    let state = turn_of(Player::One, &["@#"], &["OO"]);
    assert!(!state.is_valid_placement((0, 0)));
    let state = turn_of(Player::One, &["@O"], &["OO"]);
    assert!(!state.is_valid_placement((0, 0)));
}

#[test]
fn only_the_active_marker_occupies_a_cell() {
    // Of the piece's markers only `O` is active.
    let state = turn_of(Player::One, &["@$"], &["O."]);
    assert!(state.is_valid_placement((0, 0)));
    let state = turn_of(Player::One, &["@$"], &["Oo"]);
    assert!(state.is_valid_placement((0, 0)));
    let state = turn_of(Player::One, &["@$"], &["O#"]);
    assert!(state.is_valid_placement((0, 0)));
}

#[test]
fn piece_without_active_cells_is_never_legal() {
    let state = turn_of(Player::One, &["@.", ".."], &["..", ".."]);
    for y in 0..3 {
        for x in 0..3 {
            assert!(!state.is_valid_placement((x, y)));
        }
    }
}

#[test]
fn piece_without_rows_is_never_legal() {
    let state = turn_of(Player::One, &["@.", ".."], &[]);
    for y in 0..3 {
        for x in 0..3 {
            assert!(!state.is_valid_placement((x, y)));
        }
    }
}

#[test]
fn nothing_is_legal_before_a_board_is_read() {
    let mut state = GameState::new(Player::One);
    assert_eq!(state.read_piece(grid_of(&["O"])), Ok(()));
    assert!(!state.is_valid_placement((0, 0)));
    assert!(!state.is_valid_placement((1, 1)));
}

#[test]
fn shaped_piece_attaches_by_one_cell() {
    let board = ["....", ".@@.", "....", "...."];
    let piece = [".O", "OO"];
    let state = turn_of(Player::One, &board, &piece);
    let mut legal = Vec::new();
    for y in 0..4 {
        for x in 0..4 {
            if state.is_valid_placement((x, y)) {
                legal.push((x, y));
            }
        }
    }
    // Active cells sit at (1, 0), (0, 1) and (1, 1) of the piece.
    assert_eq!(legal, vec![(0, 0), (2, 0), (0, 1), (1, 1)]);
}

#[test]
fn board_of_player_two_mirrors_that_of_player_one() {
    let one = turn_of(Player::One, &["@..", ".$.", "..."], &["OO"]);
    let two = turn_of(Player::Two, &["$..", ".@.", "..."], &["OO"]);
    for y in 0..3 {
        for x in 0..3 {
            assert_eq!(one.is_valid_placement((x, y)), two.is_valid_placement((x, y)));
        }
    }
}

#[test]
fn rows_of_different_lengths_are_no_board() {
    let mut state = GameState::new(Player::One);
    assert_eq!(
        state.read_grid(grid_of(&["...", ".."])),
        Err("Grid rows differ in length".to_string())
    );
    assert_eq!(
        state.read_grid(grid_of(&["..", "..."])),
        Err("Grid rows differ in length".to_string())
    );
    assert_eq!(
        state.read_grid(grid_of(&["..", ""])),
        Err("Grid rows differ in length".to_string())
    );
}

#[test]
fn rows_without_cells_are_no_board() {
    let mut state = GameState::new(Player::One);
    assert_eq!(state.read_grid(Vec::new()), Err("Grid has no cells".to_string()));
    assert_eq!(state.read_grid(grid_of(&[""])), Err("Grid has no cells".to_string()));
    assert_eq!(state.read_grid(grid_of(&["", ""])), Err("Grid has no cells".to_string()));
    assert_eq!(state.read_grid(grid_of(&["", ".."])), Err("Grid has no cells".to_string()));
}

#[test]
fn refused_board_leaves_no_board_behind() {
    let mut state = turn_of(Player::One, &["@."], &["O"]);
    assert!(state.is_valid_placement((0, 0)));
    assert!(state.read_grid(grid_of(&["@.", "."])).is_err());
    assert!(!state.is_valid_placement((0, 0)));
}

#[test]
fn rows_of_different_lengths_are_no_piece() {
    let mut state = GameState::new(Player::One);
    assert_eq!(
        state.read_piece(grid_of(&["OO", "O"])),
        Err("Piece rows differ in length".to_string())
    );
}

#[test]
fn refused_piece_leaves_the_empty_piece_behind() {
    let mut state = turn_of(Player::One, &["@."], &["O"]);
    assert!(state.is_valid_placement((0, 0)));
    assert!(state.read_piece(grid_of(&["O", "OO"])).is_err());
    assert!(!state.is_valid_placement((0, 0)));
}

#[test]
fn new_board_replaces_the_old_one() {
    let mut state = turn_of(Player::One, &["@."], &["O"]);
    assert!(state.is_valid_placement((0, 0)));
    assert!(!state.is_valid_placement((1, 0)));
    assert_eq!(state.read_grid(grid_of(&[".@"])), Ok(()));
    assert!(!state.is_valid_placement((0, 0)));
    assert!(state.is_valid_placement((1, 0)));
}

#[test]
fn new_piece_replaces_the_old_one() {
    let mut state = turn_of(Player::One, &["@."], &["O"]);
    assert!(state.is_valid_placement((0, 0)));
    assert_eq!(state.read_piece(grid_of(&[".O"])), Ok(()));
    assert!(!state.is_valid_placement((0, 0)));
    assert_eq!(state.read_piece(grid_of(&["OO"])), Ok(()));
    assert!(state.is_valid_placement((0, 0)));
}
