use picross::game::{pair_to_index, Board};

fn board_from_pattern(width: usize, height: usize, filled: &[usize]) -> Board {
    let mut board_vec = Vec::new();
    for i in 0..width * height {
        board_vec.push(picross::game::Tile {
            hidden: true,
            empty: !filled.contains(&i),
            marked: false,
        });
    }
    let mut board = Board {
        board_vec,
        width,
        height,
        filled_count: filled.len(),
        vertical_count: Vec::new(),
        horizontal_count: Vec::new(),
    };
    board.count_vertical();
    board.count_horizontal();
    board
}

fn count_filled_cells(board: &Board) -> usize {
    board.board_vec.iter().filter(|t| !t.empty).count()
}

fn clue_total(clues: &Vec<Vec<usize>>) -> usize {
    clues.iter().map(|v| v.iter().sum::<usize>()).sum()
}

#[test]
fn build_empty_board() {
    let board = Board::new(3, 3, 0);
    assert_eq!(board.board_vec.len(), 9);
    assert!(board.board_vec.iter().all(|t| t.empty));
    assert_eq!(board.vertical_count, vec![Vec::<usize>::new(); 3]);
    assert_eq!(board.horizontal_count, vec![Vec::<usize>::new(); 3]);
}

#[test]
fn build_full_board() {
    let board = Board::new(3, 3, 9);
    assert!(board.board_vec.iter().all(|t| !t.empty));
    assert_eq!(board.vertical_count, vec![vec![3], vec![3], vec![3]]);
    assert_eq!(board.horizontal_count, vec![vec![3], vec![3], vec![3]]);
}

#[test]
fn column_clue_pattern() {
    // Column 0, top to bottom: F F E F E F F F
    let board = board_from_pattern(1, 8, &[0, 1, 3, 5, 6, 7]);
    assert_eq!(board.vertical_count[0], vec![2, 1, 3]);
}

#[test]
fn clue_pattern_grid() {
    // 4 wide, 3 tall:
    //   F F E F
    //   E E E E
    //   F E F F
    let board = board_from_pattern(4, 3, &[0, 1, 3, 8, 10, 11]);
    assert_eq!(board.horizontal_count, vec![vec![2, 1], vec![], vec![1, 2]]);
    assert_eq!(
        board.vertical_count,
        vec![vec![1, 1], vec![1], vec![1], vec![1, 1]]
    );
}

#[test]
fn build_has_exact_filled_count() {
    let board = Board::new(5, 4, 7);
    assert_eq!(board.board_vec.len(), 20);
    assert_eq!(board.filled_count, 7);
    assert_eq!(count_filled_cells(&board), 7);
}

#[test]
fn build_starts_hidden_and_unmarked() {
    let board = Board::new(4, 4, 6);
    assert!(board.board_vec.iter().all(|t| t.hidden && !t.marked));
}

#[test]
fn clue_sums_match_filled_count() {
    let board = Board::new(6, 5, 13);
    assert_eq!(clue_total(&board.vertical_count), 13);
    assert_eq!(clue_total(&board.horizontal_count), 13);
}

#[test]
fn clue_entries_are_positive() {
    let board = Board::new(7, 7, 24);
    assert!(board.vertical_count.iter().all(|v| v.iter().all(|&n| n >= 1)));
    assert!(board.horizontal_count.iter().all(|v| v.iter().all(|&n| n >= 1)));
}

#[test]
fn gen_empty_is_blank() {
    let board = Board::gen_empty(4, 2);
    assert_eq!(board.board_vec.len(), 8);
    assert!(board.board_vec.iter().all(|t| t.empty && t.hidden && !t.marked));
    assert_eq!(board.filled_count, 0);
    assert!(board.vertical_count.is_empty());
    assert!(board.horizontal_count.is_empty());
}

#[test]
fn pair_to_index_row_major() {
    assert_eq!(pair_to_index(0, 0, 10), 0);
    assert_eq!(pair_to_index(2, 3, 10), 23);
    assert_eq!(pair_to_index(1, 0, 4), 4);
}
