use picross::controller::{apply, parse_usize, ContextPage, MenuAction, Message};
use picross::game::{Board, Game, Menu, Tile, Winstate};

fn playing_menu() -> Menu {
    Menu {
        width_input: "10".to_string(),
        height_input: "10".to_string(),
        start_pressed: true,
        filled_count_input: "65".to_string(),
    }
}

fn game_from_pattern(width: usize, height: usize, filled: &[usize]) -> Game {
    let mut board_vec = Vec::new();
    for i in 0..width * height {
        board_vec.push(Tile {
            hidden: true,
            empty: !filled.contains(&i),
            marked: false,
        });
    }
    let mut board = Board {
        board_vec,
        width,
        height,
        filled_count: filled.len(),
        vertical_count: Vec::new(),
        horizontal_count: Vec::new(),
    };
    board.count_vertical();
    board.count_horizontal();
    Game {
        board,
        menu: playing_menu(),
        winstate: Winstate::InProgress,
    }
}

#[test]
fn reveal_empty_cell_loses() {
    // 2 wide, 3 tall, the one empty cell sits at id 5.
    let mut game = game_from_pattern(2, 3, &[0, 1, 2, 3, 4]);
    apply(&mut game, Message::Reveal(5));
    assert_eq!(game.winstate, Winstate::Lost);
    apply(&mut game, Message::Reveal(0));
    assert_eq!(game.winstate, Winstate::Lost);
    assert!(game.board.board_vec[0].hidden);
}

#[test]
fn reveal_all_filled_wins() {
    let mut game = game_from_pattern(3, 3, &[0, 2, 4, 8]);
    for id in [8, 2, 0, 4] {
        apply(&mut game, Message::Reveal(id));
    }
    assert_eq!(game.winstate, Winstate::Won);
    assert!(game.board.board_vec.iter().all(|t| !t.hidden));
}

#[test]
fn reveal_filled_cell_stays_in_progress() {
    let mut game = game_from_pattern(2, 2, &[0, 3]);
    apply(&mut game, Message::Reveal(0));
    assert_eq!(game.winstate, Winstate::InProgress);
    assert!(!game.board.board_vec[0].hidden);
    assert!(game.board.board_vec[3].hidden);
}

#[test]
fn mark_toggles_and_keeps_winstate() {
    let mut game = game_from_pattern(3, 3, &[1, 2, 5]);
    apply(&mut game, Message::Mark(3));
    assert!(game.board.board_vec[3].marked);
    assert!(game.board.board_vec[3].hidden);
    assert_eq!(game.winstate, Winstate::InProgress);
    apply(&mut game, Message::Mark(3));
    assert!(!game.board.board_vec[3].marked);
    assert_eq!(game.winstate, Winstate::InProgress);
}

#[test]
fn mark_clears_on_reveal() {
    let mut game = game_from_pattern(2, 2, &[0, 1, 2]);
    apply(&mut game, Message::Mark(2));
    assert!(game.board.board_vec[2].marked);
    apply(&mut game, Message::Reveal(2));
    assert!(!game.board.board_vec[2].marked);
    assert!(!game.board.board_vec[2].hidden);
}

#[test]
fn marks_cleared_when_win_reveals_all() {
    // 1 wide, 2 tall; the filled cell is id 0. Mark the empty cell, then
    // reveal the filled one: the win reveals everything and drops the mark.
    let mut game = game_from_pattern(1, 2, &[0]);
    apply(&mut game, Message::Mark(1));
    assert!(game.board.board_vec[1].marked);
    apply(&mut game, Message::Reveal(0));
    assert_eq!(game.winstate, Winstate::Won);
    assert!(game.board.board_vec.iter().all(|t| !t.hidden && !t.marked));
}

#[test]
fn wincheck_twice_changes_nothing() {
    let mut game = game_from_pattern(2, 2, &[0]);
    apply(&mut game, Message::Reveal(0));
    game.wincheck();
    let first = game.winstate;
    let cells_first: Vec<Tile> = game.board.board_vec.clone();
    game.wincheck();
    assert_eq!(game.winstate, first);
    assert_eq!(game.board.board_vec, cells_first);
}

#[test]
fn wincheck_twice_after_win() {
    let mut game = game_from_pattern(1, 1, &[0]);
    apply(&mut game, Message::Reveal(0));
    assert_eq!(game.winstate, Winstate::Won);
    game.wincheck();
    assert_eq!(game.winstate, Winstate::Won);
    assert!(game.board.board_vec.iter().all(|t| !t.hidden));
}

#[test]
fn terminal_state_absorbs_commands() {
    let mut game = game_from_pattern(2, 3, &[0, 1, 2, 3, 4]);
    apply(&mut game, Message::Reveal(5));
    assert_eq!(game.winstate, Winstate::Lost);
    let cells: Vec<Tile> = game.board.board_vec.clone();
    apply(&mut game, Message::Mark(0));
    apply(&mut game, Message::Reveal(1));
    assert_eq!(game.winstate, Winstate::Lost);
    assert_eq!(game.board.board_vec, cells);
}

#[test]
fn won_board_is_fully_revealed() {
    let mut game = game_from_pattern(1, 2, &[1]);
    apply(&mut game, Message::Reveal(1));
    assert_eq!(game.winstate, Winstate::Won);
    assert!(game.board.board_vec.iter().all(|t| !t.hidden));
}

#[test]
fn reveal_out_of_range_is_noop() {
    let mut game = game_from_pattern(2, 3, &[0, 1]);
    let cells: Vec<Tile> = game.board.board_vec.clone();
    apply(&mut game, Message::Reveal(99));
    assert_eq!(game.board.board_vec, cells);
    assert_eq!(game.winstate, Winstate::InProgress);
}

#[test]
fn mark_on_revealed_cell_is_noop() {
    let mut game = game_from_pattern(2, 2, &[0, 1, 2]);
    apply(&mut game, Message::Reveal(0));
    apply(&mut game, Message::Mark(0));
    assert!(!game.board.board_vec[0].marked);
}

#[test]
fn new_session_defaults() {
    let game = Game::new();
    assert_eq!(game.menu.width_input, "10");
    assert_eq!(game.menu.height_input, "10");
    assert_eq!(game.menu.filled_count_input, "65");
    assert!(!game.menu.start_pressed);
    assert_eq!(game.winstate, Winstate::InProgress);
    assert_eq!(game.board.width, 10);
    assert_eq!(game.board.height, 10);
    assert_eq!(game.board.filled_count, 40);
    assert_eq!(game.board.board_vec.len(), 100);
    assert_eq!(
        game.board.board_vec.iter().filter(|t| !t.empty).count(),
        40
    );
}

#[test]
fn goto_menu_resets_session() {
    let mut game = game_from_pattern(2, 2, &[0]);
    apply(&mut game, Message::GotoMenu);
    assert!(!game.menu.start_pressed);
    assert_eq!(game.menu.width_input, "10");
    assert_eq!(game.winstate, Winstate::InProgress);
}

#[test]
fn reset_rebuilds_board_with_same_parameters() {
    let mut game = game_from_pattern(4, 3, &[0, 5, 7, 9, 11]);
    apply(&mut game, Message::Reveal(0));
    apply(&mut game, Message::Reset);
    assert_eq!(game.board.width, 4);
    assert_eq!(game.board.height, 3);
    assert_eq!(game.board.filled_count, 5);
    assert_eq!(
        game.board.board_vec.iter().filter(|t| !t.empty).count(),
        5
    );
    assert!(game.board.board_vec.iter().all(|t| t.hidden && !t.marked));
    assert_eq!(game.winstate, Winstate::InProgress);
}

#[test]
fn input_messages_replace_text() {
    let mut game = Game::new();
    apply(&mut game, Message::InputWidth("7".to_string()));
    apply(&mut game, Message::InputHeight("abc".to_string()));
    apply(&mut game, Message::InputFilledCount("".to_string()));
    assert_eq!(game.menu.width_input, "7");
    assert_eq!(game.menu.height_input, "abc");
    assert_eq!(game.menu.filled_count_input, "");
    assert!(!game.menu.start_pressed);
}

#[test]
fn start_pressed_with_valid_inputs() {
    let mut game = Game::new();
    apply(&mut game, Message::InputWidth("4".to_string()));
    apply(&mut game, Message::InputHeight("3".to_string()));
    apply(&mut game, Message::InputFilledCount("5".to_string()));
    apply(&mut game, Message::StartPressed);
    assert!(game.menu.start_pressed);
    assert_eq!(game.winstate, Winstate::InProgress);
    assert_eq!(game.board.width, 4);
    assert_eq!(game.board.height, 3);
    assert_eq!(game.board.filled_count, 5);
    assert_eq!(game.board.board_vec.len(), 12);
    assert_eq!(
        game.board.board_vec.iter().filter(|t| !t.empty).count(),
        5
    );
}

#[test]
fn start_pressed_rejects_unparsable_input() {
    let mut game = Game::new();
    apply(&mut game, Message::InputWidth("abc".to_string()));
    apply(&mut game, Message::StartPressed);
    assert!(!game.menu.start_pressed);
    assert_eq!(game.board.width, 10);
    assert_eq!(game.menu.width_input, "abc");
}

#[test]
fn start_pressed_rejects_zero_dimension() {
    let mut game = Game::new();
    apply(&mut game, Message::InputWidth("0".to_string()));
    apply(&mut game, Message::StartPressed);
    assert!(!game.menu.start_pressed);
}

#[test]
fn start_pressed_rejects_too_many_filled() {
    let mut game = Game::new();
    apply(&mut game, Message::InputWidth("4".to_string()));
    apply(&mut game, Message::InputHeight("3".to_string()));
    apply(&mut game, Message::InputFilledCount("13".to_string()));
    apply(&mut game, Message::StartPressed);
    assert!(!game.menu.start_pressed);
}

#[test]
fn start_pressed_rejects_huge_input() {
    let mut game = Game::new();
    apply(
        &mut game,
        Message::InputWidth("18446744073709551616".to_string()),
    );
    apply(&mut game, Message::StartPressed);
    assert!(!game.menu.start_pressed);
}

#[test]
fn launch_url_and_context_page_leave_session_alone() {
    let mut game = game_from_pattern(2, 2, &[0]);
    let cells: Vec<Tile> = game.board.board_vec.clone();
    apply(&mut game, Message::LaunchUrl("https://example.org".to_string()));
    apply(&mut game, Message::ToggleContextPage(ContextPage::About));
    assert_eq!(game.board.board_vec, cells);
    assert_eq!(game.winstate, Winstate::InProgress);
    assert!(game.menu.start_pressed);
}

#[test]
fn parse_usize_accepts_digits() {
    assert_eq!(parse_usize("0"), Some(0));
    assert_eq!(parse_usize("42"), Some(42));
    assert_eq!(parse_usize("007"), Some(7));
    assert_eq!(parse_usize("18446744073709551615"), Some(usize::MAX));
}

#[test]
fn parse_usize_rejects_everything_else() {
    assert_eq!(parse_usize(""), None);
    assert_eq!(parse_usize("12a"), None);
    assert_eq!(parse_usize("+5"), None);
    assert_eq!(parse_usize("-1"), None);
    assert_eq!(parse_usize(" 3"), None);
    assert_eq!(parse_usize("18446744073709551616"), None);
}

#[test]
fn context_page_title() {
    assert_eq!(ContextPage::About.title(), "About");
}

#[test]
fn menu_action_emits_toggle() {
    assert!(matches!(
        MenuAction::About.message(),
        Message::ToggleContextPage(ContextPage::About)
    ));
}
