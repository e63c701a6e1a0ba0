//! The command interface: the message sum type a front-end emits and the
//! dispatcher that applies it to a session.

use crate::game::board_wf;
use crate::game::default_session;
use crate::game::fresh_cells;
use crate::game::game_wf;
use crate::game::lemma_same_empty_same_board;
use crate::game::lemma_wincheck_state_same_empty_hidden;
use crate::game::lost;
use crate::game::solved;
use crate::game::wincheck_post_cells;
use crate::game::wincheck_state;
use crate::game::Board;
use crate::game::Game;
use crate::game::Tile;
use crate::game::Winstate;
use vstd::prelude::*;
use vstd::string::StringExecFns;

verus! {

/// Everything a front-end can ask of the core.
#[derive(Debug, Clone)]
pub enum Message {
    LaunchUrl(String),
    ToggleContextPage(ContextPage),
    GotoMenu,
    Reset,
    Reveal(usize),
    Mark(usize),
    InputHeight(String),
    InputWidth(String),
    InputFilledCount(String),
    StartPressed,
}

/// Identifies a context page to display in the context drawer.
#[derive(Copy, Clone, Debug, Default, Eq, PartialEq, Structural)]
pub enum ContextPage {
    #[default]
    About,
}

impl ContextPage {
    /// The label of the context page.
    pub fn title(&self) -> (t: String)
        ensures
            t@ == "About"@,
    {
        match self {
            ContextPage::About => String::from_str("About"),
        }
    }
}

/// The entries of the application menu bar.
#[derive(Clone, Copy, Debug, Eq, PartialEq, Structural)]
pub enum MenuAction {
    About,
}

impl MenuAction {
    /// The message that choosing the entry emits.
    pub fn message(&self) -> (m: Message)
        ensures
            m == Message::ToggleContextPage(ContextPage::About),
    {
        Message::ToggleContextPage(ContextPage::About)
    }
}

/// `c` is a decimal digit.
pub open spec fn is_digit(c: char) -> bool {
    '0' as u32 <= c as u32 && c as u32 <= '9' as u32
}

/// The numeric value of the digit `c`.
pub open spec fn digit_val(c: char) -> int {
    c as u32 - '0' as u32
}

/// Every character of `s` is a decimal digit.
pub open spec fn all_digits(s: Seq<char>) -> bool {
    forall|i: int| 0 <= i < s.len() ==> is_digit(#[trigger] s[i])
}

/// The number that the digit string `s` denotes, most significant digit
/// first.
pub open spec fn digits_val(s: Seq<char>) -> int
    decreases s.len(),
{
    if s.len() == 0 {
        0
    } else {
        digits_val(s.drop_last()) * 10 + digit_val(s.last())
    }
}

/// The text denotes a non-negative integer that fits the machine: it is
/// non-empty, all digits, and its value is at most `usize::MAX`.
pub open spec fn parses_as_usize(s: Seq<char>) -> bool {
    s.len() > 0 && all_digits(s) && digits_val(s) <= usize::MAX
}

/// A digit string never denotes a negative value.
proof fn lemma_digits_val_nonneg(s: Seq<char>)
    requires
        all_digits(s),
    ensures
        0 <= digits_val(s),
    decreases s.len(),
{
    if s.len() > 0 {
        assert(all_digits(s.drop_last()));
        lemma_digits_val_nonneg(s.drop_last());
        assert(is_digit(s.last()));
    }
}

/// A digit string denotes a value at least as large as any of its
/// prefixes.
proof fn lemma_digits_val_prefix_le(s: Seq<char>, i: int)
    requires
        all_digits(s),
        0 <= i <= s.len(),
    ensures
        digits_val(s.take(i)) <= digits_val(s),
    decreases s.len() - i,
{
    if i == s.len() {
        assert(s.take(i) =~= s);
    } else {
        lemma_digits_val_prefix_le(s, i + 1);
        assert(s.take(i + 1).drop_last() =~= s.take(i));
        assert(is_digit(s[i]));
        assert(all_digits(s.take(i)));
        lemma_digits_val_nonneg(s.take(i));
        assert(digits_val(s.take(i + 1)) == digits_val(s.take(i)) * 10 + digit_val(s[i]));
    }
}

/// Parse a non-negative decimal integer. Returns the denoted value exactly
/// when the text is non-empty, all digits, and the value fits in `usize`.
pub fn parse_usize(s: &str) -> (r: Option<usize>)
    ensures
        r == if parses_as_usize(s@) {
            Some(digits_val(s@) as usize)
        } else {
            None::<usize>
        },
{
    let n = s.unicode_len();
    if n == 0 {
        return None;
    }
    let mut acc: usize = 0;
    let mut i: usize = 0;
    while i < n
        invariant
            i <= n,
            n == s@.len(),
            all_digits(s@.take(i as int)),
            acc == digits_val(s@.take(i as int)),
        decreases n - i,
    {
        let c = s.get_char(i);
        let d = c as u32;
        proof {
            assert(s@.take(i + 1).drop_last() =~= s@.take(i as int));
            assert(s@.take(i + 1).last() == s@[i as int]);
        }
        if d < '0' as u32 || d > '9' as u32 {
            assert(!is_digit(s@[i as int]));
            return None;
        }
        let dv = (d - '0' as u32) as usize;
        assert(dv == digit_val(s@[i as int]));
        if acc > (usize::MAX - dv) / 10 {
            proof {
                let limit = (usize::MAX - dv) as int;
                assert(limit / 10 * 10 + limit % 10 == limit);
                assert(acc * 10 >= (limit / 10 + 1) * 10);
                assert(acc * 10 + dv > usize::MAX);
                assert(digits_val(s@.take(i + 1)) > usize::MAX);
                if all_digits(s@) {
                    lemma_digits_val_prefix_le(s@, i + 1);
                }
            }
            return None;
        }
        proof {
            let limit = (usize::MAX - dv) as int;
            assert(limit / 10 * 10 + limit % 10 == limit);
            assert(acc * 10 + dv <= usize::MAX);
        }
        acc = acc * 10 + dv;
        i = i + 1;
    }
    proof {
        assert(s@.take(n as int) =~= s@);
    }
    Some(acc)
}

/// A copy of `cells` with the mark of cell `id` toggled.
pub open spec fn toggled_mark(cells: Seq<Tile>, id: int) -> Seq<Tile> {
    cells.update(
        id,
        Tile { hidden: cells[id].hidden, empty: cells[id].empty, marked: !cells[id].marked },
    )
}

/// A copy of `cells` with cell `id` revealed (and its mark cleared).
pub open spec fn revealed_at(cells: Seq<Tile>, id: int) -> Seq<Tile> {
    cells.update(id, Tile { hidden: false, empty: cells[id].empty, marked: false })
}

/// Whether `apply` would leave the whole session exactly as it is: the
/// message is a front-end concern, a guarded command that its guard stops,
/// or a start request whose inputs do not parse into a valid board.
pub open spec fn leaves_unchanged(g: Game, message: Message) -> bool {
    match message {
        Message::LaunchUrl(_) => true,
        Message::ToggleContextPage(_) => true,
        Message::GotoMenu => false,
        Message::Reset => false,
        Message::Reveal(id) => g.winstate != Winstate::InProgress || id
            >= g.board.board_vec@.len(),
        Message::Mark(id) => g.winstate != Winstate::InProgress || id >= g.board.board_vec@.len()
            || !g.board.board_vec@[id as int].hidden,
        Message::InputHeight(_) => false,
        Message::InputWidth(_) => false,
        Message::InputFilledCount(_) => false,
        Message::StartPressed => !start_inputs_valid(g),
    }
}

/// The menu inputs parse into a board the factory accepts: width and
/// height at least 1, the cell count within the machine, and the filled
/// count no larger than the cell count.
pub open spec fn start_inputs_valid(g: Game) -> bool {
    let w = digits_val(g.menu.width_input@);
    let h = digits_val(g.menu.height_input@);
    let k = digits_val(g.menu.filled_count_input@);
    &&& parses_as_usize(g.menu.width_input@)
    &&& parses_as_usize(g.menu.height_input@)
    &&& parses_as_usize(g.menu.filled_count_input@)
    &&& 1 <= w
    &&& 1 <= h
    &&& w * h <= usize::MAX
    &&& k <= w * h
}

/// Apply one front-end command to the session.
///
/// Reveal and Mark act only while the game is in progress, on an id within
/// the board, and recompute the win state afterwards; a terminal state
/// absorbs them. Reset rebuilds the board with the current dimensions.
/// GotoMenu returns to a fresh default session. StartPressed parses the
/// menu inputs and starts a new game exactly when they denote a valid
/// board; otherwise it changes nothing. The input-edit messages replace
/// the text fields verbatim. LaunchUrl and ToggleContextPage concern only
/// the front-end and leave the session alone.
pub fn apply(game: &mut Game, message: Message)
    requires
        game_wf(*old(game)),
    ensures
        game_wf(*final(game)),
        leaves_unchanged(*old(game), message) ==> *final(game) == *old(game),
        match message {
            Message::LaunchUrl(_) => true,
            Message::ToggleContextPage(_) => true,
            Message::GotoMenu => default_session(*final(game)),
            Message::Reset => {
                &&& final(game).board.width == old(game).board.width
                &&& final(game).board.height == old(game).board.height
                &&& final(game).board.filled_count == old(game).board.filled_count
                &&& board_wf(final(game).board)
                &&& fresh_cells(final(game).board.board_vec@)
                &&& final(game).winstate == Winstate::InProgress
                &&& final(game).menu == old(game).menu
            },
            Message::Reveal(id) => !leaves_unchanged(*old(game), message) ==> {
                let revealed = revealed_at(old(game).board.board_vec@, id as int);
                &&& final(game).board.board_vec@ == wincheck_post_cells(
                    revealed,
                    Winstate::InProgress,
                )
                &&& final(game).winstate == wincheck_state(revealed)
                &&& (old(game).board.board_vec@[id as int].empty ==> final(game).winstate
                    == Winstate::Lost)
                &&& final(game).menu == old(game).menu
                &&& final(game).board.width == old(game).board.width
                &&& final(game).board.height == old(game).board.height
                &&& final(game).board.filled_count == old(game).board.filled_count
                &&& final(game).board.vertical_count == old(game).board.vertical_count
                &&& final(game).board.horizontal_count == old(game).board.horizontal_count
            },
            Message::Mark(id) => !leaves_unchanged(*old(game), message) ==> {
                let toggled = toggled_mark(old(game).board.board_vec@, id as int);
                &&& final(game).board.board_vec@ == wincheck_post_cells(
                    toggled,
                    Winstate::InProgress,
                )
                &&& final(game).winstate == wincheck_state(old(game).board.board_vec@)
                &&& final(game).menu == old(game).menu
                &&& final(game).board.width == old(game).board.width
                &&& final(game).board.height == old(game).board.height
                &&& final(game).board.filled_count == old(game).board.filled_count
                &&& final(game).board.vertical_count == old(game).board.vertical_count
                &&& final(game).board.horizontal_count == old(game).board.horizontal_count
            },
            Message::InputHeight(s) => {
                &&& final(game).menu.height_input == s
                &&& final(game).menu.width_input == old(game).menu.width_input
                &&& final(game).menu.filled_count_input == old(game).menu.filled_count_input
                &&& final(game).menu.start_pressed == old(game).menu.start_pressed
                &&& final(game).board == old(game).board
                &&& final(game).winstate == old(game).winstate
            },
            Message::InputWidth(s) => {
                &&& final(game).menu.width_input == s
                &&& final(game).menu.height_input == old(game).menu.height_input
                &&& final(game).menu.filled_count_input == old(game).menu.filled_count_input
                &&& final(game).menu.start_pressed == old(game).menu.start_pressed
                &&& final(game).board == old(game).board
                &&& final(game).winstate == old(game).winstate
            },
            Message::InputFilledCount(s) => {
                &&& final(game).menu.filled_count_input == s
                &&& final(game).menu.width_input == old(game).menu.width_input
                &&& final(game).menu.height_input == old(game).menu.height_input
                &&& final(game).menu.start_pressed == old(game).menu.start_pressed
                &&& final(game).board == old(game).board
                &&& final(game).winstate == old(game).winstate
            },
            Message::StartPressed => start_inputs_valid(*old(game)) ==> {
                &&& final(game).board.width == digits_val(old(game).menu.width_input@)
                &&& final(game).board.height == digits_val(old(game).menu.height_input@)
                &&& final(game).board.filled_count == digits_val(
                    old(game).menu.filled_count_input@,
                )
                &&& board_wf(final(game).board)
                &&& fresh_cells(final(game).board.board_vec@)
                &&& final(game).winstate == Winstate::InProgress
                &&& final(game).menu.start_pressed
                &&& final(game).menu.width_input == old(game).menu.width_input
                &&& final(game).menu.height_input == old(game).menu.height_input
                &&& final(game).menu.filled_count_input == old(game).menu.filled_count_input
            },
        },
{
    match message {
        Message::LaunchUrl(_url) => {},
        Message::ToggleContextPage(_page) => {},
        Message::GotoMenu => {
            *game = Game::new();
        },
        Message::Reset => {
            let w = game.board.width;
            let h = game.board.height;
            let k = game.board.filled_count;
            game.board = Board::new(w, h, k);
            game.winstate = Winstate::InProgress;
        },
        Message::Reveal(id) => {
            if game.winstate == Winstate::InProgress && id < game.board.board_vec.len() {
                let ghost before = game.board.board_vec@;
                let mut t = game.board.board_vec[id];
                t.hidden = false;
                t.marked = false;
                game.board.board_vec.set(id, t);
                proof {
                    let revealed = revealed_at(before, id as int);
                    assert(game.board.board_vec@ =~= revealed);
                    lemma_same_empty_same_board(
                        before,
                        revealed,
                        game.board.width as int,
                        game.board.height as int,
                    );
                    if before[id as int].empty {
                        assert(revealed[id as int].empty && !revealed[id as int].hidden);
                        assert(lost(revealed));
                        assert(!solved(revealed));
                    }
                }
                game.wincheck();
            }
        },
        Message::Mark(id) => {
            if game.winstate == Winstate::InProgress && id < game.board.board_vec.len() {
                let mut t = game.board.board_vec[id];
                if t.hidden {
                    let ghost before = game.board.board_vec@;
                    t.marked = !t.marked;
                    game.board.board_vec.set(id, t);
                    proof {
                        let toggled = toggled_mark(before, id as int);
                        assert(game.board.board_vec@ =~= toggled);
                        lemma_same_empty_same_board(
                            before,
                            toggled,
                            game.board.width as int,
                            game.board.height as int,
                        );
                        lemma_wincheck_state_same_empty_hidden(before, toggled);
                    }
                    game.wincheck();
                }
            }
        },
        Message::InputWidth(input) => {
            game.menu.width_input = input;
        },
        Message::InputHeight(input) => {
            game.menu.height_input = input;
        },
        Message::InputFilledCount(input) => {
            game.menu.filled_count_input = input;
        },
        Message::StartPressed => {
            proof {
                if parses_as_usize(game.menu.width_input@) {
                    lemma_digits_val_nonneg(game.menu.width_input@);
                }
                if parses_as_usize(game.menu.height_input@) {
                    lemma_digits_val_nonneg(game.menu.height_input@);
                }
                if parses_as_usize(game.menu.filled_count_input@) {
                    lemma_digits_val_nonneg(game.menu.filled_count_input@);
                }
            }
            let w_opt = parse_usize(game.menu.width_input.as_str());
            let h_opt = parse_usize(game.menu.height_input.as_str());
            let k_opt = parse_usize(game.menu.filled_count_input.as_str());
            if let (Some(w), Some(h), Some(k)) = (w_opt, h_opt, k_opt) {
                if w >= 1 && h >= 1 {
                    if let Some(n) = w.checked_mul(h) {
                        if k <= n {
                            game.board = Board::new(w, h, k);
                            game.winstate = Winstate::InProgress;
                            game.menu.start_pressed = true;
                        }
                    }
                }
            }
        },
    }
}

} // verus!

