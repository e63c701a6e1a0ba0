//! The puzzle model: tiles, the board with its clue vectors, and the
//! session state (board, menu inputs, win state).

use crate::rng::shuffle_ids;
use crate::runs::clue_view;
use crate::runs::compute_line_runs;
use crate::runs::count_true;
use crate::runs::lemma_line_runs_sum;
use crate::runs::lemma_runs_describe_line;
use crate::runs::line_runs;
use crate::runs::runs_cover;
use crate::runs::seq_sum;
use vstd::prelude::*;
use vstd::string::StringExecFns;

verus! {

/// One square of the grid.
///
/// `empty` is the ground truth: the cell is *filled* (part of the solution)
/// iff `empty` is false. `hidden` is true while the player has not revealed
/// the cell. `marked` is the player's guess-empty annotation; it is kept
/// true only while the cell is hidden.
#[derive(Clone, Copy, Debug, PartialEq, Eq, Structural)]
pub struct Tile {
    pub hidden: bool,
    pub empty: bool,
    pub marked: bool,
}

/// Outcome of the win-check: the game is running, won, or lost.
#[derive(Clone, Copy, Debug, PartialEq, Eq, Structural)]
pub enum Winstate {
    Won,
    Lost,
    InProgress,
}

/// The three menu text inputs and the flag that leaves the menu phase.
pub struct Menu {
    pub width_input: String,
    pub height_input: String,
    pub start_pressed: bool,
    pub filled_count_input: String,
}

/// The static puzzle (dimensions, ground truth, precomputed clue vectors)
/// plus the per-cell visibility and marking state.
///
/// `board_vec` holds the `width * height` tiles in row-major order.
/// `vertical_count[c]` is the clue sequence of column `c` (scanned top to
/// bottom); `horizontal_count[r]` is the clue sequence of row `r` (scanned
/// left to right).
#[derive(Clone)]
pub struct Board {
    pub board_vec: Vec<Tile>,
    pub width: usize,
    pub height: usize,
    pub filled_count: usize,
    pub vertical_count: Vec<Vec<usize>>,
    pub horizontal_count: Vec<Vec<usize>>,
}

/// A game session: the current board, the menu inputs, and the win state.
pub struct Game {
    pub board: Board,
    pub menu: Menu,
    pub winstate: Winstate,
}

/// Flat index of the cell at `row`/`column` on a board `width` cells wide
/// (row-major order).
pub fn pair_to_index(row: usize, column: usize, width: usize) -> (id: usize)
    requires
        row * width + column <= usize::MAX,
    ensures
        id == row * width + column,
{
    row * width + column
}

/// Number of filled cells in `cells`.
pub open spec fn count_filled(cells: Seq<Tile>) -> int
    decreases cells.len(),
{
    if cells.len() == 0 {
        0
    } else {
        count_filled(cells.drop_last()) + if cells.last().empty {
            0int
        } else {
            1int
        }
    }
}

/// The filled pattern of column `c`, scanned top to bottom.
pub open spec fn column_line(cells: Seq<Tile>, width: int, height: int, c: int) -> Seq<bool> {
    Seq::new(height as nat, |r: int| !cells[r * width + c].empty)
}

/// The filled pattern of row `r`, scanned left to right.
pub open spec fn row_line(cells: Seq<Tile>, width: int, r: int) -> Seq<bool> {
    Seq::new(width as nat, |c: int| !cells[r * width + c].empty)
}

/// Every cell is still hidden and unmarked, as right after construction.
pub open spec fn fresh_cells(cells: Seq<Tile>) -> bool {
    forall|i: int|
        0 <= i < cells.len() ==> (#[trigger] cells[i]).hidden && !cells[i].marked
}

/// Filling one cell that was empty raises the filled count by one.
proof fn lemma_count_filled_fill(cells: Seq<Tile>, j: int, t: Tile)
    requires
        0 <= j < cells.len(),
        cells[j].empty,
        !t.empty,
    ensures
        count_filled(cells.update(j, t)) == count_filled(cells) + 1,
    decreases cells.len(),
{
    let u = cells.update(j, t);
    if j == cells.len() - 1 {
        assert(u.drop_last() =~= cells.drop_last());
        assert(u.last() == t);
    } else {
        assert(u.drop_last() =~= cells.drop_last().update(j, t));
        assert(u.last() == cells.last());
        lemma_count_filled_fill(cells.drop_last(), j, t);
    }
}

/// A board whose cells are all empty has filled count zero.
proof fn lemma_count_filled_all_empty(cells: Seq<Tile>)
    requires
        forall|i: int| 0 <= i < cells.len() ==> (#[trigger] cells[i]).empty,
    ensures
        count_filled(cells) == 0,
    decreases cells.len(),
{
    if cells.len() > 0 {
        lemma_count_filled_all_empty(cells.drop_last());
    }
}

/// A sequence with the same multiset of elements as `0, 1, .., n-1` holds
/// exactly those numbers, each once.
proof fn lemma_permutation_of_iota(ids: Seq<usize>, n: int)
    requires
        0 <= n <= usize::MAX,
        ids.to_multiset() == Seq::new(n as nat, |j: int| j as usize).to_multiset(),
    ensures
        ids.len() == n,
        ids.no_duplicates(),
        forall|i: int| 0 <= i < ids.len() ==> #[trigger] ids[i] < n,
{
    broadcast use vstd::seq_lib::group_to_multiset_ensures;

    let iota = Seq::new(n as nat, |j: int| j as usize);
    assert(iota.no_duplicates());
    iota.lemma_multiset_has_no_duplicates();
    assert(ids.len() == ids.to_multiset().len());
    assert(iota.len() == iota.to_multiset().len());
    assert forall|x: usize| ids.to_multiset().contains(x) implies ids.to_multiset().count(x)
        == 1 by {
        assert(iota.to_multiset().count(x) == 1);
    }
    ids.lemma_multiset_has_no_duplicates_conv();
    assert forall|i: int| 0 <= i < ids.len() implies #[trigger] ids[i] < n by {
        assert(ids.contains(ids[i]));
        assert(ids.to_multiset().count(ids[i]) > 0);
        assert(iota.to_multiset().count(ids[i]) > 0);
        assert(iota.contains(ids[i]));
        let j = choose|j: int| 0 <= j < iota.len() && iota[j] == ids[i];
        assert(iota[j] == j as usize);
    }
}

/// The puzzle is solved: every filled cell is revealed and every empty cell
/// is still hidden.
pub open spec fn solved(cells: Seq<Tile>) -> bool {
    forall|i: int|
        0 <= i < cells.len() ==> ((!(#[trigger] cells[i]).empty && !cells[i].hidden) || (
        cells[i].empty && cells[i].hidden))
}

/// An empty cell has been revealed: the game is forfeited.
pub open spec fn lost(cells: Seq<Tile>) -> bool {
    exists|i: int| 0 <= i < cells.len() && (#[trigger] cells[i]).empty && !cells[i].hidden
}

/// The win state that a check of `cells` yields while the game is running.
pub open spec fn wincheck_state(cells: Seq<Tile>) -> Winstate {
    if solved(cells) {
        Winstate::Won
    } else if lost(cells) {
        Winstate::Lost
    } else {
        Winstate::InProgress
    }
}

/// Every cell revealed and unmarked, as after a win.
pub open spec fn reveal_all(cells: Seq<Tile>) -> Seq<Tile> {
    cells.map_values(|t: Tile| Tile { hidden: false, empty: t.empty, marked: false })
}

/// The cells after a win-check: on a win every cell is revealed, otherwise
/// they are untouched. Terminal states are absorbing.
pub open spec fn wincheck_post_cells(cells: Seq<Tile>, ws: Winstate) -> Seq<Tile> {
    if ws == Winstate::InProgress && solved(cells) {
        reveal_all(cells)
    } else {
        cells
    }
}

/// The win state after a win-check. Terminal states are absorbing.
pub open spec fn wincheck_post_state(cells: Seq<Tile>, ws: Winstate) -> Winstate {
    if ws == Winstate::InProgress {
        wincheck_state(cells)
    } else {
        ws
    }
}

/// A mark is only ever kept on a hidden cell.
pub open spec fn marked_only_hidden(cells: Seq<Tile>) -> bool {
    forall|i: int| 0 <= i < cells.len() ==> ((#[trigger] cells[i]).marked ==> cells[i].hidden)
}

/// No cell is hidden any more.
pub open spec fn all_revealed(cells: Seq<Tile>) -> bool {
    forall|i: int| 0 <= i < cells.len() ==> !(#[trigger] cells[i]).hidden
}

/// Well-formedness of a session: the board is well formed, marks sit on
/// hidden cells only, and a won game has every cell revealed.
pub open spec fn game_wf(g: Game) -> bool {
    &&& board_wf(g.board)
    &&& marked_only_hidden(g.board.board_vec@)
    &&& (g.winstate == Winstate::Won ==> all_revealed(g.board.board_vec@))
}

/// The fresh session a front-end starts from: menu phase with the default
/// inputs, and a placeholder board that is not displayed.
pub open spec fn default_session(g: Game) -> bool {
    &&& g.menu.width_input@ == "10"@
    &&& g.menu.height_input@ == "10"@
    &&& g.menu.filled_count_input@ == "65"@
    &&& !g.menu.start_pressed
    &&& g.winstate == Winstate::InProgress
    &&& g.board.width == 10
    &&& g.board.height == 10
    &&& g.board.filled_count == 40
    &&& fresh_cells(g.board.board_vec@)
}

/// Two cell sequences with the same filled pattern have the same filled
/// count.
proof fn lemma_count_filled_same_empty(cells1: Seq<Tile>, cells2: Seq<Tile>)
    requires
        cells1.len() == cells2.len(),
        forall|i: int|
            0 <= i < cells1.len() ==> (#[trigger] cells1[i]).empty == (#[trigger] cells2[i]).empty,
    ensures
        count_filled(cells1) == count_filled(cells2),
    decreases cells1.len(),
{
    if cells1.len() > 0 {
        lemma_count_filled_same_empty(cells1.drop_last(), cells2.drop_last());
    }
}

/// The filled count and every line pattern depend only on which cells are
/// filled: a change of visibility or marking leaves the clue data valid.
pub proof fn lemma_same_empty_same_board(
    cells1: Seq<Tile>,
    cells2: Seq<Tile>,
    width: int,
    height: int,
)
    requires
        0 <= width,
        0 <= height,
        cells1.len() == width * height,
        cells2.len() == width * height,
        forall|i: int|
            0 <= i < cells1.len() ==> (#[trigger] cells1[i]).empty == (#[trigger] cells2[i]).empty,
    ensures
        count_filled(cells1) == count_filled(cells2),
        forall|c: int|
            0 <= c < width ==> #[trigger] column_line(cells1, width, height, c) == column_line(
                cells2,
                width,
                height,
                c,
            ),
        forall|r: int|
            0 <= r < height ==> #[trigger] row_line(cells1, width, r) == row_line(cells2, width, r),
{
    lemma_count_filled_same_empty(cells1, cells2);
    assert forall|c: int| 0 <= c < width implies #[trigger] column_line(cells1, width, height, c)
        == column_line(cells2, width, height, c) by {
        assert forall|r: int| 0 <= r < height implies column_line(cells1, width, height, c)[r]
            == column_line(cells2, width, height, c)[r] by {
            assert(0 <= r * width + c < width * height) by (nonlinear_arith)
                requires
                    0 <= r < height,
                    0 <= c < width,
            ;
        }
        assert(column_line(cells1, width, height, c) =~= column_line(cells2, width, height, c));
    }
    assert forall|r: int| 0 <= r < height implies #[trigger] row_line(cells1, width, r) == row_line(
        cells2,
        width,
        r,
    ) by {
        assert forall|c: int| 0 <= c < width implies row_line(cells1, width, r)[c] == row_line(
            cells2,
            width,
            r,
        )[c] by {
            assert(0 <= r * width + c < width * height) by (nonlinear_arith)
                requires
                    0 <= r < height,
                    0 <= c < width,
            ;
        }
        assert(row_line(cells1, width, r) =~= row_line(cells2, width, r));
    }
}

/// The win-check reads only the filled pattern and the visibility, never
/// the marks.
pub proof fn lemma_wincheck_state_same_empty_hidden(cells1: Seq<Tile>, cells2: Seq<Tile>)
    requires
        cells1.len() == cells2.len(),
        forall|i: int|
            0 <= i < cells1.len() ==> (#[trigger] cells1[i]).empty == (#[trigger] cells2[i]).empty
                && cells1[i].hidden == cells2[i].hidden,
    ensures
        solved(cells1) == solved(cells2),
        lost(cells1) == lost(cells2),
        wincheck_state(cells1) == wincheck_state(cells2),
{
    if solved(cells1) {
        assert forall|i: int| 0 <= i < cells2.len() implies ((!(#[trigger] cells2[i]).empty
            && !cells2[i].hidden) || (cells2[i].empty && cells2[i].hidden)) by {
            assert((!cells1[i].empty && !cells1[i].hidden) || (cells1[i].empty
                && cells1[i].hidden));
        }
    }
    if solved(cells2) {
        assert forall|i: int| 0 <= i < cells1.len() implies ((!(#[trigger] cells1[i]).empty
            && !cells1[i].hidden) || (cells1[i].empty && cells1[i].hidden)) by {
            assert((!cells2[i].empty && !cells2[i].hidden) || (cells2[i].empty
                && cells2[i].hidden));
        }
    }
    if lost(cells1) {
        let i = choose|i: int|
            0 <= i < cells1.len() && (#[trigger] cells1[i]).empty && !cells1[i].hidden;
        assert(cells2[i].empty && !cells2[i].hidden);
    }
    if lost(cells2) {
        let i = choose|i: int|
            0 <= i < cells2.len() && (#[trigger] cells2[i]).empty && !cells2[i].hidden;
        assert(cells1[i].empty && !cells1[i].hidden);
    }
}

/// Recomputing the win state right after a win-check changes nothing:
/// terminal states are absorbing, and an in-progress result leaves the
/// cells as they were.
pub proof fn lemma_wincheck_idempotent(cells: Seq<Tile>, ws: Winstate)
    ensures
        ({
            let cells1 = wincheck_post_cells(cells, ws);
            let ws1 = wincheck_post_state(cells, ws);
            wincheck_post_state(cells1, ws1) == ws1 && wincheck_post_cells(cells1, ws1) == cells1
        }),
{
}

/// Well-formedness of a board: the dimensions are positive, the cell vector
/// has one tile per grid position, exactly `filled_count` of them are
/// filled, and both clue vectors hold the run lengths of their lines.
pub open spec fn board_wf(b: Board) -> bool {
    &&& 1 <= b.width
    &&& 1 <= b.height
    &&& b.width * b.height <= usize::MAX
    &&& b.board_vec@.len() == b.width * b.height
    &&& count_filled(b.board_vec@) == b.filled_count
    &&& b.filled_count <= b.width * b.height
    &&& b.vertical_count@.len() == b.width
    &&& (forall|c: int|
        0 <= c < b.width ==> clue_view(#[trigger] b.vertical_count@[c]@) == line_runs(
            column_line(b.board_vec@, b.width as int, b.height as int, c),
        ))
    &&& b.horizontal_count@.len() == b.height
    &&& (forall|r: int|
        0 <= r < b.height ==> clue_view(#[trigger] b.horizontal_count@[r]@) == line_runs(
            row_line(b.board_vec@, b.width as int, r),
        ))
}

impl Board {
    /// A board of hidden, unmarked, unfilled tiles with empty clue vectors.
    pub fn gen_empty(width: usize, height: usize) -> (board: Board)
        requires
            width * height <= usize::MAX,
        ensures
            board.width == width,
            board.height == height,
            board.filled_count == 0,
            board.board_vec@.len() == width * height,
            forall|i: int|
                0 <= i < board.board_vec@.len() ==> #[trigger] board.board_vec@[i] == (Tile {
                    hidden: true,
                    empty: true,
                    marked: false,
                }),
            board.vertical_count@.len() == 0,
            board.horizontal_count@.len() == 0,
    {
        let n = width * height;
        let mut board_vec: Vec<Tile> = Vec::new();
        let mut i: usize = 0;
        while i < n
            invariant
                i <= n,
                board_vec@.len() == i,
                forall|j: int|
                    0 <= j < i ==> #[trigger] board_vec@[j] == (Tile {
                        hidden: true,
                        empty: true,
                        marked: false,
                    }),
            decreases n - i,
        {
            board_vec.push(Tile { hidden: true, empty: true, marked: false });
            i = i + 1;
        }
        Board {
            board_vec,
            width,
            height,
            filled_count: 0,
            vertical_count: Vec::new(),
            horizontal_count: Vec::new(),
        }
    }

    /// The filled pattern of column `c`, as a vector of booleans.
    fn extract_column(&self, c: usize) -> (line: Vec<bool>)
        requires
            c < self.width,
            self.width * self.height <= usize::MAX,
            self.board_vec@.len() == self.width * self.height,
        ensures
            line@ == column_line(
                self.board_vec@,
                self.width as int,
                self.height as int,
                c as int,
            ),
    {
        let mut line: Vec<bool> = Vec::new();
        let mut r: usize = 0;
        while r < self.height
            invariant
                r <= self.height,
                c < self.width,
                self.width * self.height <= usize::MAX,
                self.board_vec@.len() == self.width * self.height,
                line@ =~= column_line(
                    self.board_vec@,
                    self.width as int,
                    self.height as int,
                    c as int,
                ).take(r as int),
            decreases self.height - r,
        {
            proof {
                assert(r * self.width + c < self.width * self.height) by (nonlinear_arith)
                    requires
                        r < self.height,
                        c < self.width,
                ;
            }
            let id = pair_to_index(r, c, self.width);
            line.push(!self.board_vec[id].empty);
            r = r + 1;
        }
        proof {
            assert(line@ =~= column_line(
                self.board_vec@,
                self.width as int,
                self.height as int,
                c as int,
            ));
        }
        line
    }

    /// The filled pattern of row `r`, as a vector of booleans.
    fn extract_row(&self, r: usize) -> (line: Vec<bool>)
        requires
            r < self.height,
            self.width * self.height <= usize::MAX,
            self.board_vec@.len() == self.width * self.height,
        ensures
            line@ == row_line(self.board_vec@, self.width as int, r as int),
    {
        let mut line: Vec<bool> = Vec::new();
        let mut c: usize = 0;
        while c < self.width
            invariant
                c <= self.width,
                r < self.height,
                self.width * self.height <= usize::MAX,
                self.board_vec@.len() == self.width * self.height,
                line@ =~= row_line(self.board_vec@, self.width as int, r as int).take(c as int),
            decreases self.width - c,
        {
            proof {
                assert(r * self.width + c < self.width * self.height) by (nonlinear_arith)
                    requires
                        r < self.height,
                        c < self.width,
                ;
            }
            let id = pair_to_index(r, c, self.width);
            line.push(!self.board_vec[id].empty);
            c = c + 1;
        }
        proof {
            assert(line@ =~= row_line(self.board_vec@, self.width as int, r as int));
        }
        line
    }

    /// Fill `filled_count` cells chosen uniformly at random: shuffle the
    /// cell ids and fill the first `filled_count` of them.
    fn fill_boxes_randomly(&mut self, filled_count: usize)
        requires
            old(self).board_vec@.len() == old(self).width * old(self).height,
            filled_count <= old(self).board_vec@.len(),
            forall|i: int|
                0 <= i < old(self).board_vec@.len() ==> #[trigger] old(self).board_vec@[i] == (Tile {
                    hidden: true,
                    empty: true,
                    marked: false,
                }),
        ensures
            final(self).width == old(self).width,
            final(self).height == old(self).height,
            final(self).filled_count == old(self).filled_count,
            final(self).vertical_count == old(self).vertical_count,
            final(self).horizontal_count == old(self).horizontal_count,
            final(self).board_vec@.len() == old(self).board_vec@.len(),
            count_filled(final(self).board_vec@) == filled_count,
            fresh_cells(final(self).board_vec@),
    {
        let n = self.board_vec.len();
        let mut ids: Vec<usize> = Vec::new();
        let mut i: usize = 0;
        while i < n
            invariant
                i <= n,
                ids@.len() == i,
                forall|j: int| 0 <= j < i ==> #[trigger] ids@[j] == j as usize,
            decreases n - i,
        {
            ids.push(i);
            i = i + 1;
        }
        proof {
            assert(ids@ =~= Seq::new(n as nat, |j: int| j as usize));
        }
        shuffle_ids(&mut ids);
        proof {
            lemma_permutation_of_iota(ids@, n as int);
            lemma_count_filled_all_empty(self.board_vec@);
        }
        let mut k: usize = 0;
        while k < filled_count
            invariant
                k <= filled_count <= n,
                ids@.len() == n,
                ids@.no_duplicates(),
                forall|j: int| 0 <= j < n ==> #[trigger] ids@[j] < n,
                self.board_vec@.len() == n,
                self.width == old(self).width,
                self.height == old(self).height,
                self.filled_count == old(self).filled_count,
                self.vertical_count == old(self).vertical_count,
                self.horizontal_count == old(self).horizontal_count,
                count_filled(self.board_vec@) == k,
                forall|j: int|
                    0 <= j < n ==> (!(#[trigger] self.board_vec@[j]).empty <==> ids@.take(
                        k as int,
                    ).contains(j as usize)),
                forall|j: int|
                    0 <= j < n ==> (#[trigger] self.board_vec@[j]).hidden
                        && !self.board_vec@[j].marked,
            decreases filled_count - k,
        {
            let id = ids[k];
            proof {
                if !self.board_vec@[id as int].empty {
                    let taken = ids@.take(k as int);
                    assert(taken.contains(id));
                    let m = choose|m: int| 0 <= m < taken.len() && taken[m] == id;
                    assert(ids@[m] == ids@[k as int]);
                    assert(false);
                }
            }
            let mut t = self.board_vec[id];
            t.empty = false;
            let ghost before = self.board_vec@;
            self.board_vec.set(id, t);
            proof {
                lemma_count_filled_fill(before, id as int, t);
                let taken = ids@.take(k as int);
                let taken1 = ids@.take(k + 1);
                assert(taken1[k as int] == id);
                assert forall|j: int|
                    0 <= j < n implies (!(#[trigger] self.board_vec@[j]).empty <==> taken1.contains(
                    j as usize,
                )) by {
                    if j == id {
                        assert(taken1.contains(j as usize));
                    } else {
                        assert(self.board_vec@[j] == before[j]);
                        if taken1.contains(j as usize) {
                            let m = choose|m: int|
                                0 <= m < taken1.len() && taken1[m] == j as usize;
                            assert(m < k);
                            assert(taken[m] == j as usize);
                            assert(taken.contains(j as usize));
                        }
                        if taken.contains(j as usize) {
                            let m = choose|m: int| 0 <= m < taken.len() && taken[m] == j as usize;
                            assert(taken1[m] == j as usize);
                            assert(taken1.contains(j as usize));
                        }
                    }
                }
            }
            k = k + 1;
        }
    }

    /// Build a board: `width * height` hidden cells, `filled_count` of them
    /// filled at uniformly random positions, and both clue vectors derived
    /// from the result.
    pub fn new(width: usize, height: usize, filled_count: usize) -> (board: Board)
        requires
            1 <= width,
            1 <= height,
            width * height <= usize::MAX,
            filled_count <= width * height,
        ensures
            board_wf(board),
            board.width == width,
            board.height == height,
            board.filled_count == filled_count,
            fresh_cells(board.board_vec@),
    {
        let mut board = Self::gen_empty(width, height);
        board.fill_boxes_randomly(filled_count);
        board.filled_count = filled_count;
        board.count_vertical();
        board.count_horizontal();
        board
    }

    /// Recompute the column clue vector from the current cells.
    pub fn count_vertical(&mut self)
        requires
            old(self).width * old(self).height <= usize::MAX,
            old(self).board_vec@.len() == old(self).width * old(self).height,
        ensures
            final(self).board_vec == old(self).board_vec,
            final(self).width == old(self).width,
            final(self).height == old(self).height,
            final(self).filled_count == old(self).filled_count,
            final(self).horizontal_count == old(self).horizontal_count,
            final(self).vertical_count@.len() == old(self).width,
            forall|c: int|
                0 <= c < old(self).width ==> clue_view(#[trigger] final(self).vertical_count@[c]@)
                    == line_runs(
                    column_line(
                        old(self).board_vec@,
                        old(self).width as int,
                        old(self).height as int,
                        c,
                    ),
                ),
    {
        let mut vertical_count: Vec<Vec<usize>> = Vec::new();
        let mut c: usize = 0;
        while c < self.width
            invariant
                c <= self.width,
                self.width * self.height <= usize::MAX,
                self.board_vec@.len() == self.width * self.height,
                vertical_count@.len() == c,
                forall|k: int|
                    0 <= k < c ==> clue_view(#[trigger] vertical_count@[k]@) == line_runs(
                        column_line(self.board_vec@, self.width as int, self.height as int, k),
                    ),
            decreases self.width - c,
        {
            let line = self.extract_column(c);
            let runs = compute_line_runs(&line);
            vertical_count.push(runs);
            c = c + 1;
        }
        self.vertical_count = vertical_count;
    }

    /// Recompute the row clue vector from the current cells.
    pub fn count_horizontal(&mut self)
        requires
            old(self).width * old(self).height <= usize::MAX,
            old(self).board_vec@.len() == old(self).width * old(self).height,
        ensures
            final(self).board_vec == old(self).board_vec,
            final(self).width == old(self).width,
            final(self).height == old(self).height,
            final(self).filled_count == old(self).filled_count,
            final(self).vertical_count == old(self).vertical_count,
            final(self).horizontal_count@.len() == old(self).height,
            forall|r: int|
                0 <= r < old(self).height ==> clue_view(
                    #[trigger] final(self).horizontal_count@[r]@,
                ) == line_runs(row_line(old(self).board_vec@, old(self).width as int, r)),
    {
        let mut horizontal_count: Vec<Vec<usize>> = Vec::new();
        let mut r: usize = 0;
        while r < self.height
            invariant
                r <= self.height,
                self.width * self.height <= usize::MAX,
                self.board_vec@.len() == self.width * self.height,
                horizontal_count@.len() == r,
                forall|k: int|
                    0 <= k < r ==> clue_view(#[trigger] horizontal_count@[k]@) == line_runs(
                        row_line(self.board_vec@, self.width as int, k),
                    ),
            decreases self.height - r,
        {
            let line = self.extract_row(r);
            let runs = compute_line_runs(&line);
            horizontal_count.push(runs);
            r = r + 1;
        }
        self.horizontal_count = horizontal_count;
    }
}

/// The grand total of a sequence of clue vectors: the sum of all their
/// entries.
pub open spec fn clues_total(cs: Seq<Vec<usize>>) -> int
    decreases cs.len(),
{
    if cs.len() == 0 {
        0
    } else {
        clues_total(cs.drop_last()) + seq_sum(clue_view(cs.last()@))
    }
}

/// Filled cells in the first `c` columns, counted column by column.
spec fn col_counts_before(cells: Seq<Tile>, width: int, height: int, c: int) -> int
    decreases c,
{
    if c <= 0 {
        0
    } else {
        col_counts_before(cells, width, height, c - 1) + count_true(
            column_line(cells, width, height, c - 1),
        )
    }
}

/// Filled cells in the first `r` rows, counted row by row.
spec fn row_counts_before(cells: Seq<Tile>, width: int, r: int) -> int
    decreases r,
{
    if r <= 0 {
        0
    } else {
        row_counts_before(cells, width, r - 1) + count_true(row_line(cells, width, r - 1))
    }
}

/// On a well-formed board the column clue totals track the per-column
/// filled counts.
proof fn lemma_clues_total_cols(b: Board, c: int)
    requires
        board_wf(b),
        0 <= c <= b.width,
    ensures
        clues_total(b.vertical_count@.take(c)) == col_counts_before(
            b.board_vec@,
            b.width as int,
            b.height as int,
            c,
        ),
    decreases c,
{
    if c > 0 {
        lemma_clues_total_cols(b, c - 1);
        let t = b.vertical_count@.take(c);
        assert(t.drop_last() =~= b.vertical_count@.take(c - 1));
        assert(t.last() == b.vertical_count@[c - 1]);
        lemma_line_runs_sum(column_line(b.board_vec@, b.width as int, b.height as int, c - 1));
    }
}

/// On a well-formed board the row clue totals track the per-row filled
/// counts.
proof fn lemma_clues_total_rows(b: Board, r: int)
    requires
        board_wf(b),
        0 <= r <= b.height,
    ensures
        clues_total(b.horizontal_count@.take(r)) == row_counts_before(
            b.board_vec@,
            b.width as int,
            r,
        ),
    decreases r,
{
    if r > 0 {
        lemma_clues_total_rows(b, r - 1);
        let t = b.horizontal_count@.take(r);
        assert(t.drop_last() =~= b.horizontal_count@.take(r - 1));
        assert(t.last() == b.horizontal_count@[r - 1]);
        lemma_line_runs_sum(row_line(b.board_vec@, b.width as int, r - 1));
    }
}

/// A slice of a row holds as many filled cells as the corresponding slice
/// of the flat cell sequence.
proof fn lemma_row_count_slice(cells: Seq<Tile>, width: int, r: int, c: int)
    requires
        0 <= width,
        0 <= r,
        0 <= c <= width,
        r * width + width <= cells.len(),
    ensures
        count_true(row_line(cells, width, r).take(c)) == count_filled(cells.take(r * width + c))
            - count_filled(cells.take(r * width)),
    decreases c,
{
    if c > 0 {
        lemma_row_count_slice(cells, width, r, c - 1);
        let row = row_line(cells, width, r);
        assert(row.take(c).drop_last() =~= row.take(c - 1));
        assert(row.take(c).last() == !cells[r * width + (c - 1)].empty);
        let p1 = cells.take(r * width + c);
        assert(p1.drop_last() =~= cells.take(r * width + c - 1));
        assert(p1.last() == cells[r * width + c - 1]);
    }
}

/// With no rows there is nothing to count in any column.
proof fn lemma_col_counts_zero(cells: Seq<Tile>, width: int, c: int)
    ensures
        col_counts_before(cells, width, 0, c) == 0,
    decreases c,
{
    if c > 0 {
        lemma_col_counts_zero(cells, width, c - 1);
        assert(column_line(cells, width, 0, c - 1) =~= Seq::<bool>::empty());
    }
}

/// Dropping the last row of the grid takes one cell out of each column.
proof fn lemma_col_counts_height(cells: Seq<Tile>, width: int, height: int, c: int)
    requires
        0 <= width,
        1 <= height,
        0 <= c <= width,
    ensures
        col_counts_before(cells, width, height, c) == col_counts_before(
            cells,
            width,
            height - 1,
            c,
        ) + count_true(row_line(cells, width, height - 1).take(c)),
    decreases c,
{
    if c > 0 {
        lemma_col_counts_height(cells, width, height, c - 1);
        let colh = column_line(cells, width, height, c - 1);
        let colh1 = column_line(cells, width, height - 1, c - 1);
        assert(colh.drop_last() =~= colh1);
        assert(colh.last() == !cells[(height - 1) * width + (c - 1)].empty);
        let row = row_line(cells, width, height - 1);
        assert(row.take(c).drop_last() =~= row.take(c - 1));
        assert(row.take(c).last() == row[c - 1]);
        assert(row[c - 1] == !cells[(height - 1) * width + (c - 1)].empty);
    }
}

/// Counting the filled cells column by column counts every filled cell of
/// the grid exactly once.
proof fn lemma_grid_counts_cols(cells: Seq<Tile>, width: int, height: int)
    requires
        0 <= width,
        0 <= height,
        width * height <= cells.len(),
    ensures
        col_counts_before(cells, width, height, width) == count_filled(cells.take(width * height)),
    decreases height,
{
    if height == 0 {
        lemma_col_counts_zero(cells, width, width);
        assert(cells.take(0) =~= Seq::<Tile>::empty());
        assert(width * height == 0) by (nonlinear_arith)
            requires
                height == 0,
        ;
    } else {
        assert(width * (height - 1) == width * height - width) by (nonlinear_arith);
        assert((height - 1) * width == width * (height - 1)) by (nonlinear_arith);
        lemma_grid_counts_cols(cells, width, height - 1);
        lemma_col_counts_height(cells, width, height, width);
        lemma_row_count_slice(cells, width, height - 1, width);
        assert(row_line(cells, width, height - 1).take(width) =~= row_line(
            cells,
            width,
            height - 1,
        ));
    }
}

/// Counting the filled cells row by row counts every filled cell of the
/// grid exactly once.
proof fn lemma_grid_counts_rows(cells: Seq<Tile>, width: int, height: int)
    requires
        0 <= width,
        0 <= height,
        width * height <= cells.len(),
    ensures
        row_counts_before(cells, width, height) == count_filled(cells.take(width * height)),
    decreases height,
{
    if height == 0 {
        assert(cells.take(0) =~= Seq::<Tile>::empty());
        assert(width * height == 0) by (nonlinear_arith)
            requires
                height == 0,
        ;
    } else {
        let r = height - 1;
        assert(width * r == width * height - width) by (nonlinear_arith)
            requires
                r == height - 1,
        ;
        assert(r * width == width * r) by (nonlinear_arith);
        lemma_grid_counts_rows(cells, width, r);
        lemma_row_count_slice(cells, width, r, width);
        assert(row_line(cells, width, r).take(width) =~= row_line(cells, width, r));
    }
}

/// The clue sums: on a well-formed board both the column clues and the row
/// clues add up to the number of filled cells.
pub proof fn lemma_clue_sums(b: Board)
    requires
        board_wf(b),
    ensures
        clues_total(b.vertical_count@) == b.filled_count,
        clues_total(b.horizontal_count@) == b.filled_count,
{
    let cells = b.board_vec@;
    let width = b.width as int;
    let height = b.height as int;
    lemma_clues_total_cols(b, width);
    assert(b.vertical_count@.take(width) =~= b.vertical_count@);
    lemma_grid_counts_cols(cells, width, height);
    lemma_clues_total_rows(b, height);
    assert(b.horizontal_count@.take(height) =~= b.horizontal_count@);
    lemma_grid_counts_rows(cells, width, height);
    assert(cells.take(width * height) =~= cells);
}

/// On a well-formed board every clue vector describes its line exactly:
/// laying its entries over the line in order, with at least one empty cell
/// between consecutive entries and empty cells elsewhere, reproduces the
/// line's filled pattern.
pub proof fn lemma_board_clues_describe_lines(b: Board)
    requires
        board_wf(b),
    ensures
        forall|c: int|
            0 <= c < b.width ==> runs_cover(
                column_line(b.board_vec@, b.width as int, b.height as int, c),
                clue_view(#[trigger] b.vertical_count@[c]@),
                crate::runs::line_run_starts(
                    column_line(b.board_vec@, b.width as int, b.height as int, c),
                ),
            ),
        forall|r: int|
            0 <= r < b.height ==> runs_cover(
                row_line(b.board_vec@, b.width as int, r),
                clue_view(#[trigger] b.horizontal_count@[r]@),
                crate::runs::line_run_starts(row_line(b.board_vec@, b.width as int, r)),
            ),
{
    assert forall|c: int| 0 <= c < b.width implies runs_cover(
        column_line(b.board_vec@, b.width as int, b.height as int, c),
        clue_view(#[trigger] b.vertical_count@[c]@),
        crate::runs::line_run_starts(column_line(b.board_vec@, b.width as int, b.height as int, c)),
    ) by {
        lemma_runs_describe_line(column_line(b.board_vec@, b.width as int, b.height as int, c));
    }
    assert forall|r: int| 0 <= r < b.height implies runs_cover(
        row_line(b.board_vec@, b.width as int, r),
        clue_view(#[trigger] b.horizontal_count@[r]@),
        crate::runs::line_run_starts(row_line(b.board_vec@, b.width as int, r)),
    ) by {
        lemma_runs_describe_line(row_line(b.board_vec@, b.width as int, r));
    }
}

impl Game {
    /// A fresh session in the menu phase, with the default inputs and a
    /// placeholder board that is not displayed.
    pub fn new() -> (game: Game)
        ensures
            game_wf(game),
            default_session(game),
    {
        let game = Game {
            board: Board::new(10, 10, 40),
            menu: Menu {
                width_input: String::from_str("10"),
                height_input: String::from_str("10"),
                filled_count_input: String::from_str("65"),
                start_pressed: false,
            },
            winstate: Winstate::InProgress,
        };
        game
    }

    /// Recompute the win state from the cells. While the game is running:
    /// a solved board wins and reveals every cell; a revealed empty cell
    /// loses; otherwise the game stays in progress. A terminal state is
    /// absorbing: the check then changes nothing.
    pub fn wincheck(&mut self)
        ensures
            final(self).menu == old(self).menu,
            final(self).board.width == old(self).board.width,
            final(self).board.height == old(self).board.height,
            final(self).board.filled_count == old(self).board.filled_count,
            final(self).board.vertical_count == old(self).board.vertical_count,
            final(self).board.horizontal_count == old(self).board.horizontal_count,
            final(self).winstate == wincheck_post_state(
                old(self).board.board_vec@,
                old(self).winstate,
            ),
            final(self).board.board_vec@ == wincheck_post_cells(
                old(self).board.board_vec@,
                old(self).winstate,
            ),
            game_wf(*old(self)) ==> game_wf(*final(self)),
    {
        match self.winstate {
            Winstate::Won => {
                return ;
            },
            Winstate::Lost => {
                return ;
            },
            Winstate::InProgress => {},
        }
        let ghost cells = self.board.board_vec@;
        let n = self.board.board_vec.len();
        let mut all_ok = true;
        let mut i: usize = 0;
        while i < n
            invariant
                i <= n,
                n == self.board.board_vec@.len(),
                *self == *old(self),
                all_ok <==> (forall|j: int|
                    0 <= j < i ==> ((!(#[trigger] self.board.board_vec@[j]).empty
                        && !self.board.board_vec@[j].hidden) || (self.board.board_vec@[j].empty
                        && self.board.board_vec@[j].hidden))),
            decreases n - i,
        {
            let t = self.board.board_vec[i];
            if !((!t.empty && !t.hidden) || (t.empty && t.hidden)) {
                all_ok = false;
            }
            i = i + 1;
        }
        assert(all_ok == solved(cells));
        if all_ok {
            self.winstate = Winstate::Won;
            let mut j: usize = 0;
            while j < n
                invariant
                    j <= n,
                    n == self.board.board_vec@.len(),
                    cells.len() == n,
                    self.board.width == old(self).board.width,
                    self.board.height == old(self).board.height,
                    self.board.filled_count == old(self).board.filled_count,
                    self.board.vertical_count == old(self).board.vertical_count,
                    self.board.horizontal_count == old(self).board.horizontal_count,
                    self.menu == old(self).menu,
                    self.winstate == Winstate::Won,
                    forall|m: int|
                        0 <= m < j ==> #[trigger] self.board.board_vec@[m] == (Tile {
                            hidden: false,
                            empty: cells[m].empty,
                            marked: false,
                        }),
                    forall|m: int| j <= m < n ==> #[trigger] self.board.board_vec@[m] == cells[m],
                decreases n - j,
            {
                let mut t = self.board.board_vec[j];
                t.hidden = false;
                t.marked = false;
                self.board.board_vec.set(j, t);
                j = j + 1;
            }
            proof {
                assert(self.board.board_vec@ =~= reveal_all(cells));
                if game_wf(*old(self)) {
                    lemma_same_empty_same_board(
                        cells,
                        reveal_all(cells),
                        self.board.width as int,
                        self.board.height as int,
                    );
                }
            }
        } else {
            let mut any_bad = false;
            let mut k: usize = 0;
            while k < n
                invariant
                    k <= n,
                    n == self.board.board_vec@.len(),
                    *self == *old(self),
                    any_bad <==> (exists|j: int|
                        0 <= j < k && (#[trigger] self.board.board_vec@[j]).empty
                            && !self.board.board_vec@[j].hidden),
                decreases n - k,
            {
                let t = self.board.board_vec[k];
                if t.empty && !t.hidden {
                    any_bad = true;
                }
                k = k + 1;
            }
            assert(any_bad == lost(cells));
            if any_bad {
                self.winstate = Winstate::Lost;
            } else {
                self.winstate = Winstate::InProgress;
            }
        }
    }
}

} // verus!
