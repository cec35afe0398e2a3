//! The board, its marks, and the detection of finished games.

use vstd::prelude::*;

verus! {

/// One of the two marks that can be placed on the board.
#[derive(Clone, Copy, PartialEq, Eq, Debug, Structural)]
pub enum Player {
    X,
    O,
}

impl Player {
    /// The player who is not `self`.
    pub open spec fn opponent(self) -> Player {
        match self {
            Player::X => Player::O,
            Player::O => Player::X,
        }
    }

    /// Hands the turn to the other player.
    pub fn switch(&self) -> (other: Player)
        ensures
            other == self.opponent(),
            other != *self,
            other.opponent() == *self,
    {
        match *self {
            Self::O => Self::X,
            Self::X => Self::O,
        }
    }
}

/// The grid: `board[row][column]`, each cell empty or holding a mark.
pub type Board = [[Option<Player>; 3]; 3];

/// The nine cells of a board as a sequence, row by row.
pub type Cells = Seq<Option<Player>>;

/// What a game has come to, as seen by one player.
#[derive(Clone, Copy, PartialEq, Eq, Debug, Structural)]
pub enum GameStatus {
    Won,
    Drew,
    Lost,
    Ongoing,
}

/// The cells of `board` in row-major order: cell `3 * row + column`.
pub open spec fn cells(board: Board) -> Cells {
    Seq::new(9, |i: int| board[i / 3][i % 3])
}

/// The three cells of line `k`. Lines are numbered in the order in which they
/// are examined: the two diagonals, then for each index the row followed by
/// the column.
pub open spec fn line(k: int) -> (int, int, int) {
    if k == 0 {
        (0, 4, 8)
    } else if k == 1 {
        (6, 4, 2)
    } else if k % 2 == 0 {
        let row = (k - 2) / 2;
        (3 * row, 3 * row + 1, 3 * row + 2)
    } else {
        let column = (k - 3) / 2;
        (column, column + 3, column + 6)
    }
}

/// The mark that fills the cells `a`, `b` and `c`, if one mark fills all three.
pub open spec fn three_alike(cells: Cells, a: int, b: int, c: int) -> Option<Player> {
    if cells[a] is Some && cells[b] == cells[a] && cells[c] == cells[a] {
        cells[a]
    } else {
        None
    }
}

/// The mark that completes line `k`, if the line is complete.
pub open spec fn line_mark(cells: Cells, k: int) -> Option<Player> {
    three_alike(cells, line(k).0, line(k).1, line(k).2)
}

/// The mark of the first complete line among lines `from..8`.
pub open spec fn first_line_mark(cells: Cells, from: int) -> Option<Player>
    decreases 8 - from,
{
    if from >= 8 {
        None
    } else if line_mark(cells, from) is Some {
        line_mark(cells, from)
    } else {
        first_line_mark(cells, from + 1)
    }
}

/// The mark of the first complete line, if any line is complete.
pub open spec fn winner(cells: Cells) -> Option<Player> {
    first_line_mark(cells, 0)
}

/// Whether line `k`, and no other line, is complete.
pub open spec fn only_line(cells: Cells, k: int) -> bool {
    &&& 0 <= k < 8
    &&& line_mark(cells, k) is Some
    &&& forall|j: int| 0 <= j < 8 && j != k ==> line_mark(cells, j) is None
}

/// Whether no line is complete.
pub open spec fn no_line(cells: Cells) -> bool {
    forall|k: int| 0 <= k < 8 ==> line_mark(cells, k) is None
}

/// Whether some cell is empty.
pub open spec fn has_empty(cells: Cells) -> bool {
    exists|i: int| 0 <= i < 9 && cells[i] is None
}

/// The state of the game on `cells` from the point of view of `player`.
pub open spec fn status_of(cells: Cells, player: Player) -> GameStatus {
    match winner(cells) {
        Some(mark) => if mark == player {
            GameStatus::Won
        } else {
            GameStatus::Lost
        },
        None => if has_empty(cells) {
            GameStatus::Ongoing
        } else {
            GameStatus::Drew
        },
    }
}

/// Whether `square`, given as (column, row), lies on the board.
pub open spec fn on_board(square: (usize, usize)) -> bool {
    square.0 < 3 && square.1 < 3
}

/// The index of `square` among the cells.
pub open spec fn cell_of(square: (usize, usize)) -> int {
    3 * square.1 + square.0
}

/// The square of cell `i`.
pub open spec fn square_of(i: int) -> (usize, usize) {
    ((i % 3) as usize, (i / 3) as usize)
}

/// The nine squares, row by row and from left to right within a row.
pub open spec fn all_squares() -> Seq<(usize, usize)> {
    Seq::new(9, |i: int| square_of(i))
}

/// Whether `square` lies on the board and is empty.
pub open spec fn vacant(cells: Cells, square: (usize, usize)) -> bool {
    on_board(square) && cells[cell_of(square)] is None
}

/// The test for a square being empty on `cells`.
pub open spec fn vacancy(cells: Cells) -> spec_fn((usize, usize)) -> bool {
    |square: (usize, usize)| vacant(cells, square)
}

/// The empty squares, row by row and from left to right within a row.
pub open spec fn empty_squares(cells: Cells) -> Seq<(usize, usize)> {
    all_squares().filter(vacancy(cells))
}

/// The number of empty cells.
pub open spec fn empty_count(cells: Cells) -> nat {
    cells.to_multiset().count(None)
}

/// The cells after `player` has put a mark on `square`.
pub open spec fn place(cells: Cells, square: (usize, usize), player: Player) -> Cells {
    cells.update(cell_of(square), Some(player))
}

/// The empty squares are the squares of the empty cells: each of them is
/// empty, and the square of each empty cell is among them.
pub proof fn lemma_empty_squares(cells: Cells)
    ensures
        forall|i: int|
            0 <= i < empty_squares(cells).len() ==> vacant(cells, #[trigger] empty_squares(cells)[i]),
        forall|i: int|
            0 <= i < 9 && cells[i] is None ==> empty_squares(cells).contains(#[trigger] square_of(i)),
{
    assert forall|i: int| 0 <= i < empty_squares(cells).len() implies vacant(
        cells,
        #[trigger] empty_squares(cells)[i],
    ) by {
        all_squares().lemma_filter_pred(vacancy(cells), i);
    }
    assert forall|i: int| 0 <= i < 9 && cells[i] is None implies empty_squares(cells).contains(
        #[trigger] square_of(i),
    ) by {
        assert(cell_of(square_of(i)) == i);
        assert(all_squares()[i] == square_of(i));
        all_squares().lemma_filter_contains(vacancy(cells), i);
    }
}

/// A mark placed on an empty square leaves one empty cell fewer.
pub proof fn lemma_place_fills_one(cells: Cells, square: (usize, usize), player: Player)
    requires
        cells.len() == 9,
        vacant(cells, square),
    ensures
        place(cells, square, player).len() == 9,
        empty_count(place(cells, square, player)) == empty_count(cells) - 1,
{
    vstd::seq_lib::to_multiset_update(cells, cell_of(square), Some(player));
    vstd::seq_lib::to_multiset_contains(cells, None);
    assert(cells.contains(cells[cell_of(square)]));
}

/// Lines that are not complete can be skipped when looking for the first
/// complete one.
pub proof fn lemma_skip_incomplete(cells: Cells, k: int)
    requires
        0 <= k <= 8,
        forall|j: int| 0 <= j < k ==> line_mark(cells, j) is None,
    ensures
        winner(cells) == first_line_mark(cells, k),
    decreases k,
{
    if k > 0 {
        lemma_skip_incomplete(cells, k - 1);
    }
}

/// A board with exactly one complete line is won by the mark of that line and
/// lost by the other mark.
pub proof fn lemma_single_line_decides(cells: Cells, k: int, mark: Player)
    requires
        only_line(cells, k),
        line_mark(cells, k) == Some(mark),
    ensures
        status_of(cells, mark) == GameStatus::Won,
        status_of(cells, mark.opponent()) == GameStatus::Lost,
{
    lemma_skip_incomplete(cells, k);
}

/// A full board without a complete line is drawn, whoever asks.
pub proof fn lemma_full_board_without_line_is_drawn(cells: Cells, player: Player)
    requires
        no_line(cells),
        !has_empty(cells),
    ensures
        status_of(cells, player) == GameStatus::Drew,
{
    lemma_skip_incomplete(cells, 8);
}

/// A board with an empty cell and no complete line is still being played,
/// whoever asks.
pub proof fn lemma_open_board_without_line_is_ongoing(cells: Cells, player: Player)
    requires
        no_line(cells),
        has_empty(cells),
    ensures
        status_of(cells, player) == GameStatus::Ongoing,
{
    lemma_skip_incomplete(cells, 8);
}

/// Whether the game is over does not depend on who asks.
pub proof fn lemma_ongoing_for_both(cells: Cells, player: Player)
    ensures
        status_of(cells, player) is Ongoing <==> status_of(cells, player.opponent()) is Ongoing,
{
}

/// Compares the mark of a complete line with the player who asks.
pub fn check_side(square1: Player, square2: Player) -> (status: GameStatus)
    ensures
        status == if square1 == square2 {
            GameStatus::Won
        } else {
            GameStatus::Lost
        },
{
    if square1 == square2 {
        GameStatus::Won
    } else {
        GameStatus::Lost
    }
}

/// Reads cell `i` of the board, counted row by row.
fn mark_at(board: &Board, i: usize) -> (mark: Option<Player>)
    requires
        i < 9,
    ensures
        mark == cells(*board)[i as int],
{
    board[i / 3][i % 3]
}

/// The mark that fills cells `a`, `b` and `c` of the board, if one mark fills
/// all three.
fn same_mark(board: &Board, a: usize, b: usize, c: usize) -> (mark: Option<Player>)
    requires
        a < 9,
        b < 9,
        c < 9,
    ensures
        mark == three_alike(cells(*board), a as int, b as int, c as int),
{
    let first = mark_at(board, a);
    if first.is_some() && mark_at(board, b) == first && mark_at(board, c) == first {
        first
    } else {
        None
    }
}

/// Decides whether the game on `board` is over and, if so, how it ended for
/// `player`. Lines are examined in the order of their numbers and the first
/// complete one decides.
pub fn check_status(board: &Board, player: Player) -> (status: GameStatus)
    ensures
        status == status_of(cells(*board), player),
{
    let ghost grid = cells(*board);

    // A1 - C3 diagonal
    if let Some(mark) = same_mark(board, 0, 4, 8) {
        proof {
            lemma_skip_incomplete(grid, 0);
        }
        return check_side(player, mark);
    }
    // A3 - C1 diagonal
    if let Some(mark) = same_mark(board, 6, 4, 2) {
        proof {
            lemma_skip_incomplete(grid, 1);
        }
        return check_side(player, mark);
    }
    // Rows and columns
    let mut i: usize = 0;
    while i < 3
        invariant
            i <= 3,
            grid == cells(*board),
            forall|k: int| 0 <= k < 2 + 2 * i ==> line_mark(grid, k) is None,
        decreases 3 - i,
    {
        let r = i * 3;
        if let Some(mark) = same_mark(board, r, r + 1, r + 2) {
            proof {
                lemma_skip_incomplete(grid, 2 + 2 * i);
            }
            return check_side(player, mark);
        }
        if let Some(mark) = same_mark(board, i, i + 3, i + 6) {
            proof {
                lemma_skip_incomplete(grid, 3 + 2 * i);
            }
            return check_side(player, mark);
        }
        i += 1;
    }
    proof {
        lemma_skip_incomplete(grid, 8);
    }

    let mut j: usize = 0;
    while j < 9
        invariant
            j <= 9,
            grid == cells(*board),
            winner(grid) is None,
            forall|k: int| 0 <= k < j ==> grid[k] is Some,
        decreases 9 - j,
    {
        if mark_at(board, j).is_none() {
            return GameStatus::Ongoing;
        }
        j += 1;
    }
    GameStatus::Drew
}

/// Lists the empty squares of the board as (column, row), row by row and
/// from left to right within a row.
pub fn get_empty_squares(board: &Board) -> (empty: Vec<(usize, usize)>)
    ensures
        empty@ == empty_squares(cells(*board)),
{
    let ghost grid = cells(*board);
    let mut empty_squares = Vec::<(usize, usize)>::new();
    let mut i: usize = 0;
    while i < 9
        invariant
            i <= 9,
            grid == cells(*board),
            empty_squares@ == all_squares().take(i as int).filter(vacancy(grid)),
        decreases 9 - i,
    {
        let r = i / 3;
        let c = i % 3;
        proof {
            let seen = all_squares().take(i as int);
            assert(all_squares().take(i + 1) == seen.push((c, r)));
            seen.lemma_filter_push((c, r), vacancy(grid));
        }
        if board[r][c].is_none() {
            empty_squares.push((c, r));
        }
        i += 1;
    }
    assert(all_squares().take(9) == all_squares());
    empty_squares
}

} // verus!
