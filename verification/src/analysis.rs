//! The evaluation of a position by exhaustive search of the game tree.

use crate::board::{
    cell_of, cells, check_status, empty_count, empty_squares, get_empty_squares,
    lemma_empty_squares, lemma_ongoing_for_both, lemma_place_fills_one, place, square_of,
    status_of, vacant, Board, Cells, GameStatus, Player,
};
use crate::classification::{evaluate, verdict, win_for, Analysis, Evaluation};
use crate::moves::{
    best_class, best_first, best_move, count_moves, count_of, descending,
    lemma_best_comes_first, lemma_best_first_is_descending, lemma_best_first_is_permutation,
    lemma_counts_cover, lemma_percentage_is_nearest, lemma_percentages_add_up, percent,
    percentage, rank_moves, Chances, Move,
};
use vstd::prelude::*;

verus! {

/// The chances of a move after which the opponent has the moves `replies`,
/// each classified for the opponent: what the opponent loses the mover wins.
pub open spec fn chances_after(replies: Seq<Move>) -> Chances {
    Chances {
        win: percentage(count_of(replies, Analysis::Lose), replies.len()) as u8,
        draw: percentage(count_of(replies, Analysis::Draw), replies.len()) as u8,
        lose: percentage(count_of(replies, Analysis::Win), replies.len()) as u8,
    }
}

/// The move into `square` after which the game goes on and the opponent has
/// the moves `replies`: it is worth the inverse of the opponent's best reply.
pub open spec fn answered(square: (usize, usize), replies: Seq<Move>) -> Move {
    Move { square, analysis: best_class(replies).inverse(), chances: chances_after(replies) }
}

/// The move of `turn` into the empty square `square`.
pub open spec fn classify(cells: Cells, turn: Player, square: (usize, usize)) -> Move
    decreases empty_count(cells), 0int,
{
    if cells.len() == 9 && vacant(cells, square) {
        let next = place(cells, square, turn);
        match status_of(next, turn) {
            GameStatus::Won => Move::decisive(square, Analysis::Win),
            GameStatus::Drew => Move::decisive(square, Analysis::Draw),
            GameStatus::Lost => Move::decisive(square, Analysis::Lose),
            GameStatus::Ongoing => {
                proof {
                    lemma_place_fills_one(cells, square, turn);
                }
                answered(square, moves_of(next, turn.opponent()))
            },
        }
    } else {
        arbitrary()
    }
}

/// The moves of `turn`, one for each empty square, in the order of the
/// squares.
pub open spec fn candidates(cells: Cells, turn: Player) -> Seq<Move>
    decreases empty_count(cells), 1int,
{
    empty_squares(cells).map_values(|square: (usize, usize)| classify(cells, turn, square))
}

/// The moves reported for a position: none if the game is over, else all
/// legal moves, best first.
pub open spec fn moves_of(cells: Cells, turn: Player) -> Seq<Move>
    decreases empty_count(cells), 2int,
{
    if status_of(cells, turn) is Ongoing {
        best_first(candidates(cells, turn))
    } else {
        Seq::empty()
    }
}

/// The result of a position under best play by both sides.
pub open spec fn evaluation_of(cells: Cells, turn: Player) -> Evaluation {
    match status_of(cells, turn) {
        GameStatus::Won => win_for(turn),
        GameStatus::Lost => win_for(turn.opponent()),
        GameStatus::Drew => Evaluation::Draw,
        GameStatus::Ongoing => verdict(turn, best_class(candidates(cells, turn))),
    }
}

/// A position with an empty cell has a move for each empty square.
pub proof fn lemma_ongoing_has_moves(cells: Cells, turn: Player)
    requires
        cells.len() == 9,
        status_of(cells, turn) is Ongoing,
    ensures
        moves_of(cells, turn).len() == empty_squares(cells).len(),
        moves_of(cells, turn).len() > 0,
        candidates(cells, turn).len() > 0,
{
    lemma_best_first_is_permutation(candidates(cells, turn));
    lemma_empty_squares(cells);
    let i = choose|i: int| 0 <= i < 9 && cells[i] is None;
    assert(empty_squares(cells).contains(square_of(i)));
}

/// The move into an empty square names that square.
pub proof fn lemma_classified_square(cells: Cells, turn: Player, square: (usize, usize))
    requires
        cells.len() == 9,
        vacant(cells, square),
    ensures
        classify(cells, turn, square).square == square,
{
}

/// Every reported move is the move into an empty square, classified as
/// `classify` says. Moves are reported only while the game goes on.
pub proof fn lemma_moves_are_legal(cells: Cells, turn: Player, k: int)
    requires
        cells.len() == 9,
        0 <= k < moves_of(cells, turn).len(),
    ensures
        status_of(cells, turn) is Ongoing,
        vacant(cells, moves_of(cells, turn)[k].square),
        moves_of(cells, turn)[k] == classify(cells, turn, moves_of(cells, turn)[k].square),
{
    let found = candidates(cells, turn);
    let made = moves_of(cells, turn)[k];
    lemma_best_first_is_permutation(found);
    assert(moves_of(cells, turn).contains(made));
    vstd::seq_lib::to_multiset_contains(moves_of(cells, turn), made);
    vstd::seq_lib::to_multiset_contains(found, made);
    let j = choose|j: int| 0 <= j < found.len() && found[j] == made;
    lemma_empty_squares(cells);
    lemma_classified_square(cells, turn, empty_squares(cells)[j]);
}

/// While the game goes on, the move into each empty square is among the
/// reported moves, and there are as many moves as empty squares.
pub proof fn lemma_every_empty_square_has_a_move(
    cells: Cells,
    turn: Player,
    square: (usize, usize),
)
    requires
        cells.len() == 9,
        status_of(cells, turn) is Ongoing,
        vacant(cells, square),
    ensures
        moves_of(cells, turn).contains(classify(cells, turn, square)),
        moves_of(cells, turn).len() == empty_squares(cells).len(),
{
    let found = candidates(cells, turn);
    let made = classify(cells, turn, square);
    lemma_best_first_is_permutation(found);
    lemma_empty_squares(cells);
    assert(square_of(cell_of(square)) == square);
    let j = choose|j: int|
        0 <= j < empty_squares(cells).len() && empty_squares(cells)[j] == square;
    assert(found[j] == made);
    assert(found.contains(made));
    vstd::seq_lib::to_multiset_contains(found, made);
    vstd::seq_lib::to_multiset_contains(moves_of(cells, turn), made);
}

/// A move after which the game goes on is worth the inverse of the best
/// reply that the opponent has in the position reached.
pub proof fn lemma_move_inverts_best_reply(cells: Cells, turn: Player, k: int)
    requires
        cells.len() == 9,
        0 <= k < moves_of(cells, turn).len(),
        status_of(place(cells, moves_of(cells, turn)[k].square, turn), turn) is Ongoing,
    ensures
        moves_of(cells, turn)[k].analysis == best_class(
            moves_of(place(cells, moves_of(cells, turn)[k].square, turn), turn.opponent()),
        ).inverse(),
{
    lemma_moves_are_legal(cells, turn, k);
}

/// The chances of the move into an empty square add up to 100 give or take
/// one, and to 100 exactly if the move ends the game.
pub proof fn lemma_classified_chances(cells: Cells, turn: Player, square: (usize, usize))
    requires
        cells.len() == 9,
        vacant(cells, square),
    ensures
        99 <= classify(cells, turn, square).chances.total() <= 101,
        !(status_of(place(cells, square, turn), turn) is Ongoing) ==> classify(
            cells,
            turn,
            square,
        ).chances.total() == 100,
{
    let next = place(cells, square, turn);
    if status_of(next, turn) is Ongoing {
        let replies = moves_of(next, turn.opponent());
        lemma_place_fills_one(cells, square, turn);
        lemma_ongoing_for_both(next, turn);
        lemma_ongoing_has_moves(next, turn.opponent());
        lemma_counts_cover(replies);
        let wins = count_of(replies, Analysis::Win);
        let draws = count_of(replies, Analysis::Draw);
        let losses = count_of(replies, Analysis::Lose);
        lemma_percentages_add_up(losses, draws, wins);
        lemma_percentage_is_nearest(wins, replies.len());
        lemma_percentage_is_nearest(draws, replies.len());
        lemma_percentage_is_nearest(losses, replies.len());
    }
}

/// The chances of every reported move add up to 100 give or take one.
pub proof fn lemma_chances_add_up(cells: Cells, turn: Player, k: int)
    requires
        cells.len() == 9,
        0 <= k < moves_of(cells, turn).len(),
    ensures
        99 <= moves_of(cells, turn)[k].chances.total() <= 101,
{
    lemma_moves_are_legal(cells, turn, k);
    lemma_classified_chances(cells, turn, moves_of(cells, turn)[k].square);
}

/// The reported moves are in descending order: no move is outranked by a
/// later one, so no later move has a better classification than an earlier
/// one.
pub proof fn lemma_moves_are_ordered(cells: Cells, turn: Player)
    ensures
        descending(moves_of(cells, turn)),
        forall|i: int, j: int|
            0 <= i < j < moves_of(cells, turn).len() ==> moves_of(cells, turn)[j].analysis.rank()
                <= moves_of(cells, turn)[i].analysis.rank(),
{
    lemma_best_first_is_descending(candidates(cells, turn));
}

/// While the game goes on, the position is worth to the player to move what
/// the first reported move is worth.
pub proof fn lemma_first_move_decides(cells: Cells, turn: Player)
    requires
        cells.len() == 9,
        status_of(cells, turn) is Ongoing,
    ensures
        moves_of(cells, turn).len() > 0,
        evaluation_of(cells, turn) == verdict(turn, moves_of(cells, turn)[0].analysis),
{
    lemma_ongoing_has_moves(cells, turn);
    lemma_best_comes_first(candidates(cells, turn));
}

/// Positions with the same board and the same player to move have the same
/// analysis.
pub proof fn lemma_analysis_is_determined(first: Info, second: Info)
    requires
        first.board == second.board,
        first.turn == second.turn,
    ensures
        moves_of(first.cells(), first.turn) == moves_of(second.cells(), second.turn),
        evaluation_of(first.cells(), first.turn) == evaluation_of(second.cells(), second.turn),
{
}

/// A position: the board and the player whose turn it is.
#[derive(Clone, Copy, Debug)]
pub struct Info {
    pub turn: Player,
    pub board: Board,
}

/// What the analysis of a position reports.
#[derive(Debug)]
pub struct AnalysisResult {
    /// The legal moves, best first.
    pub moves: Vec<Move>,
    /// The result of the position under best play.
    pub eval: Option<Evaluation>,
}

impl AnalysisResult {
    /// A result that holds no move and no evaluation yet.
    pub fn new() -> (fresh: Self)
        ensures
            fresh.moves@ == Seq::<Move>::empty(),
            fresh.eval is None,
    {
        Self { moves: Vec::new(), eval: None }
    }
}

impl Info {
    /// The cells of the position's board, row by row.
    pub open spec fn cells(&self) -> Cells {
        cells(self.board)
    }

    /// Classifies the move of the player to move into the empty square
    /// `square`, given as (column, row): by the state of the game right after
    /// the move if that ends it, else by the analysis of the position that
    /// the opponent then faces.
    pub fn classify_move(&self, square: (usize, usize)) -> (made: Move)
        requires
            vacant(self.cells(), square),
        ensures
            made == classify(self.cells(), self.turn, square),
        decreases empty_count(self.cells()), 0int,
    {
        let (c, r) = square;
        let mut board_copy = self.board;
        board_copy[r][c] = Some(self.turn);
        proof {
            assert(cells(board_copy) == place(self.cells(), square, self.turn));
            lemma_place_fills_one(self.cells(), square, self.turn);
        }
        let status = check_status(&board_copy, self.turn);

        match status {
            GameStatus::Won => Move::winning_move((c, r)),
            GameStatus::Drew => Move::draw_move((c, r)),
            GameStatus::Lost => Move::losing_move((c, r)),
            GameStatus::Ongoing => {
                let next_move = Info { turn: self.turn.switch(), board: board_copy };

                let new_analysis = next_move.analyze();
                proof {
                    lemma_ongoing_for_both(next_move.cells(), self.turn);
                    lemma_ongoing_has_moves(next_move.cells(), next_move.turn);
                }

                let (win_count, draw_count, lose_count) = count_moves(&new_analysis.moves);
                let analysis_len = new_analysis.moves.len();
                let new_analysis = best_move(&new_analysis.moves).analysis.flip();

                Move {
                    square: (c, r),
                    analysis: new_analysis,
                    chances: Chances {
                        win: percent(lose_count, analysis_len),
                        draw: percent(draw_count, analysis_len),
                        lose: percent(win_count, analysis_len),
                    },
                }
            },
        }
    }

    /// Analyses the position: every legal move with its classification and
    /// chances, best first, and the result of the position under best play.
    /// A position in which the game is over has no moves, and its result is
    /// the one already reached.
    pub fn analyze(&self) -> (analysis: AnalysisResult)
        ensures
            analysis.moves@ == moves_of(self.cells(), self.turn),
            analysis.eval == Some(evaluation_of(self.cells(), self.turn)),
            descending(analysis.moves@),
            forall|k: int|
                0 <= k < analysis.moves@.len() ==> 99 <= (
                #[trigger] analysis.moves@[k]).chances.total() <= 101,
        decreases empty_count(self.cells()), 1int,
    {
        proof {
            lemma_moves_are_ordered(self.cells(), self.turn);
            assert forall|k: int| 0 <= k < moves_of(self.cells(), self.turn).len() implies 99 <= (
            #[trigger] moves_of(self.cells(), self.turn)[k]).chances.total() <= 101 by {
                lemma_chances_add_up(self.cells(), self.turn, k);
            }
        }
        let mut analysis = AnalysisResult::new();

        let status = check_status(&self.board, self.turn);

        match status {
            GameStatus::Lost => {
                analysis.eval = Some(evaluate(self.turn, Analysis::Lose));
            },
            GameStatus::Drew => {
                analysis.eval = Some(Evaluation::Draw);
            },
            GameStatus::Won => {
                analysis.eval = Some(evaluate(self.turn, Analysis::Win));
            },
            GameStatus::Ongoing => {},
        };

        if status != GameStatus::Ongoing {
            return analysis;
        }

        let squares = get_empty_squares(&self.board);
        let ghost found = candidates(self.cells(), self.turn);
        proof {
            lemma_empty_squares(self.cells());
            lemma_ongoing_has_moves(self.cells(), self.turn);
        }

        let mut k: usize = 0;
        while k < squares.len()
            invariant
                k <= squares.len(),
                squares@ == empty_squares(self.cells()),
                forall|i: int| 0 <= i < squares@.len() ==> vacant(self.cells(), squares@[i]),
                found == candidates(self.cells(), self.turn),
                analysis.moves@ == found.take(k as int),
            decreases squares.len() - k,
        {
            let made = self.classify_move(squares[k]);
            analysis.moves.push(made);
            k += 1;
            proof {
                assert(found.take(k as int) == found.take(k - 1).push(found[k - 1]));
            }
        }
        proof {
            assert(found.take(found.len() as int) == found);
        }

        let best_move = best_move(&analysis.moves);
        let eval = evaluate(self.turn, best_move.analysis);

        analysis.eval = Some(eval);
        analysis.moves = rank_moves(&analysis.moves);

        analysis
    }
}

} // verus!
