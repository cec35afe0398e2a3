use tictactoe_analysis::analysis::{AnalysisResult, Info};
use tictactoe_analysis::board::{check_status, get_empty_squares, Board, GameStatus, Player};
use tictactoe_analysis::classification::{Analysis, Evaluation};
use tictactoe_analysis::moves::{best_move, ranks_before, Chances, Move};

const X: Option<Player> = Some(Player::X);
const O: Option<Player> = Some(Player::O);
const E: Option<Player> = None;

fn made(square: (usize, usize), analysis: Analysis, win: u8, draw: u8, lose: u8) -> Move {
    Move { square, analysis, chances: Chances { win, draw, lose } }
}

/// Every position that can be reached from `info` by legal moves, `info`
/// included.
fn reachable(info: Info, into: &mut Vec<Info>) {
    into.push(info);
    if check_status(&info.board, info.turn) != GameStatus::Ongoing {
        return;
    }
    for (c, r) in get_empty_squares(&info.board) {
        let mut board = info.board;
        board[r][c] = Some(info.turn);
        reachable(Info { turn: info.turn.switch(), board }, into);
    }
}

/// A handful of positions, with all that can be reached from them.
fn sample() -> Vec<Info> {
    let mut positions = Vec::new();
    reachable(Info { turn: Player::O, board: [[X, O, E], [E, X, E], [E, E, E]] }, &mut positions);
    reachable(Info { turn: Player::X, board: [[X, O, E], [E, E, E], [E, E, E]] }, &mut positions);
    reachable(Info { turn: Player::O, board: [[X, O, X], [X, X, O], [E, E, O]] }, &mut positions);
    reachable(Info { turn: Player::X, board: [[E, E, E], [E, O, E], [X, E, E]] }, &mut positions);
    positions
}

#[test]
fn analyze_test() {
    let info = Info {
        turn: Player::O,
        board: [
            [Some(Player::X), Some(Player::O), Some(Player::X)],
            [Some(Player::X), Some(Player::X), Some(Player::O)],
            [None, None, Some(Player::O)],
        ],
    };

    println!("{:?}", info.analyze());

    let info = Info {
        turn: Player::O,
        board: [
            [Some(Player::X), Some(Player::O), Some(Player::X)],
            [Some(Player::X), Some(Player::X), Some(Player::O)],
            [Some(Player::X), None, Some(Player::O)],
        ],
    };

    println!("{:?}", info.analyze());

    let info = Info {
        turn: Player::X,
        board: [
            [Some(Player::X), Some(Player::O), Some(Player::O)],
            [Some(Player::O), Some(Player::X), None],
            [None, Some(Player::X), Some(Player::O)],
        ],
    };

    println!("{:?}", info.analyze());
}

#[test]
fn analyze_test_positions_give_the_expected_results() {
    let first = Info { turn: Player::O, board: [[X, O, X], [X, X, O], [E, E, O]] }.analyze();
    assert_eq!(
        first.moves,
        vec![made((0, 2), Analysis::Draw, 0, 100, 0), made((1, 2), Analysis::Lose, 0, 0, 100)]
    );
    assert_eq!(first.eval, Some(Evaluation::Draw));

    let second = Info { turn: Player::O, board: [[X, O, X], [X, X, O], [X, E, O]] }.analyze();
    assert_eq!(second.moves, Vec::<Move>::new());
    assert_eq!(second.eval, Some(Evaluation::XWins));

    let third = Info { turn: Player::X, board: [[X, O, O], [O, X, E], [E, X, O]] }.analyze();
    assert_eq!(
        third.moves,
        vec![made((2, 1), Analysis::Draw, 0, 100, 0), made((0, 2), Analysis::Lose, 0, 0, 100)]
    );
    assert_eq!(third.eval, Some(Evaluation::Draw));
}

#[test]
fn new_result_is_empty() {
    let fresh = AnalysisResult::new();
    assert!(fresh.moves.is_empty());
    assert_eq!(fresh.eval, None);
}

#[test]
fn the_only_block_is_the_best_move() {
    let info = Info { turn: Player::O, board: [[X, O, X], [X, X, O], [E, E, O]] };
    let analysis = info.analyze();
    let block = analysis.moves.iter().find(|m| m.square == (0, 2)).unwrap();
    for m in &analysis.moves {
        assert!(block.analysis >= m.analysis);
    }
    assert_eq!(analysis.moves[0].square, (0, 2));
    assert_eq!(block.analysis, Analysis::Draw);
    let other = analysis.moves.iter().find(|m| m.square == (1, 2)).unwrap();
    assert_eq!(other.analysis, Analysis::Lose);
}

#[test]
fn empty_board_is_a_draw_with_nine_open_moves() {
    let info = Info { turn: Player::X, board: [[E; 3]; 3] };
    let analysis = info.analyze();
    assert_eq!(analysis.eval, Some(Evaluation::Draw));
    assert_eq!(analysis.moves.len(), 9);
    for m in &analysis.moves {
        let mut board = info.board;
        board[m.square.1][m.square.0] = Some(Player::X);
        assert_eq!(check_status(&board, Player::X), GameStatus::Ongoing);
        assert_eq!(m.analysis, Analysis::Draw);
    }
}

#[test]
fn empty_board_moves_in_order() {
    let analysis = Info { turn: Player::X, board: [[E; 3]; 3] }.analyze();
    assert_eq!(
        analysis.moves,
        vec![
            made((2, 2), Analysis::Draw, 88, 13, 0),
            made((0, 2), Analysis::Draw, 88, 13, 0),
            made((2, 0), Analysis::Draw, 88, 13, 0),
            made((0, 0), Analysis::Draw, 88, 13, 0),
            made((1, 2), Analysis::Draw, 50, 50, 0),
            made((2, 1), Analysis::Draw, 50, 50, 0),
            made((1, 1), Analysis::Draw, 50, 50, 0),
            made((0, 1), Analysis::Draw, 50, 50, 0),
            made((1, 0), Analysis::Draw, 50, 50, 0),
        ]
    );
}

#[test]
fn finished_game_has_no_moves_and_keeps_its_result() {
    let board: Board = [[X, X, X], [E, E, E], [E, E, E]];
    for turn in [Player::X, Player::O] {
        let analysis = Info { turn, board }.analyze();
        assert!(analysis.moves.is_empty());
        assert_eq!(analysis.eval, Some(Evaluation::XWins));
    }

    let board: Board = [[E, O, X], [E, O, X], [X, O, E]];
    for turn in [Player::X, Player::O] {
        let analysis = Info { turn, board }.analyze();
        assert!(analysis.moves.is_empty());
        assert_eq!(analysis.eval, Some(Evaluation::OWins));
    }
}

#[test]
fn drawn_board_has_no_moves_and_is_a_draw() {
    let board: Board = [[X, O, X], [O, O, X], [X, X, O]];
    for turn in [Player::X, Player::O] {
        let analysis = Info { turn, board }.analyze();
        assert!(analysis.moves.is_empty());
        assert_eq!(analysis.eval, Some(Evaluation::Draw));
    }
}

#[test]
fn last_move_that_fills_the_board_is_a_certain_draw() {
    let analysis = Info { turn: Player::X, board: [[X, O, X], [O, O, X], [X, E, O]] }.analyze();
    assert_eq!(analysis.moves, vec![made((1, 2), Analysis::Draw, 0, 100, 0)]);
    assert_eq!(analysis.eval, Some(Evaluation::Draw));
}

#[test]
fn reply_to_a_corner_opening() {
    let analysis = Info { turn: Player::O, board: [[X, E, E], [E, E, E], [E, E, E]] }.analyze();
    assert_eq!(
        analysis.moves,
        vec![
            made((1, 1), Analysis::Draw, 0, 100, 0),
            made((2, 2), Analysis::Lose, 29, 43, 29),
            made((1, 2), Analysis::Lose, 14, 43, 43),
            made((0, 2), Analysis::Lose, 14, 43, 43),
            made((2, 1), Analysis::Lose, 14, 43, 43),
            made((2, 0), Analysis::Lose, 14, 43, 43),
            made((0, 1), Analysis::Lose, 0, 57, 43),
            made((1, 0), Analysis::Lose, 0, 57, 43),
        ]
    );
    assert_eq!(analysis.eval, Some(Evaluation::Draw));
}

#[test]
fn winning_position_for_the_player_to_move() {
    let analysis = Info { turn: Player::X, board: [[X, O, E], [E, E, E], [E, E, E]] }.analyze();
    assert_eq!(
        analysis.moves,
        vec![
            made((0, 2), Analysis::Win, 100, 0, 0),
            made((1, 1), Analysis::Win, 100, 0, 0),
            made((0, 1), Analysis::Win, 100, 0, 0),
            made((2, 2), Analysis::Draw, 83, 17, 0),
            made((2, 1), Analysis::Draw, 83, 17, 0),
            made((2, 0), Analysis::Draw, 83, 17, 0),
            made((1, 2), Analysis::Draw, 67, 33, 0),
        ]
    );
    assert_eq!(analysis.eval, Some(Evaluation::XWins));
}

#[test]
fn lost_position_for_the_player_to_move() {
    let analysis = Info { turn: Player::O, board: [[X, O, E], [E, X, E], [E, E, E]] }.analyze();
    assert_eq!(
        analysis.moves,
        vec![
            made((2, 2), Analysis::Lose, 0, 60, 40),
            made((0, 2), Analysis::Lose, 0, 40, 60),
            made((0, 1), Analysis::Lose, 0, 40, 60),
            made((2, 1), Analysis::Lose, 0, 20, 80),
            made((2, 0), Analysis::Lose, 0, 20, 80),
            made((1, 2), Analysis::Lose, 0, 0, 100),
        ]
    );
    assert_eq!(analysis.eval, Some(Evaluation::XWins));
}

#[test]
fn immediate_win_is_found() {
    let analysis = Info { turn: Player::X, board: [[X, O, E], [E, X, E], [E, E, O]] }.analyze();
    assert_eq!(
        analysis.moves,
        vec![
            made((0, 2), Analysis::Win, 100, 0, 0),
            made((0, 1), Analysis::Win, 100, 0, 0),
            made((2, 1), Analysis::Draw, 75, 25, 0),
            made((2, 0), Analysis::Draw, 75, 25, 0),
            made((1, 2), Analysis::Draw, 0, 100, 0),
        ]
    );
    assert_eq!(analysis.eval, Some(Evaluation::XWins));
}

#[test]
fn there_is_one_move_for_each_empty_square() {
    for info in sample() {
        let analysis = info.analyze();
        if check_status(&info.board, info.turn) != GameStatus::Ongoing {
            assert!(analysis.moves.is_empty());
            continue;
        }
        let empty = get_empty_squares(&info.board);
        assert_eq!(analysis.moves.len(), empty.len());
        for square in empty {
            assert_eq!(analysis.moves.iter().filter(|m| m.square == square).count(), 1);
        }
    }
}

#[test]
fn move_is_worth_the_inverse_of_the_best_reply() {
    for info in sample() {
        for m in info.analyze().moves {
            let mut board = info.board;
            board[m.square.1][m.square.0] = Some(info.turn);
            match check_status(&board, info.turn) {
                GameStatus::Ongoing => {
                    let replies = Info { turn: info.turn.switch(), board }.analyze().moves;
                    let best = replies.iter().map(|reply| reply.analysis).max().unwrap();
                    assert_eq!(m.analysis, best.flip());
                    assert_eq!(m.analysis, best_move(&replies).analysis.flip());
                }
                GameStatus::Won => assert_eq!(m, Move::winning_move(m.square)),
                GameStatus::Drew => assert_eq!(m, Move::draw_move(m.square)),
                GameStatus::Lost => assert_eq!(m, Move::losing_move(m.square)),
            }
        }
    }
}

#[test]
fn chances_add_up_to_100_give_or_take_one() {
    for info in sample() {
        for m in info.analyze().moves {
            let sum = m.chances.win as u32 + m.chances.draw as u32 + m.chances.lose as u32;
            assert!((99..=101).contains(&sum));
        }
    }
    let opening = Info { turn: Player::X, board: [[E; 3]; 3] }.analyze();
    let corner = opening.moves[0].chances;
    assert_eq!(corner.win as u32 + corner.draw as u32 + corner.lose as u32, 101);
}

#[test]
fn chances_are_the_shares_of_the_replies_seen_from_the_mover() {
    let info = Info { turn: Player::O, board: [[X, E, E], [E, E, E], [E, E, E]] };
    // After O takes C3, X has seven replies: two win, three draw, two lose.
    let mut board = info.board;
    board[2][2] = O;
    let replies = Info { turn: Player::X, board }.analyze().moves;
    let count = |class: Analysis| replies.iter().filter(|m| m.analysis == class).count();
    assert_eq!(replies.len(), 7);
    assert_eq!((count(Analysis::Win), count(Analysis::Draw), count(Analysis::Lose)), (2, 3, 2));
    let corner = info.analyze().moves.into_iter().find(|m| m.square == (2, 2)).unwrap();
    assert_eq!(corner.chances, Chances { win: 29, draw: 43, lose: 29 });
}

#[test]
fn analysis_is_the_same_every_time() {
    for info in sample() {
        let first = info.analyze();
        let second = info.analyze();
        assert_eq!(first.moves, second.moves);
        assert_eq!(first.eval, second.eval);
        assert_eq!(format!("{:?}", first), format!("{:?}", second));
    }
}

#[test]
fn no_later_move_is_better_than_an_earlier_one() {
    for info in sample() {
        let moves = info.analyze().moves;
        for i in 0..moves.len() {
            for j in i + 1..moves.len() {
                assert!(moves[j].analysis <= moves[i].analysis);
                assert!(!ranks_before(&moves[j], &moves[i]));
            }
        }
    }
}

#[test]
fn evaluation_follows_the_first_move() {
    for info in sample() {
        let analysis = info.analyze();
        if let Some(first) = analysis.moves.first() {
            let expected = match (first.analysis, info.turn) {
                (Analysis::Draw, _) => Evaluation::Draw,
                (Analysis::Win, Player::X) | (Analysis::Lose, Player::O) => Evaluation::XWins,
                (Analysis::Win, Player::O) | (Analysis::Lose, Player::X) => Evaluation::OWins,
            };
            assert_eq!(analysis.eval, Some(expected));
        } else {
            assert!(analysis.eval.is_some());
        }
    }
}

#[test]
fn classify_move_of_a_move_that_ends_the_game() {
    let info = Info { turn: Player::X, board: [[X, O, E], [E, X, E], [E, E, O]] };
    assert_eq!(info.classify_move((0, 2)), made((0, 2), Analysis::Win, 100, 0, 0));

    let info = Info { turn: Player::X, board: [[X, O, X], [O, O, X], [X, E, O]] };
    assert_eq!(info.classify_move((1, 2)), made((1, 2), Analysis::Draw, 0, 100, 0));
}

#[test]
fn classify_move_of_a_move_after_which_the_game_goes_on() {
    let info = Info { turn: Player::X, board: [[X, O, E], [E, X, E], [E, E, O]] };
    assert_eq!(info.classify_move((2, 0)), made((2, 0), Analysis::Draw, 75, 25, 0));
    assert_eq!(info.classify_move((1, 2)), made((1, 2), Analysis::Draw, 0, 100, 0));

    let info = Info { turn: Player::O, board: [[X, O, X], [X, X, O], [E, E, O]] };
    assert_eq!(info.classify_move((1, 2)), made((1, 2), Analysis::Lose, 0, 0, 100));
}
