use std::str::FromStr;

use chevii::board::{CastleRights, Color, Man, Move, Piece, Position};
use chevii::driver::{Controller, Deepening, FIRST_DEPTH};
use chevii::search::calculate_move_until_depth;
use chevii::static_eval::eval_static;

fn position(fen: &str) -> Position {
    let board = chess::Board::from_str(fen).expect("a valid FEN");
    let squares = chess::ALL_SQUARES
        .iter()
        .map(|square| {
            board.piece_on(*square).map(|piece| Man {
                piece: Piece::from_index(piece.to_index()),
                color: Color::from_index(board.color_on(*square).unwrap().to_index()),
            })
        })
        .collect();
    Position::new(
        squares,
        Color::from_index(board.side_to_move().to_index()),
        CastleRights::from_index(board.castle_rights(chess::Color::White).to_index()),
        CastleRights::from_index(board.castle_rights(chess::Color::Black).to_index()),
        board.en_passant().map(|square| square.get_file().to_index() as u8),
    )
    .expect("a position that the rules admit")
}

fn legal(fen: &str, m: Move) -> bool {
    let board = chess::Board::from_str(fen).unwrap();
    let promotion = m.promotion.map(|piece| chess::ALL_PIECES[piece.to_index()]);
    board.legal(chess::ChessMove::new(
        chess::ALL_SQUARES[m.source as usize],
        chess::ALL_SQUARES[m.dest as usize],
        promotion,
    ))
}

const ENDGAME: &str = "8/8/4k3/8/3q4/8/3R4/4K3 w - - 0 1";
const MATED: &str = "R5k1/5ppp/8/8/8/8/5PPP/6K1 b - - 0 1";

#[test]
fn deepening_starts_at_depth_two_and_goes_one_ply_deeper_each_round() {
    let mut search = Deepening::new(position(ENDGAME));
    assert_eq!(FIRST_DEPTH, 2);
    assert_eq!(search.depth(), 2);
    let width = search.width();
    assert!(width > 0);
    let first = search.advance(&eval_static).expect("a move is published");
    assert!(legal(ENDGAME, first));
    assert_eq!(search.depth(), 3);
    assert_eq!(search.width(), width);
    let second = search.advance(&eval_static).expect("a move is published");
    assert!(legal(ENDGAME, second));
    assert_eq!(search.depth(), 4);
    // The rook takes the queen that hangs.
    assert_eq!(second, Move { source: 11, dest: 27, promotion: None });
}

#[test]
fn first_round_is_the_search_until_depth_two() {
    let mut search = Deepening::new(position(ENDGAME));
    let published = search.advance(&eval_static);
    assert_eq!(published, Some(calculate_move_until_depth(&position(ENDGAME), 2, &eval_static)));
}

#[test]
fn from_depth_four_on_the_better_half_of_the_root_moves_is_kept() {
    let mut search = Deepening::new(position(ENDGAME));
    let width = search.width();
    assert!(width > 10);
    search.advance(&eval_static);
    search.advance(&eval_static);
    assert_eq!(search.width(), width);
    search.advance(&eval_static);
    assert_eq!(search.depth(), 5);
    assert_eq!(search.width(), width / 2);
}

#[test]
fn nothing_is_published_where_the_game_is_over() {
    let mut search = Deepening::new(position(MATED));
    assert_eq!(search.width(), 0);
    assert_eq!(search.advance(&eval_static), None);
    assert_eq!(search.depth(), 2);
}

#[test]
fn finish_reports_and_clears() {
    let mut search = Deepening::new(position(ENDGAME));
    search.advance(&eval_static);
    let lines = search.finish();
    assert_eq!(lines.len(), 20);
    assert_eq!(lines[0], "Eval finished. Statistics for all depths:");
    assert_ne!(lines[1], "   Nodes evaluated: 0");
    assert_eq!(lines[1], lines[11]);
    let again = search.finish();
    assert_eq!(again[1], "   Nodes evaluated: 0");
    assert_eq!(again[11], "   Nodes evaluated: 0");
}

#[test]
fn controller_latches_the_last_move_published_in_time() {
    let a = Move { source: 12, dest: 28, promotion: None };
    let b = Move { source: 6, dest: 21, promotion: None };
    let mut controller = Controller::new();
    assert_eq!(controller.best, Move::null());
    assert_eq!(controller.poll(false, None), None);
    assert_eq!(controller.best, Move::null());
    assert_eq!(controller.poll(false, Some(a)), None);
    assert_eq!(controller.best, a);
    assert_eq!(controller.poll(false, None), None);
    assert_eq!(controller.best, a);
    // Once the time is up nothing is read any more.
    assert_eq!(controller.poll(true, Some(b)), Some(a));
    assert_eq!(controller.best, a);
}

#[test]
fn controller_without_a_message_answers_the_null_move() {
    let mut controller = Controller::new();
    assert_eq!(controller.poll(true, None), Some(Move { source: 0, dest: 0, promotion: None }));
}
