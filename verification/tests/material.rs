use std::str::FromStr;

use chevii::board::{CastleRights, Color, Man, Piece, Position};
use chevii::material::{eval_board, pawn_value};

fn position(fen: &str) -> Position {
    let board = chess::Board::from_str(fen).expect("a valid FEN");
    let squares = chess::ALL_SQUARES
        .iter()
        .map(|square| {
            board.piece_on(*square).map(|piece| Man {
                piece: Piece::from_index(piece.to_index()),
                color: Color::from_index(board.color_on(*square).unwrap().to_index()),
            })
        })
        .collect();
    Position::new(
        squares,
        Color::from_index(board.side_to_move().to_index()),
        CastleRights::from_index(board.castle_rights(chess::Color::White).to_index()),
        CastleRights::from_index(board.castle_rights(chess::Color::Black).to_index()),
        board.en_passant().map(|square| square.get_file().to_index() as u8),
    )
    .expect("a position that the rules admit")
}

#[test]
fn new_board_is_0() {
    let board = Position::start();
    assert_eq!(eval_board(&board), 0);
}

#[test]
fn material_is_counted_for_black() {
    // Black has a queen, white a rook.
    assert_eq!(eval_board(&position("4k3/8/8/3q4/8/8/3R4/4K3 w - - 0 1")), 9 - 5);
    assert_eq!(eval_board(&position("4k3/8/8/3q4/8/8/3R4/4K3 b - - 0 1")), 4);
    assert_eq!(eval_board(&position("4k3/8/8/8/8/8/PPP5/4KBN1 w - - 0 1")), -(3 + 3 + 3));
    let values: Vec<isize> =
        [Piece::Pawn, Piece::Knight, Piece::Bishop, Piece::Rook, Piece::Queen, Piece::King]
            .iter()
            .map(|piece| pawn_value(*piece))
            .collect();
    assert_eq!(values, [1, 3, 3, 5, 9, 9999]);
}
