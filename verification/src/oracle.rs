//! The rules of chess, as the `chess` crate implements them.
//!
//! Nothing in this file is proved. Each function below hands a position to
//! the `chess` crate and brings plain values back; its contract states what
//! the crate's source shows of the call. What a call returns is a function of
//! the position alone, so each result has a name that contracts elsewhere can
//! speak of.
//!
//! The crate reads the square of the king of the player to move without a
//! check, and its move generator has room for the moves of sixteen chessmen
//! and two en-passant captures. So a setup is only handed over when it is
//! orderly: it has a king of each colour, and sixteen chessmen of each colour
//! at most. Every `Position` is orderly, and a setup that the crate accepts:
//! that is its invariant.

use vstd::prelude::*;
use crate::board::{CastleRights, Color, Man, Move, Piece, Position, PositionView};

verus! {

/// `chess::Board`, the crate's own representation of a position. Values of it
/// only pass through the functions of this file.
#[verifier::external_type_specification]
#[verifier::external_body]
pub struct ExBoard(chess::Board);

/// Whether `chess::Board::try_from` accepts the orderly setup:
/// `Board::is_sane` holds of the board built from it.
pub uninterp spec fn sane(position: PositionView) -> bool;

/// The moves that `chess::MoveGen::new_legal` yields for the position, in the
/// order in which it yields them.
pub uninterp spec fn legal_moves_of(position: PositionView) -> Seq<Move>;

/// The position that `chess::Board::make_move_new` gives.
pub uninterp spec fn position_after(position: PositionView, m: Move) -> PositionView;

/// What `chess::Board::get_hash` returns for the position.
pub uninterp spec fn zobrist_of(position: PositionView) -> u64;

/// What `chess::Board::checkers` returns for the position: the squares, one
/// bit each, of the chessmen that give check to the player to move.
pub uninterp spec fn checkers_of(position: PositionView) -> u64;

/// What `chess::ChessMove::from_san` makes of a text in the position: the
/// move that the text names, if it names one legal move and no more. A text
/// that is not UTF-8 names none.
pub uninterp spec fn san_move_of(position: PositionView, text: Seq<u8>) -> Option<Move>;

/// Whether bit `square` of `mask` is set.
pub open spec fn mask_has(mask: u64, square: u8) -> bool {
    square < 64 && (mask >> (square as u64)) & 1 == 1
}

/// What the `chess` crate's move generator shows of every move it yields: the
/// move leaves a square on which a chessman of the player to move stands, and
/// reaches a square of the board.
pub open spec fn well_placed(position: PositionView, m: Move) -> bool {
    m.source < 64 && m.dest < 64 && position.holds(m.source as int, position.side)
}

/// What stands on `square` when a game starts.
pub open spec fn start_square(square: int) -> Option<Man> {
    let back = if file_is(square, 0) || file_is(square, 7) {
        Piece::Rook
    } else if file_is(square, 1) || file_is(square, 6) {
        Piece::Knight
    } else if file_is(square, 2) || file_is(square, 5) {
        Piece::Bishop
    } else if file_is(square, 3) {
        Piece::Queen
    } else {
        Piece::King
    };
    if 0 <= square < 8 {
        Some(Man { piece: back, color: Color::White })
    } else if 8 <= square < 16 {
        Some(Man { piece: Piece::Pawn, color: Color::White })
    } else if 48 <= square < 56 {
        Some(Man { piece: Piece::Pawn, color: Color::Black })
    } else if 56 <= square < 64 {
        Some(Man { piece: back, color: Color::Black })
    } else {
        None
    }
}

/// Whether `square` lies on `file`.
pub open spec fn file_is(square: int, file: int) -> bool {
    square % 8 == file
}

/// The position from which every game starts: white to move, all castle
/// rights, no en-passant file.
pub open spec fn start_view() -> PositionView {
    PositionView {
        squares: Seq::new(64, |square: int| start_square(square)),
        side: Color::White,
        white_castle: CastleRights::Both,
        black_castle: CastleRights::Both,
        en_passant: None,
    }
}

/// Builds the `chess::Board` of a setup with `chess::BoardBuilder` and
/// `Board::try_from`, which refuses a setup that `Board::is_sane` rejects.
#[verifier::external_body]
fn try_board(
    squares: &Vec<Option<Man>>,
    side: Color,
    white_castle: CastleRights,
    black_castle: CastleRights,
    en_passant: Option<u8>,
) -> Option<chess::Board>
    requires
        (PositionView { squares: squares@, side, white_castle, black_castle, en_passant }).orderly(),
{
    let mut builder = chess::BoardBuilder::new();
    for (square, cell) in chess::ALL_SQUARES.iter().zip(squares.iter()) {
        builder[*square] = cell.map(
            |man| (chess::ALL_PIECES[man.piece.to_index()], chess::ALL_COLORS[man.color.to_index()]),
        );
    }
    builder.side_to_move(chess::ALL_COLORS[side.to_index()]);
    builder.castle_rights(chess::Color::White, chess::CastleRights::from_index(white_castle.to_index()));
    builder.castle_rights(chess::Color::Black, chess::CastleRights::from_index(black_castle.to_index()));
    builder.en_passant(en_passant.map(|file| chess::File::from_index(file as usize)));
    chess::Board::try_from(builder).ok()
}

/// The `chess::Board` of a position, which the crate accepts by the
/// position's invariant.
#[verifier::external_body]
fn board_of(position: &Position) -> chess::Board {
    try_board(
        &position.squares,
        position.side,
        position.white_castle,
        position.black_castle,
        position.en_passant,
    ).expect("a position is a setup that the rules admit")
}

/// Reads a `chess::Board` square by square, with `piece_on`, `color_on`,
/// `side_to_move`, `castle_rights` and `en_passant`. The boards that are read
/// are the initial one and those that a legal move leads to from the board
/// of a position: the crate accepts them, and they hold no more chessmen than
/// the board before.
#[verifier::external_body]
fn position_of(board: &chess::Board) -> Position {
    Position {
        squares: chess::ALL_SQUARES.iter().map(
            |square| board.piece_on(*square).zip(board.color_on(*square)).map(
                |(piece, color)| Man {
                    piece: Piece::from_index(piece.to_index()),
                    color: Color::from_index(color.to_index()),
                },
            ),
        ).collect(),
        side: Color::from_index(board.side_to_move().to_index()),
        white_castle: CastleRights::from_index(board.castle_rights(chess::Color::White).to_index()),
        black_castle: CastleRights::from_index(board.castle_rights(chess::Color::Black).to_index()),
        en_passant: board.en_passant().map(|square| square.get_file().to_index() as u8),
    }
}

/// `chess::Board::try_from` on an orderly setup: whether the crate accepts
/// it.
#[verifier::external_body]
pub(crate) fn setup_is_sane(
    squares: &Vec<Option<Man>>,
    side: Color,
    white_castle: CastleRights,
    black_castle: CastleRights,
    en_passant: Option<u8>,
) -> (accepted: bool)
    requires
        (PositionView { squares: squares@, side, white_castle, black_castle, en_passant }).orderly(),
    ensures
        accepted == sane(
            PositionView { squares: squares@, side, white_castle, black_castle, en_passant },
        ),
{
    try_board(squares, side, white_castle, black_castle, en_passant).is_some()
}

/// `chess::Board::default`: the initial position, which the crate makes from
/// the usual arrangement of the chessmen.
#[verifier::external_body]
pub(crate) fn initial_position() -> (position: Position)
    ensures
        position@ == start_view(),
{
    position_of(&chess::Board::default())
}

/// `chess::MoveGen::new_legal`, run to its end. Every move that it yields
/// leaves a square on which a chessman of the player to move stands, and
/// reaches a square of the board.
#[verifier::external_body]
pub(crate) fn legal_moves(position: &Position) -> (moves: Vec<Move>)
    ensures
        moves@ == legal_moves_of(position@),
        forall|i: int| 0 <= i < moves@.len() ==> well_placed(position@, #[trigger] moves@[i]),
{
    chess::MoveGen::new_legal(&board_of(position)).map(
        |m| Move {
            source: m.get_source().to_int(),
            dest: m.get_dest().to_int(),
            promotion: m.get_promotion().map(|piece| Piece::from_index(piece.to_index())),
        },
    ).collect()
}

/// `chess::MoveGen::new_legal` after `set_iterator_mask(mask)`, run to its
/// end: the legal moves that reach a square of `mask`, in the order that they
/// have among all legal moves.
#[verifier::external_body]
pub(crate) fn legal_moves_masked(position: &Position, mask: u64) -> (moves: Vec<Move>)
    ensures
        moves@ == legal_moves_of(position@).filter(|m: Move| mask_has(mask, m.dest)),
        forall|i: int| 0 <= i < moves@.len() ==> well_placed(position@, #[trigger] moves@[i]),
{
    let mut generator = chess::MoveGen::new_legal(&board_of(position));
    generator.set_iterator_mask(chess::BitBoard(mask));
    generator.map(
        |m| Move {
            source: m.get_source().to_int(),
            dest: m.get_dest().to_int(),
            promotion: m.get_promotion().map(|piece| Piece::from_index(piece.to_index())),
        },
    ).collect()
}

/// `chess::Board::make_move_new` with a legal move. The crate takes the
/// chessman on the square reached off the board, so a move onto an occupied
/// square leaves fewer chessmen than there were.
#[verifier::external_body]
pub(crate) fn make_move(position: &Position, m: Move) -> (next: Position)
    requires
        legal_moves_of(position@).contains(m),
    ensures
        next@ == position_after(position@, m),
        m.dest < 64 && position@.squares[m.dest as int] is Some ==> next@.men() < position@.men(),
{
    let promotion = m.promotion.map(|piece| chess::ALL_PIECES[piece.to_index()]);
    let source = chess::ALL_SQUARES[m.source as usize];
    let dest = chess::ALL_SQUARES[m.dest as usize];
    position_of(&board_of(position).make_move_new(chess::ChessMove::new(source, dest, promotion)))
}

/// `chess::ChessMove::from_san`, which looks for the move among those that
/// `chess::MoveGen::new_legal` yields, so a move that it finds is legal.
#[verifier::external_body]
pub(crate) fn from_san(position: &Position, text: &[u8]) -> (found: Option<Move>)
    ensures
        found == san_move_of(position@, text@),
        found matches Some(m) ==> legal_moves_of(position@).contains(m) && well_placed(position@, m),
{
    let text = std::str::from_utf8(text).ok()?;
    chess::ChessMove::from_san(&board_of(position), text).ok().map(
        |m| Move {
            source: m.get_source().to_int(),
            dest: m.get_dest().to_int(),
            promotion: m.get_promotion().map(|piece| Piece::from_index(piece.to_index())),
        },
    )
}

/// `chess::Board::get_hash`.
#[verifier::external_body]
pub(crate) fn zobrist(position: &Position) -> (hash: u64)
    ensures
        hash == zobrist_of(position@),
{
    board_of(position).get_hash()
}

/// `chess::Board::checkers`, as the bits of the bitboard.
#[verifier::external_body]
pub(crate) fn checkers(position: &Position) -> (mask: u64)
    ensures
        mask == checkers_of(position@),
{
    board_of(position).checkers().0
}

} // verus!
