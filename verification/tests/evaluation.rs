use std::str::FromStr;

use chevii::board::{CastleRights, Color, Man, Move, Piece, Position};
use chevii::evaluation::{
    consider_value, count_undeveloped_pawns, eval_board, eval_move, get_player_back_rank,
    get_player_pawn_bits, piece_value, rate_move, static_value,
};
use chevii::statistics::{Counters, Stat};
use chevii::table::{Entry, NNUEEntry, TransTable};

fn position(fen: &str) -> Position {
    let board = chess::Board::from_str(fen).expect("a valid FEN");
    let squares = chess::ALL_SQUARES
        .iter()
        .map(|square| {
            board.piece_on(*square).map(|piece| Man {
                piece: Piece::from_index(piece.to_index()),
                color: Color::from_index(board.color_on(*square).unwrap().to_index()),
            })
        })
        .collect();
    Position::new(
        squares,
        Color::from_index(board.side_to_move().to_index()),
        CastleRights::from_index(board.castle_rights(chess::Color::White).to_index()),
        CastleRights::from_index(board.castle_rights(chess::Color::Black).to_index()),
        board.en_passant().map(|square| square.get_file().to_index() as u8),
    )
    .expect("a position that the rules admit")
}

fn hash_after(fen: &str, uci: &str) -> u64 {
    let board = chess::Board::from_str(fen).unwrap();
    board.make_move_new(chess::ChessMove::from_str(uci).unwrap()).get_hash()
}

fn quiet(source: u8, dest: u8) -> Move {
    Move { source, dest, promotion: None }
}

const START: &str = "rnbqkbnr/pppppppp/8/8/8/8/PPPPPPPP/RNBQKBNR w KQkq - 0 1";
// Nothing but kings and what the single tests need: no pawn is at home.
const BARE: &str = "4k3/8/8/8/8/8/8/4K3 w - - 0 1";

#[test]
fn pieces_have_their_values() {
    let pieces = [Piece::Pawn, Piece::Knight, Piece::Bishop, Piece::Rook, Piece::Queen, Piece::King];
    let considered: Vec<i32> = pieces.iter().map(|p| consider_value(*p)).collect();
    assert_eq!(considered, [20, 60, 60, 100, 250, 9990]);
    let worth: Vec<i32> = pieces.iter().map(|p| piece_value(*p)).collect();
    assert_eq!(worth, [100, 300, 300, 500, 900, 99900]);
}

#[test]
fn back_rank_and_pawn_bits_follow_the_player() {
    let white = position(START);
    assert_eq!(get_player_back_rank(&white), 0);
    assert_eq!(get_player_pawn_bits(&white), 0x0000_0000_0000_ff00);
    let black = position("rnbqkbnr/pppppppp/8/8/4P3/8/PPPP1PPP/RNBQKBNR b KQkq - 0 1");
    assert_eq!(get_player_back_rank(&black), 7);
    assert_eq!(get_player_pawn_bits(&black), 0x00ff_0000_0000_0000);
}

#[test]
fn undeveloped_pawns_are_counted_for_the_player_to_move() {
    assert_eq!(count_undeveloped_pawns(&position(START)), 8);
    assert_eq!(count_undeveloped_pawns(&position(BARE)), 0);
    let after_e4 = position("rnbqkbnr/pppppppp/8/8/4P3/8/PPPP1PPP/RNBQKBNR b KQkq - 0 1");
    assert_eq!(count_undeveloped_pawns(&after_e4), 8);
    let white_again = position("rnbqkbnr/pppp1ppp/8/4p3/4P3/8/PPPP1PPP/RNBQKBNR w KQkq - 0 2");
    assert_eq!(count_undeveloped_pawns(&white_again), 7);
    // A black pawn on the second rank is no white pawn at home.
    let visitor = position("4k3/8/8/8/8/8/p6P/4K3 w - - 0 1");
    assert_eq!(count_undeveloped_pawns(&visitor), 1);
}

#[test]
fn central_pawns_rank_higher_in_the_opening() {
    let start = position(START);
    // (8 - |file - 4|) * 10
    let by_file: Vec<i32> = (0..8u8).map(|file| static_value(&start, quiet(8 + file, 24 + file))).collect();
    assert_eq!(by_file, [40, 50, 60, 70, 80, 70, 60, 50]);
    // A knight move gets nothing.
    assert_eq!(static_value(&start, quiet(6, 21)), 0);
}

#[test]
fn no_opening_bonus_with_fewer_than_six_pawns_at_home() {
    let five = position("4k3/8/8/8/8/8/PPPPP3/4K3 w - - 0 1");
    assert_eq!(static_value(&five, quiet(12, 28)), 0);
    let six = position("4k3/8/8/8/8/8/PPPPPP2/4K3 w - - 0 1");
    assert_eq!(static_value(&six, quiet(12, 28)), 80);
}

#[test]
fn retreat_to_the_back_rank_costs_in_the_opening() {
    // White knight on f3 goes back to g1; seven pawns at home.
    let p = position("rnbqkbnr/pppp1ppp/8/4p3/4P3/5N2/PPPP1PPP/RNBQKB1R w KQkq - 0 1");
    assert_eq!(static_value(&p, quiet(21, 6)), -35);
    // With five pawns at home the retreat costs nothing.
    let late = position("4k3/8/8/8/8/5N2/PPPPP3/4K3 w - - 0 1");
    assert_eq!(static_value(&late, quiet(21, 6)), 0);
    // For black the back rank is the eighth.
    let black = position("rnbqkb1r/pppppppp/5n2/8/4P3/8/PPPP1PPP/RNBQKBNR b KQkq - 0 1");
    assert_eq!(static_value(&black, quiet(45, 62)), -35);
}

#[test]
fn early_queen_moves_cost_while_more_than_six_pawns_are_at_home() {
    let seven = position("rnbqkbnr/pppp1ppp/8/4p3/4P3/8/PPPP1PPP/RNBQKBNR w KQkq - 0 2");
    assert_eq!(static_value(&seven, quiet(3, 39)), -25);
    let six = position("rnbqkbnr/pppp1ppp/8/4p3/3PP3/8/PPP2PPP/RNBQKBNR w KQkq - 0 2");
    assert_eq!(static_value(&six, quiet(3, 19)), 0);
    // On the back rank both count: 25 for the queen and 35 for the retreat.
    let home = position("rnbqkbnr/pppp1ppp/8/4p3/4P3/8/PPPPQPPP/RNB1KBNR w KQkq - 0 2");
    assert_eq!(static_value(&home, quiet(12, 3)), -60);
}

#[test]
fn king_moves_cost_while_castling_is_possible() {
    let may = position("4k3/8/8/8/8/8/8/4K2R w K - 0 1");
    assert_eq!(static_value(&may, quiet(4, 12)), -25);
    let may_not = position("4k3/8/8/8/8/8/8/4K2R w - - 0 1");
    assert_eq!(static_value(&may_not, quiet(4, 12)), 0);
    // The rook may move as it likes.
    assert_eq!(static_value(&may, quiet(7, 15)), 0);
}

#[test]
fn captures_rank_by_victim_and_attacker() {
    // max(10, 2 * victim - attacker)
    let pawn_takes_queen = position("4k3/8/8/3q4/4P3/8/8/4K3 w - - 0 1");
    assert_eq!(static_value(&pawn_takes_queen, quiet(28, 35)), 2 * 250 - 20);
    let queen_takes_pawn = position("4k3/8/8/3p4/8/8/3Q4/4K3 w - - 0 1");
    assert_eq!(static_value(&queen_takes_pawn, quiet(11, 35)), 10);
    let rook_takes_queen = position("4k3/8/8/3q4/8/8/3R4/4K3 w - - 0 1");
    assert_eq!(static_value(&rook_takes_queen, quiet(11, 35)), 400);
    let knight_takes_bishop = position("4k3/8/8/3b4/8/4N3/8/4K3 w - - 0 1");
    assert_eq!(static_value(&knight_takes_bishop, quiet(20, 35)), 60);
}

#[test]
fn promotions_rank_five_times_the_new_piece() {
    let p = position("4k3/P7/8/8/8/8/8/4K3 w - - 0 1");
    let to = |piece| Move { source: 48, dest: 56, promotion: Some(piece) };
    assert_eq!(static_value(&p, to(Piece::Queen)), 1250);
    assert_eq!(static_value(&p, to(Piece::Rook)), 500);
    assert_eq!(static_value(&p, to(Piece::Bishop)), 300);
    assert_eq!(static_value(&p, to(Piece::Knight)), 300);
    // A capture that promotes gets both.
    let both = position("1n2k3/P7/8/8/8/8/8/4K3 w - - 0 1");
    let m = Move { source: 48, dest: 57, promotion: Some(Piece::Queen) };
    assert_eq!(static_value(&both, m), 1250 + (2 * 60 - 20));
}

#[test]
fn history_and_check_are_added_to_the_static_rank() {
    let start = position(START);
    let e4 = quiet(12, 28);
    assert_eq!(rate_move(&start, e4, None, 0), 80);
    assert_eq!(rate_move(&start, e4, None, 1 << 20), 130);
    let known = Entry { zobrist: 7, score: -3, depth_of_score: 2, depth_of_search: 5 };
    assert_eq!(rate_move(&start, e4, Some(known), 0), 80 + 1024 * 5 * 2);
    assert_eq!(rate_move(&start, e4, Some(known), 4), 80 + 10240 + 50);
    let deep = Entry { zobrist: 7, score: 0, depth_of_score: 1024, depth_of_search: 1024 };
    assert_eq!(rate_move(&position(BARE), quiet(4, 12), Some(deep), 0), 1 << 30);
}

#[test]
fn eval_move_asks_the_table_about_the_position_reached() {
    let start = position(START);
    let mut table = TransTable::new();
    let mut counters = Counters::new();
    let e4 = quiet(12, 28);
    assert_eq!(eval_move(&start, &table, &mut counters, e4), 80);
    assert_eq!(counters.total(Stat::TableEvalHits), 0);
    table.put(Entry {
        zobrist: hash_after(START, "e2e4"),
        score: 0,
        depth_of_score: 3,
        depth_of_search: 4,
    });
    assert_eq!(eval_move(&start, &table, &mut counters, e4), 80 + 1024 * 4 * 3);
    assert_eq!(counters.total(Stat::TableEvalHits), 1);
    // Another move leads elsewhere.
    assert_eq!(eval_move(&start, &table, &mut counters, quiet(11, 27)), 70);
    assert_eq!(counters.total(Stat::TableEvalHits), 1);
}

#[test]
fn eval_move_rewards_a_check() {
    let p = position("4k3/8/8/8/8/8/8/R3K3 w - - 0 1");
    let table = TransTable::new();
    let mut counters = Counters::new();
    // Ra1-a8 gives check, Ra1-a7 does not.
    assert_eq!(eval_move(&p, &table, &mut counters, quiet(0, 56)), 50);
    assert_eq!(eval_move(&p, &table, &mut counters, quiet(0, 48)), 0);
}

#[test]
fn eval_board_asks_the_evaluator_once() {
    let start = position(START);
    let hash = chess::Board::default().get_hash();
    let mut table = TransTable::new();
    let mut counters = Counters::new();
    assert_eq!(eval_board(&start, &mut table, &mut counters, &|_: &Position| 123), 123);
    assert_eq!(table.get_nnue(hash), Some(NNUEEntry { zobrist: hash, score: 123 }));
    assert_eq!(counters.total(Stat::NNUECacheMisses), 1);
    assert_eq!(counters.total(Stat::NNUECacheHits), 0);
    assert_eq!(eval_board(&start, &mut table, &mut counters, &|_: &Position| 456), 123);
    assert_eq!(counters.total(Stat::NNUECacheMisses), 1);
    assert_eq!(counters.total(Stat::NNUECacheHits), 1);
}
