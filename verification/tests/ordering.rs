use std::str::FromStr;

use chevii::board::{CastleRights, Color, Man, Move, Piece, Position};
use chevii::ordering::{capturing_moves, opponent_mask, order_key, sort_moves, sorted_moves};
use chevii::statistics::Counters;
use chevii::table::TransTable;

fn position(fen: &str) -> Position {
    let board = chess::Board::from_str(fen).expect("a valid FEN");
    let squares = chess::ALL_SQUARES
        .iter()
        .map(|square| {
            board.piece_on(*square).map(|piece| Man {
                piece: Piece::from_index(piece.to_index()),
                color: Color::from_index(board.color_on(*square).unwrap().to_index()),
            })
        })
        .collect();
    Position::new(
        squares,
        Color::from_index(board.side_to_move().to_index()),
        CastleRights::from_index(board.castle_rights(chess::Color::White).to_index()),
        CastleRights::from_index(board.castle_rights(chess::Color::Black).to_index()),
        board.en_passant().map(|square| square.get_file().to_index() as u8),
    )
    .expect("a position that the rules admit")
}

fn generator_order(fen: &str) -> Vec<Move> {
    let board = chess::Board::from_str(fen).unwrap();
    chess::MoveGen::new_legal(&board)
        .map(|m| Move {
            source: m.get_source().to_int(),
            dest: m.get_dest().to_int(),
            promotion: m.get_promotion().map(|piece| Piece::from_index(piece.to_index())),
        })
        .collect()
}

fn key(m: &Move) -> (u8, u8, Option<usize>) {
    (m.source, m.dest, m.promotion.map(|piece| piece.to_index()))
}

fn quiet(source: u8, dest: u8) -> Move {
    Move { source, dest, promotion: None }
}

const MIDDLE_GAME: &str = "r1bqk2r/ppp2pp1/2n2n2/3Pp2p/2P5/P2P1N2/2P2PPP/R1BQKB1R b KQkq - 0 8";
const PROMOTION: &str = "1n2k3/P7/8/8/8/8/8/4K3 w - - 0 1";
const EN_PASSANT: &str = "rnbqkbnr/ppp1p1pp/8/3pPp2/8/8/PPPP1PPP/RNBQKBNR w KQkq f6 0 3";

#[test]
fn start_position_has_twenty_moves_and_no_capture() {
    let start = Position::start();
    let table = TransTable::new();
    let mut counters = Counters::new();
    let moves = sorted_moves(&start, &table, &mut counters);
    assert_eq!(moves.len(), 20);
    for pair in moves.windows(2) {
        assert!(pair[0].1 >= pair[1].1);
    }
    // The two moves of the e-pawn are the best: 80 for a central pawn.
    assert_eq!(moves[0].1, 80);
    assert_eq!(moves[0].0.source, 12);
    assert_eq!(moves[1].0.source, 12);
    assert!(capturing_moves(&start, &table, &mut counters).is_empty());
}

#[test]
fn sorted_moves_are_the_legal_moves_in_another_order() {
    for fen in [MIDDLE_GAME, PROMOTION, EN_PASSANT] {
        let table = TransTable::new();
        let mut counters = Counters::new();
        let sorted = sorted_moves(&position(fen), &table, &mut counters);
        let mut ours: Vec<_> = sorted.iter().map(|rated| key(&rated.0)).collect();
        let mut theirs: Vec<_> = generator_order(fen).iter().map(key).collect();
        ours.sort();
        theirs.sort();
        assert_eq!(ours, theirs);
        for pair in sorted.windows(2) {
            assert!(pair[0].1 >= pair[1].1);
        }
    }
}

#[test]
fn moves_of_equal_rank_keep_the_order_of_the_generator() {
    let table = TransTable::new();
    let mut counters = Counters::new();
    let sorted = sorted_moves(&position(MIDDLE_GAME), &table, &mut counters);
    let order = generator_order(MIDDLE_GAME);
    let place = |m: &Move| order.iter().position(|other| other == m).unwrap();
    for pair in sorted.windows(2) {
        if pair[0].1 == pair[1].1 {
            assert!(place(&pair[0].0) < place(&pair[1].0));
        }
    }
}

#[test]
fn capturing_moves_are_the_legal_moves_onto_a_chessman_of_the_opponent() {
    for fen in [MIDDLE_GAME, PROMOTION, EN_PASSANT] {
        let p = position(fen);
        let table = TransTable::new();
        let mut counters = Counters::new();
        let captures = capturing_moves(&p, &table, &mut counters);
        let all = sorted_moves(&p, &table, &mut counters);
        for rated in &captures {
            assert!(all.contains(rated));
            let victim = p.man_on(rated.0.dest).expect("a capture takes something");
            assert_ne!(victim.color, p.side_to_move());
        }
        let expected = all.iter().filter(|rated| p.man_on(rated.0.dest).is_some()).count();
        assert_eq!(captures.len(), expected);
    }
}

#[test]
fn captures_of_the_middle_game_come_best_first() {
    let p = position(MIDDLE_GAME);
    let table = TransTable::new();
    let mut counters = Counters::new();
    let captures = capturing_moves(&p, &table, &mut counters);
    // Black can take the pawn on d5 with the queen or with the knight on f6.
    let moves: Vec<Move> = captures.iter().map(|rated| rated.0).collect();
    assert_eq!(moves, vec![quiet(45, 35), quiet(59, 35)]);
    // Knight takes pawn: max(10, 40 - 60); queen takes pawn: max(10, 40 - 250).
    assert_eq!(captures[0].1, 10);
    assert_eq!(captures[1].1, 10);
}

#[test]
fn en_passant_reaches_an_empty_square_and_is_no_capturing_move() {
    let p = position(EN_PASSANT);
    let table = TransTable::new();
    let mut counters = Counters::new();
    let all = sorted_moves(&p, &table, &mut counters);
    assert!(all.iter().any(|rated| rated.0 == quiet(36, 45)));
    let captures = capturing_moves(&p, &table, &mut counters);
    assert!(captures.iter().all(|rated| rated.0 != quiet(36, 45)));
}

#[test]
fn opponent_mask_has_a_bit_for_each_chessman_of_the_opponent() {
    assert_eq!(opponent_mask(&Position::start()), 0xffff_0000_0000_0000);
    let black = position("rnbqkbnr/pppppppp/8/8/4P3/8/PPPP1PPP/RNBQKBNR b KQkq - 0 1");
    assert_eq!(opponent_mask(&black), 0x0000_0000_1000_efff);
    assert_eq!(opponent_mask(&position("4k3/8/8/8/8/8/8/4K3 w - - 0 1")), 1 << 60);
}

#[test]
fn sort_moves_is_stable_and_descending() {
    let m = |source: u8| quiet(source, 63);
    let mut moves = vec![(m(0), 5), (m(1), 9), (m(2), 5), (m(3), -1), (m(4), 9), (m(5), 5)];
    sort_moves(&mut moves);
    assert_eq!(moves, vec![(m(1), 9), (m(4), 9), (m(0), 5), (m(2), 5), (m(5), 5), (m(3), -1)]);
    let mut extremes = vec![(m(0), i32::MIN), (m(1), i32::MAX), (m(2), 0), (m(3), i32::MIN)];
    sort_moves(&mut extremes);
    assert_eq!(
        extremes,
        vec![(m(1), i32::MAX), (m(2), 0), (m(0), i32::MIN), (m(3), i32::MIN)]
    );
    let mut none: Vec<(Move, i32)> = Vec::new();
    sort_moves(&mut none);
    assert!(none.is_empty());
}

#[test]
fn order_key_is_the_negated_rank() {
    assert_eq!(order_key(&(quiet(0, 1), 80)), -80);
    assert_eq!(order_key(&(quiet(0, 1), -35)), 35);
    assert_eq!(order_key(&(quiet(0, 1), i32::MIN)), 2147483648);
}

#[test]
fn capturing_moves_keep_the_order_that_they_have_among_all_moves() {
    let positions = [
        MIDDLE_GAME,
        PROMOTION,
        EN_PASSANT,
        "r2q1rk1/pp2bppp/2n1bn2/2pp4/3P1B2/2N1PN2/PPQ1BPPP/R4RK1 w - - 0 1",
        "4k3/8/2q1r3/3n4/2B1R3/3Q4/8/4K3 w - - 0 1",
        "1n1qk3/P1P5/8/8/8/8/8/4K3 w - - 0 1",
        "4k3/8/8/8/8/8/1p6/R1B1K3 b - - 0 1",
    ];
    for fen in positions {
        let p = position(fen);
        let table = TransTable::new();
        let mut counters = Counters::new();
        let all = sorted_moves(&p, &table, &mut counters);
        let rank = |m: &Move| all.iter().find(|rated| rated.0 == *m).unwrap().1;
        // The moves of the generator that take something, with their ranks, in a stable sort.
        let mut expected: Vec<(Move, i32)> = generator_order(fen)
            .into_iter()
            .filter(|m| p.man_on(m.dest).is_some())
            .map(|m| (m, rank(&m)))
            .collect();
        expected.sort_by_key(|rated| -rated.1);
        assert_eq!(capturing_moves(&p, &table, &mut counters), expected);
        let mut whole: Vec<(Move, i32)> =
            generator_order(fen).into_iter().map(|m| (m, rank(&m))).collect();
        whole.sort_by_key(|rated| -rated.1);
        assert_eq!(all, whole);
    }
}
