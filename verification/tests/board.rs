use std::str::FromStr;

use chevii::board::{count_men_of, has_king, CastleRights, Color, Man, Move, Piece, Position};

fn man(piece: Piece, color: Color) -> Option<Man> {
    Some(Man { piece, color })
}

fn kings_only() -> Vec<Option<Man>> {
    let mut squares = vec![None; 64];
    squares[4] = man(Piece::King, Color::White);
    squares[60] = man(Piece::King, Color::Black);
    squares
}

#[test]
fn start_position_has_thirty_two_men() {
    let start = Position::start();
    assert_eq!(start.count_men(), 32);
    assert_eq!(start.side_to_move(), Color::White);
    assert_eq!(start.man_on(4), Some(Man { piece: Piece::King, color: Color::White }));
    assert_eq!(start.man_on(59), Some(Man { piece: Piece::Queen, color: Color::Black }));
    assert_eq!(start.man_on(20), None);
}

#[test]
fn start_position_is_the_usual_arrangement() {
    let start = Position::start();
    let back = [
        Piece::Rook,
        Piece::Knight,
        Piece::Bishop,
        Piece::Queen,
        Piece::King,
        Piece::Bishop,
        Piece::Knight,
        Piece::Rook,
    ];
    for file in 0..8u8 {
        assert_eq!(start.man_on(file), man(back[file as usize], Color::White));
        assert_eq!(start.man_on(8 + file), man(Piece::Pawn, Color::White));
        assert_eq!(start.man_on(48 + file), man(Piece::Pawn, Color::Black));
        assert_eq!(start.man_on(56 + file), man(back[file as usize], Color::Black));
        for rank in 2..6u8 {
            assert_eq!(start.man_on(8 * rank + file), None);
        }
    }
    assert_eq!(start.castle_rights(Color::White), CastleRights::Both);
    assert_eq!(start.castle_rights(Color::Black), CastleRights::Both);
    assert_eq!(start.my_castle_rights(), CastleRights::Both);
    assert_eq!(start.en_passant(), None);
}

#[test]
fn new_keeps_what_it_is_given() {
    let mut squares = kings_only();
    squares[7] = man(Piece::Rook, Color::White);
    let p = Position::new(squares, Color::Black, CastleRights::KingSide, CastleRights::NoRights, None)
        .expect("kings and a rook");
    assert_eq!(p.side_to_move(), Color::Black);
    assert_eq!(p.count_men(), 3);
    assert_eq!(p.piece_on(7), Some(Piece::Rook));
    assert_eq!(p.color_on(7), Some(Color::White));
    assert_eq!(p.piece_on(8), None);
    assert_eq!(p.color_on(8), None);
    assert_eq!(p.castle_rights(Color::White), CastleRights::KingSide);
    assert_eq!(p.castle_rights(Color::Black), CastleRights::NoRights);
    assert_eq!(p.my_castle_rights(), CastleRights::NoRights);
    let copy = p.clone();
    assert_eq!(copy.count_men(), 3);
    assert_eq!(copy.man_on(60), man(Piece::King, Color::Black));
}

#[test]
fn squares_beyond_the_board_are_empty() {
    let start = Position::start();
    assert_eq!(start.man_on(64), None);
    assert_eq!(start.piece_on(200), None);
    assert_eq!(start.color_on(255), None);
}

#[test]
fn new_refuses_what_the_rules_do_not_admit() {
    let none = CastleRights::NoRights;
    assert!(Position::new(kings_only(), Color::White, none, none, None).is_some());
    // A board of another size.
    assert!(Position::new(vec![None; 63], Color::White, none, none, None).is_none());
    assert!(Position::new(vec![None; 65], Color::White, none, none, None).is_none());
    // No kings, or one only.
    assert!(Position::new(vec![None; 64], Color::White, none, none, None).is_none());
    let mut lonely = vec![None; 64];
    lonely[4] = man(Piece::King, Color::White);
    assert!(Position::new(lonely.clone(), Color::White, none, none, None).is_none());
    assert!(Position::new(lonely, Color::Black, none, none, None).is_none());
    // Seventeen chessmen of one colour.
    let mut army = kings_only();
    for square in 8..23 {
        army[square] = man(Piece::Knight, Color::White);
    }
    assert!(Position::new(army.clone(), Color::White, none, none, None).is_some());
    army[23] = man(Piece::Knight, Color::White);
    assert!(Position::new(army, Color::White, none, none, None).is_none());
    // Two white kings.
    let mut two = kings_only();
    two[0] = man(Piece::King, Color::White);
    assert!(Position::new(two, Color::White, none, none, None).is_none());
    // Kings that touch.
    let mut touching = vec![None; 64];
    touching[4] = man(Piece::King, Color::White);
    touching[12] = man(Piece::King, Color::Black);
    assert!(Position::new(touching, Color::White, none, none, None).is_none());
    // The player who has moved is in check.
    let mut checked = kings_only();
    checked[4 + 8 * 3] = man(Piece::Rook, Color::White);
    assert!(Position::new(checked.clone(), Color::White, none, none, None).is_none());
    assert!(Position::new(checked, Color::Black, none, none, None).is_some());
    // Castle rights without a rook in its corner.
    assert!(Position::new(kings_only(), Color::White, CastleRights::KingSide, none, None).is_none());
    // A file that is none.
    assert!(Position::new(kings_only(), Color::White, none, none, Some(8)).is_none());
    // An en-passant file that no pawn can make use of is accepted, and ignored.
    let idle = Position::new(kings_only(), Color::White, none, none, Some(3)).expect("accepted");
    assert_eq!(idle.en_passant(), Some(3));
}

#[test]
fn indices_run_in_the_usual_order() {
    let pieces = [Piece::Pawn, Piece::Knight, Piece::Bishop, Piece::Rook, Piece::Queen, Piece::King];
    for (i, piece) in pieces.iter().enumerate() {
        assert_eq!(piece.to_index(), i);
        assert_eq!(Piece::from_index(i), *piece);
    }
    assert_eq!(Piece::from_index(6), Piece::King);
    assert_eq!(Color::White.to_index(), 0);
    assert_eq!(Color::Black.to_index(), 1);
    assert_eq!(Color::from_index(0), Color::White);
    assert_eq!(Color::from_index(1), Color::Black);
    assert_eq!(Color::from_index(2), Color::Black);
    assert_eq!(Color::White.opponent(), Color::Black);
    assert_eq!(Color::Black.opponent(), Color::White);
    let rights =
        [CastleRights::NoRights, CastleRights::KingSide, CastleRights::QueenSide, CastleRights::Both];
    for (i, right) in rights.iter().enumerate() {
        assert_eq!(right.to_index(), i);
        assert_eq!(CastleRights::from_index(i), *right);
    }
    assert_eq!(CastleRights::from_index(9), CastleRights::Both);
}

#[test]
fn moves_compare_by_all_three_parts() {
    let m = Move { source: 12, dest: 28, promotion: None };
    assert!(m.same(&Move { source: 12, dest: 28, promotion: None }));
    assert!(!m.same(&Move { source: 12, dest: 20, promotion: None }));
    assert!(!m.same(&Move { source: 11, dest: 28, promotion: None }));
    assert!(!m.same(&Move { source: 12, dest: 28, promotion: Some(Piece::Queen) }));
    let q = Move { source: 48, dest: 56, promotion: Some(Piece::Queen) };
    assert!(q.same(&q));
    assert!(!q.same(&Move { source: 48, dest: 56, promotion: Some(Piece::Rook) }));
    assert_eq!(Move::null(), Move { source: 0, dest: 0, promotion: None });
}

#[test]
fn kings_and_armies_are_counted() {
    let mut squares = kings_only();
    assert!(has_king(&squares, Color::White));
    assert!(has_king(&squares, Color::Black));
    assert_eq!(count_men_of(&squares, Color::White), 1);
    squares[60] = man(Piece::Queen, Color::Black);
    squares[0] = man(Piece::Pawn, Color::Black);
    assert!(!has_king(&squares, Color::Black));
    assert_eq!(count_men_of(&squares, Color::Black), 2);
    assert_eq!(count_men_of(&squares, Color::White), 1);
}

fn position(board: &chess::Board) -> Position {
    let squares = chess::ALL_SQUARES
        .iter()
        .map(|square| {
            board.piece_on(*square).map(|piece| Man {
                piece: Piece::from_index(piece.to_index()),
                color: Color::from_index(board.color_on(*square).unwrap().to_index()),
            })
        })
        .collect();
    Position::new(
        squares,
        Color::from_index(board.side_to_move().to_index()),
        CastleRights::from_index(board.castle_rights(chess::Color::White).to_index()),
        CastleRights::from_index(board.castle_rights(chess::Color::Black).to_index()),
        board.en_passant().map(|square| square.get_file().to_index() as u8),
    )
    .expect("a position that the rules admit")
}

fn same(ours: &Position, theirs: &chess::Board) {
    let expected = position(theirs);
    for square in 0..64u8 {
        assert_eq!(ours.man_on(square), expected.man_on(square));
    }
    assert_eq!(ours.side_to_move(), expected.side_to_move());
    assert_eq!(ours.castle_rights(Color::White), expected.castle_rights(Color::White));
    assert_eq!(ours.castle_rights(Color::Black), expected.castle_rights(Color::Black));
    assert_eq!(ours.en_passant(), expected.en_passant());
}

#[test]
fn play_follows_the_rules() {
    let games = [
        // An opening with a capture, both castlings and a pin.
        (
            "rnbqkbnr/pppppppp/8/8/8/8/PPPPPPPP/RNBQKBNR w KQkq - 0 1",
            vec![
                "e2e4", "e7e5", "g1f3", "b8c6", "f1b5", "a7a6", "b5c6", "d7c6", "e1g1", "c8g4",
                "h2h3", "g4f3", "d1f3", "d8d7", "d2d3", "e8c8",
            ],
        ),
        // A double step, taken in passing.
        ("4k3/3p4/8/4P3/8/8/8/4K3 b - - 0 1", vec!["d7d5", "e5d6", "e8d7"]),
        // A promotion with a capture.
        ("1n2k3/P7/8/8/8/8/8/4K3 w - - 0 1", vec!["a7b8q", "e8e7", "b8b7"]),
    ];
    for (fen, moves) in games {
        let mut board = chess::Board::from_str(fen).unwrap();
        let mut ours = position(&board);
        for text in moves {
            let m = chess::ChessMove::from_str(text).unwrap();
            let played = Move {
                source: m.get_source().to_int(),
                dest: m.get_dest().to_int(),
                promotion: m.get_promotion().map(|piece| Piece::from_index(piece.to_index())),
            };
            let men = ours.count_men();
            let takes = ours.man_on(played.dest).is_some();
            ours = ours.play(played).expect("a legal move");
            board = board.make_move_new(m);
            same(&ours, &board);
            if takes {
                assert_eq!(ours.count_men(), men - 1);
            } else {
                assert!(ours.count_men() <= men);
            }
        }
    }
}

#[test]
fn play_refuses_what_is_no_legal_move() {
    let start = Position::start();
    assert!(start.play(Move { source: 12, dest: 28, promotion: None }).is_some());
    assert!(start.play(Move { source: 12, dest: 36, promotion: None }).is_none());
    assert!(start.play(Move { source: 52, dest: 36, promotion: None }).is_none());
    assert!(start.play(Move { source: 12, dest: 28, promotion: Some(Piece::Queen) }).is_none());
    assert!(start.play(Move { source: 200, dest: 28, promotion: None }).is_none());
    assert!(start.play(Move::null()).is_none());
}

#[test]
fn moves_can_be_sorted_and_serve_as_keys() {
    let a = Move { source: 12, dest: 28, promotion: None };
    let b = Move { source: 12, dest: 20, promotion: None };
    let c = Move { source: 6, dest: 21, promotion: None };
    let d = Move { source: 48, dest: 56, promotion: Some(Piece::Queen) };
    let e = Move { source: 48, dest: 56, promotion: Some(Piece::Knight) };
    let f = Move { source: 48, dest: 56, promotion: None };
    let mut moves = vec![a, b, c, d, e, f, a, d];
    moves.sort();
    moves.dedup();
    assert_eq!(moves, vec![c, b, a, f, e, d]);
    let mut counts = std::collections::BTreeMap::new();
    for m in [a, b, a, a] {
        *counts.entry(m).or_insert(0) += 1;
    }
    assert_eq!(counts.get(&a), Some(&3));
    assert_eq!(counts.get(&b), Some(&1));
    let mut seen = std::collections::HashSet::new();
    assert!(seen.insert(d));
    assert!(!seen.insert(d));
    assert!(seen.insert(e));
}
