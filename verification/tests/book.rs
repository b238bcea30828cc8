use chevii::board::{Color, Move, Position};
use chevii::book::{
    find_gap, get_for, parse_line, pick, read_book_move, read_digit, read_number, BookMove,
};
use chevii::text::find_byte;

fn counts(weights: &[usize]) -> Vec<BookMove> {
    weights.iter().map(|count| BookMove { count: *count, start: 0, end: 0 }).collect()
}

/// The walk over the counts, with a `None` where it leaves the list.
fn walk(weights: &[usize], roll: usize) -> Option<usize> {
    let mut rest = roll as i128;
    let mut index = 0;
    while rest > 0 {
        rest -= *weights.get(index)? as i128;
        index += 1;
    }
    if index < weights.len() {
        Some(index)
    } else {
        None
    }
}

#[test]
fn digits_have_their_values() {
    assert_eq!(read_digit(b'0', 10), Some(0));
    assert_eq!(read_digit(b'9', 10), Some(9));
    assert_eq!(read_digit(b'a', 10), None);
    assert_eq!(read_digit(b'a', 16), Some(10));
    assert_eq!(read_digit(b'F', 16), Some(15));
    assert_eq!(read_digit(b'g', 16), None);
    assert_eq!(read_digit(b'z', 36), Some(35));
    assert_eq!(read_digit(b' ', 16), None);
    assert_eq!(read_digit(b'9', 8), None);
    for byte in 0..=255u8 {
        for radix in [2u8, 8, 10, 16, 36] {
            let expected = (byte as char).to_digit(radix as u32).map(|d| d as u8);
            assert_eq!(read_digit(byte, radix), expected);
        }
    }
}

#[test]
fn numbers_are_read_as_the_standard_library_reads_them() {
    let texts = [
        "", "+", "-", "0", "7", "+7", "-7", "007", "10", "ff", "FF", "fF", "g", "1g", " 1", "1 ",
        "++1", "1+", "deadbeef", "ffffffffffffffff", "10000000000000000", "18446744073709551615",
        "18446744073709551616", "99999999999999999999", "+0", "a", "0x10", "1_000",
    ];
    for text in texts {
        assert_eq!(read_number(text.as_bytes(), 16), u64::from_str_radix(text, 16).ok());
        assert_eq!(read_number(text.as_bytes(), 10), u64::from_str_radix(text, 10).ok());
    }
    assert_eq!(read_number(b"ff", 16), Some(255));
    assert_eq!(read_number(b"ffffffffffffffff", 16), Some(u64::MAX));
    assert_eq!(read_number(b"18446744073709551615", 10), Some(u64::MAX));
    assert_eq!(read_number(b"18446744073709551616", 10), None);
}

#[test]
fn bytes_and_gaps_are_found_from_the_left() {
    assert_eq!(find_byte(b"3:e4 2:d4", b':', 0, 9), 1);
    assert_eq!(find_byte(b"3:e4 2:d4", b':', 2, 9), 6);
    assert_eq!(find_byte(b"3:e4 2:d4", b':', 2, 5), 5);
    assert_eq!(find_byte(b"3:e4 2:d4", b'x', 0, 9), 9);
    assert_eq!(find_byte(b"", b'x', 0, 0), 0);
    assert_eq!(find_gap(b"ab   cd", 0), 2);
    assert_eq!(find_gap(b"ab   cd", 3), 7);
    assert_eq!(find_gap(b"ab    cd", 3), 3);
    assert_eq!(find_gap(b"ab  cd", 0), 6);
    assert_eq!(find_gap(b"   ", 0), 0);
    assert_eq!(find_gap(b"  ", 0), 2);
    assert_eq!(find_gap(b"", 0), 0);
}

#[test]
fn a_move_is_a_count_and_a_text() {
    assert_eq!(read_book_move(b"3:e4", 0, 4), Some(BookMove { count: 3, start: 2, end: 4 }));
    assert_eq!(read_book_move(b"12:Nf3:x", 0, 8), Some(BookMove { count: 12, start: 3, end: 6 }));
    assert_eq!(read_book_move(b"3:", 0, 2), Some(BookMove { count: 3, start: 2, end: 2 }));
    assert_eq!(read_book_move(b"e4", 0, 2), None);
    assert_eq!(read_book_move(b":e4", 0, 3), None);
    assert_eq!(read_book_move(b"x:e4", 0, 4), None);
    assert_eq!(read_book_move(b"", 0, 0), None);
    assert_eq!(read_book_move(b"99999999999999999999999:e4", 0, 26), None);
}

#[test]
fn a_line_has_a_hash_a_side_and_moves() {
    let line = parse_line(b"1f   w   3:e4 2:d4 1:Nf3").expect("a well written line");
    assert_eq!(line.hash, 0x1f);
    assert_eq!(line.side, Color::White);
    assert_eq!(line.total, 6);
    assert_eq!(
        line.moves,
        vec![
            BookMove { count: 3, start: 11, end: 13 },
            BookMove { count: 2, start: 16, end: 18 },
            BookMove { count: 1, start: 21, end: 24 },
        ]
    );
    let line = parse_line(b"DEADbeef00000001   b   7:e5").expect("a well written line");
    assert_eq!(line.hash, 0xdead_beef_0000_0001);
    assert_eq!(line.side, Color::Black);
    assert_eq!(line.total, 7);
    assert_eq!(line.moves, vec![BookMove { count: 7, start: 25, end: 27 }]);
    // Every side but `w` is black.
    assert_eq!(parse_line(b"1   white   1:e4").map(|line| line.side), Some(Color::Black));
    assert_eq!(parse_line(b"1      1:e4").map(|line| line.side), Some(Color::Black));
    // What follows a third gap is not read.
    let line = parse_line(b"1   w   1:e4   2:d4").expect("a well written line");
    assert_eq!(line.moves.len(), 1);
    assert_eq!(line.total, 1);
}

#[test]
fn a_line_that_is_not_well_written_says_nothing() {
    assert!(parse_line(b"").is_none());
    assert!(parse_line(b"1f").is_none());
    assert!(parse_line(b"1f   w").is_none());
    assert!(parse_line(b"1f   w   ").is_none());
    assert!(parse_line(b"1f  w  3:e4").is_none());
    assert!(parse_line(b"xyz   w   3:e4").is_none());
    assert!(parse_line(b"   w   3:e4").is_none());
    assert!(parse_line(b"1f   w   e4").is_none());
    assert!(parse_line(b"1f   w   3:e4 ").is_none());
    assert!(parse_line(b"1f   w   3:e4  2:d4").is_none());
    assert!(parse_line(b"1f   w   3:e4 x:d4").is_none());
    assert!(parse_line(b"11111111111111111   w   3:e4").is_none());
    // The counts add up to more than a machine word holds.
    let big = format!("1   w   {}:e4 1:d4", usize::MAX);
    assert!(parse_line(big.as_bytes()).is_none());
    let fits = format!("1   w   {}:e4 1:d4", usize::MAX - 1);
    assert_eq!(parse_line(fits.as_bytes()).map(|line| line.total), Some(usize::MAX));
}

#[test]
fn a_roll_walks_along_the_counts() {
    // A roll of zero picks the first move.
    assert_eq!(pick(&counts(&[3, 1]), 0), Some(0));
    // Any other roll passes the first move.
    assert_eq!(pick(&counts(&[3, 1]), 1), Some(1));
    assert_eq!(pick(&counts(&[3, 1]), 3), Some(1));
    assert_eq!(pick(&counts(&[1, 1, 1]), 2), Some(2));
    // The walk can leave the list.
    assert_eq!(pick(&counts(&[2]), 1), None);
    assert_eq!(pick(&counts(&[1, 1]), 2), None);
    assert_eq!(pick(&counts(&[]), 0), None);
    assert_eq!(pick(&counts(&[0, 0, 5]), 1), None);
    assert_eq!(pick(&counts(&[0, 0, 5, 1]), 1), Some(3));
    for weights in [vec![1usize], vec![2], vec![1, 1], vec![3, 1], vec![1, 2, 3], vec![0, 4, 0, 1]] {
        let total: usize = weights.iter().sum();
        for roll in 0..total + 2 {
            assert_eq!(pick(&counts(&weights), roll), walk(&weights, roll));
        }
    }
}

#[test]
fn the_book_move_is_read_as_a_move_of_the_position() {
    let start = Position::start();
    let text = b"1f   w   3:e4 2:d4 1:Nf3 1:Ke2";
    let line = parse_line(text).expect("a well written line");
    let e = |source, dest| Some(Move { source, dest, promotion: None });
    assert_eq!(get_for(&start, text, &line, 0), e(12, 28));
    assert_eq!(get_for(&start, text, &line, 1), e(11, 27));
    assert_eq!(get_for(&start, text, &line, 3), e(11, 27));
    assert_eq!(get_for(&start, text, &line, 4), e(6, 21));
    assert_eq!(get_for(&start, text, &line, 5), e(6, 21));
    // The king cannot move yet.
    assert_eq!(get_for(&start, text, &line, 6), None);
    // The walk leaves the list.
    assert_eq!(get_for(&start, text, &line, 7), None);
}
