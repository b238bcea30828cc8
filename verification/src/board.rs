//! Plain chess values: pieces, colours, castle rights, moves and positions.
//!
//! A square is a number below 64: `file + 8 * rank`, so that 0 is a1, 7 is h1
//! and 63 is h8.

use vstd::prelude::*;
use crate::oracle::{
    initial_position, legal_moves, legal_moves_of, make_move, position_after, sane, setup_is_sane,
    start_view,
};

verus! {

/// The six kinds of chessmen, in ascending order of their index.
#[derive(Clone, Copy, Debug, PartialEq, Eq, PartialOrd, Ord, Hash, Structural)]
pub enum Piece {
    Pawn,
    Knight,
    Bishop,
    Rook,
    Queen,
    King,
}

/// The two players.
#[derive(Clone, Copy, Debug, PartialEq, Eq, Hash, Structural)]
pub enum Color {
    White,
    Black,
}

/// The castling moves that a player may still make.
#[derive(Clone, Copy, Debug, PartialEq, Eq, Hash, Structural)]
pub enum CastleRights {
    NoRights,
    KingSide,
    QueenSide,
    Both,
}

/// A chessman: a piece of one colour.
#[derive(Clone, Copy, Debug, PartialEq, Eq, Hash, Structural)]
pub struct Man {
    pub piece: Piece,
    pub color: Color,
}

/// A move: the square left, the square reached, and the piece that a pawn
/// turns into on the last rank. Moves are ordered by these three in turn, so
/// that they can be sorted and can serve as keys.
#[derive(Clone, Copy, Debug, PartialEq, Eq, PartialOrd, Ord, Hash)]
pub struct Move {
    pub source: u8,
    pub dest: u8,
    pub promotion: Option<Piece>,
}

/// A move together with the rank that move ordering gave it.
pub type RatedMove = (Move, i32);

impl Piece {
    /// Position of the piece in the order pawn, knight, bishop, rook, queen,
    /// king.
    pub open spec fn index(self) -> int {
        match self {
            Piece::Pawn => 0,
            Piece::Knight => 1,
            Piece::Bishop => 2,
            Piece::Rook => 3,
            Piece::Queen => 4,
            Piece::King => 5,
        }
    }

    /// The piece at `i` in that order.
    pub open spec fn at(i: int) -> Piece {
        if i == 0 {
            Piece::Pawn
        } else if i == 1 {
            Piece::Knight
        } else if i == 2 {
            Piece::Bishop
        } else if i == 3 {
            Piece::Rook
        } else if i == 4 {
            Piece::Queen
        } else {
            Piece::King
        }
    }

    pub fn to_index(&self) -> (i: usize)
        ensures
            i == self.index(),
            i < 6,
    {
        match self {
            Piece::Pawn => 0,
            Piece::Knight => 1,
            Piece::Bishop => 2,
            Piece::Rook => 3,
            Piece::Queen => 4,
            Piece::King => 5,
        }
    }

    /// The piece with index `i`; every index from 5 on gives the king.
    pub fn from_index(i: usize) -> (piece: Piece)
        ensures
            piece == Piece::at(i as int),
            i < 6 ==> piece.index() == i,
    {
        if i == 0 {
            Piece::Pawn
        } else if i == 1 {
            Piece::Knight
        } else if i == 2 {
            Piece::Bishop
        } else if i == 3 {
            Piece::Rook
        } else if i == 4 {
            Piece::Queen
        } else {
            Piece::King
        }
    }
}

impl Color {
    /// White is 0, black is 1.
    pub open spec fn index(self) -> int {
        match self {
            Color::White => 0,
            Color::Black => 1,
        }
    }

    /// The other player.
    pub open spec fn other(self) -> Color {
        match self {
            Color::White => Color::Black,
            Color::Black => Color::White,
        }
    }

    pub fn to_index(&self) -> (i: usize)
        ensures
            i == self.index(),
            i < 2,
    {
        match self {
            Color::White => 0,
            Color::Black => 1,
        }
    }

    /// The colour with index `i`; every index from 1 on gives black.
    pub fn from_index(i: usize) -> (color: Color)
        ensures
            color == (if i == 0 {
                Color::White
            } else {
                Color::Black
            }),
    {
        if i == 0 {
            Color::White
        } else {
            Color::Black
        }
    }

    /// The other player.
    pub fn opponent(&self) -> (color: Color)
        ensures
            color == self.other(),
    {
        match self {
            Color::White => Color::Black,
            Color::Black => Color::White,
        }
    }
}

impl CastleRights {
    /// Position in the order none, king side, queen side, both.
    pub open spec fn index(self) -> int {
        match self {
            CastleRights::NoRights => 0,
            CastleRights::KingSide => 1,
            CastleRights::QueenSide => 2,
            CastleRights::Both => 3,
        }
    }

    pub fn to_index(&self) -> (i: usize)
        ensures
            i == self.index(),
            i < 4,
    {
        match self {
            CastleRights::NoRights => 0,
            CastleRights::KingSide => 1,
            CastleRights::QueenSide => 2,
            CastleRights::Both => 3,
        }
    }

    /// The rights with index `i`; every index from 3 on gives both.
    pub fn from_index(i: usize) -> (rights: CastleRights)
        ensures
            i < 4 ==> rights.index() == i,
            i >= 4 ==> rights == CastleRights::Both,
    {
        if i == 0 {
            CastleRights::NoRights
        } else if i == 1 {
            CastleRights::KingSide
        } else if i == 2 {
            CastleRights::QueenSide
        } else {
            CastleRights::Both
        }
    }
}

impl Move {
    /// The move from a1 to a1, which no game contains.
    pub open spec fn null_move() -> Move {
        Move { source: 0, dest: 0, promotion: None }
    }

    /// The move from a1 to a1, which no game contains.
    pub fn null() -> (m: Move)
        ensures
            m == Move::null_move(),
    {
        Move { source: 0, dest: 0, promotion: None }
    }

    /// Whether two moves are the same move.
    pub fn same(&self, other: &Move) -> (equal: bool)
        ensures
            equal == (*self == *other),
    {
        let promotion = match (self.promotion, other.promotion) {
            (None, None) => true,
            (Some(a), Some(b)) => a == b,
            _ => false,
        };
        self.source == other.source && self.dest == other.dest && promotion
    }
}

/// File of a square, from 0 for the a-file to 7 for the h-file.
pub open spec fn file_of(square: int) -> int {
    square % 8
}

/// Rank of a square, from 0 for the first rank to 7 for the eighth.
pub open spec fn rank_of(square: int) -> int {
    square / 8
}

/// Number of chessmen on the first `n` squares of a board.
pub open spec fn men_below(squares: Seq<Option<Man>>, n: int) -> nat
    decreases n,
{
    if n <= 0 {
        0
    } else {
        men_below(squares, n - 1) + (if squares[n - 1] is Some {
            1nat
        } else {
            0nat
        })
    }
}

/// Number of chessmen of `color` on the first `n` squares of a board.
pub open spec fn men_of_below(squares: Seq<Option<Man>>, color: Color, n: int) -> nat
    decreases n,
{
    if n <= 0 {
        0
    } else {
        men_of_below(squares, color, n - 1) + (if squares[n - 1] matches Some(man) && man.color
            == color {
            1nat
        } else {
            0nat
        })
    }
}

/// The lowest square from `from` on that holds the king of `player`.
pub open spec fn king_from(squares: Seq<Option<Man>>, player: Color, from: int) -> Option<int>
    decreases 64 - from,
{
    if from < 0 || from >= 64 {
        None
    } else if squares[from] == Some(Man { piece: Piece::King, color: player }) {
        Some(from)
    } else {
        king_from(squares, player, from + 1)
    }
}

/// Most chessmen that a player can have.
pub const ARMY: usize = 16;

/// A position as plain values.
pub struct PositionView {
    /// What stands on each of the 64 squares.
    pub squares: Seq<Option<Man>>,
    /// The player to move.
    pub side: Color,
    pub white_castle: CastleRights,
    pub black_castle: CastleRights,
    /// File of the pawn that has just made a double step, if any.
    pub en_passant: Option<u8>,
}

impl PositionView {
    /// The shape that every position has: 64 squares, and a file below 8.
    pub open spec fn shaped(self) -> bool {
        &&& self.squares.len() == 64
        &&& self.en_passant matches Some(file) ==> file < 8
    }

    /// The shape, a king of each colour, and sixteen chessmen of each colour
    /// at most.
    pub open spec fn orderly(self) -> bool {
        &&& self.shaped()
        &&& king_from(self.squares, Color::White, 0) is Some
        &&& king_from(self.squares, Color::Black, 0) is Some
        &&& men_of_below(self.squares, Color::White, 64) <= ARMY
        &&& men_of_below(self.squares, Color::Black, 64) <= ARMY
    }

    /// Number of chessmen on the board.
    pub open spec fn men(self) -> nat {
        men_below(self.squares, 64)
    }

    /// The castle rights of `color`.
    pub open spec fn castle_rights(self, color: Color) -> CastleRights {
        match color {
            Color::White => self.white_castle,
            Color::Black => self.black_castle,
        }
    }

    /// Whether `square` holds a chessman of `color`.
    pub open spec fn holds(self, square: int, color: Color) -> bool {
        self.squares[square] matches Some(man) && man.color == color
    }

    /// Whether `square` holds the chessman `man`.
    pub open spec fn holds_man(self, square: int, man: Man) -> bool {
        self.squares[square] == Some(man)
    }
}

/// A position that the rules of chess admit: it has one king of each colour
/// and sixteen chessmen of each colour at most, the player who has just moved
/// is not in check, and castle rights and the en-passant file agree with
/// where the chessmen stand.
pub struct Position {
    pub(crate) squares: Vec<Option<Man>>,
    pub(crate) side: Color,
    pub(crate) white_castle: CastleRights,
    pub(crate) black_castle: CastleRights,
    pub(crate) en_passant: Option<u8>,
}

impl View for Position {
    type V = PositionView;

    closed spec fn view(&self) -> PositionView {
        PositionView {
            squares: self.squares@,
            side: self.side,
            white_castle: self.white_castle,
            black_castle: self.black_castle,
            en_passant: self.en_passant,
        }
    }
}

impl Clone for Position {
    fn clone(&self) -> (copy: Position)
        ensures
            copy@ == self@,
    {
        proof {
            use_type_invariant(self);
        }
        Position {
            squares: self.squares.clone(),
            side: self.side,
            white_castle: self.white_castle,
            black_castle: self.black_castle,
            en_passant: self.en_passant,
        }
    }
}

/// Whether a king of `color` stands on the board.
pub fn has_king(squares: &Vec<Option<Man>>, color: Color) -> (found: bool)
    requires
        squares@.len() == 64,
    ensures
        found == king_from(squares@, color, 0) is Some,
{
    let mut square: usize = 0;
    while square < 64
        invariant
            square <= 64,
            squares@.len() == 64,
            king_from(squares@, color, 0) == king_from(squares@, color, square as int),
        decreases 64 - square,
    {
        if let Some(man) = squares[square] {
            if man.piece == Piece::King && man.color == color {
                return true;
            }
        }
        square += 1;
    }
    false
}

/// Number of chessmen of `color` on the board.
pub fn count_men_of(squares: &Vec<Option<Man>>, color: Color) -> (count: usize)
    requires
        squares@.len() == 64,
    ensures
        count == men_of_below(squares@, color, 64),
        count <= 64,
{
    let mut count: usize = 0;
    let mut square: usize = 0;
    while square < 64
        invariant
            square <= 64,
            squares@.len() == 64,
            count == men_of_below(squares@, color, square as int),
            count <= square,
        decreases 64 - square,
    {
        if let Some(man) = squares[square] {
            if man.color == color {
                count += 1;
            }
        }
        square += 1;
    }
    count
}

impl Position {
    #[verifier::type_invariant]
    pub closed spec fn inv(self) -> bool {
        self@.orderly() && sane(self@)
    }

    /// The position with the given contents, if the rules of chess admit it.
    pub fn new(
        squares: Vec<Option<Man>>,
        side: Color,
        white_castle: CastleRights,
        black_castle: CastleRights,
        en_passant: Option<u8>,
    ) -> (made: Option<Position>)
        ensures
            made is Some <==> {
                let view = PositionView {
                    squares: squares@,
                    side,
                    white_castle,
                    black_castle,
                    en_passant,
                };
                view.orderly() && sane(view)
            },
            made matches Some(position) ==> position@ == (PositionView {
                squares: squares@,
                side,
                white_castle,
                black_castle,
                en_passant,
            }),
    {
        if squares.len() != 64 {
            return None;
        }
        if let Some(file) = en_passant {
            if file >= 8 {
                return None;
            }
        }
        if !has_king(&squares, Color::White) || !has_king(&squares, Color::Black) {
            return None;
        }
        if count_men_of(&squares, Color::White) > ARMY || count_men_of(&squares, Color::Black)
            > ARMY {
            return None;
        }
        if setup_is_sane(&squares, side, white_castle, black_castle, en_passant) {
            Some(Position { squares, side, white_castle, black_castle, en_passant })
        } else {
            None
        }
    }

    /// The position from which every game starts.
    pub fn start() -> (position: Position)
        ensures
            position@ == start_view(),
    {
        initial_position()
    }

    /// Every position is orderly and admitted by the rules.
    pub fn check(&self)
        ensures
            self@.shaped(),
            self@.orderly(),
            sane(self@),
    {
        proof {
            use_type_invariant(self);
        }
    }

    /// The position after the move `m`, if `m` is a legal move.
    pub fn play(&self, m: Move) -> (next: Option<Position>)
        ensures
            next is Some <==> legal_moves_of(self@).contains(m),
            next matches Some(position) ==> position@ == position_after(self@, m),
    {
        let legal = legal_moves(self);
        let mut i: usize = 0;
        while i < legal.len()
            invariant
                i <= legal@.len(),
                legal@ == legal_moves_of(self@),
                forall|k: int| 0 <= k < i ==> legal@[k] != m,
            decreases legal@.len() - i,
        {
            if legal[i].same(&m) {
                return Some(make_move(self, m));
            }
            i += 1;
        }
        None
    }

    pub fn side_to_move(&self) -> (side: Color)
        ensures
            side == self@.side,
    {
        self.side
    }

    /// What stands on `square`; nothing stands on a square from 64 on.
    pub fn man_on(&self, square: u8) -> (man: Option<Man>)
        ensures
            man == (if square < 64 {
                self@.squares[square as int]
            } else {
                None
            }),
    {
        proof {
            use_type_invariant(self);
        }
        if square < 64 {
            self.squares[square as usize]
        } else {
            None
        }
    }

    /// The kind of chessman on `square`.
    pub fn piece_on(&self, square: u8) -> (piece: Option<Piece>)
        ensures
            piece == (if square < 64 {
                match self@.squares[square as int] {
                    Some(man) => Some(man.piece),
                    None => None,
                }
            } else {
                None
            }),
    {
        match self.man_on(square) {
            Some(man) => Some(man.piece),
            None => None,
        }
    }

    /// The colour of the chessman on `square`.
    pub fn color_on(&self, square: u8) -> (color: Option<Color>)
        ensures
            color == (if square < 64 {
                match self@.squares[square as int] {
                    Some(man) => Some(man.color),
                    None => None,
                }
            } else {
                None
            }),
    {
        match self.man_on(square) {
            Some(man) => Some(man.color),
            None => None,
        }
    }

    pub fn castle_rights(&self, color: Color) -> (rights: CastleRights)
        ensures
            rights == self@.castle_rights(color),
    {
        match color {
            Color::White => self.white_castle,
            Color::Black => self.black_castle,
        }
    }

    /// The castle rights of the player to move.
    pub fn my_castle_rights(&self) -> (rights: CastleRights)
        ensures
            rights == self@.castle_rights(self@.side),
    {
        self.castle_rights(self.side)
    }

    pub fn en_passant(&self) -> (file: Option<u8>)
        ensures
            file == self@.en_passant,
    {
        self.en_passant
    }

    /// Number of chessmen on the board.
    pub fn count_men(&self) -> (count: usize)
        ensures
            count == self@.men(),
            count <= 64,
    {
        proof {
            use_type_invariant(self);
        }
        let mut count: usize = 0;
        let mut i: usize = 0;
        while i < 64
            invariant
                i <= 64,
                self.squares@.len() == 64,
                count == men_below(self.squares@, i as int),
                count <= i,
            decreases 64 - i,
        {
            if self.squares[i].is_some() {
                count += 1;
            }
            i += 1;
        }
        count
    }
}

} // verus!
