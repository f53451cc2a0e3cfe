use chess_core::direction::Direction;
use chess_core::file::File;
use chess_core::piece::Color;
use chess_core::piece::Piece;
use chess_core::piece::PieceType;
use chess_core::rank::Rank;
use chess_core::square::Square;
use chess_core::state::squares;
use chess_core::state::Board;
use chess_core::state::Castling;
use chess_core::state::State;

fn sq(name: &str) -> Square {
    let idx = chess_core::byteboard::byteboard::ByteBoard::coord_to_index(name);
    Square::from_index(idx).unwrap()
}

#[test]
fn board_set_piece_updates_bitboards() {
    let mut b = Board::new();
    b.set_piece(sq("d4"), Some(Piece::WhiteRook));
    b.set_piece(sq("e5"), Some(Piece::BlackRook));
    assert_eq!(b.piece(sq("d4")), Some(Piece::WhiteRook));
    assert_eq!(b.piece(sq("e5")), Some(Piece::BlackRook));
    assert!(b.by_color(Color::White).contains(sq("d4")));
    assert!(!b.by_color(Color::White).contains(sq("e5")));
    assert!(b.by_piece_type(PieceType::Rook).contains(sq("d4")));
    assert!(b.by_piece_type(PieceType::Rook).contains(sq("e5")));
    assert!(b.by_piece(Piece::WhiteRook).contains(sq("d4")));
    assert!(!b.by_piece(Piece::WhiteRook).contains(sq("e5")));
    // replacing a piece removes the old one from its boards
    b.set_piece(sq("d4"), Some(Piece::WhiteQueen));
    assert!(!b.by_piece_type(PieceType::Rook).contains(sq("d4")));
    assert!(b.by_piece_type(PieceType::Queen).contains(sq("d4")));
    b.set_piece(sq("d4"), None);
    assert_eq!(b.piece(sq("d4")), None);
    assert!(!b.by_color(Color::White).contains(sq("d4")));
}

#[test]
fn pieces_lists_every_square() {
    let mut b = Board::new();
    b.set_piece(sq("a1"), Some(Piece::WhiteKing));
    let ps = b.pieces();
    assert_eq!(ps.len(), 64);
    assert_eq!(ps[0].0, sq("a1"));
    assert_eq!(ps[0].1, Some(Piece::WhiteKing));
    assert_eq!(ps[63].1, None);
}

#[test]
fn squares_enumeration_is_ascending() {
    let ss = squares();
    assert_eq!(ss.len(), 64);
    for (k, s) in ss.iter().enumerate() {
        assert_eq!(s.index(), k);
    }
}

#[test]
fn side_to_move_alternates_with_ply() {
    let mut st = State::new();
    assert_eq!(st.side_to_move(), Color::White);
    st.set_ply(1);
    assert_eq!(st.side_to_move(), Color::Black);
    st.set_ply(2);
    assert_eq!(st.side_to_move(), Color::White);
}

#[test]
fn state_accessors_round_trip() {
    let mut st = State::new();
    st.set_halfmove_clock(17);
    assert_eq!(st.halfmove_clock(), 17);
    st.set_en_passant(Some(sq("e3")));
    assert_eq!(st.en_passant(), Some(sq("e3")));
    let rights = Castling { white_king: true, black_king: false, white_queen: true, black_queen: false };
    st.set_castling_rights(rights);
    assert_eq!(st.castling_rights(), rights);
}

#[test]
fn castling_parse_and_print() {
    let all = Castling::from_str("KQkq").unwrap();
    assert!(all.white_king && all.white_queen && all.black_king && all.black_queen);
    assert_eq!(all.as_string(), "KQkq");
    let none = Castling::from_str("-").unwrap();
    assert!(!none.white_king && !none.white_queen && !none.black_king && !none.black_queen);
    assert_eq!(none.as_string(), "-");
    let some = Castling::from_str("Kq").unwrap();
    assert!(some.white_king && !some.white_queen && !some.black_king && some.black_queen);
    assert!(matches!(
        Castling::from_str("Kx"),
        Err(chess_core::errors::ChessError::ParseError(_, _))
    ));
}

#[test]
fn from_fen_start_position() {
    let st = State::from_fen("rnbqkbnr/pppppppp/8/8/8/8/PPPPPPPP/RNBQKBNR w KQkq - 0 1").unwrap();
    assert_eq!(st.board.piece(sq("a1")), Some(Piece::WhiteRook));
    assert_eq!(st.board.piece(sq("d1")), Some(Piece::WhiteQueen));
    assert_eq!(st.board.piece(sq("e1")), Some(Piece::WhiteKing));
    assert_eq!(st.board.piece(sq("e2")), Some(Piece::WhitePawn));
    assert_eq!(st.board.piece(sq("e7")), Some(Piece::BlackPawn));
    assert_eq!(st.board.piece(sq("d8")), Some(Piece::BlackQueen));
    assert_eq!(st.board.piece(sq("e8")), Some(Piece::BlackKing));
    assert_eq!(st.board.piece(sq("e4")), None);
    assert!(st.castling.white_king && st.castling.black_queen);
    assert_eq!(st.en_passant, None);
    assert_eq!(st.halfmove_clock, 0);
    assert_eq!(st.ply, 1);
}

#[test]
fn from_fen_en_passant_square() {
    let st = State::from_fen("rnbqkbnr/pppppppp/8/8/4P3/8/PPPP1PPP/RNBQKBNR b KQkq e3 0 1")
        .unwrap();
    assert_eq!(st.en_passant, Some(sq("e3")));
    assert_eq!(st.board.piece(sq("e4")), Some(Piece::WhitePawn));
    assert_eq!(st.board.piece(sq("e2")), None);
}

#[test]
fn from_fen_rejects_malformed_input() {
    assert!(State::from_fen("").is_err());
    assert!(State::from_fen("rnbqkbnr/pppppppp/8/8/8/8/PPPPPPPP/RNBQKBNR").is_err());
    assert!(State::from_fen("xnbqkbnr/pppppppp/8/8/8/8/PPPPPPPP/RNBQKBNR w KQkq - 0 1").is_err());
    assert!(State::from_fen("9/8/8/8/8/8/8/8 w - - 0 1").is_err());
    assert!(State::from_fen("8/8/8/8/8/8/8/8 z - - 0 1").is_err());
    assert!(State::from_fen("8/8/8/8/8/8/8/8 w - - x 1").is_err());
    assert!(State::from_fen("8/8/8/8/8/8/8/8 w - - 0 99999").is_err());
}

#[test]
fn to_fen_renders_the_position() {
    let mut st = State::new();
    st.board.set_piece(sq("a1"), Some(Piece::WhiteRook));
    st.board.set_piece(sq("e8"), Some(Piece::BlackKing));
    st.castling = Castling { white_king: true, black_king: false, white_queen: false, black_queen: false };
    st.halfmove_clock = 12;
    st.ply = 34;
    assert_eq!(st.to_fen(), "4k3/8/8/8/8/8/8/R7 w K - 12 34");
}

#[test]
fn fen_round_trips_through_the_state() {
    // parse, print, parse again: the board and fields agree
    let text = "rnbqkbnr/pppppppp/8/8/8/8/PPPPPPPP/RNBQKBNR w KQkq - 0 1";
    let st = State::from_fen(text).unwrap();
    let printed = st.to_fen();
    let st2 = State::from_fen(&printed).unwrap();
    for i in 0..64 {
        let s = Square::from_index(i).unwrap();
        assert_eq!(st.board.piece(s), st2.board.piece(s));
    }
    assert_eq!(st.castling, st2.castling);
    assert_eq!(st.en_passant, st2.en_passant);
    assert_eq!(st.halfmove_clock, st2.halfmove_clock);
    assert_eq!(st.ply, st2.ply);
}

#[test]
fn map_empty_fen_filters_dash() {
    assert_eq!(State::map_empty_fen("-"), None);
    assert_eq!(State::map_empty_fen("e3"), Some("e3"));
}

#[test]
fn piece_letters_round_trip() {
    let pieces = [
        Piece::WhitePawn,
        Piece::BlackPawn,
        Piece::WhiteKnight,
        Piece::BlackKnight,
        Piece::WhiteBishop,
        Piece::BlackBishop,
        Piece::WhiteRook,
        Piece::BlackRook,
        Piece::WhiteQueen,
        Piece::BlackQueen,
        Piece::WhiteKing,
        Piece::BlackKing,
    ];
    for p in pieces {
        let s = p.as_str();
        let c = s.chars().next().unwrap();
        assert_eq!(Piece::from_char(c), Some(p));
    }
    assert_eq!(Piece::from_char('x'), None);
}

#[test]
fn coordinate_text_round_trip() {
    assert_eq!(File::from_char('a'), Some(File::A));
    assert_eq!(File::from_char('h'), Some(File::H));
    assert_eq!(File::from_char('i'), None);
    assert_eq!(Rank::from_char('1'), Some(Rank::Rank1));
    assert_eq!(Rank::from_char('9'), None);
    assert_eq!(File::D.to_char(), 'd');
    assert_eq!(Rank::Rank4.to_char(), '4');
    let d4 = Square::new(Rank::Rank4, File::D);
    assert_eq!(d4.index(), 27);
    assert_eq!(d4.rank(), Rank::Rank4);
    assert_eq!(d4.file(), File::D);
}

#[test]
fn square_translation_fails_at_edges() {
    assert_eq!(sq("h4").right(), None);
    assert_eq!(sq("a4").left(), None);
    assert_eq!(sq("d8").up(), None);
    assert_eq!(sq("d1").down(), None);
    assert_eq!(sq("d4").absolute(Direction::UpLeft), Some(sq("c5")));
    assert_eq!(sq("a1").absolute(Direction::DownLeft), None);
    // the wrapping variants reduce modulo the axis instead
    assert_eq!(sq("h4").wrapping_right(), Some(sq("a4")));
    assert_eq!(sq("d8").wrapping_up(), Some(sq("d1")));
    // black sees directions negated
    assert_eq!(sq("d4").relative(Direction::Up, Color::Black), Some(sq("d3")));
    assert_eq!(sq("d4").relative(Direction::Up, Color::White), Some(sq("d5")));
}

#[test]
fn out_of_range_indices_are_absent() {
    // coordinate-range errors return an absent value, never a wrapped
    // or aliased coordinate
    assert_eq!(Square::from_index(64), None);
    assert!(Square::from_index(63).is_some());
    assert_eq!(File::from_index(8), None);
    assert_eq!(Rank::from_index(8), None);
    assert_eq!(File::A.left(), None);
    assert_eq!(File::H.right(), None);
    assert_eq!(File::B.left_n(3), None);
    assert_eq!(File::G.right_n(2), None);
    assert_eq!(Rank::Rank8.up(), None);
    assert_eq!(Rank::Rank1.down(), None);
}

#[test]
fn wrapping_variants_reduce_modulo_axis() {
    assert_eq!(File::A.wrapping_left(), File::H);
    assert_eq!(File::H.wrapping_right(), File::A);
    assert_eq!(Rank::Rank8.wrapping_up(), Rank::Rank1);
    assert_eq!(Rank::Rank1.wrapping_down(), Rank::Rank8);
}

#[test]
fn direction_negation_is_involutive() {
    let dirs = [
        Direction::Up,
        Direction::Down,
        Direction::Left,
        Direction::Right,
        Direction::UpLeft,
        Direction::UpRight,
        Direction::DownLeft,
        Direction::DownRight,
    ];
    for d in dirs {
        assert_eq!(d.negate().negate(), d);
        assert_ne!(d.negate(), d);
    }
}
