use chess_core::byteboard::byteboard::ByteBoard;
use chess_core::byteboard::bytesquare::ByteColor;
use chess_core::byteboard::bytesquare::ByteSquare;
use chess_core::byteboard::bytesquare::PieceType;

#[test]
fn bytesquare_fields_round_trip() {
    let s = ByteSquare::new(true, ByteColor::Black, PieceType::Knight);
    assert!(s.occupied());
    assert_eq!(s.color(), ByteColor::Black);
    assert_eq!(s.piece_type(), Some(PieceType::Knight));
    assert!(!s.king_or_rook_moved());
    assert!(!s.last_move());
    assert_eq!(ByteSquare::from_u8(s.to_u8()).to_u8(), s.to_u8());
}

#[test]
fn bytesquare_setters_leave_other_fields() {
    let mut s = ByteSquare::new(true, ByteColor::White, PieceType::Rook);
    s.set_king_or_rook_moved(true);
    assert!(s.king_or_rook_moved());
    assert!(s.occupied());
    assert_eq!(s.color(), ByteColor::White);
    assert_eq!(s.piece_type(), Some(PieceType::Rook));
    s.set_last_move(true);
    assert!(s.last_move());
    assert!(s.king_or_rook_moved());
    s.invert_color();
    assert_eq!(s.color(), ByteColor::Black);
    assert_eq!(s.piece_type(), Some(PieceType::Rook));
    s.set_occupied(false);
    assert!(!s.occupied());
    assert_eq!(s.piece_type(), Some(PieceType::Rook));
}

#[test]
fn bytesquare_empty_is_zero() {
    let s = ByteSquare::new_empty();
    assert!(s.is_empty());
    assert!(!s.occupied());
    assert_eq!(s.to_u8(), 0);
}

#[test]
fn invalid_piece_codes_yield_no_kind() {
    assert_eq!(ByteSquare::from_u8(0b1011_0000).piece_type(), None);
    assert_eq!(ByteSquare::from_u8(0b1011_1000).piece_type(), None);
}

#[test]
fn startpos_squares() {
    let b = ByteBoard::startpos();
    let a1 = b.squares[0];
    assert!(a1.occupied());
    assert_eq!(a1.color(), ByteColor::White);
    assert_eq!(a1.piece_type(), Some(PieceType::Rook));
    let d1 = b.squares[3];
    assert_eq!(d1.piece_type(), Some(PieceType::Queen));
    let e1 = b.squares[4];
    assert_eq!(e1.piece_type(), Some(PieceType::King));
    let e2 = b.squares[12];
    assert_eq!(e2.piece_type(), Some(PieceType::Pawn));
    assert_eq!(e2.color(), ByteColor::White);
    let e7 = b.squares[52];
    assert_eq!(e7.piece_type(), Some(PieceType::Pawn));
    assert_eq!(e7.color(), ByteColor::Black);
    let d8 = b.squares[59];
    assert_eq!(d8.piece_type(), Some(PieceType::Queen));
    assert_eq!(d8.color(), ByteColor::Black);
    for i in 16..48 {
        assert!(!b.squares[i].occupied());
    }
}

#[test]
fn octet_round_trip_startpos_and_empty() {
    let b = ByteBoard::startpos();
    let rt = ByteBoard::from_u64_octet(&b.to_u64_octet());
    assert_eq!(rt, b);
    let e = ByteBoard::new();
    let rt2 = ByteBoard::from_u64_octet(&e.to_u64_octet());
    assert_eq!(rt2, e);
}

#[test]
fn quad_round_trip_startpos_and_empty() {
    let b = ByteBoard::startpos();
    let rt = ByteBoard::from_u128_quad(&b.to_u128_quad());
    assert_eq!(rt, b);
    let e = ByteBoard::new();
    let rt2 = ByteBoard::from_u128_quad(&e.to_u128_quad());
    assert_eq!(rt2, e);
}

#[test]
fn coord_index_round_trip() {
    assert_eq!(ByteBoard::coord_to_index("a1"), 0);
    assert_eq!(ByteBoard::coord_to_index("h8"), 63);
    assert_eq!(ByteBoard::coord_to_index("d4"), 27);
    for i in 0..64 {
        let c = ByteBoard::index_to_coord(i);
        assert_eq!(ByteBoard::coord_to_index(&c), i);
    }
    assert_eq!(ByteBoard::index_to_coord(27), "d4");
}

#[test]
fn make_move_moves_piece_and_marks_destination() {
    let mut b = ByteBoard::startpos();
    b.make_move("g1", "f3");
    let g1 = b.squares[ByteBoard::coord_to_index("g1")];
    assert!(!g1.occupied());
    assert_eq!(g1.to_u8(), 0);
    let f3 = b.squares[ByteBoard::coord_to_index("f3")];
    assert!(f3.occupied());
    assert_eq!(f3.piece_type(), Some(PieceType::Knight));
    assert_eq!(f3.color(), ByteColor::White);
    assert!(f3.last_move());
    // only the destination carries the flag
    for i in 0..64 {
        if i != ByteBoard::coord_to_index("f3") {
            assert!(!b.squares[i].last_move());
        }
    }
}

#[test]
fn make_move_from_empty_or_onto_itself_changes_nothing() {
    let mut b = ByteBoard::startpos();
    let before = b.clone();
    b.make_move("d4", "d5");
    assert_eq!(b, before);
    b.make_move("e2", "e2");
    assert_eq!(b, before);
}

#[test]
fn get_turn_alternates() {
    let mut b = ByteBoard::startpos();
    assert_eq!(b.get_turn(), ByteColor::White);
    b.make_move("e2", "e4");
    assert_eq!(b.get_turn(), ByteColor::Black);
    b.make_move("e7", "e5");
    assert_eq!(b.get_turn(), ByteColor::White);
}

#[test]
fn invert_flips_ranks_and_colors() {
    // a lone white rook on a1 and a black pawn on c7
    let mut b = ByteBoard::new();
    b.squares[0] = ByteSquare::new(true, ByteColor::White, PieceType::Rook);
    b.squares[50] = ByteSquare::new(true, ByteColor::Black, PieceType::Pawn);
    let before = b.clone();
    b.invert();
    // the rook now stands on a8 as a black rook, the pawn on c2 as white
    let a8 = b.squares[56];
    assert!(a8.occupied());
    assert_eq!(a8.color(), ByteColor::Black);
    assert_eq!(a8.piece_type(), Some(PieceType::Rook));
    assert!(!b.squares[0].occupied());
    let c2 = b.squares[10];
    assert_eq!(c2.color(), ByteColor::White);
    assert_eq!(c2.piece_type(), Some(PieceType::Pawn));
    // empty squares stay the all-zero byte
    for i in 16..48 {
        assert_eq!(b.squares[i].to_u8(), 0);
    }
    // inverting twice restores the board
    b.invert();
    assert_eq!(b, before);
    // the symmetric start position is its own inversion
    let mut s = ByteBoard::startpos();
    s.invert();
    assert_eq!(s, ByteBoard::startpos());
}
