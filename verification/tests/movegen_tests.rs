use chess_core::bitboard_moves::PextTable;
use chess_core::byteboard::byteboard::ByteBoard;
use chess_core::byteboard::bytesquare::ByteColor;
use chess_core::byteboard::bytesquare::ByteSquare;
use chess_core::byteboard::bytesquare::PieceType;
use chess_core::byteboard::movegen::Move;
use chess_core::square::Square;

fn sq(name: &str) -> Square {
    let idx = ByteBoard::coord_to_index(name);
    Square::from_index(idx).unwrap()
}

fn put(b: &mut ByteBoard, name: &str, color: ByteColor, kind: PieceType) {
    let idx = ByteBoard::coord_to_index(name);
    b.squares[idx] = ByteSquare::new(true, color, kind);
}

fn moves_from(ms: &[Move], from: Square) -> Vec<Move> {
    ms.iter().copied().filter(|m| m.from == from).collect()
}

#[test]
fn startpos_knight_moves_from_b1() {
    // white to move in the start position: the b1 knight goes to a3 or
    // c3 (d2 is occupied by an own pawn, and nothing wraps off-board)
    let table = PextTable::new();
    let b = ByteBoard::startpos();
    let all = b.moves(&table);
    let knight = moves_from(&all, sq("b1"));
    assert_eq!(knight.len(), 2);
    assert!(knight.iter().any(|m| m.to == sq("a3") && !m.capture && m.promotion.is_none()));
    assert!(knight.iter().any(|m| m.to == sq("c3") && !m.capture && m.promotion.is_none()));
    // the raw leaper mask, before occupancy filtering, reaches exactly
    // a3, c3 and d2
    let raw = chess_core::bitboard::BitBoard::from_square(sq("b1")).knight_moves();
    assert_eq!(raw.popcount(), 3);
    assert!(raw.contains(sq("a3")));
    assert!(raw.contains(sq("c3")));
    assert!(raw.contains(sq("d2")));
}

#[test]
fn startpos_has_forty_pseudolegal_moves() {
    // both sides together: sixteen pawn moves and four knight moves each
    let table = PextTable::new();
    let b = ByteBoard::startpos();
    let all = b.moves(&table);
    assert_eq!(all.len(), 40);
    assert!(all.iter().all(|m| !m.capture));
}

#[test]
fn rook_moves_stop_at_own_blocker() {
    // rook on d4 with an own-side pawn on b4: moves must exclude b4 and
    // everything beyond it on that ray, but keep c4
    let table = PextTable::new();
    let mut b = ByteBoard::new();
    put(&mut b, "d4", ByteColor::White, PieceType::Rook);
    put(&mut b, "b4", ByteColor::White, PieceType::Pawn);
    let all = b.moves(&table);
    let rook = moves_from(&all, sq("d4"));
    assert!(rook.iter().any(|m| m.to == sq("c4")));
    assert!(!rook.iter().any(|m| m.to == sq("b4")));
    assert!(!rook.iter().any(|m| m.to == sq("a4")));
    // the open rays are unaffected: 7 on the d-file, 4 to the right,
    // 1 to the left
    assert_eq!(rook.len(), 12);
}

#[test]
fn rook_captures_enemy_blocker() {
    let table = PextTable::new();
    let mut b = ByteBoard::new();
    put(&mut b, "d4", ByteColor::White, PieceType::Rook);
    put(&mut b, "d6", ByteColor::Black, PieceType::Pawn);
    let all = b.moves(&table);
    let rook = moves_from(&all, sq("d4"));
    assert!(rook.iter().any(|m| m.to == sq("d6") && m.capture));
    assert!(!rook.iter().any(|m| m.to == sq("d7")));
    assert!(!rook.iter().any(|m| m.to == sq("d8")));
    assert!(rook.iter().any(|m| m.to == sq("d5") && !m.capture));
}

#[test]
fn pawn_pushes_and_captures() {
    let table = PextTable::new();
    let mut b = ByteBoard::new();
    put(&mut b, "d2", ByteColor::White, PieceType::Pawn);
    put(&mut b, "e3", ByteColor::Black, PieceType::Knight);
    let all = b.moves(&table);
    let pawn = moves_from(&all, sq("d2"));
    assert!(pawn.iter().any(|m| m.to == sq("d3") && !m.capture));
    assert!(pawn.iter().any(|m| m.to == sq("d4") && !m.capture));
    assert!(pawn.iter().any(|m| m.to == sq("e3") && m.capture));
    assert_eq!(pawn.len(), 3);
}

#[test]
fn pawn_double_push_blocked_by_piece_in_between() {
    let table = PextTable::new();
    let mut b = ByteBoard::new();
    put(&mut b, "d2", ByteColor::White, PieceType::Pawn);
    put(&mut b, "d3", ByteColor::Black, PieceType::Knight);
    let all = b.moves(&table);
    let pawn = moves_from(&all, sq("d2"));
    assert!(pawn.is_empty());
}

#[test]
fn black_pawn_moves_downward() {
    let table = PextTable::new();
    let mut b = ByteBoard::new();
    put(&mut b, "e7", ByteColor::Black, PieceType::Pawn);
    let all = b.moves(&table);
    let pawn = moves_from(&all, sq("e7"));
    assert_eq!(pawn.len(), 2);
    assert!(pawn.iter().any(|m| m.to == sq("e6")));
    assert!(pawn.iter().any(|m| m.to == sq("e5")));
}

#[test]
fn pawn_promotion_yields_four_moves() {
    let table = PextTable::new();
    let mut b = ByteBoard::new();
    put(&mut b, "a7", ByteColor::White, PieceType::Pawn);
    let all = b.moves(&table);
    let pawn = moves_from(&all, sq("a7"));
    assert_eq!(pawn.len(), 4);
    for m in &pawn {
        assert_eq!(m.to, sq("a8"));
        assert!(!m.capture);
    }
    let kinds: Vec<PieceType> = pawn.iter().map(|m| m.promotion.unwrap()).collect();
    assert!(kinds.contains(&PieceType::Queen));
    assert!(kinds.contains(&PieceType::Rook));
    assert!(kinds.contains(&PieceType::Bishop));
    assert!(kinds.contains(&PieceType::Knight));
}

#[test]
fn king_moves_exclude_own_pieces() {
    let table = PextTable::new();
    let mut b = ByteBoard::new();
    put(&mut b, "e1", ByteColor::White, PieceType::King);
    put(&mut b, "e2", ByteColor::White, PieceType::Pawn);
    put(&mut b, "d2", ByteColor::Black, PieceType::Pawn);
    let all = b.moves(&table);
    let king = moves_from(&all, sq("e1"));
    assert!(!king.iter().any(|m| m.to == sq("e2")));
    assert!(king.iter().any(|m| m.to == sq("d2") && m.capture));
    assert!(king.iter().any(|m| m.to == sq("d1") && !m.capture));
    assert!(king.iter().any(|m| m.to == sq("f1") && !m.capture));
    assert!(king.iter().any(|m| m.to == sq("f2") && !m.capture));
    assert_eq!(king.len(), 4);
}

#[test]
fn occupancy_of_startpos() {
    let b = ByteBoard::startpos();
    let occ = b.occupancy();
    assert_eq!(occ.0, 0xFFFF_0000_0000_FFFF);
}
