use chess_core::bitboard::BitBoard;
use chess_core::piece::Color;
use chess_core::bitboard_moves::bishop_attacks;
use chess_core::bitboard_moves::rook_attacks;
use chess_core::bitboard_moves::PextTable;
use chess_core::square::Square;

fn sq(name: &str) -> Square {
    let idx = chess_core::byteboard::byteboard::ByteBoard::coord_to_index(name);
    Square::from_index(idx).unwrap()
}

fn bb_of(names: &[&str]) -> BitBoard {
    let mut b = BitBoard::new(0);
    for n in names {
        b = b.bitor(BitBoard::from_square(sq(n)));
    }
    b
}

#[test]
fn knight_moves_center_and_corner() {
    // a knight in the middle of the board reaches all eight offsets, a
    // cornered one only two.
    let center = bb_of(&["d4"]).knight_moves();
    assert_eq!(center.popcount(), 8);
    assert_eq!(center.0, bb_of(&["b3", "b5", "c2", "c6", "e2", "e6", "f3", "f5"]).0);
    let corner = bb_of(&["a1"]).knight_moves();
    assert_eq!(corner.popcount(), 2);
    assert_eq!(corner.0, bb_of(&["b3", "c2"]).0);
}

#[test]
fn king_moves_center_and_corner() {
    let center = bb_of(&["d4"]).king_moves();
    assert_eq!(center.popcount(), 8);
    assert_eq!(center.0, bb_of(&["c3", "c4", "c5", "d3", "d5", "e3", "e4", "e5"]).0);
    let corner = bb_of(&["a1"]).king_moves();
    assert_eq!(corner.popcount(), 3);
    assert_eq!(corner.0, bb_of(&["a2", "b1", "b2"]).0);
}

#[test]
fn pawn_moves_and_attacks() {
    let p = bb_of(&["d2"]);
    assert_eq!(p.pawn_moves(Color::White).0, bb_of(&["d3"]).0);
    assert_eq!(p.pawn_moves(Color::Black).0, bb_of(&["d1"]).0);
    assert_eq!(p.pawn_pushes(Color::White).0, bb_of(&["d4"]).0);
    assert_eq!(p.pawn_attacks(Color::White).0, bb_of(&["c3", "e3"]).0);
    // edge pawns attack one square only
    assert_eq!(bb_of(&["a2"]).pawn_attacks(Color::White).0, bb_of(&["b3"]).0);
}

#[test]
fn rook_on_empty_board_attacks_file_and_rank() {
    // the full d-file and 4th rank, minus d4 itself: fourteen squares
    let att = rook_attacks(BitBoard::new(0), sq("d4"));
    assert_eq!(att.popcount(), 14);
    let expected = bb_of(
        &[
            "d1",
            "d2",
            "d3",
            "d5",
            "d6",
            "d7",
            "d8",
            "a4",
            "b4",
            "c4",
            "e4",
            "f4",
            "g4",
            "h4",
        ],
    );
    assert_eq!(att.0, expected.0);
}

#[test]
fn rook_blocker_is_capturable_but_stops_ray() {
    // a blocker on d6 removes d7 and d8 but stays in the attack set
    let att = rook_attacks(bb_of(&["d6"]), sq("d4"));
    assert!(att.contains(sq("d6")));
    assert!(!att.contains(sq("d7")));
    assert!(!att.contains(sq("d8")));
    assert!(att.contains(sq("d5")));
    assert_eq!(att.popcount(), 12);
}

#[test]
fn bishop_on_empty_board() {
    let att = bishop_attacks(BitBoard::new(0), sq("d4"));
    assert_eq!(att.popcount(), 13);
    assert!(att.contains(sq("a1")));
    assert!(att.contains(sq("h8")));
    assert!(att.contains(sq("a7")));
    assert!(att.contains(sq("g1")));
    assert!(!att.contains(sq("d5")));
}

#[test]
fn table_lookup_matches_raycast_for_relevant_subsets() {
    // exhaustively over every relevant occupancy of one origin square,
    // rook and bishop: the table lookup equals the direct ray-cast
    let table = PextTable::new();
    let origin = sq("d4");
    let rmask = table.rooks[origin.index()].mask.0;
    let mut s: u64 = 0;
    loop {
        assert_eq!(table.rook_moves(BitBoard::new(s), origin).0, rook_attacks(BitBoard::new(s), origin).0);
        s = s.wrapping_sub(rmask) & rmask;
        if s == 0 {
            break;
        }
    }
    let bmask = table.bishops[origin.index()].mask.0;
    let mut s2: u64 = 0;
    loop {
        assert_eq!(
            table.bishop_moves(BitBoard::new(s2), origin).0,
            bishop_attacks(BitBoard::new(s2), origin).0,
        );
        s2 = s2.wrapping_sub(bmask) & bmask;
        if s2 == 0 {
            break;
        }
    }
}

#[test]
fn table_lookup_matches_raycast_sampled_everywhere() {
    // for every origin square, a handful of full-board occupancy
    // patterns, edge squares included, agree with the direct ray-cast:
    // blockers outside the relevant mask change nothing
    let table = PextTable::new();
    let patterns: [u64; 4] = [
        0,
        0x0000_00FF_FF00_0000,
        0x5555_5555_5555_5555,
        0xFF81_8181_8181_81FF,
    ];
    for i in 0..64 {
        let origin = Square::from_index(i).unwrap();
        for p in patterns {
            assert_eq!(
                table.rook_moves(BitBoard::new(p), origin).0,
                rook_attacks(BitBoard::new(p), origin).0,
            );
            assert_eq!(
                table.bishop_moves(BitBoard::new(p), origin).0,
                bishop_attacks(BitBoard::new(p), origin).0,
            );
        }
    }
}

#[test]
fn queen_is_rook_and_bishop_union() {
    let table = PextTable::new();
    let occ = bb_of(&["d6", "f6", "b2"]);
    let q = table.queen_moves(occ, sq("d4"));
    let r = table.rook_moves(occ, sq("d4"));
    let b = table.bishop_moves(occ, sq("d4"));
    assert_eq!(q.0, r.0 | b.0);
}

#[test]
fn index_is_injective_within_a_region() {
    // every relevant occupancy of d4's rook region lands in its own slot
    let table = PextTable::new();
    let pbb = table.rooks[sq("d4").index()];
    let mask = pbb.mask.0;
    let slots = 1usize << mask.count_ones();
    let mut seen = vec![false; slots];
    let mut s: u64 = 0;
    loop {
        let idx = pbb.index(BitBoard::new(s));
        assert!(idx >= pbb.offset && idx < pbb.offset + slots);
        assert!(!seen[idx - pbb.offset]);
        seen[idx - pbb.offset] = true;
        s = s.wrapping_sub(mask) & mask;
        if s == 0 {
            break;
        }
    }
    assert!(seen.iter().all(|b| *b));
}

#[test]
fn table_has_one_slot_per_relevant_occupancy() {
    // rook regions total 102400 slots, bishop regions 5248: the flat
    // table holds exactly 107648 entries
    let table = PextTable::new();
    let rook_slots: usize = table.rooks.iter().map(|p| 1usize << p.mask.0.count_ones()).sum();
    let bishop_slots: usize = table.bishops.iter().map(|p| 1usize << p.mask.0.count_ones()).sum();
    assert_eq!(rook_slots, 102400);
    assert_eq!(bishop_slots, 5248);
    assert_eq!(table.table.len(), 107648);
}
