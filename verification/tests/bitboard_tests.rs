use chess_core::bitboard::BitBoard;
use chess_core::file::File;
use chess_core::rank::Rank;
use chess_core::square::Square;

fn sq(name: &str) -> Square {
    let idx = chess_core::byteboard::byteboard::ByteBoard::coord_to_index(name);
    Square::from_index(idx).unwrap()
}

fn bb_of(names: &[&str]) -> BitBoard {
    let mut b = BitBoard::new(0);
    for n in names {
        b = b.bitor(BitBoard::from_square(sq(n)));
    }
    b
}

#[test]
fn from_square_is_singleton() {
    assert_eq!(BitBoard::from_square(sq("a1")).0, 1);
    assert_eq!(BitBoard::from_square(sq("h8")).0, 1u64 << 63);
    assert_eq!(BitBoard::from_square(sq("d4")).0, 1u64 << 27);
}

#[test]
fn from_file_and_rank_masks() {
    assert_eq!(BitBoard::from_file(File::A).0, 0x0101010101010101);
    assert_eq!(BitBoard::from_file(File::H).0, 0x8080808080808080);
    assert_eq!(BitBoard::from_rank(Rank::Rank1).0, 0x00000000000000FF);
    assert_eq!(BitBoard::from_rank(Rank::Rank8).0, 0xFF00000000000000);
}

#[test]
fn shifts_clip_at_edges() {
    // a member on the h-file disappears when shifted right, and one on
    // the a-file when shifted left: no wrap to the opposite edge.
    assert_eq!(bb_of(&["h4"]).right().0, 0);
    assert_eq!(bb_of(&["a4"]).left().0, 0);
    assert_eq!(bb_of(&["a8"]).up().0, 0);
    assert_eq!(bb_of(&["a1"]).down().0, 0);
    assert_eq!(bb_of(&["d4"]).up().0, bb_of(&["d5"]).0);
    assert_eq!(bb_of(&["d4"]).down().0, bb_of(&["d3"]).0);
    assert_eq!(bb_of(&["d4"]).left().0, bb_of(&["c4"]).0);
    assert_eq!(bb_of(&["d4"]).right().0, bb_of(&["e4"]).0);
}

#[test]
fn set_algebra() {
    let a = bb_of(&["a1", "d4"]);
    let b = bb_of(&["d4", "h8"]);
    assert_eq!(a.bitor(b).0, bb_of(&["a1", "d4", "h8"]).0);
    assert_eq!(a.bitand(b).0, bb_of(&["d4"]).0);
    assert_eq!(a.bitxor(b).0, bb_of(&["a1", "h8"]).0);
    assert_eq!(a.complement().bitand(a).0, 0);
}

#[test]
fn swap_reverses_ranks() {
    assert_eq!(bb_of(&["a1"]).swap().0, bb_of(&["a8"]).0);
    assert_eq!(bb_of(&["d4", "e5"]).swap().0, bb_of(&["d5", "e4"]).0);
}

#[test]
fn to_square_lowest_member() {
    assert_eq!(BitBoard::new(0).to_square(), None);
    assert_eq!(bb_of(&["d4", "h8"]).to_square(), Some(sq("d4")));
}

#[test]
fn members_ascending_and_popcount() {
    let b = bb_of(&["h8", "a1", "d4"]);
    let ms = b.members();
    assert_eq!(ms.len(), 3);
    assert_eq!(b.popcount(), 3);
    assert_eq!(ms[0], sq("a1"));
    assert_eq!(ms[1], sq("d4"));
    assert_eq!(ms[2], sq("h8"));
    for w in ms.windows(2) {
        assert!(w[0].index() < w[1].index());
    }
}

#[test]
fn members_of_empty_set() {
    let ms = BitBoard::new(0).members();
    assert_eq!(ms.len(), 0);
    assert_eq!(BitBoard::new(0).popcount(), 0);
}

#[test]
fn members_of_full_set() {
    let ms = BitBoard::new(!0).members();
    assert_eq!(ms.len(), 64);
    for (k, s) in ms.iter().enumerate() {
        assert_eq!(s.index(), k);
    }
}

#[test]
fn contains_matches_members() {
    let b = bb_of(&["b2", "g7"]);
    assert!(b.contains(sq("b2")));
    assert!(b.contains(sq("g7")));
    assert!(!b.contains(sq("d4")));
}
