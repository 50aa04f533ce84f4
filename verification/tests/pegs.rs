use peg_solitaire::pegs::PegMap;
use peg_solitaire::pegs::build_peg_map;
use peg_solitaire::pegs::jump_peg;
use peg_solitaire::pegs::popcount16;

#[test]
fn jump_peg_test_success() {
    let mut peg_map: PegMap = PegMap::new();

    peg_map.set(0, true);
    peg_map.set(1, true);
    peg_map.set(3, false);

    let jump_result = jump_peg(&peg_map, 0, 1, 3);

    let result_peg_number = jump_result.unwrap();

    let result_map = PegMap::from_number(result_peg_number);
    assert!(!result_map.occupied(0));
    assert!(!result_map.occupied(1));
    assert!(result_map.occupied(3));
}

#[test]
fn jump_peg_test_missing_jump_peg() {
    let mut peg_map: PegMap = PegMap::new();

    peg_map.set(0, true);
    peg_map.set(1, false);
    peg_map.set(3, false);

    let jump_result = jump_peg(&peg_map, 0, 1, 3);

    assert!(jump_result.is_none());
}

#[test]
fn jump_peg_test_full_destination() {
    let mut peg_map: PegMap = PegMap::new();

    peg_map.set(0, true);
    peg_map.set(1, true);
    peg_map.set(3, true);

    let jump_result = jump_peg(&peg_map, 0, 1, 3);
    assert!(jump_result.is_none());
}

#[test]
fn bit_vec_tests() {
    let mut bv = PegMap::new();

    bv.set(15, true);
    let number = bv.as_number();

    assert_eq!(1 << 15, number);
}

#[test]
fn jump_from_two_peg_board_leaves_only_destination() {
    // Board {0, 1}; the jump 0 over 1 into 3 succeeds and leaves only hole 3.
    let peg_map = build_peg_map(&vec![0, 1]);
    let jump_result = jump_peg(&peg_map, 0, 1, 3);
    assert_eq!(jump_result, Some(1 << 3));
}

#[test]
fn encode_round_trip() {
    let members = vec![2usize, 5, 9, 14];
    let peg_map = build_peg_map(&members);
    for p in 0..16 {
        assert_eq!(peg_map.occupied(p), members.contains(&p));
    }
}

#[test]
fn encode_duplicates_are_idempotent() {
    let once = build_peg_map(&vec![4usize, 7]);
    let twice = build_peg_map(&vec![4usize, 7, 4, 7, 7]);
    assert_eq!(once.as_number(), twice.as_number());
}

#[test]
fn singleton_bit_values() {
    for i in 0..16 {
        let pm = build_peg_map(&vec![i]);
        assert_eq!(pm.as_number(), 1usize << i);
    }
}

#[test]
fn jump_removes_exactly_one_peg() {
    // A jump from an n-peg board always yields an (n-1)-peg board.
    let before = build_peg_map(&vec![0usize, 1, 2, 4, 9]);
    let n_before = popcount16(0b1000010111u16);
    assert_eq!(n_before, 5);
    let after = jump_peg(&before, 0, 1, 3).unwrap();
    assert_eq!(popcount16(after as u16), n_before - 1);
    let after2 = jump_peg(&before, 9, 5, 2);
    assert!(after2.is_none()); // hole 5 is empty, jump not applicable
    let after3 = jump_peg(&before, 2, 4, 7).unwrap();
    assert_eq!(popcount16(after3 as u16), n_before - 1);
}
