use peg_solitaire::board::build_locations;
use peg_solitaire::board::build_rotation_maps;
use peg_solitaire::solver::count_wins;
use peg_solitaire::solver::solve;

#[test]
fn base_cases_are_wins() {
    let table = solve();
    assert_eq!(table[0], Some(true));
    for i in 0..16 {
        assert_eq!(table[1 << i], Some(true));
    }
}

#[test]
fn full_board_aggregate_regression() {
    let first = solve();
    let second = solve();
    let mut counts = Vec::new();
    for n in 1..16 {
        let c = count_wins(&first, n);
        assert_eq!(c, count_wins(&second, n));
        counts.push(c);
    }
    // Every one-peg board is already won.
    assert_eq!(counts[0], 15);
    // Every single-vacancy board is solvable down to one peg.
    assert_eq!(counts[13], 15);
    // The full board has no empty hole to jump into.
    assert_eq!(counts[14], 0);
}

#[test]
fn two_pegs_win_exactly_when_a_jump_connects_them() {
    let table = solve();
    // Board {0, 1} has the jump 0 over 1 into 3: a win.
    assert_eq!(table[0b11], Some(true));
    // Board {0, 4} admits no jump at all: a loss.
    assert_eq!(table[0b10001], Some(false));
}

#[test]
fn jump_table_is_reciprocal() {
    // If hole a jumps over b landing on c, then c jumps over b back to a.
    let locations = build_locations();
    for a in 0..15 {
        for &(b, c) in locations[a].jumps().iter() {
            let back = locations[c]
                .jumps()
                .iter()
                .any(|&(over, land)| over == b && land == a);
            assert!(back, "no reverse jump for {} over {} to {}", a, b, c);
        }
    }
}

#[test]
fn rotation_maps_are_permutations() {
    let rots = build_rotation_maps();
    for rot in rots.iter() {
        let mut seen = rot.clone();
        seen.sort();
        let expected: Vec<usize> = (0..15).collect();
        assert_eq!(seen, expected);
    }
}
