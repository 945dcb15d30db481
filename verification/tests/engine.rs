use elementary_cellular_automaton::Line;
use elementary_cellular_automaton::row::next_n_digits;

#[test]
fn advance_is_deterministic() {
    let row = Line::from_string(String::from("01101001"));
    let a = row.next(110);
    let b = row.next(110);
    assert_eq!(a.0, b.0);
}

#[test]
fn advance_preserves_length() {
    for len in [1usize, 2, 3, 7, 40] {
        let row = Line::center_enabled(len);
        for rule in [0u8, 30, 90, 110, 255] {
            assert_eq!(row.next(rule).len(), len);
        }
    }
    let empty = Line::from_string(String::new());
    assert!(empty.is_empty());
    assert_eq!(empty.next(30).len(), 0);
}

#[test]
fn single_cell_boundary_is_inactive() {
    // One active cell alone in the row has neighborhood code 2.
    let row = Line::from_string(String::from("1"));
    assert_eq!(row.next(0).0, vec![false]);
    // Rule 4 (00000100) has bit 2 set, so the cell stays active.
    assert_eq!(row.next(4).0, vec![true]);
}

#[test]
fn rule_30_small_case() {
    let row = Line::from_string(String::from("010"));
    assert_eq!(row.next(30).0, vec![true, true, true]);
}

#[test]
fn rule_30_three_steps_flat() {
    let seed: Vec<u8> = vec![0, 1, 0];
    // [0,1,0] -> [1,1,1] (codes 1,2,4) -> [1,0,0] (codes 3,7,6)
    //         -> [1,1,0] (codes 2,4,0), flattened in generation order.
    let flat = next_n_digits(&seed, 30, 3);
    assert_eq!(flat, vec![1, 1, 1, 1, 0, 0, 1, 1, 0]);
}

#[test]
fn rule_30_three_steps_matches_single_steps() {
    let seed = Line::from_string(String::from("010"));
    let generations = seed.next_n(30, 3);
    assert_eq!(generations.len(), 3);
    let mut current = seed;
    for generation in &generations {
        current = current.next(30);
        assert_eq!(generation.0, current.0);
    }
}

#[test]
fn centered_seed_of_seven() {
    let row = Line::center_enabled(7);
    assert_eq!(
        row.0,
        vec![false, false, false, true, false, false, false]
    );
}

#[test]
fn centered_seed_of_one() {
    let row = Line::center_enabled(1);
    assert_eq!(row.0, vec![true]);
    assert_eq!(row.len(), 1);
    assert!(!row.is_empty());
}

#[test]
fn pattern_parsing_is_lenient() {
    let row = Line::from_string(String::from("10x01"));
    assert_eq!(row.0, vec![true, false, false, false, true]);
}

#[test]
fn advancing_is_not_idempotent_in_general() {
    let row = Line::from_string(String::from("010"));
    let twice = row.next(30).next(30);
    assert_ne!(twice.0, row.0);
}

#[test]
fn rule_zero_collapses_and_stays() {
    let row = Line::from_string(String::from("1011101"));
    let collapsed = row.next(0);
    assert_eq!(collapsed.0, vec![false; 7]);
    assert_eq!(collapsed.next(0).0, vec![false; 7]);
}

#[test]
fn digits_round_trip() {
    let digits: Vec<u8> = vec![1, 0, 0, 1, 1];
    let row = Line::from_digits(&digits);
    assert_eq!(row.0, vec![true, false, false, true, true]);
    assert_eq!(row.to_digits(), digits);
}

#[test]
fn from_digits_treats_only_one_as_active() {
    // Any byte other than 1 decodes to an inactive cell.
    let digits: Vec<u8> = vec![2, 1, 0, 255];
    let row = Line::from_digits(&digits);
    assert_eq!(row.0, vec![false, true, false, false]);
}

#[test]
fn batch_of_zero_steps_is_empty() {
    let seed: Vec<u8> = vec![0, 1, 0];
    assert_eq!(next_n_digits(&seed, 30, 0), Vec::<u8>::new());
    let row = Line::from_digits(&seed);
    assert!(row.next_n(30, 0).is_empty());
}

#[test]
fn rule_90_sierpinski_start() {
    // Rule 90 (01011010): each cell becomes the xor of its neighbors.
    let row = Line::center_enabled(5);
    let next = row.next(90);
    assert_eq!(next.0, vec![false, true, false, true, false]);
}
