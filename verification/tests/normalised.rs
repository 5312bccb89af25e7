use rust_force::distance::Separation;
use rust_force::model::{Building, ClusterPosition, Position, Rectangle};
use rust_force::normalized::{
    best_normalized_separation, calculate_normalized_distance_between_two_clusters,
    min_normalized_distance_between_clusters, search_row, NormalizedSeparation, SearchError,
};
use rust_force::offsets::{initialize_building_offset_rules, offset_key, OffsetRuleTable, ZeroDivisor};
use rust_force::transform::{Placement, PlacementError};

fn building(id: u128, x: i32, y: i32) -> Building {
    Building::with_id(id, Rectangle::new(2_000, 4_000), Position::new(x, y, 0))
}

/// The table with a rule for each of the given pairs.
fn table(rules: &[(&Building, &Building, u32)]) -> OffsetRuleTable {
    let entries: Vec<(String, u32)> =
        rules.iter().map(|(a, b, divisor)| (offset_key(a, b), *divisor)).collect();
    initialize_building_offset_rules(&entries).unwrap()
}

/// The quotient in plain numbers: the gap in metres over the divisor.
fn quotient(n: NormalizedSeparation) -> (f64, f64) {
    let offset = n.offset as f64 / 1000.0;
    match n.separation {
        Separation::Overlapping => (-1.0 / offset, offset),
        Separation::Apart { twice_gap_squared } => {
            ((twice_gap_squared as f64).sqrt() / 2.0 / 1000.0 / offset, offset)
        }
        Separation::Unbounded => (f64::INFINITY, offset),
    }
}

fn gap(twice_gap_squared: u128, offset: u32) -> NormalizedSeparation {
    NormalizedSeparation { separation: Separation::Apart { twice_gap_squared }, offset }
}

const HERE: ClusterPosition = ClusterPosition { x: 0, y: 0 };

#[test]
fn eight_metres_over_two() {
    let x = building(0xa1, 0, 0);
    let y = building(0xb2, 12_000, 0);
    let rules = table(&[(&x, &y, 2_000)]);
    let found =
        calculate_normalized_distance_between_two_clusters(vec![x], vec![y], HERE, HERE, &rules)
            .unwrap();
    assert_eq!(found, gap(256_000_000, 2_000));
    assert_eq!(quotient(found), (4.0, 2.0));
}

#[test]
fn the_least_quotient_need_not_be_the_least_gap() {
    let a = building(1, 0, 0);
    let near = building(2, 8_000, 0);
    let far = building(3, 0, 12_000);
    // 4 m over 1 against 10 m over 5.
    let rules = table(&[(&a, &near, 1_000), (&a, &far, 5_000)]);
    let found = calculate_normalized_distance_between_two_clusters(
        vec![a],
        vec![near, far],
        HERE,
        HERE,
        &rules,
    )
    .unwrap();
    assert_eq!(found, gap(400_000_000, 5_000));
    assert_eq!(quotient(found), (2.0, 5.0));
}

#[test]
fn of_equal_quotients_the_first_pair_is_kept() {
    let a = building(1, 0, 0);
    let near = building(2, 8_000, 0);
    let far = building(3, 12_000, 0);
    // 4 m over 1 and 8 m over 2 are the same quotient.
    let rules = table(&[(&a, &near, 1_000), (&a, &far, 2_000)]);
    let found = best_normalized_separation(&vec![a], &vec![near, far], &rules).unwrap();
    assert_eq!(found, gap(64_000_000, 1_000));
    let found = best_normalized_separation(&vec![a], &vec![far, near], &rules).unwrap();
    assert_eq!(found, gap(256_000_000, 2_000));
}

#[test]
fn the_key_is_read_first_building_first() {
    let x = building(0xa1, 0, 0);
    let y = building(0xb2, 12_000, 0);
    let rules = table(&[(&x, &y, 2_000)]);
    assert_eq!(
        calculate_normalized_distance_between_two_clusters(vec![y], vec![x], HERE, HERE, &rules),
        Err(SearchError::MissingOffsetRule)
    );
}

#[test]
fn one_missing_rule_fails_the_search() {
    let a = building(1, 0, 0);
    let b = building(2, 50_000, 0);
    let c = building(3, 8_000, 0);
    let d = building(4, 90_000, 0);
    let rules = table(&[(&a, &c, 1_000), (&a, &d, 1_000), (&b, &c, 1_000)]);
    assert_eq!(
        calculate_normalized_distance_between_two_clusters(
            vec![a, b],
            vec![c, d],
            HERE,
            HERE,
            &rules
        ),
        Err(SearchError::MissingOffsetRule)
    );
    assert_eq!(best_normalized_separation(&vec![a, b], &vec![c, d], &rules), None);
    assert_eq!(search_row(gap(1, 1), &b, &vec![c, d], &rules), None);
    assert!(search_row(gap(1, 1), &b, &vec![c], &rules).is_some());
}

#[test]
fn no_pair_no_divisor() {
    let a = building(1, 0, 0);
    let rules = OffsetRuleTable::new();
    let none = NormalizedSeparation { separation: Separation::Unbounded, offset: 0 };
    assert_eq!(
        calculate_normalized_distance_between_two_clusters(vec![a], Vec::new(), HERE, HERE, &rules),
        Ok(none)
    );
    assert_eq!(
        calculate_normalized_distance_between_two_clusters(Vec::new(), vec![a], HERE, HERE, &rules),
        Ok(none)
    );
    assert_eq!(quotient(none).0, f64::INFINITY);
}

#[test]
fn a_building_out_of_range_is_told_before_a_missing_rule() {
    let a = building(1, i32::MAX, 0);
    let b = building(2, 0, 0);
    let rules = OffsetRuleTable::new();
    assert_eq!(
        calculate_normalized_distance_between_two_clusters(
            vec![a],
            vec![b],
            ClusterPosition::new(1, 0),
            HERE,
            &rules
        ),
        Err(SearchError::Placement(PlacementError::OutOfRange))
    );
    assert_eq!(
        min_normalized_distance_between_clusters(
            &vec![b],
            &vec![a],
            Placement::Shift(HERE),
            Placement::TurnThenShift(Position::new(0, 0, 5)),
            &rules
        ),
        Err(SearchError::MissingOffsetRule)
    );
    assert_eq!(
        min_normalized_distance_between_clusters(
            &vec![b],
            &vec![a],
            Placement::Shift(HERE),
            Placement::TurnThenShift(Position::new(0, 0, 50)),
            &rules
        ),
        Err(SearchError::Placement(PlacementError::UnsupportedAngle))
    );
}

#[test]
fn an_overlap_is_minus_one_over_its_divisor() {
    let a = building(1, 0, 0);
    let on_top = building(2, 1_000, 0);
    let also_on_top = building(3, 0, 500);
    let apart = building(4, 4_000, 0);
    let rules = table(&[(&a, &on_top, 4_000), (&a, &also_on_top, 2_000), (&a, &apart, 1_000)]);
    let found = calculate_normalized_distance_between_two_clusters(
        vec![a],
        vec![apart, on_top, also_on_top],
        HERE,
        HERE,
        &rules,
    )
    .unwrap();
    // Minus one over 2 lies below minus one over 4, and both below nothing.
    assert_eq!(found, NormalizedSeparation { separation: Separation::Overlapping, offset: 2_000 });
    assert_eq!(quotient(found), (-0.5, 2.0));
}

#[test]
fn quotients_in_order() {
    let overlap = |offset: u32| NormalizedSeparation { separation: Separation::Overlapping, offset };
    let none = NormalizedSeparation { separation: Separation::Unbounded, offset: 0 };
    // 3 / 2 against 5 / 3, as squares of doubles.
    assert!(gap(36, 2).is_less_than(&gap(100, 3)));
    assert!(!gap(100, 3).is_less_than(&gap(36, 2)));
    // 2 / 1 and 4 / 2 are the same.
    assert!(!gap(16, 1).is_less_than(&gap(64, 2)));
    assert!(!gap(64, 2).is_less_than(&gap(16, 1)));
    assert!(!gap(16, 1).is_less_than(&gap(16, 1)));
    assert!(gap(0, 7).is_less_than(&gap(1, 4_000_000_000)));
    assert!(overlap(5).is_less_than(&gap(0, 1)));
    assert!(!gap(0, 1).is_less_than(&overlap(5)));
    assert!(overlap(2).is_less_than(&overlap(3)));
    assert!(!overlap(3).is_less_than(&overlap(2)));
    assert!(!overlap(3).is_less_than(&overlap(3)));
    assert!(gap(u128::MAX, 1).is_less_than(&none));
    assert!(overlap(1).is_less_than(&none));
    assert!(!none.is_less_than(&gap(u128::MAX, 1)));
    assert!(!none.is_less_than(&overlap(1)));
    assert!(!none.is_less_than(&none));
}

#[test]
fn quotients_too_wide_for_one_word() {
    let big: u128 = u128::MAX;
    let top: u32 = u32::MAX;
    // Equal cross products beyond 128 bits.
    assert!(!gap(big, top).is_less_than(&gap(big, top)));
    // One less on the left, with everything else at its widest.
    assert!(gap(big - 1, top).is_less_than(&gap(big, top)));
    assert!(!gap(big, top).is_less_than(&gap(big - 1, top)));
    // The divisor decides where the gaps agree.
    assert!(gap(big, top).is_less_than(&gap(big, top - 1)));
    assert!(!gap(big, top - 1).is_less_than(&gap(big, top)));
    // High parts equal, low parts decide: 2^64 * 3^2 against (2^64 + 1) * 3^2.
    let word: u128 = 1 << 64;
    assert!(gap(word, 3).is_less_than(&gap(word + 1, 3)));
    assert!(!gap(word + 1, 3).is_less_than(&gap(word, 3)));
    // (2^65) / 2^2 equals (2^63) / 1.
    assert!(!gap(1 << 65, 2).is_less_than(&gap(1 << 63, 1)));
    assert!(!gap(1 << 63, 1).is_less_than(&gap(1 << 65, 2)));
    assert!(gap((1 << 65) - 1, 2).is_less_than(&gap(1 << 63, 1)));
}

#[test]
fn a_table_from_its_entries() {
    let entries = vec![
        ("X_Y".to_string(), 2_000u32),
        ("Y_X".to_string(), 3_000),
        ("X_Y".to_string(), 2_500),
    ];
    let rules = initialize_building_offset_rules(&entries).unwrap();
    assert_eq!(rules.get("X_Y"), Some(2_500));
    assert_eq!(rules.get("Y_X"), Some(3_000));
    assert_eq!(rules.get("X_X"), None);
    assert_eq!(rules.get(""), None);
    assert_eq!(OffsetRuleTable::new().get("X_Y"), None);
}

#[test]
fn a_divisor_of_zero_is_refused() {
    let entries = vec![("X_Y".to_string(), 2_000u32), ("Y_X".to_string(), 0)];
    assert!(matches!(initialize_building_offset_rules(&entries), Err(ZeroDivisor)));
}

#[test]
fn the_divisor_of_a_pair() {
    let x = building(0xa1, 0, 0);
    let y = building(0xb2, 12_000, 0);
    let rules = table(&[(&x, &y, 2_000)]);
    assert_eq!(rules.divisor_for(&x, &y), Some(2_000));
    assert_eq!(rules.divisor_for(&y, &x), None);
    assert_eq!(rules.get("000000a1-0000-0000-0000-000000000000_000000b2"), None);
    assert_eq!(
        rules.get("00000000-0000-0000-0000-0000000000a1_00000000-0000-0000-0000-0000000000b2"),
        Some(2_000)
    );
}

#[test]
fn one_divisor_for_all_finds_the_nearest_pair() {
    let first = vec![building(1, 0, 0), building(2, 0, 30_000)];
    let second = vec![building(3, 40_000, 0), building(4, 9_000, 30_000), building(5, 0, 90_000)];
    let mut rules = Vec::new();
    for a in &first {
        for b in &second {
            rules.push((a, b, 3_000u32));
        }
    }
    let rules = table(&rules);
    let found = best_normalized_separation(&first, &second, &rules).unwrap();
    let plain = rust_force::search::least_separation(&first, &second);
    assert_eq!(found, NormalizedSeparation { separation: plain, offset: 3_000 });
    assert_eq!(plain, Separation::Apart { twice_gap_squared: 100_000_000 });
}

#[test]
fn a_table_at_hand_says_its_divisors_are_positive() {
    let rules = initialize_building_offset_rules(&vec![("X_Y".to_string(), 1u32)]).unwrap();
    rules.divisors_are_known_positive();
    assert_eq!(rules.get("X_Y"), Some(1));
}
