use rust_force::distance::{
    calculate_distance_between_two_buildings, eval_half_total_width_and_half_total_length,
    Separation,
};
use rust_force::model::{Building, Position, Rectangle};

fn building(id: u128, width_m: i32, length_m: i32, x: i32, y: i32, angle_deg: i64) -> Building {
    Building::with_id(id, Rectangle::new(width_m, length_m), Position::new(x, y, angle_deg))
}

/// The gap in metres that a separation stands for.
fn metres(s: Separation) -> f64 {
    match s {
        Separation::Overlapping => -1.0,
        Separation::Apart { twice_gap_squared } => (twice_gap_squared as f64).sqrt() / 2.0 / 1000.0,
        Separation::Unbounded => f64::INFINITY,
    }
}

#[test]
fn side_by_side_along_x_leaves_the_free_space() {
    let a = building(1, 2_000, 4_000, 0, 0, 0);
    let b = building(2, 2_000, 4_000, 10_000, 0, 0);
    let d = calculate_distance_between_two_buildings(a, b);
    assert_eq!(d, Separation::Apart { twice_gap_squared: 144_000_000 });
    assert_eq!(metres(d), 6.0);
}

#[test]
fn same_place_overlaps() {
    let a = building(1, 2_000, 4_000, 0, 0, 0);
    let b = building(2, 2_000, 4_000, 0, 0, 0);
    let d = calculate_distance_between_two_buildings(a, b);
    assert_eq!(d, Separation::Overlapping);
    assert_eq!(metres(d), -1.0);
}

#[test]
fn one_above_the_other_leaves_the_free_space_along_y() {
    let a = building(1, 2_000, 4_000, 0, 0, 0);
    let b = building(2, 2_000, 4_000, 1_000, 5_000, 0);
    // The shadows on x overlap; along y the centres are 5 m apart and the
    // half widths take 2 m of that.
    let d = calculate_distance_between_two_buildings(a, b);
    assert_eq!(d, Separation::Apart { twice_gap_squared: 36_000_000 });
    assert_eq!(metres(d), 3.0);
}

#[test]
fn corner_to_corner_is_the_length_of_both_excesses() {
    let a = building(1, 2_000, 4_000, 0, 0, 0);
    let b = building(2, 2_000, 4_000, 7_000, 6_000, 0);
    // Excess along x: 7 - 4 = 3 m; along y: 6 - 2 = 4 m; the gap is 5 m.
    let d = calculate_distance_between_two_buildings(a, b);
    assert_eq!(d, Separation::Apart { twice_gap_squared: 100_000_000 });
    assert_eq!(metres(d), 5.0);
}

#[test]
fn touching_edges_are_apart_by_nothing() {
    let a = building(1, 2_000, 4_000, 0, 0, 0);
    let b = building(2, 2_000, 4_000, 4_000, 0, 0);
    assert_eq!(
        calculate_distance_between_two_buildings(a, b),
        Separation::Apart { twice_gap_squared: 0 }
    );
}

#[test]
fn odd_extents_stay_exact() {
    let a = building(1, 1, 1, 0, 0, 0);
    let b = building(2, 1, 2, 2, 0, 0);
    // Twice the gap along x is 2 * 2 - (1 + 2) = 1: half a thousandth.
    assert_eq!(
        calculate_distance_between_two_buildings(a, b),
        Separation::Apart { twice_gap_squared: 1 }
    );
}

#[test]
fn a_quarter_turn_swaps_the_extents() {
    let a = building(1, 2_000, 4_000, 0, 0, 90_000_000);
    let b = building(2, 2_000, 4_000, 10_000, 0, 0);
    assert_eq!(eval_half_total_width_and_half_total_length(a, b), (6_000, 6_000));
    // Along x the first now takes 1 m and the second 2 m of the 10 m.
    assert_eq!(
        calculate_distance_between_two_buildings(a, b),
        Separation::Apart { twice_gap_squared: 196_000_000 }
    );
}

#[test]
fn summed_extents_without_a_turn() {
    let a = building(1, 2_000, 4_000, 0, 0, 0);
    let b = building(2, 3_000, 5_000, 0, 0, 180_000_000);
    assert_eq!(eval_half_total_width_and_half_total_length(a, b), (5_000, 9_000));
}

#[test]
fn three_quarter_turn_swaps_and_tolerance_is_strict() {
    let b = building(2, 0, 0, 0, 0, 0);
    let turned = |angle: i64| {
        eval_half_total_width_and_half_total_length(building(1, 2_000, 4_000, 0, 0, angle), b)
            == (4_000, 2_000)
    };
    assert!(turned(270_000_000));
    assert!(turned(450_000_000));
    assert!(turned(90_000_009));
    assert!(turned(89_999_991));
    assert!(!turned(90_000_010));
    assert!(!turned(89_999_990));
    assert!(!turned(0));
    assert!(!turned(180_000_000));
}

#[test]
fn a_quarter_turn_below_nothing_swaps_too() {
    let b = building(2, 2_000, 4_000, 0, 0, 0);
    for angle in [-90_000_000i64, -270_000_000, -450_000_000, -89_999_991, -90_000_009] {
        let a = building(1, 2_000, 4_000, 0, 0, angle);
        // Halves: width 2 + 1 = 3, length 1 + 2 = 3.
        assert_eq!(eval_half_total_width_and_half_total_length(a, b), (6_000, 6_000));
    }
    for angle in [-180_000_000i64, -360_000_000, -89_999_990, -90_000_010, -1] {
        let a = building(1, 2_000, 4_000, 0, 0, angle);
        assert_eq!(eval_half_total_width_and_half_total_length(a, b), (4_000, 8_000));
    }
}

#[test]
fn the_gap_to_a_building_at_minus_ninety() {
    let a = building(1, 2_000, 4_000, 0, 0, -90_000_000);
    // Centres 10 m apart along x: the first takes 1 m of that, the second 2 m.
    let far = building(2, 2_000, 4_000, 10_000, 0, 0);
    let d = calculate_distance_between_two_buildings(a, far);
    assert_eq!(d, Separation::Apart { twice_gap_squared: 196_000_000 });
    assert_eq!(metres(d), 7.0);
    // Centres 3.5 m apart: half a metre is left.
    let near = building(3, 2_000, 4_000, 3_500, 0, 0);
    let d = calculate_distance_between_two_buildings(a, near);
    assert_eq!(d, Separation::Apart { twice_gap_squared: 1_000_000 });
    assert_eq!(metres(d), 0.5);
}

#[test]
fn an_extent_below_nothing_is_taken_as_it_is() {
    let r = Rectangle::new(-1, 0);
    assert_eq!((r.width_m(), r.length_m()), (-1, 0));
    let a = building(1, -1_000, -2_000, 0, 0, 0);
    let b = building(2, 2_000, 4_000, 10_000, 0, 0);
    assert_eq!(eval_half_total_width_and_half_total_length(a, b), (1_000, 2_000));
    // Along x: 10 m less half of the summed lengths, 1 m.
    assert_eq!(
        calculate_distance_between_two_buildings(a, b),
        Separation::Apart { twice_gap_squared: 324_000_000 }
    );
    // Summed extents below nothing leave a gap even at the same place.
    let c = building(3, -1_000, -2_000, 0, 0, 0);
    assert_eq!(
        calculate_distance_between_two_buildings(a, c),
        Separation::Apart { twice_gap_squared: 20_000_000 }
    );
}

#[test]
fn separation_is_symmetric() {
    let a = building(1, 2_000, 4_000, -3_000, 8_000, 90_000_000);
    let b = building(2, 1_500, 700, 9_000, -2_000, 0);
    assert_eq!(
        calculate_distance_between_two_buildings(a, b),
        calculate_distance_between_two_buildings(b, a)
    );
    let c = building(3, 2_000, 4_000, -2_000, 8_500, 0);
    assert_eq!(
        calculate_distance_between_two_buildings(a, c),
        calculate_distance_between_two_buildings(c, a)
    );
}

#[test]
fn a_building_overlaps_itself() {
    let a = building(1, 1, 1, 123, -456, 90_000_000);
    assert_eq!(calculate_distance_between_two_buildings(a, a), Separation::Overlapping);
}

#[test]
fn a_point_does_not_overlap_itself() {
    let a = building(1, 0, 0, 5, 5, 0);
    assert_eq!(
        calculate_distance_between_two_buildings(a, a),
        Separation::Apart { twice_gap_squared: 0 }
    );
}

#[test]
fn the_farthest_corners_fit() {
    let a = building(1, 0, 0, i32::MIN, i32::MIN, 0);
    let b = building(2, 0, 0, i32::MAX, i32::MAX, 0);
    let side: u128 = 2 * ((1u128 << 32) - 1);
    assert_eq!(
        calculate_distance_between_two_buildings(a, b),
        Separation::Apart { twice_gap_squared: 2 * side * side }
    );
    let a = building(1, i32::MIN, i32::MIN, i32::MIN, i32::MIN, 0);
    let b = building(2, i32::MIN, i32::MIN, i32::MAX, i32::MAX, 0);
    let side: u128 = 2 * ((1u128 << 32) - 1) + (1u128 << 32);
    assert_eq!(
        calculate_distance_between_two_buildings(a, b),
        Separation::Apart { twice_gap_squared: 2 * side * side }
    );
}

#[test]
fn the_order_of_separations() {
    let near = Separation::Apart { twice_gap_squared: 4 };
    let far = Separation::Apart { twice_gap_squared: 9 };
    assert_eq!(near.min(far), near);
    assert_eq!(far.min(near), near);
    assert_eq!(near.min(Separation::Overlapping), Separation::Overlapping);
    assert_eq!(Separation::Overlapping.min(far), Separation::Overlapping);
    assert_eq!(near.min(Separation::Unbounded), near);
    assert_eq!(Separation::Unbounded.min(far), far);
    assert_eq!(Separation::Unbounded.min(Separation::Overlapping), Separation::Overlapping);
    assert_eq!(Separation::unbounded(), Separation::Unbounded);
    assert_eq!(Separation::unbounded().min(Separation::Unbounded), Separation::Unbounded);
}
