//! The gap between two footprints that stand in the same frame.
//!
//! A footprint is centred on its position, so its edges lie half an extent
//! away and may fall between two points of the integer grid. To stay exact
//! every length in this module is doubled, and a gap is held as the square of
//! its double: corner-to-corner gaps are square roots, their squares are not.

use vstd::prelude::*;
use vstd::arithmetic::div_mod::{lemma_fundamental_div_mod, lemma_mod_multiples_vanish};
use crate::model::Building;
use crate::transform::{near, within_turn, ANGLE_TOLERANCE, FULL_TURN, HALF_TURN, QUARTER_TURN};

verus! {

/// How far apart two footprints are, or the smallest such value of a search.
#[derive(Clone, Copy, Debug, PartialEq, Eq, Structural)]
pub enum Separation {
    /// The footprints overlap on both axes.
    Overlapping,
    /// The footprints are apart; the field is the square of twice the gap.
    Apart { twice_gap_squared: u128 },
    /// There is no pair of footprints to speak of: no constraint at all.
    Unbounded,
}

impl Separation {
    /// The place of a value in the order of separations: an overlap lies
    /// below every gap, and every gap lies below the unbounded value.
    pub open spec fn rank(self) -> int {
        match self {
            Separation::Overlapping => -1,
            Separation::Apart { twice_gap_squared } => twice_gap_squared as int,
            Separation::Unbounded => u128::MAX + 1,
        }
    }

    /// The smaller of two separations.
    pub open spec fn least(self, other: Separation) -> Separation {
        if self.rank() <= other.rank() {
            self
        } else {
            other
        }
    }

    /// The separation of nothing from nothing, which none exceeds: the
    /// value to start a search from.
    pub fn unbounded() -> (r: Separation)
        ensures
            r == Separation::Unbounded,
    {
        Separation::Unbounded
    }

    /// The smaller of two separations.
    pub fn min(self, other: Separation) -> (r: Separation)
        ensures
            r == self.least(other),
    {
        match (self, other) {
            (Separation::Overlapping, _) => self,
            (_, Separation::Overlapping) => other,
            (_, Separation::Unbounded) => self,
            (Separation::Unbounded, _) => other,
            (
                Separation::Apart { twice_gap_squared: mine },
                Separation::Apart { twice_gap_squared: theirs },
            ) => {
                if mine <= theirs {
                    self
                } else {
                    other
                }
            },
        }
    }
}

/// Whether a footprint placed at `angle` lies across: the angle is within
/// tolerance of an odd multiple of a quarter turn, whatever its sign. That
/// is, what is left of it after taking out whole half turns, a value from
/// nothing up to a half turn, is within tolerance of a quarter turn.
pub open spec fn lies_across(angle: int) -> bool {
    near(angle % (HALF_TURN as int), QUARTER_TURN as int)
}

/// The extent of a building's footprint along the x axis.
pub open spec fn extent_along_x(b: Building) -> int {
    if lies_across(b.position.angle_deg as int) {
        b.rectangle.width_m as int
    } else {
        b.rectangle.length_m as int
    }
}

/// The extent of a building's footprint along the y axis.
pub open spec fn extent_along_y(b: Building) -> int {
    if lies_across(b.position.angle_deg as int) {
        b.rectangle.length_m as int
    } else {
        b.rectangle.width_m as int
    }
}

/// The size of a difference.
pub open spec fn span(a: int, b: int) -> int {
    if a >= b {
        a - b
    } else {
        b - a
    }
}

/// Twice the free space between the two footprints' shadows on the x axis;
/// negative when the shadows overlap.
pub open spec fn clearance_x(a: Building, b: Building) -> int {
    2 * span(a.position.offset_x_m as int, b.position.offset_x_m as int) - (extent_along_x(a)
        + extent_along_x(b))
}

/// Twice the free space between the two footprints' shadows on the y axis;
/// negative when the shadows overlap.
pub open spec fn clearance_y(a: Building, b: Building) -> int {
    2 * span(a.position.offset_y_m as int, b.position.offset_y_m as int) - (extent_along_y(a)
        + extent_along_y(b))
}

/// The part of a clearance that separates: nothing when the shadows overlap.
pub open spec fn excess(clearance: int) -> int {
    if clearance >= 0 {
        clearance
    } else {
        0
    }
}

/// The separation of two buildings whose positions share a frame. They
/// overlap when their shadows overlap on both axes; otherwise the gap is the
/// length of the vector of the two excesses.
pub open spec fn separation(a: Building, b: Building) -> Separation {
    let cx = clearance_x(a, b);
    let cy = clearance_y(a, b);
    if cx < 0 && cy < 0 {
        Separation::Overlapping
    } else {
        Separation::Apart {
            twice_gap_squared: (excess(cx) * excess(cx) + excess(cy) * excess(cy)) as u128,
        }
    }
}

/// Whether a building's footprint lies across.
fn footprint_lies_across(b: Building) -> (r: bool)
    ensures
        r == lies_across(b.position.angle_deg as int),
{
    let angle: i64 = b.position.angle_deg;
    let remainder: i64 = angle % HALF_TURN;
    let reduced: i64 = if remainder < 0 {
        remainder + HALF_TURN
    } else {
        remainder
    };
    QUARTER_TURN - ANGLE_TOLERANCE < reduced && reduced < QUARTER_TURN + ANGLE_TOLERANCE
}

/// The summed extents of two footprints, first along y (the total width),
/// then along x (the total length), each footprint that lies across giving
/// its length to the width and its width to the length. These are twice the
/// summed half extents against which the doubled distance between the
/// centres is held.
pub fn eval_half_total_width_and_half_total_length(
    first_building: Building,
    second_building: Building,
) -> (r: (i64, i64))
    ensures
        r.0 == extent_along_y(first_building) + extent_along_y(second_building),
        r.1 == extent_along_x(first_building) + extent_along_x(second_building),
{
    let first_length: i64 = first_building.rectangle.length_m as i64;
    let first_width: i64 = first_building.rectangle.width_m as i64;
    let (first_length, first_width): (i64, i64) = if footprint_lies_across(first_building) {
        (first_width, first_length)
    } else {
        (first_length, first_width)
    };
    let second_length: i64 = second_building.rectangle.length_m as i64;
    let second_width: i64 = second_building.rectangle.width_m as i64;
    let (second_length, second_width): (i64, i64) = if footprint_lies_across(second_building) {
        (second_width, second_length)
    } else {
        (second_length, second_width)
    };
    (first_width + second_width, first_length + second_length)
}

/// Twice the distance between two coordinates.
fn doubled_span(a: i32, b: i32) -> (r: i64)
    ensures
        r == 2 * span(a as int, b as int),
{
    let wide_a: i64 = a as i64;
    let wide_b: i64 = b as i64;
    if wide_a >= wide_b {
        2 * (wide_a - wide_b)
    } else {
        2 * (wide_b - wide_a)
    }
}

/// The square of a doubled excess.
fn squared(v: i64) -> (r: u128)
    requires
        0 <= v <= 0x3_0000_0000,
    ensures
        r == v * v,
        r <= 0x9_0000_0000_0000_0000,
{
    assert(0 <= v * v <= 0x9_0000_0000_0000_0000) by (nonlinear_arith)
        requires
            0 <= v <= 0x3_0000_0000,
    ;
    (v as u128) * (v as u128)
}

/// The separation of two buildings whose positions share a frame.
///
/// Where the footprints are apart along one axis only, the gap is the free
/// space along that axis; where they are apart along both, it is the
/// distance from corner to corner; where along neither, they overlap.
pub fn calculate_distance_between_two_buildings(
    first_building: Building,
    second_building: Building,
) -> (r: Separation)
    ensures
        r == separation(first_building, second_building),
{
    let delta_x: i64 = doubled_span(
        first_building.position.offset_x_m,
        second_building.position.offset_x_m,
    );
    let delta_y: i64 = doubled_span(
        first_building.position.offset_y_m,
        second_building.position.offset_y_m,
    );
    let (total_width, total_length): (i64, i64) = eval_half_total_width_and_half_total_length(
        first_building,
        second_building,
    );
    if delta_x < total_length && delta_y >= total_width {
        Separation::Apart { twice_gap_squared: squared(delta_y - total_width) }
    } else if delta_x >= total_length && delta_y < total_width {
        Separation::Apart { twice_gap_squared: squared(delta_x - total_length) }
    } else if delta_x >= total_length && delta_y >= total_width {
        Separation::Apart {
            twice_gap_squared: squared(delta_x - total_length) + squared(delta_y - total_width),
        }
    } else {
        Separation::Overlapping
    }
}

/// Taking the smaller of two separations is commutative, associative and
/// idempotent, and the unbounded separation is its identity.
pub proof fn lemma_least_laws(a: Separation, b: Separation, c: Separation)
    ensures
        a.least(b) == b.least(a),
        a.least(b).least(c) == a.least(b.least(c)),
        a.least(a) == a,
        a.least(Separation::Unbounded) == a,
        Separation::Unbounded.least(a) == a,
{
}

/// The separation case by case: apart along y only, it is the free space
/// along y; apart along x only, that along x; apart along both, the length
/// of both together; apart along neither, an overlap.
pub proof fn lemma_separation_by_cases(a: Building, b: Building)
    ensures
        clearance_x(a, b) < 0 && clearance_y(a, b) >= 0 ==> separation(a, b) == (
        Separation::Apart {
            twice_gap_squared: (clearance_y(a, b) * clearance_y(a, b)) as u128,
        }),
        clearance_x(a, b) >= 0 && clearance_y(a, b) < 0 ==> separation(a, b) == (
        Separation::Apart {
            twice_gap_squared: (clearance_x(a, b) * clearance_x(a, b)) as u128,
        }),
        clearance_x(a, b) >= 0 && clearance_y(a, b) >= 0 ==> separation(a, b) == (
        Separation::Apart {
            twice_gap_squared: (clearance_x(a, b) * clearance_x(a, b) + clearance_y(a, b)
                * clearance_y(a, b)) as u128,
        }),
        clearance_x(a, b) < 0 && clearance_y(a, b) < 0 ==> separation(a, b)
            == Separation::Overlapping,
        separation(a, b) matches Separation::Apart { twice_gap_squared } ==> twice_gap_squared
            == excess(clearance_x(a, b)) * excess(clearance_x(a, b)) + excess(clearance_y(a, b))
            * excess(clearance_y(a, b)),
{
    let ex = excess(clearance_x(a, b));
    let ey = excess(clearance_y(a, b));
    assert(0 <= ex * ex <= 0x9_0000_0000_0000_0000) by (nonlinear_arith)
        requires
            0 <= ex <= 0x3_0000_0000,
    ;
    assert(0 <= ey * ey <= 0x9_0000_0000_0000_0000) by (nonlinear_arith)
        requires
            0 <= ey <= 0x3_0000_0000,
    ;
}

/// A footprint lies across at every odd multiple of a quarter turn, above
/// nothing or below, and at no even one.
pub proof fn lemma_odd_quarter_turns_lie_across(k: int)
    ensures
        lies_across((2 * k + 1) * QUARTER_TURN),
        !lies_across((2 * k) * QUARTER_TURN),
{
    let half = HALF_TURN as int;
    let quarter = QUARTER_TURN as int;
    assert((2 * k + 1) * quarter == half * k + quarter) by (nonlinear_arith)
        requires
            half == 2 * quarter,
    ;
    assert((2 * k) * quarter == half * k + 0) by (nonlinear_arith)
        requires
            half == 2 * quarter,
    ;
    lemma_mod_multiples_vanish(k, quarter, half);
    lemma_mod_multiples_vanish(k, 0, half);
}

/// Taking whole turns out of an angle does not change whether a footprint
/// placed at it lies across.
pub proof fn lemma_lies_across_within_turn(angle: int)
    ensures
        lies_across(within_turn(angle)) == lies_across(angle),
{
    let turn = FULL_TURN as int;
    let half = HALF_TURN as int;
    if angle >= 0 {
        let turns = angle / turn;
        lemma_fundamental_div_mod(angle, turn);
        assert(within_turn(angle) == half * (-2 * turns) + angle);
        lemma_mod_multiples_vanish(-2 * turns, angle, half);
    } else {
        let turns = (-angle) / turn;
        lemma_fundamental_div_mod(-angle, turn);
        assert(within_turn(angle) == half * (2 * turns) + angle);
        lemma_mod_multiples_vanish(2 * turns, angle, half);
    }
}

/// Whether two buildings fill the same ground: the same extents at the same
/// offsets, both lying across or neither.
pub open spec fn same_ground(a: Building, b: Building) -> bool {
    &&& a.rectangle == b.rectangle
    &&& a.position.offset_x_m == b.position.offset_x_m
    &&& a.position.offset_y_m == b.position.offset_y_m
    &&& lies_across(a.position.angle_deg as int) == lies_across(b.position.angle_deg as int)
}

/// The separation of two buildings depends on the ground they fill alone.
pub proof fn lemma_separation_of_same_ground(a: Building, b: Building, c: Building, d: Building)
    requires
        same_ground(a, c),
        same_ground(b, d),
    ensures
        separation(a, b) == separation(c, d),
{
}

/// The separation of two buildings does not depend on which is named first.
pub proof fn lemma_separation_symmetric(a: Building, b: Building)
    ensures
        separation(a, b) == separation(b, a),
{
}

/// A building with positive extents overlaps itself.
pub proof fn lemma_self_overlap(a: Building)
    requires
        a.rectangle.width_m > 0,
        a.rectangle.length_m > 0,
    ensures
        separation(a, a) == Separation::Overlapping,
{
}

} // verus!
