//! The cluster search with every pair's separation divided by the pair's
//! own divisor from the table of offset rules.
//!
//! A quotient is held as its two parts, the separation and the divisor, and
//! two quotients are told apart by cross-multiplying, so that no division
//! and no square root is ever taken.

use vstd::prelude::*;
use crate::distance::{
    calculate_distance_between_two_buildings,
    lemma_least_laws,
    separation,
    Separation,
};
use crate::model::{Building, ClusterPosition};
use crate::offsets::{divisors_positive, key_text, OffsetRuleTable};
use crate::search::{least_between, least_to, place_cluster, placed_cluster};
use crate::transform::{Placement, PlacementError};

verus! {

/// A separation together with the divisor that normalises it. It stands for
/// the separation divided by the divisor; an overlap counts as minus one
/// before it is divided.
#[derive(Clone, Copy, Debug, PartialEq, Eq, Structural)]
pub struct NormalizedSeparation {
    pub separation: Separation,
    pub offset: u32,
}

/// Why a normalised search gave no answer.
#[derive(Clone, Copy, Debug, PartialEq, Eq, Structural)]
pub enum SearchError {
    /// A building could not be carried into the shared frame.
    Placement(PlacementError),
    /// The table has no rule for some pair of buildings.
    MissingOffsetRule,
}

impl NormalizedSeparation {
    /// What a search starts from and returns when there is no pair.
    pub open spec fn none() -> NormalizedSeparation {
        NormalizedSeparation { separation: Separation::Unbounded, offset: 0 }
    }

    /// Whether this quotient is strictly less than the other.
    ///
    /// Nothing is greater than an unbounded separation, and an overlap is
    /// less than any gap. Of two overlaps, minus one over the smaller
    /// divisor is the lesser. Two gaps `g` and `h` with divisors `d` and `e`
    /// compare as `g / d` and `h / e`, that is as the squares of their
    /// doubles times the squares of the other's divisor.
    pub open spec fn precedes(self, other: NormalizedSeparation) -> bool {
        match (self.separation, other.separation) {
            (Separation::Unbounded, _) => false,
            (_, Separation::Unbounded) => true,
            (Separation::Overlapping, Separation::Overlapping) => self.offset < other.offset,
            (Separation::Overlapping, Separation::Apart { .. }) => true,
            (Separation::Apart { .. }, Separation::Overlapping) => false,
            (
                Separation::Apart { twice_gap_squared: mine },
                Separation::Apart { twice_gap_squared: theirs },
            ) => mine * (other.offset * other.offset) < theirs * (self.offset * self.offset),
        }
    }

    /// The one of `self` and `candidate` that a search keeps: the candidate
    /// only where it is strictly less.
    pub open spec fn better(self, candidate: NormalizedSeparation) -> NormalizedSeparation {
        if candidate.precedes(self) {
            candidate
        } else {
            self
        }
    }

    /// Whether this quotient is strictly less than the other.
    pub fn is_less_than(&self, other: &NormalizedSeparation) -> (r: bool)
        ensures
            r == self.precedes(*other),
    {
        match (self.separation, other.separation) {
            (Separation::Unbounded, _) => false,
            (_, Separation::Unbounded) => true,
            (Separation::Overlapping, Separation::Overlapping) => self.offset < other.offset,
            (Separation::Overlapping, Separation::Apart { .. }) => true,
            (Separation::Apart { .. }, Separation::Overlapping) => false,
            (
                Separation::Apart { twice_gap_squared: mine },
                Separation::Apart { twice_gap_squared: theirs },
            ) => {
                let left: (u128, u64) = wide_product(mine, square(other.offset));
                let right: (u128, u64) = wide_product(theirs, square(self.offset));
                left.0 < right.0 || (left.0 == right.0 && left.1 < right.1)
            },
        }
    }
}

/// The square of a divisor.
fn square(v: u32) -> (r: u64)
    ensures
        r == v * v,
{
    assert(v * v <= 0xffff_fffe_0000_0001) by (nonlinear_arith)
        requires
            v <= 0xffff_ffff,
    ;
    (v as u64) * (v as u64)
}

/// The product of `q` and `m` in two parts: the high part counts units of
/// two to the power of 64, and the low part is less than one such unit.
fn wide_product(q: u128, m: u64) -> (r: (u128, u64))
    ensures
        q * m == r.0 * 0x1_0000_0000_0000_0000 + r.1,
{
    let q_high: u128 = q / 0x1_0000_0000_0000_0000;
    let q_low: u128 = q % 0x1_0000_0000_0000_0000;
    let wide_m: u128 = m as u128;
    assert(q_low * wide_m <= 0xffff_ffff_ffff_fffe_0000_0000_0000_0001) by (nonlinear_arith)
        requires
            q_low <= 0xffff_ffff_ffff_ffff,
            wide_m <= 0xffff_ffff_ffff_ffff,
    ;
    assert(q_high * wide_m <= 0xffff_ffff_ffff_fffe_0000_0000_0000_0001) by (nonlinear_arith)
        requires
            q_high <= 0xffff_ffff_ffff_ffff,
            wide_m <= 0xffff_ffff_ffff_ffff,
    ;
    let low_product: u128 = q_low * wide_m;
    let high_product: u128 = q_high * wide_m;
    let carry: u128 = low_product / 0x1_0000_0000_0000_0000;
    let low: u128 = low_product % 0x1_0000_0000_0000_0000;
    assert(q * m == (q_high * wide_m) * 0x1_0000_0000_0000_0000 + q_low * wide_m)
        by (nonlinear_arith)
        requires
            q == q_high * 0x1_0000_0000_0000_0000 + q_low,
            wide_m == m,
    ;
    (high_product + carry, low as u64)
}

/// The normalised separation of one pair: the pair's separation with the
/// divisor that the rules hold for it.
pub open spec fn candidate(a: Building, b: Building, rules: Map<Seq<char>, u32>)
    -> NormalizedSeparation {
    NormalizedSeparation { separation: separation(a, b), offset: rules[key_text(a.id, b.id)] }
}

/// What a search that has come to `start` comes to after holding `b`
/// against each of `others` in turn.
pub open spec fn best_in_row(
    start: NormalizedSeparation,
    b: Building,
    others: Seq<Building>,
    rules: Map<Seq<char>, u32>,
) -> NormalizedSeparation
    decreases others.len(),
{
    if others.len() == 0 {
        start
    } else {
        best_in_row(start, b, others.drop_last(), rules).better(candidate(b, others.last(), rules))
    }
}

/// The least normalised separation between any building of `first` and any
/// of `second`, pairs being taken row by row; of several pairs that are
/// least, the one taken first.
pub open spec fn best_between(
    first: Seq<Building>,
    second: Seq<Building>,
    rules: Map<Seq<char>, u32>,
) -> NormalizedSeparation
    decreases first.len(),
{
    if first.len() == 0 {
        NormalizedSeparation::none()
    } else {
        best_in_row(best_between(first.drop_last(), second, rules), first.last(), second, rules)
    }
}

/// Whether the rules hold a divisor for `b` against each of `others`.
pub open spec fn row_covered(b: Building, others: Seq<Building>, rules: Map<Seq<char>, u32>)
    -> bool {
    forall|j: int|
        0 <= j < others.len() ==> rules.contains_key(#[trigger] key_text(b.id, others[j].id))
}

/// Whether the rules hold a divisor for every pair of the two clusters.
pub open spec fn rules_cover(
    first: Seq<Building>,
    second: Seq<Building>,
    rules: Map<Seq<char>, u32>,
) -> bool {
    forall|i: int| 0 <= i < first.len() ==> row_covered(#[trigger] first[i], second, rules)
}

/// What a normalised search returns: the error of the first building that
/// cannot be placed; else, where a pair has no rule, that a rule is missing;
/// else the least normalised separation.
pub open spec fn normalized_search_result(
    first: Seq<Building>,
    second: Seq<Building>,
    first_placement: Placement,
    second_placement: Placement,
    rules: Map<Seq<char>, u32>,
) -> Result<NormalizedSeparation, SearchError> {
    match placed_cluster(first, first_placement) {
        Err(e) => Err(SearchError::Placement(e)),
        Ok(first_placed) => match placed_cluster(second, second_placement) {
            Err(e) => Err(SearchError::Placement(e)),
            Ok(second_placed) => if rules_cover(first_placed, second_placed, rules) {
                Ok(best_between(first_placed, second_placed, rules))
            } else {
                Err(SearchError::MissingOffsetRule)
            },
        },
    }
}

/// Holds `building` against each of `others` in turn, starting from what
/// the search has come to so far. Gives nothing where a pair has no rule.
pub fn search_row(
    start: NormalizedSeparation,
    building: &Building,
    others: &Vec<Building>,
    rules: &OffsetRuleTable,
) -> (r: Option<NormalizedSeparation>)
    ensures
        match r {
            Some(best) => row_covered(*building, others@, rules@) && best == best_in_row(
                start,
                *building,
                others@,
                rules@,
            ),
            None => !row_covered(*building, others@, rules@),
        },
        divisors_positive(rules@),
{
    rules.divisors_are_known_positive();
    let mut best: NormalizedSeparation = start;
    let mut j: usize = 0;
    while j < others.len()
        invariant
            j <= others.len(),
            row_covered(*building, others@.take(j as int), rules@),
            best == best_in_row(start, *building, others@.take(j as int), rules@),
        decreases others.len() - j,
    {
        proof {
            assert(others@.take(j + 1).drop_last() == others@.take(j as int));
            assert(others@.take(j + 1).last() == others@[j as int]);
        }
        let offset: u32 = match rules.divisor_for(building, &others[j]) {
            Some(divisor) => divisor,
            None => {
                return None;
            },
        };
        let found: NormalizedSeparation = NormalizedSeparation {
            separation: calculate_distance_between_two_buildings(*building, others[j]),
            offset,
        };
        if found.is_less_than(&best) {
            best = found;
        }
        proof {
            assert forall|k: int| 0 <= k < j + 1 implies rules@.contains_key(
                #[trigger] key_text(building.id, others@.take(j + 1)[k].id),
            ) by {
                if k < j {
                    assert(others@.take(j as int)[k] == others@.take(j + 1)[k]);
                }
            }
        }
        j += 1;
    }
    proof {
        assert(others@.take(j as int) == others@);
    }
    Some(best)
}

/// The least normalised separation between two clusters that stand in the
/// shared frame. Gives nothing where a pair has no rule.
pub fn best_normalized_separation(
    first: &Vec<Building>,
    second: &Vec<Building>,
    rules: &OffsetRuleTable,
) -> (r: Option<NormalizedSeparation>)
    ensures
        match r {
            Some(best) => rules_cover(first@, second@, rules@) && best == best_between(
                first@,
                second@,
                rules@,
            ),
            None => !rules_cover(first@, second@, rules@),
        },
        divisors_positive(rules@),
{
    rules.divisors_are_known_positive();
    let mut best: NormalizedSeparation = NormalizedSeparation {
        separation: Separation::Unbounded,
        offset: 0,
    };
    let mut i: usize = 0;
    while i < first.len()
        invariant
            i <= first.len(),
            rules_cover(first@.take(i as int), second@, rules@),
            best == best_between(first@.take(i as int), second@, rules@),
        decreases first.len() - i,
    {
        proof {
            assert(first@.take(i + 1).drop_last() == first@.take(i as int));
            assert(first@.take(i + 1).last() == first@[i as int]);
        }
        match search_row(best, &first[i], second, rules) {
            Some(next) => {
                best = next;
            },
            None => {
                return None;
            },
        }
        proof {
            assert forall|k: int| 0 <= k < i + 1 implies row_covered(
                #[trigger] first@.take(i + 1)[k],
                second@,
                rules@,
            ) by {
                if k < i {
                    assert(first@.take(i as int)[k] == first@.take(i + 1)[k]);
                }
            }
        }
        i += 1;
    }
    proof {
        assert(first@.take(i as int) == first@);
    }
    Some(best)
}

/// The least normalised separation between the buildings of two clusters,
/// each under its own placement, with the divisor that gave it.
pub fn min_normalized_distance_between_clusters(
    cluster_a: &Vec<Building>,
    cluster_b: &Vec<Building>,
    placement_a: Placement,
    placement_b: Placement,
    rules: &OffsetRuleTable,
) -> (r: Result<NormalizedSeparation, SearchError>)
    ensures
        r == normalized_search_result(cluster_a@, cluster_b@, placement_a, placement_b, rules@),
        divisors_positive(rules@),
{
    rules.divisors_are_known_positive();
    let first: Vec<Building> = match place_cluster(cluster_a, placement_a) {
        Ok(v) => v,
        Err(e) => {
            return Err(SearchError::Placement(e));
        },
    };
    let second: Vec<Building> = match place_cluster(cluster_b, placement_b) {
        Ok(v) => v,
        Err(e) => {
            return Err(SearchError::Placement(e));
        },
    };
    match best_normalized_separation(&first, &second, rules) {
        Some(best) => Ok(best),
        None => Err(SearchError::MissingOffsetRule),
    }
}

/// The least normalised separation between the buildings of two clusters
/// that are shifted into the shared frame, with the divisor that gave it.
pub fn calculate_normalized_distance_between_two_clusters(
    first_cluster_buildings: Vec<Building>,
    second_cluster_buildings: Vec<Building>,
    first_cluster_position: ClusterPosition,
    second_cluster_position: ClusterPosition,
    rules: &OffsetRuleTable,
) -> (r: Result<NormalizedSeparation, SearchError>)
    ensures
        r == normalized_search_result(
            first_cluster_buildings@,
            second_cluster_buildings@,
            Placement::Shift(first_cluster_position),
            Placement::Shift(second_cluster_position),
            rules@,
        ),
        divisors_positive(rules@),
{
    min_normalized_distance_between_clusters(
        &first_cluster_buildings,
        &second_cluster_buildings,
        Placement::Shift(first_cluster_position),
        Placement::Shift(second_cluster_position),
        rules,
    )
}

/// Whether a quotient has a divisor to be divided by: every one has but
/// the unbounded one, which needs none.
pub open spec fn has_divisor(n: NormalizedSeparation) -> bool {
    n.separation is Unbounded || n.offset > 0
}

/// Cross-multiplied fractions compare transitively: with positive
/// denominators `x`, `y`, `z`, from `a/x < b/y` and `b/y <= c/z` follows
/// `a/x < c/z`, and likewise with the two strengths exchanged or both weak.
proof fn lemma_cross_products(a: int, x: int, b: int, y: int, c: int, z: int)
    requires
        0 <= a && 0 <= b && 0 <= c,
        0 < x && 0 < y && 0 < z,
    ensures
        a * y < b * x && b * z < c * y ==> a * z < c * x,
        a * y <= b * x && b * z <= c * y ==> a * z <= c * x,
{
    if a * y <= b * x && b * z <= c * y {
        assert((a * y) * z <= (b * x) * z) by (nonlinear_arith)
            requires
                a * y <= b * x,
                0 < z,
        ;
        assert((b * z) * x <= (c * y) * x) by (nonlinear_arith)
            requires
                b * z <= c * y,
                0 < x,
        ;
        assert((a * y) * z == (a * z) * y && (b * x) * z == (b * z) * x && (c * y) * x == (c * x)
            * y) by (nonlinear_arith);
        assert(a * z <= c * x) by (nonlinear_arith)
            requires
                (a * z) * y <= (c * x) * y,
                0 < y,
        ;
        if a * y < b * x && b * z < c * y {
            assert((a * y) * z < (b * x) * z) by (nonlinear_arith)
                requires
                    a * y < b * x,
                    0 < z,
            ;
            assert(a * z < c * x) by (nonlinear_arith)
                requires
                    (a * z) * y < (c * x) * y,
                    0 < y,
            ;
        }
    }
}

/// The square of a positive divisor is positive.
proof fn lemma_square_positive(v: u32)
    requires
        v > 0,
    ensures
        v * v > 0,
{
    assert(v * v > 0) by (nonlinear_arith)
        requires
            v > 0,
    ;
}

/// Among quotients with divisors, "strictly less" is a strict weak order:
/// nothing is less than itself; less than something that is less than a
/// third is less than the third; and not less than something that is not
/// less than a third is not less than the third.
pub proof fn lemma_precedes_is_an_order(
    a: NormalizedSeparation,
    b: NormalizedSeparation,
    c: NormalizedSeparation,
)
    requires
        has_divisor(a),
        has_divisor(b),
        has_divisor(c),
    ensures
        !a.precedes(a),
        a.precedes(b) && b.precedes(c) ==> a.precedes(c),
        !a.precedes(b) && !b.precedes(c) ==> !a.precedes(c),
{
    if a.separation is Apart && b.separation is Apart && c.separation is Apart {
        lemma_square_positive(a.offset);
        lemma_square_positive(b.offset);
        lemma_square_positive(c.offset);
        let qa = a.separation->twice_gap_squared as int;
        let qb = b.separation->twice_gap_squared as int;
        let qc = c.separation->twice_gap_squared as int;
        let x = a.offset * a.offset;
        let y = b.offset * b.offset;
        let z = c.offset * c.offset;
        lemma_cross_products(qa, x, qb, y, qc, z);
        lemma_cross_products(qc, z, qb, y, qa, x);
    }
}

/// What holding one building against a row of others does to a search: the
/// outcome is either what the search had come to, no pair of the row being
/// less, or the first pair of the row that is least and less than that. No
/// pair of the row is less than the outcome, nor is what the search had
/// come to.
pub proof fn lemma_best_in_row(
    start: NormalizedSeparation,
    b: Building,
    others: Seq<Building>,
    rules: Map<Seq<char>, u32>,
)
    requires
        has_divisor(start),
        divisors_positive(rules),
        row_covered(b, others, rules),
    ensures
        has_divisor(best_in_row(start, b, others, rules)),
        !start.precedes(best_in_row(start, b, others, rules)),
        forall|j: int|
            0 <= j < others.len() ==> !(#[trigger] candidate(b, others[j], rules)).precedes(
                best_in_row(start, b, others, rules),
            ),
        best_in_row(start, b, others, rules) == start || exists|j: int|
            0 <= j < others.len() && best_in_row(start, b, others, rules) == #[trigger] candidate(
                b,
                others[j],
                rules,
            ) && candidate(b, others[j], rules).precedes(start) && forall|k: int|
                0 <= k < j ==> candidate(b, others[j], rules).precedes(
                    #[trigger] candidate(b, others[k], rules),
                ),
    decreases others.len(),
{
    if others.len() > 0 {
        let before = others.drop_last();
        let last = others.len() - 1;
        assert forall|j: int| 0 <= j < before.len() implies rules.contains_key(
            #[trigger] key_text(b.id, before[j].id),
        ) by {
            assert(before[j] == others[j]);
        }
        lemma_best_in_row(start, b, before, rules);
        let mid = best_in_row(start, b, before, rules);
        let found = candidate(b, others[last], rules);
        let out = best_in_row(start, b, others, rules);
        assert(rules.contains_key(key_text(b.id, others[last].id)));
        assert(has_divisor(found));
        assert(out == mid.better(found));
        lemma_precedes_is_an_order(found, mid, start);
        assert forall|j: int| 0 <= j < others.len() implies !(#[trigger] candidate(
            b,
            others[j],
            rules,
        )).precedes(out) by {
            if j < last {
                assert(before[j] == others[j]);
                let earlier = candidate(b, others[j], rules);
                assert(rules.contains_key(key_text(b.id, others[j].id)));
                lemma_precedes_is_an_order(earlier, mid, found);
            }
        }
        if found.precedes(mid) {
            assert forall|k: int| 0 <= k < last implies found.precedes(
                #[trigger] candidate(b, others[k], rules),
            ) by {
                assert(before[k] == others[k]);
                let earlier = candidate(b, others[k], rules);
                assert(rules.contains_key(key_text(b.id, others[k].id)));
                lemma_precedes_is_an_order(found, earlier, mid);
            }
            assert(out == candidate(b, others[last], rules));
        } else if mid != start {
            let j = choose|j: int|
                0 <= j < before.len() && mid == #[trigger] candidate(b, before[j], rules)
                    && candidate(b, before[j], rules).precedes(start) && forall|k: int|
                    0 <= k < j ==> candidate(b, before[j], rules).precedes(
                        #[trigger] candidate(b, before[k], rules),
                    );
            assert(before[j] == others[j]);
            assert forall|k: int| 0 <= k < j implies candidate(b, others[j], rules).precedes(
                #[trigger] candidate(b, others[k], rules),
            ) by {
                assert(before[k] == others[k]);
                assert(candidate(b, before[j], rules).precedes(candidate(b, before[k], rules)));
            }
            assert(out == candidate(b, others[j], rules));
        }
    }
}

/// Whether pair `(i, j)` is taken before pair `(k, l)` by a search that goes
/// row by row.
pub open spec fn taken_before(i: int, j: int, k: int, l: int) -> bool {
    i < k || (i == k && j < l)
}

/// The outcome of a normalised search is the least that there is: no pair's
/// normalised separation is less. Where either cluster is empty it is
/// unbounded, with no divisor. Otherwise it is that of a pair, and strictly
/// less than that of every pair taken before it: of several least pairs, the
/// first.
pub proof fn lemma_best_between_is_first_least(
    first: Seq<Building>,
    second: Seq<Building>,
    rules: Map<Seq<char>, u32>,
)
    requires
        divisors_positive(rules),
        rules_cover(first, second, rules),
    ensures
        has_divisor(best_between(first, second, rules)),
        forall|i: int, j: int|
            0 <= i < first.len() && 0 <= j < second.len() ==> !(#[trigger] candidate(
                first[i],
                second[j],
                rules,
            )).precedes(best_between(first, second, rules)),
        first.len() == 0 || second.len() == 0 ==> best_between(first, second, rules)
            == NormalizedSeparation::none(),
        first.len() > 0 && second.len() > 0 ==> exists|i: int, j: int|
            0 <= i < first.len() && 0 <= j < second.len() && best_between(first, second, rules)
                == #[trigger] candidate(first[i], second[j], rules) && forall|k: int, l: int|
                0 <= k < first.len() && 0 <= l < second.len() && taken_before(k, l, i, j)
                    ==> candidate(first[i], second[j], rules).precedes(
                    #[trigger] candidate(first[k], second[l], rules),
                ),
    decreases first.len(),
{
    if first.len() > 0 {
        let before = first.drop_last();
        let last = first.len() - 1;
        assert forall|i: int| 0 <= i < before.len() implies row_covered(
            #[trigger] before[i],
            second,
            rules,
        ) by {
            assert(before[i] == first[i]);
        }
        lemma_best_between_is_first_least(before, second, rules);
        let mid = best_between(before, second, rules);
        let out = best_between(first, second, rules);
        assert(row_covered(first[last], second, rules));
        lemma_best_in_row(mid, first[last], second, rules);
        assert forall|i: int, j: int| 0 <= i < first.len() && 0 <= j < second.len() implies !(
        #[trigger] candidate(first[i], second[j], rules)).precedes(out) by {
            if i < last {
                assert(before[i] == first[i]);
                assert(row_covered(first[i], second, rules));
                assert(rules.contains_key(key_text(first[i].id, second[j].id)));
                lemma_precedes_is_an_order(candidate(first[i], second[j], rules), mid, out);
            }
        }
        if second.len() > 0 {
            if out == mid {
                if before.len() == 0 {
                    assert(candidate(first[last], second[0], rules).precedes(out));
                } else {
                    let (i, j) = choose|i: int, j: int|
                        0 <= i < before.len() && 0 <= j < second.len() && mid
                            == #[trigger] candidate(before[i], second[j], rules) && forall|
                            k: int,
                            l: int,
                        |
                            0 <= k < before.len() && 0 <= l < second.len() && taken_before(
                                k,
                                l,
                                i,
                                j,
                            ) ==> candidate(before[i], second[j], rules).precedes(
                                #[trigger] candidate(before[k], second[l], rules),
                            );
                    assert(before[i] == first[i]);
                    assert forall|k: int, l: int|
                        0 <= k < first.len() && 0 <= l < second.len() && taken_before(
                            k,
                            l,
                            i,
                            j,
                        ) implies candidate(first[i], second[j], rules).precedes(
                        #[trigger] candidate(first[k], second[l], rules),
                    ) by {
                        assert(before[k] == first[k]);
                        assert(candidate(before[i], second[j], rules).precedes(
                            candidate(before[k], second[l], rules),
                        ));
                    }
                    assert(out == candidate(first[i], second[j], rules));
                }
            } else {
                let j = choose|j: int|
                    0 <= j < second.len() && out == #[trigger] candidate(
                        first[last],
                        second[j],
                        rules,
                    ) && candidate(first[last], second[j], rules).precedes(mid) && forall|k: int|
                        0 <= k < j ==> candidate(first[last], second[j], rules).precedes(
                            #[trigger] candidate(first[last], second[k], rules),
                        );
                assert forall|k: int, l: int|
                    0 <= k < first.len() && 0 <= l < second.len() && taken_before(
                        k,
                        l,
                        last,
                        j,
                    ) implies candidate(first[last], second[j], rules).precedes(
                    #[trigger] candidate(first[k], second[l], rules),
                ) by {
                    if k < last {
                        assert(before[k] == first[k]);
                        assert(row_covered(first[k], second, rules));
                        assert(rules.contains_key(key_text(first[k].id, second[l].id)));
                        assert(rules.contains_key(key_text(first[last].id, second[j].id)));
                        lemma_precedes_is_an_order(
                            candidate(first[last], second[j], rules),
                            candidate(first[k], second[l], rules),
                            mid,
                        );
                    }
                }
                assert(out == candidate(first[last], second[j], rules));
            }
        }
    }
}

/// Whether the rules hold the one divisor `divisor` for every pair of the
/// two clusters.
pub open spec fn uniformly_covered(
    first: Seq<Building>,
    second: Seq<Building>,
    rules: Map<Seq<char>, u32>,
    divisor: u32,
) -> bool {
    forall|i: int, j: int|
        0 <= i < first.len() && 0 <= j < second.len() ==> rules.contains_key(
            #[trigger] key_text(first[i].id, second[j].id),
        ) && rules[key_text(first[i].id, second[j].id)] == divisor
}

/// With one divisor for all, a quotient is less exactly where its
/// separation is.
proof fn lemma_precedes_under_one_divisor(a: NormalizedSeparation, b: NormalizedSeparation)
    requires
        a.offset > 0,
        a.separation !is Unbounded,
        b.separation is Unbounded || b.offset == a.offset,
    ensures
        a.precedes(b) == (a.separation.rank() < b.separation.rank()),
{
    if a.separation is Apart && b.separation is Apart {
        let qa = a.separation->twice_gap_squared as int;
        let qb = b.separation->twice_gap_squared as int;
        let d = a.offset * a.offset;
        lemma_square_positive(a.offset);
        assert((qa * d < qb * d) == (qa < qb)) by (nonlinear_arith)
            requires
                d > 0,
        ;
    }
}

/// With one divisor for all, holding a building against a row lowers the
/// separation that a search has come to just as the plain search would.
proof fn lemma_best_in_row_under_one_divisor(
    start: NormalizedSeparation,
    b: Building,
    others: Seq<Building>,
    rules: Map<Seq<char>, u32>,
    divisor: u32,
)
    requires
        divisor > 0,
        start.separation is Unbounded || start.offset == divisor,
        forall|j: int|
            0 <= j < others.len() ==> rules.contains_key(#[trigger] key_text(b.id, others[j].id))
                && rules[key_text(b.id, others[j].id)] == divisor,
    ensures
        best_in_row(start, b, others, rules).separation == start.separation.least(
            least_to(b, others),
        ),
        best_in_row(start, b, others, rules).separation is Unbounded || best_in_row(
            start,
            b,
            others,
            rules,
        ).offset == divisor,
    decreases others.len(),
{
    if others.len() == 0 {
        lemma_least_laws(start.separation, start.separation, start.separation);
    } else {
        let before = others.drop_last();
        assert forall|j: int| 0 <= j < before.len() implies rules.contains_key(
            #[trigger] key_text(b.id, before[j].id),
        ) && rules[key_text(b.id, before[j].id)] == divisor by {
            assert(before[j] == others[j]);
        }
        lemma_best_in_row_under_one_divisor(start, b, before, rules, divisor);
        let mid = best_in_row(start, b, before, rules);
        let found = candidate(b, others.last(), rules);
        assert(others[others.len() - 1] == others.last());
        assert(rules.contains_key(key_text(b.id, others[others.len() - 1].id)));
        lemma_precedes_under_one_divisor(found, mid);
        lemma_least_laws(start.separation, least_to(b, before), found.separation);
        lemma_least_laws(mid.separation, found.separation, found.separation);
    }
}

/// Where one divisor stands for every pair, the normalised search finds the
/// pair that the plain search finds: its outcome holds the least separation
/// between the two clusters.
pub proof fn lemma_one_divisor_is_plain_search(
    first: Seq<Building>,
    second: Seq<Building>,
    rules: Map<Seq<char>, u32>,
    divisor: u32,
)
    requires
        divisor > 0,
        uniformly_covered(first, second, rules, divisor),
    ensures
        best_between(first, second, rules).separation == least_between(first, second),
        best_between(first, second, rules).separation is Unbounded || best_between(
            first,
            second,
            rules,
        ).offset == divisor,
    decreases first.len(),
{
    if first.len() > 0 {
        let before = first.drop_last();
        let last = first.len() - 1;
        assert forall|i: int, j: int|
            0 <= i < before.len() && 0 <= j < second.len() implies rules.contains_key(
            #[trigger] key_text(before[i].id, second[j].id),
        ) && rules[key_text(before[i].id, second[j].id)] == divisor by {
            assert(before[i] == first[i]);
            assert(rules.contains_key(key_text(first[i].id, second[j].id)));
        }
        lemma_one_divisor_is_plain_search(before, second, rules, divisor);
        assert forall|j: int| 0 <= j < second.len() implies rules.contains_key(
            #[trigger] key_text(first.last().id, second[j].id),
        ) && rules[key_text(first.last().id, second[j].id)] == divisor by {
            assert(first[last] == first.last());
            assert(rules.contains_key(key_text(first[last].id, second[j].id)));
        }
        lemma_best_in_row_under_one_divisor(
            best_between(before, second, rules),
            first.last(),
            second,
            rules,
            divisor,
        );
    }
}

} // verus!
