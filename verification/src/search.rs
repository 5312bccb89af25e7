//! The least separation between the buildings of two clusters.
//!
//! Every building of both clusters is first carried into the shared frame;
//! then every building of the first cluster is held against every building
//! of the second, and the least separation found is the answer.

use vstd::prelude::*;
use crate::distance::{
    calculate_distance_between_two_buildings,
    lemma_lies_across_within_turn,
    lemma_separation_of_same_ground,
    same_ground,
    separation,
    Separation,
};
use crate::model::{Building, ClusterPosition, Position};
use crate::transform::{globalize_position, placed, Placement, PlacementError};

verus! {

/// A building as it stands in the shared frame, or why it cannot.
pub open spec fn placed_building(b: Building, placement: Placement) -> Result<
    Building,
    PlacementError,
> {
    match placed(b.position, placement) {
        Ok(position) => Ok(Building { id: b.id, rectangle: b.rectangle, position }),
        Err(e) => Err(e),
    }
}

/// A cluster as it stands in the shared frame, building by building, or the
/// error of the first building that cannot be placed.
pub open spec fn placed_cluster(cluster: Seq<Building>, placement: Placement) -> Result<
    Seq<Building>,
    PlacementError,
>
    decreases cluster.len(),
{
    if cluster.len() == 0 {
        Ok(Seq::empty())
    } else {
        match placed_cluster(cluster.drop_last(), placement) {
            Err(e) => Err(e),
            Ok(before) => match placed_building(cluster.last(), placement) {
                Err(e) => Err(e),
                Ok(b) => Ok(before.push(b)),
            },
        }
    }
}

/// The least separation between `b` and any of `others`; unbounded when
/// there are none.
pub open spec fn least_to(b: Building, others: Seq<Building>) -> Separation
    decreases others.len(),
{
    if others.len() == 0 {
        Separation::Unbounded
    } else {
        least_to(b, others.drop_last()).least(separation(b, others.last()))
    }
}

/// The least separation between any building of `first` and any of
/// `second`; unbounded when either is empty.
pub open spec fn least_between(first: Seq<Building>, second: Seq<Building>) -> Separation
    decreases first.len(),
{
    if first.len() == 0 {
        Separation::Unbounded
    } else {
        least_between(first.drop_last(), second).least(least_to(first.last(), second))
    }
}

/// What a search of two clusters under two placements returns: the error of
/// the first building that cannot be placed, those of the first cluster
/// before those of the second, or else the least separation.
pub open spec fn search_result(
    first: Seq<Building>,
    second: Seq<Building>,
    first_placement: Placement,
    second_placement: Placement,
) -> Result<Separation, PlacementError> {
    match placed_cluster(first, first_placement) {
        Err(e) => Err(e),
        Ok(first_placed) => match placed_cluster(second, second_placement) {
            Err(e) => Err(e),
            Ok(second_placed) => Ok(least_between(first_placed, second_placed)),
        },
    }
}

/// Carries every building of a cluster into the shared frame.
pub fn place_cluster(cluster: &Vec<Building>, placement: Placement) -> (r: Result<
    Vec<Building>,
    PlacementError,
>)
    ensures
        match r {
            Ok(v) => placed_cluster(cluster@, placement) == Ok::<Seq<Building>, PlacementError>(
                v@,
            ),
            Err(e) => placed_cluster(cluster@, placement) == Err::<Seq<Building>, PlacementError>(
                e,
            ),
        },
{
    let mut out: Vec<Building> = Vec::new();
    let mut i: usize = 0;
    while i < cluster.len()
        invariant
            i <= cluster.len(),
            placed_cluster(cluster@.take(i as int), placement) == Ok::<
                Seq<Building>,
                PlacementError,
            >(out@),
        decreases cluster.len() - i,
    {
        let b: Building = cluster[i];
        proof {
            assert(cluster@.take(i + 1).drop_last() == cluster@.take(i as int));
            assert(cluster@.take(i + 1).last() == b);
        }
        match globalize_position(b.position, placement) {
            Ok(position) => {
                out.push(Building { id: b.id, rectangle: b.rectangle, position });
            },
            Err(e) => {
                proof {
                    lemma_placement_error_stays(cluster@, placement, i + 1);
                }
                return Err(e);
            },
        }
        i += 1;
    }
    proof {
        assert(cluster@.take(i as int) == cluster@);
    }
    Ok(out)
}

/// Once a leading part of a cluster cannot be placed, neither can the whole,
/// and the error is the same.
proof fn lemma_placement_error_stays(cluster: Seq<Building>, placement: Placement, n: int)
    requires
        0 <= n <= cluster.len(),
        placed_cluster(cluster.take(n), placement) is Err,
    ensures
        placed_cluster(cluster, placement) == placed_cluster(cluster.take(n), placement),
    decreases cluster.len(),
{
    if n < cluster.len() {
        assert(cluster.drop_last().take(n) == cluster.take(n));
        lemma_placement_error_stays(cluster.drop_last(), placement, n);
    } else {
        assert(cluster.take(n) == cluster);
    }
}

/// The least separation between one building and the buildings of a
/// cluster, all in the shared frame.
pub fn nearest_in_cluster(building: &Building, others: &Vec<Building>) -> (r: Separation)
    ensures
        r == least_to(*building, others@),
{
    let mut least: Separation = Separation::Unbounded;
    let mut j: usize = 0;
    while j < others.len()
        invariant
            j <= others.len(),
            least == least_to(*building, others@.take(j as int)),
        decreases others.len() - j,
    {
        proof {
            assert(others@.take(j + 1).drop_last() == others@.take(j as int));
            assert(others@.take(j + 1).last() == others@[j as int]);
        }
        least = least.min(calculate_distance_between_two_buildings(*building, others[j]));
        j += 1;
    }
    proof {
        assert(others@.take(j as int) == others@);
    }
    least
}

/// The least separation between two clusters that stand in the shared
/// frame, found by going through the first cluster building by building.
pub fn least_separation(first: &Vec<Building>, second: &Vec<Building>) -> (r: Separation)
    ensures
        r == least_between(first@, second@),
{
    let mut least: Separation = Separation::Unbounded;
    let mut i: usize = 0;
    while i < first.len()
        invariant
            i <= first.len(),
            least == least_between(first@.take(i as int), second@),
        decreases first.len() - i,
    {
        proof {
            assert(first@.take(i + 1).drop_last() == first@.take(i as int));
            assert(first@.take(i + 1).last() == first@[i as int]);
        }
        least = least.min(nearest_in_cluster(&first[i], second));
        i += 1;
    }
    proof {
        assert(first@.take(i as int) == first@);
    }
    least
}

/// The least separation between the buildings of two clusters, each under
/// its own placement.
pub fn min_distance_between_clusters(
    cluster_a: &Vec<Building>,
    cluster_b: &Vec<Building>,
    placement_a: Placement,
    placement_b: Placement,
) -> (r: Result<Separation, PlacementError>)
    ensures
        r == search_result(cluster_a@, cluster_b@, placement_a, placement_b),
{
    let first: Vec<Building> = match place_cluster(cluster_a, placement_a) {
        Ok(v) => v,
        Err(e) => {
            return Err(e);
        },
    };
    let second: Vec<Building> = match place_cluster(cluster_b, placement_b) {
        Ok(v) => v,
        Err(e) => {
            return Err(e);
        },
    };
    Ok(least_separation(&first, &second))
}

/// The least separation between the buildings of two clusters that are
/// shifted into the shared frame.
pub fn calculate_distance_between_two_clusters(
    first_cluster_buildings: Vec<Building>,
    second_cluster_buildings: Vec<Building>,
    first_cluster_position: ClusterPosition,
    second_cluster_position: ClusterPosition,
) -> (r: Result<Separation, PlacementError>)
    ensures
        r == search_result(
            first_cluster_buildings@,
            second_cluster_buildings@,
            Placement::Shift(first_cluster_position),
            Placement::Shift(second_cluster_position),
        ),
{
    min_distance_between_clusters(
        &first_cluster_buildings,
        &second_cluster_buildings,
        Placement::Shift(first_cluster_position),
        Placement::Shift(second_cluster_position),
    )
}

/// The least separation between the buildings of two clusters that are
/// turned by a cardinal angle and shifted into the shared frame.
pub fn calculate_distance_between_two_turned_clusters(
    first_cluster_buildings: Vec<Building>,
    second_cluster_buildings: Vec<Building>,
    first_cluster_position: Position,
    second_cluster_position: Position,
) -> (r: Result<Separation, PlacementError>)
    ensures
        r == search_result(
            first_cluster_buildings@,
            second_cluster_buildings@,
            Placement::TurnThenShift(first_cluster_position),
            Placement::TurnThenShift(second_cluster_position),
        ),
{
    min_distance_between_clusters(
        &first_cluster_buildings,
        &second_cluster_buildings,
        Placement::TurnThenShift(first_cluster_position),
        Placement::TurnThenShift(second_cluster_position),
    )
}

/// A cluster that can be placed keeps its size, and each of its buildings
/// comes to lie where the placement carries it.
pub proof fn lemma_placed_cluster_elements(cluster: Seq<Building>, placement: Placement)
    requires
        placed_cluster(cluster, placement) is Ok,
    ensures
        placed_cluster(cluster, placement)->Ok_0.len() == cluster.len(),
        forall|i: int|
            0 <= i < cluster.len() ==> placed_building(#[trigger] cluster[i], placement) == Ok::<
                Building,
                PlacementError,
            >(placed_cluster(cluster, placement)->Ok_0[i]),
    decreases cluster.len(),
{
    if cluster.len() > 0 {
        lemma_placed_cluster_elements(cluster.drop_last(), placement);
        assert forall|i: int| 0 <= i < cluster.len() implies placed_building(
            #[trigger] cluster[i],
            placement,
        ) == Ok::<Building, PlacementError>(placed_cluster(cluster, placement)->Ok_0[i]) by {
            if i < cluster.len() - 1 {
                assert(cluster.drop_last()[i] == cluster[i]);
            }
        }
    }
}

/// The least separation from one building to a cluster undercuts none of
/// the cluster's buildings' separations, and is that of one of them unless
/// the cluster is empty.
pub proof fn lemma_least_to_is_minimum(b: Building, others: Seq<Building>)
    ensures
        forall|j: int|
            0 <= j < others.len() ==> least_to(b, others).rank() <= (#[trigger] separation(
                b,
                others[j],
            )).rank(),
        others.len() == 0 ==> least_to(b, others) == Separation::Unbounded,
        others.len() > 0 ==> exists|j: int|
            0 <= j < others.len() && least_to(b, others) == #[trigger] separation(b, others[j]),
    decreases others.len(),
{
    if others.len() > 0 {
        let before = others.drop_last();
        lemma_least_to_is_minimum(b, before);
        assert forall|j: int| 0 <= j < others.len() implies least_to(b, others).rank() <= (
        #[trigger] separation(b, others[j])).rank() by {
            if j < before.len() {
                assert(before[j] == others[j]);
            }
        }
        if least_to(b, others) == separation(b, others.last()) {
            assert(others[others.len() - 1] == others.last());
        } else {
            let j = choose|j: int|
                0 <= j < before.len() && least_to(b, before) == #[trigger] separation(b, before[j]);
            assert(before[j] == others[j]);
        }
    }
}

/// The least separation between two clusters undercuts no pair's
/// separation. It is unbounded when either cluster is empty, and otherwise
/// it is the separation of some pair.
pub proof fn lemma_least_between_is_minimum(first: Seq<Building>, second: Seq<Building>)
    ensures
        forall|i: int, j: int|
            0 <= i < first.len() && 0 <= j < second.len() ==> least_between(first, second).rank()
                <= (#[trigger] separation(first[i], second[j])).rank(),
        first.len() == 0 || second.len() == 0 ==> least_between(first, second)
            == Separation::Unbounded,
        first.len() > 0 && second.len() > 0 ==> exists|i: int, j: int|
            0 <= i < first.len() && 0 <= j < second.len() && least_between(first, second)
                == #[trigger] separation(first[i], second[j]),
    decreases first.len(),
{
    if first.len() > 0 {
        let before = first.drop_last();
        lemma_least_between_is_minimum(before, second);
        lemma_least_to_is_minimum(first.last(), second);
        assert forall|i: int, j: int|
            0 <= i < first.len() && 0 <= j < second.len() implies least_between(
            first,
            second,
        ).rank() <= (#[trigger] separation(first[i], second[j])).rank() by {
            if i < before.len() {
                assert(before[i] == first[i]);
            }
        }
        if second.len() > 0 {
            if least_between(first, second) == least_to(first.last(), second) {
                let j = choose|j: int|
                    0 <= j < second.len() && least_to(first.last(), second) == #[trigger] separation(
                        first.last(),
                        second[j],
                    );
                assert(first[first.len() - 1] == first.last());
                assert(least_between(first, second) == separation(first[first.len() - 1], second[j]));
            } else {
                let (i, j) = choose|i: int, j: int|
                    0 <= i < before.len() && 0 <= j < second.len() && least_between(before, second)
                        == #[trigger] separation(before[i], second[j]);
                assert(before[i] == first[i]);
                assert(least_between(first, second) == separation(first[i], second[j]));
            }
        }
    }
}

/// A search in which either cluster is empty finds no constraint: unless a
/// building cannot be placed, its outcome is the unbounded separation.
pub proof fn lemma_empty_cluster_is_unbounded(
    first: Seq<Building>,
    second: Seq<Building>,
    first_placement: Placement,
    second_placement: Placement,
)
    requires
        first.len() == 0 || second.len() == 0,
        search_result(first, second, first_placement, second_placement) is Ok,
    ensures
        search_result(first, second, first_placement, second_placement) == Ok::<
            Separation,
            PlacementError,
        >(Separation::Unbounded),
{
    lemma_placed_cluster_elements(first, first_placement);
    lemma_placed_cluster_elements(second, second_placement);
    lemma_least_between_is_minimum(
        placed_cluster(first, first_placement)->Ok_0,
        placed_cluster(second, second_placement)->Ok_0,
    );
}

/// Whether two clusters are of one size and fill the same ground, building
/// by building.
pub open spec fn same_grounds(first: Seq<Building>, second: Seq<Building>) -> bool {
    &&& first.len() == second.len()
    &&& forall|i: int| 0 <= i < first.len() ==> same_ground(#[trigger] first[i], second[i])
}

/// The least separation between two clusters depends on the ground that
/// their buildings fill alone.
pub proof fn lemma_least_between_of_same_grounds(
    first: Seq<Building>,
    second: Seq<Building>,
    third: Seq<Building>,
    fourth: Seq<Building>,
)
    requires
        same_grounds(first, third),
        same_grounds(second, fourth),
    ensures
        least_between(first, second) == least_between(third, fourth),
    decreases first.len(),
{
    if first.len() > 0 {
        assert(same_grounds(first.drop_last(), third.drop_last())) by {
            assert forall|i: int| 0 <= i < first.len() - 1 implies same_ground(
                #[trigger] first.drop_last()[i],
                third.drop_last()[i],
            ) by {
                assert(same_ground(first[i], third[i]));
            }
        }
        lemma_least_between_of_same_grounds(first.drop_last(), second, third.drop_last(), fourth);
        assert(same_ground(first[first.len() - 1], third[first.len() - 1]));
        lemma_least_to_of_same_grounds(first.last(), second, third.last(), fourth);
    }
}

/// The least separation from a building to a cluster depends on the ground
/// that the buildings fill alone.
proof fn lemma_least_to_of_same_grounds(
    a: Building,
    others: Seq<Building>,
    c: Building,
    those: Seq<Building>,
)
    requires
        same_ground(a, c),
        same_grounds(others, those),
    ensures
        least_to(a, others) == least_to(c, those),
    decreases others.len(),
{
    if others.len() > 0 {
        assert(same_grounds(others.drop_last(), those.drop_last())) by {
            assert forall|i: int| 0 <= i < others.len() - 1 implies same_ground(
                #[trigger] others.drop_last()[i],
                those.drop_last()[i],
            ) by {
                assert(same_ground(others[i], those[i]));
            }
        }
        lemma_least_to_of_same_grounds(a, others.drop_last(), c, those.drop_last());
        assert(same_ground(others[others.len() - 1], those[others.len() - 1]));
        lemma_separation_of_same_ground(a, others.last(), c, those.last());
    }
}

/// A shift and a turn by nothing with the same shift place a cluster alike:
/// both fail with the same error, or both succeed and the buildings fill the
/// same ground.
proof fn lemma_shift_places_as_turn_by_nothing(cluster: Seq<Building>, x: i32, y: i32)
    ensures
        match placed_cluster(cluster, Placement::Shift(ClusterPosition { x, y })) {
            Ok(shifted) => {
                &&& placed_cluster(
                    cluster,
                    Placement::TurnThenShift(
                        Position { offset_x_m: x, offset_y_m: y, angle_deg: 0 },
                    ),
                ) is Ok
                &&& same_grounds(
                    shifted,
                    placed_cluster(
                        cluster,
                        Placement::TurnThenShift(
                            Position { offset_x_m: x, offset_y_m: y, angle_deg: 0 },
                        ),
                    )->Ok_0,
                )
            },
            Err(e) => placed_cluster(
                cluster,
                Placement::TurnThenShift(Position { offset_x_m: x, offset_y_m: y, angle_deg: 0 }),
            ) == Err::<Seq<Building>, PlacementError>(e),
        },
    decreases cluster.len(),
{
    if cluster.len() > 0 {
        lemma_shift_places_as_turn_by_nothing(cluster.drop_last(), x, y);
        lemma_shift_places_building_as_turn_by_nothing(cluster.last(), x, y);
    }
}

/// A shift and a turn by nothing with the same shift place a building
/// alike: both fail with the same error, or both succeed and fill the same
/// ground.
proof fn lemma_shift_places_building_as_turn_by_nothing(b: Building, x: i32, y: i32)
    ensures
        match placed_building(b, Placement::Shift(ClusterPosition { x, y })) {
            Ok(shifted) => {
                &&& placed_building(
                    b,
                    Placement::TurnThenShift(
                        Position { offset_x_m: x, offset_y_m: y, angle_deg: 0 },
                    ),
                ) is Ok
                &&& same_ground(
                    shifted,
                    placed_building(
                        b,
                        Placement::TurnThenShift(
                            Position { offset_x_m: x, offset_y_m: y, angle_deg: 0 },
                        ),
                    )->Ok_0,
                )
            },
            Err(e) => placed_building(
                b,
                Placement::TurnThenShift(Position { offset_x_m: x, offset_y_m: y, angle_deg: 0 }),
            ) == Err::<Building, PlacementError>(e),
        },
{
    lemma_lies_across_within_turn(b.position.angle_deg as int);
}

/// The rule that only shifts is the rule that turns and shifts, with a turn
/// by nothing: a search finds the same under either.
pub proof fn lemma_shift_is_turn_by_nothing(
    first: Seq<Building>,
    second: Seq<Building>,
    first_shift: ClusterPosition,
    second_shift: ClusterPosition,
)
    ensures
        search_result(
            first,
            second,
            Placement::Shift(first_shift),
            Placement::Shift(second_shift),
        ) == search_result(
            first,
            second,
            Placement::TurnThenShift(
                Position { offset_x_m: first_shift.x, offset_y_m: first_shift.y, angle_deg: 0 },
            ),
            Placement::TurnThenShift(
                Position { offset_x_m: second_shift.x, offset_y_m: second_shift.y, angle_deg: 0 },
            ),
        ),
{
    lemma_shift_places_as_turn_by_nothing(first, first_shift.x, first_shift.y);
    lemma_shift_places_as_turn_by_nothing(second, second_shift.x, second_shift.y);
    let shifted_first = placed_cluster(first, Placement::Shift(first_shift));
    let shifted_second = placed_cluster(second, Placement::Shift(second_shift));
    if shifted_first is Ok && shifted_second is Ok {
        lemma_least_between_of_same_grounds(
            shifted_first->Ok_0,
            shifted_second->Ok_0,
            placed_cluster(
                first,
                Placement::TurnThenShift(
                    Position { offset_x_m: first_shift.x, offset_y_m: first_shift.y, angle_deg: 0 },
                ),
            )->Ok_0,
            placed_cluster(
                second,
                Placement::TurnThenShift(
                    Position {
                        offset_x_m: second_shift.x,
                        offset_y_m: second_shift.y,
                        angle_deg: 0,
                    },
                ),
            )->Ok_0,
        );
    }
}

} // verus!
