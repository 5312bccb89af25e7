//! Carrying a position from a cluster's own frame into the shared frame.
//!
//! Two rules exist. A [`ClusterPosition`] only shifts. A [`Position`] used as
//! a placement first turns the local offset about the origin by one of the
//! four cardinal angles and then shifts; the turn is a swap and a change of
//! sign, never trigonometry, so it is exact.

use vstd::prelude::*;
use crate::model::{ClusterPosition, Position};

verus! {

/// How far a placement angle may lie from a cardinal angle and still count
/// as that angle: strictly less than this, one hundred-thousandth of a degree.
pub const ANGLE_TOLERANCE: i64 = 10;

/// A quarter turn, 90 degrees.
pub const QUARTER_TURN: i64 = 90_000_000;

/// A half turn, 180 degrees.
pub const HALF_TURN: i64 = 180_000_000;

/// Three quarters of a turn, 270 degrees.
pub const THREE_QUARTER_TURN: i64 = 270_000_000;

/// A full turn, 360 degrees.
pub const FULL_TURN: i64 = 360_000_000;

/// Why a position could not be carried into the shared frame.
#[derive(Clone, Copy, Debug, PartialEq, Eq, Structural)]
pub enum PlacementError {
    /// The placement angle is not within tolerance of 0, 90, 180 or 270 degrees.
    UnsupportedAngle,
    /// A coordinate of the result does not fit the coordinate type.
    OutOfRange,
}

/// Whether `angle` counts as the cardinal angle `cardinal`.
pub open spec fn near(angle: int, cardinal: int) -> bool {
    cardinal - ANGLE_TOLERANCE < angle < cardinal + ANGLE_TOLERANCE
}

/// The number of quarter turns that a placement angle stands for, if any.
pub open spec fn quarter_turns(angle: int) -> Option<int> {
    if near(angle, 0) {
        Some(0)
    } else if near(angle, QUARTER_TURN as int) {
        Some(1)
    } else if near(angle, HALF_TURN as int) {
        Some(2)
    } else if near(angle, THREE_QUARTER_TURN as int) {
        Some(3)
    } else {
        None
    }
}

/// The x offset of `(x, y)` after `turns` quarter turns.
pub open spec fn turned_x(x: int, y: int, turns: int) -> int {
    if turns == 0 {
        x
    } else if turns == 1 {
        y
    } else if turns == 2 {
        -x
    } else {
        -y
    }
}

/// The y offset of `(x, y)` after `turns` quarter turns.
pub open spec fn turned_y(x: int, y: int, turns: int) -> int {
    if turns == 0 {
        y
    } else if turns == 1 {
        -x
    } else if turns == 2 {
        -y
    } else {
        x
    }
}

/// What is left of `angle` after taking out whole turns towards nothing: a
/// value of the sign of `angle` and smaller than a full turn. An angle below
/// nothing stays below nothing: minus 90 degrees is left as it is, not made
/// into 270.
pub open spec fn within_turn(angle: int) -> int {
    if angle >= 0 {
        angle % (FULL_TURN as int)
    } else {
        -((-angle) % (FULL_TURN as int))
    }
}

/// Whether `v` is a coordinate that a [`Position`] can hold.
pub open spec fn is_coordinate(v: int) -> bool {
    i32::MIN <= v <= i32::MAX
}

/// The position with the given offsets and angle, or `OutOfRange`.
pub open spec fn position_at(x: int, y: int, angle: int) -> Result<Position, PlacementError> {
    if is_coordinate(x) && is_coordinate(y) {
        Ok(Position { offset_x_m: x as i32, offset_y_m: y as i32, angle_deg: angle as i64 })
    } else {
        Err(PlacementError::OutOfRange)
    }
}

/// Turn-then-shift: what [`get_position_for_building`] returns.
pub open spec fn turned_and_shifted(local: Position, cluster: Position) -> Result<
    Position,
    PlacementError,
> {
    match quarter_turns(cluster.angle_deg as int) {
        None => Err(PlacementError::UnsupportedAngle),
        Some(turns) => position_at(
            turned_x(local.offset_x_m as int, local.offset_y_m as int, turns) + cluster.offset_x_m,
            turned_y(local.offset_x_m as int, local.offset_y_m as int, turns) + cluster.offset_y_m,
            within_turn(local.angle_deg + cluster.angle_deg),
        ),
    }
}

/// Shift only: what [`_get_global_position_for_building`] returns.
pub open spec fn shifted(local: Position, cluster: ClusterPosition) -> Result<
    Position,
    PlacementError,
> {
    position_at(
        local.offset_x_m + cluster.x,
        local.offset_y_m + cluster.y,
        local.angle_deg as int,
    )
}

/// The position with offsets `x` and `y`, when both fit.
fn checked_position(x: i64, y: i64, angle_deg: i64) -> (r: Result<Position, PlacementError>)
    ensures
        r == position_at(x as int, y as int, angle_deg as int),
{
    if x < i32::MIN as i64 || x > i32::MAX as i64 || y < i32::MIN as i64 || y > i32::MAX as i64 {
        Err(PlacementError::OutOfRange)
    } else {
        Ok(Position { offset_x_m: x as i32, offset_y_m: y as i32, angle_deg })
    }
}

/// Carries `building_position` into the shared frame through a placement
/// that turns by a cardinal angle and then shifts.
///
/// The cluster angle must lie within [`ANGLE_TOLERANCE`] of 0, 90, 180 or 270
/// degrees. The angle of the result is the sum of both angles with whole
/// turns taken out towards nothing, so that it keeps the sign of the sum: a
/// sum of minus 90 degrees stays minus 90 degrees. Either way of writing an
/// angle fills the same ground.
pub fn get_position_for_building(building_position: Position, cluster_position: Position) -> (r:
    Result<Position, PlacementError>)
    ensures
        r == turned_and_shifted(building_position, cluster_position),
{
    let x: i64 = building_position.offset_x_m as i64;
    let y: i64 = building_position.offset_y_m as i64;
    let angle: i64 = cluster_position.angle_deg;
    let turned_x: i64;
    let turned_y: i64;
    if -ANGLE_TOLERANCE < angle && angle < ANGLE_TOLERANCE {
        turned_x = x;
        turned_y = y;
    } else if QUARTER_TURN - ANGLE_TOLERANCE < angle && angle < QUARTER_TURN + ANGLE_TOLERANCE {
        turned_x = y;
        turned_y = -x;
    } else if HALF_TURN - ANGLE_TOLERANCE < angle && angle < HALF_TURN + ANGLE_TOLERANCE {
        turned_x = -x;
        turned_y = -y;
    } else if THREE_QUARTER_TURN - ANGLE_TOLERANCE < angle && angle < THREE_QUARTER_TURN
        + ANGLE_TOLERANCE {
        turned_x = -y;
        turned_y = x;
    } else {
        return Err(PlacementError::UnsupportedAngle);
    }
    let sum: i128 = building_position.angle_deg as i128 + angle as i128;
    let reduced: i128 = sum % (FULL_TURN as i128);
    checked_position(
        turned_x + cluster_position.offset_x_m as i64,
        turned_y + cluster_position.offset_y_m as i64,
        reduced as i64,
    )
}

/// Carries `local_position` into the shared frame through a placement that
/// only shifts. The angle is kept as it is.
pub fn _get_global_position_for_building(
    local_position: Position,
    cluster_position: ClusterPosition,
) -> (r: Result<Position, PlacementError>)
    ensures
        r == shifted(local_position, cluster_position),
{
    checked_position(
        local_position.offset_x_m as i64 + cluster_position.x as i64,
        local_position.offset_y_m as i64 + cluster_position.y as i64,
        local_position.angle_deg,
    )
}

/// How a cluster's frame maps into the shared frame, by either rule.
#[derive(Clone, Copy, Debug, PartialEq, Eq, Structural)]
pub enum Placement {
    /// Shift only.
    Shift(ClusterPosition),
    /// Turn by a cardinal angle, then shift.
    TurnThenShift(Position),
}

/// Where a local position comes to lie under a placement.
pub open spec fn placed(local: Position, placement: Placement) -> Result<Position, PlacementError> {
    match placement {
        Placement::Shift(cluster) => shifted(local, cluster),
        Placement::TurnThenShift(cluster) => turned_and_shifted(local, cluster),
    }
}

/// Carries `local_position` into the shared frame under either rule.
pub fn globalize_position(local_position: Position, cluster_placement: Placement) -> (r: Result<
    Position,
    PlacementError,
>)
    ensures
        r == placed(local_position, cluster_placement),
{
    match cluster_placement {
        Placement::Shift(cluster) => _get_global_position_for_building(local_position, cluster),
        Placement::TurnThenShift(cluster) => get_position_for_building(local_position, cluster),
    }
}

/// A placement with no turn and no shift leaves a position as it is, as long
/// as the position's own angle is already less than a full turn in size.
pub proof fn lemma_identity_placement(local: Position)
    requires
        -FULL_TURN < local.angle_deg < FULL_TURN,
    ensures
        turned_and_shifted(local, Position { offset_x_m: 0, offset_y_m: 0, angle_deg: 0 }) == Ok::<
            Position,
            PlacementError,
        >(local),
{
}

/// A shift by nothing leaves every position as it is.
pub proof fn lemma_identity_shift(local: Position)
    ensures
        shifted(local, ClusterPosition { x: 0, y: 0 }) == Ok::<Position, PlacementError>(local),
{
}

/// Two pure turns whose quarter turns add up to whole turns (0 and 0, 90 and
/// 270, 180 and 180, 270 and 90 degrees) bring the offsets back: if the first
/// turn succeeds, so does the second, and the offsets are again the local ones.
pub proof fn lemma_turns_cancel(local: Position, first: Position, second: Position)
    requires
        first.offset_x_m == 0 && first.offset_y_m == 0,
        second.offset_x_m == 0 && second.offset_y_m == 0,
        quarter_turns(first.angle_deg as int) is Some,
        quarter_turns(second.angle_deg as int) is Some,
        (quarter_turns(first.angle_deg as int)->0 + quarter_turns(second.angle_deg as int)->0) % 4
            == 0,
        turned_and_shifted(local, first) is Ok,
    ensures
        turned_and_shifted(turned_and_shifted(local, first)->Ok_0, second) is Ok,
        turned_and_shifted(turned_and_shifted(local, first)->Ok_0, second)->Ok_0.offset_x_m
            == local.offset_x_m,
        turned_and_shifted(turned_and_shifted(local, first)->Ok_0, second)->Ok_0.offset_y_m
            == local.offset_y_m,
{
}

/// Whether `angle` is exactly one of the four cardinal angles.
pub open spec fn is_cardinal(angle: int) -> bool {
    angle == 0 || angle == QUARTER_TURN || angle == HALF_TURN || angle == THREE_QUARTER_TURN
}

/// Two pure turns by cardinal angles that add up to a full turn (90 and 270,
/// 180 and 180, 270 and 90 degrees) undo each other: a position whose angle
/// lies from nothing up to a full turn comes back as it was, offsets and
/// angle. This holds wherever the first turn can be made at all; it cannot
/// where it would change the sign of an offset that is the least value a
/// coordinate holds.
pub proof fn lemma_full_turn_restores_position(local: Position, first: Position, second: Position)
    requires
        first.offset_x_m == 0 && first.offset_y_m == 0,
        second.offset_x_m == 0 && second.offset_y_m == 0,
        is_cardinal(first.angle_deg as int),
        is_cardinal(second.angle_deg as int),
        first.angle_deg + second.angle_deg == FULL_TURN,
        0 <= local.angle_deg < FULL_TURN,
        turned_and_shifted(local, first) is Ok,
    ensures
        turned_and_shifted(turned_and_shifted(local, first)->Ok_0, second) == Ok::<
            Position,
            PlacementError,
        >(local),
{
}

/// A pure turn by a cardinal angle can be made of every position whose
/// offsets are above the least value a coordinate holds.
pub proof fn lemma_pure_turn_succeeds(local: Position, turn: Position)
    requires
        turn.offset_x_m == 0 && turn.offset_y_m == 0,
        quarter_turns(turn.angle_deg as int) is Some,
        local.offset_x_m > i32::MIN,
        local.offset_y_m > i32::MIN,
    ensures
        turned_and_shifted(local, turn) is Ok,
{
}

} // verus!
