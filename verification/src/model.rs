//! Value types of the plane: footprints, placements and buildings.

use vstd::prelude::*;
use crate::identity::{hyphenated, identity_text, parse_identity, parsed_identity};

verus! {

/// One metre in the fixed-point unit of lengths.
pub const METRE: i32 = 1_000;

/// One degree in the fixed-point unit of angles.
pub const DEGREE: i64 = 1_000_000;

/// Footprint extents. `length_m` lies along the x axis and `width_m` along
/// the y axis while the footprint is not turned. Extents are meant to be
/// positive, and it is the caller who sees to that: any value is taken as it
/// is, and an extent below nothing makes the footprint count as that much
/// narrower than a point.
#[derive(Clone, Copy, Debug, PartialEq, Eq, Structural)]
pub struct Rectangle {
    pub width_m: i32,
    pub length_m: i32,
}

/// A rigid placement: an offset and a turn.
#[derive(Clone, Copy, Debug, PartialEq, Eq, Structural)]
pub struct Position {
    pub offset_x_m: i32,
    pub offset_y_m: i32,
    pub angle_deg: i64,
}

/// A placement that only shifts.
#[derive(Clone, Copy, Debug, PartialEq, Eq, Structural)]
pub struct ClusterPosition {
    pub x: i32,
    pub y: i32,
}

/// A building: who it is, its footprint, and where it stands in the frame of
/// the cluster that owns it. The identity is the 128-bit value of a UUID and
/// plays no part in the geometry.
#[derive(Clone, Copy, Debug, PartialEq, Eq, Structural)]
pub struct Building {
    pub id: u128,
    pub rectangle: Rectangle,
    pub position: Position,
}

impl Rectangle {
    /// The footprint with the given extents. Nothing is asked of them.
    pub fn new(width_m: i32, length_m: i32) -> (r: Rectangle)
        ensures
            r == (Rectangle { width_m, length_m }),
    {
        Rectangle { width_m, length_m }
    }

    /// The extent across.
    pub fn width_m(&self) -> (r: i32)
        ensures
            r == self.width_m,
    {
        self.width_m
    }

    /// The extent along.
    pub fn length_m(&self) -> (r: i32)
        ensures
            r == self.length_m,
    {
        self.length_m
    }
}

impl Position {
    /// The placement with the given offsets and angle.
    pub fn new(offset_x_m: i32, offset_y_m: i32, angle_deg: i64) -> (r: Position)
        ensures
            r == (Position { offset_x_m, offset_y_m, angle_deg }),
    {
        Position { offset_x_m, offset_y_m, angle_deg }
    }

    /// The offset along x.
    pub fn offset_x_m(&self) -> (r: i32)
        ensures
            r == self.offset_x_m,
    {
        self.offset_x_m
    }

    /// The offset along y.
    pub fn offset_y_m(&self) -> (r: i32)
        ensures
            r == self.offset_y_m,
    {
        self.offset_y_m
    }

    /// The angle.
    pub fn angle_deg(&self) -> (r: i64)
        ensures
            r == self.angle_deg,
    {
        self.angle_deg
    }
}

impl ClusterPosition {
    /// The shift by the given offsets.
    pub fn new(x: i32, y: i32) -> (r: ClusterPosition)
        ensures
            r == (ClusterPosition { x, y }),
    {
        ClusterPosition { x, y }
    }

    /// The shift along x.
    pub fn x(&self) -> (r: i32)
        ensures
            r == self.x,
    {
        self.x
    }

    /// The shift along y.
    pub fn y(&self) -> (r: i32)
        ensures
            r == self.y,
    {
        self.y
    }
}

/// A text that is not the text of any identity.
#[derive(Clone, Copy, Debug, PartialEq, Eq, Structural)]
pub struct InvalidIdentity;

impl Building {
    /// The building whose identity is read from `id`: the text of a UUID,
    /// in any of the forms that the `uuid` crate reads.
    pub fn new(id: &str, rectangle: Rectangle, position: Position) -> (r: Result<
        Building,
        InvalidIdentity,
    >)
        ensures
            match parsed_identity(id@) {
                Some(value) => r == Ok::<Building, InvalidIdentity>(
                    Building { id: value, rectangle, position },
                ),
                None => r == Err::<Building, InvalidIdentity>(InvalidIdentity),
            },
    {
        match parse_identity(id) {
            Ok(value) => Ok(Building::with_id(value, rectangle, position)),
            Err(_) => Err(InvalidIdentity),
        }
    }

    /// The building with the identity of the given value.
    pub fn with_id(id: u128, rectangle: Rectangle, position: Position) -> (r: Building)
        ensures
            r == (Building { id, rectangle, position }),
    {
        Building { id, rectangle, position }
    }

    /// The building's footprint.
    pub fn rectangle(&self) -> (r: Rectangle)
        ensures
            r == self.rectangle,
    {
        self.rectangle
    }

    /// The building's position in the frame of its cluster.
    pub fn position(&self) -> (r: Position)
        ensures
            r == self.position,
    {
        self.position
    }

    /// The text of the building's identity. [`Building::new`] reads it back
    /// as the same identity.
    pub fn id(&self) -> (r: String)
        ensures
            r@ == hyphenated(self.id),
            parsed_identity(r@) == Some(self.id),
    {
        identity_text(self.id)
    }
}

} // verus!
