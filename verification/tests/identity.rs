use rust_force::model::{Building, ClusterPosition, InvalidIdentity, Position, Rectangle};
use rust_force::offsets::offset_key;

fn plain() -> (Rectangle, Position) {
    (Rectangle::new(2_000, 4_000), Position::new(0, 0, 0))
}

#[test]
fn an_identity_is_read_from_its_text() {
    let (rectangle, position) = plain();
    let b = Building::new("a1a2a3a4-b1b2-c1c2-d1d2-d3d4d5d6d7d8", rectangle, position).unwrap();
    assert_eq!(b.id, 0xa1a2a3a4b1b2c1c2d1d2d3d4d5d6d7d8);
    assert_eq!(b.rectangle(), rectangle);
    assert_eq!(b.position(), position);
}

#[test]
fn other_forms_of_the_text_are_read_too() {
    let (rectangle, position) = plain();
    let value: u128 = 0xa1a2a3a4b1b2c1c2d1d2d3d4d5d6d7d8;
    for text in [
        "a1a2a3a4b1b2c1c2d1d2d3d4d5d6d7d8",
        "A1A2A3A4-B1B2-C1C2-D1D2-D3D4D5D6D7D8",
        "{a1a2a3a4-b1b2-c1c2-d1d2-d3d4d5d6d7d8}",
        "urn:uuid:a1a2a3a4-b1b2-c1c2-d1d2-d3d4d5d6d7d8",
    ] {
        assert_eq!(Building::new(text, rectangle, position).map(|b| b.id), Ok(value));
    }
}

#[test]
fn a_text_that_is_no_identity_is_refused() {
    let (rectangle, position) = plain();
    for text in ["", "X", "a1a2a3a4-b1b2-c1c2-d1d2-d3d4d5d6d7d", "g1a2a3a4-b1b2-c1c2-d1d2-d3d4d5d6d7d8"] {
        assert_eq!(Building::new(text, rectangle, position), Err(InvalidIdentity));
    }
}

#[test]
fn the_text_of_an_identity() {
    let (rectangle, position) = plain();
    let b = Building::with_id(0xa1a2a3a4b1b2c1c2d1d2d3d4d5d6d7d8, rectangle, position);
    assert_eq!(b.id(), "a1a2a3a4-b1b2-c1c2-d1d2-d3d4d5d6d7d8");
    let small = Building::with_id(0x1f, rectangle, position);
    assert_eq!(small.id(), "00000000-0000-0000-0000-00000000001f");
    let all = Building::with_id(u128::MAX, rectangle, position);
    assert_eq!(all.id(), "ffffffff-ffff-ffff-ffff-ffffffffffff");
}

#[test]
fn text_and_identity_go_back_and_forth() {
    let (rectangle, position) = plain();
    let b = Building::with_id(0x0123456789abcdef0123456789abcdef, rectangle, position);
    let again = Building::new(b.id().as_str(), rectangle, position).unwrap();
    assert_eq!(again, b);
}

#[test]
fn a_key_names_the_first_building_first() {
    let (rectangle, position) = plain();
    let x = Building::with_id(1, rectangle, position);
    let y = Building::with_id(2, rectangle, position);
    assert_eq!(
        offset_key(&x, &y),
        "00000000-0000-0000-0000-000000000001_00000000-0000-0000-0000-000000000002"
    );
    assert_eq!(
        offset_key(&y, &x),
        "00000000-0000-0000-0000-000000000002_00000000-0000-0000-0000-000000000001"
    );
}

#[test]
fn the_parts_of_the_value_types() {
    let r = Rectangle::new(2_000, 4_000);
    assert_eq!((r.width_m(), r.length_m()), (2_000, 4_000));
    let p = Position::new(-1, 2, 90_000_000);
    assert_eq!((p.offset_x_m(), p.offset_y_m(), p.angle_deg()), (-1, 2, 90_000_000));
    let c = ClusterPosition::new(7, -8);
    assert_eq!((c.x(), c.y()), (7, -8));
}
