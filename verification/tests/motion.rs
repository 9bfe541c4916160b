use cavetown::motion::{milli_from_f32_bits, normalize_direction, step_position};
use cavetown::{Vec2Milli, Vec3Bits, Vec3Milli};

fn bits(x: f32, y: f32, z: f32) -> Vec3Bits {
    Vec3Bits { x: x.to_bits(), y: y.to_bits(), z: z.to_bits() }
}

#[test]
fn decode_finite_values() {
    assert_eq!(milli_from_f32_bits(0.0f32.to_bits()), Some(0));
    assert_eq!(milli_from_f32_bits((-0.0f32).to_bits()), Some(0));
    assert_eq!(milli_from_f32_bits(1.0f32.to_bits()), Some(1000));
    assert_eq!(milli_from_f32_bits((-1.0f32).to_bits()), Some(-1000));
    assert_eq!(milli_from_f32_bits(3.0f32.to_bits()), Some(3000));
    assert_eq!(milli_from_f32_bits(0.5f32.to_bits()), Some(500));
    assert_eq!(milli_from_f32_bits(0.1f32.to_bits()), Some(100));
}

#[test]
fn decode_rejects_non_finite_values() {
    assert_eq!(milli_from_f32_bits(f32::NAN.to_bits()), None);
    assert_eq!(milli_from_f32_bits(f32::INFINITY.to_bits()), None);
    assert_eq!(milli_from_f32_bits(f32::NEG_INFINITY.to_bits()), None);
}

#[test]
fn decode_caps_huge_values() {
    assert_eq!(milli_from_f32_bits(1.0e30f32.to_bits()), Some(1_000_000));
    assert_eq!(milli_from_f32_bits((-1.0e30f32).to_bits()), Some(-1_000_000));
}

#[test]
fn zero_direction_normalizes_to_zero() {
    assert_eq!(normalize_direction(bits(0.0, 0.0, 0.0)), Vec2Milli { x: 0, y: 0 });
}

#[test]
fn nan_direction_normalizes_to_zero() {
    assert_eq!(normalize_direction(bits(f32::NAN, 1.0, 0.0)), Vec2Milli { x: 0, y: 0 });
}

#[test]
fn infinite_direction_normalizes_to_zero() {
    assert_eq!(normalize_direction(bits(f32::INFINITY, 0.0, 0.0)), Vec2Milli { x: 0, y: 0 });
}

#[test]
fn three_four_normalizes_to_unit_vector() {
    assert_eq!(normalize_direction(bits(3.0, 4.0, 0.0)), Vec2Milli { x: 600, y: 800 });
}

#[test]
fn axis_directions_normalize_to_unit_length() {
    assert_eq!(normalize_direction(bits(1.0, 0.0, 0.0)), Vec2Milli { x: 1000, y: 0 });
    assert_eq!(normalize_direction(bits(0.0, -1.0, 0.0)), Vec2Milli { x: 0, y: -1000 });
    assert_eq!(normalize_direction(bits(7.0, 0.0, 0.0)), Vec2Milli { x: 1000, y: 0 });
}

#[test]
fn integration_advances_along_direction() {
    // speed 400 units/s, direction +x, elapsed 0.1 s: x advances by exactly
    // 40 units, y and z unchanged.
    let p = Vec3Milli { x: 0, y: 123, z: -7 };
    let r = step_position(p, Vec2Milli { x: 1000, y: 0 }, 400_000, 100);
    assert_eq!(r, Vec3Milli { x: 40_000, y: 123, z: -7 });
}

#[test]
fn integration_with_zero_direction_stands_still() {
    let p = Vec3Milli { x: 55, y: 66, z: 77 };
    let r = step_position(p, Vec2Milli { x: 0, y: 0 }, 400_000, 100);
    assert_eq!(r, p);
}

#[test]
fn integration_truncates_toward_zero() {
    // One millisecond at 400 units/s along -x moves by -400 millis.
    let p = Vec3Milli { x: 0, y: 0, z: 0 };
    let r = step_position(p, Vec2Milli { x: -1000, y: 0 }, 400_000, 1);
    assert_eq!(r, Vec3Milli { x: -400, y: 0, z: 0 });
}
