use asciimon::vector::{clamp, down, left, right, up, Vector2D};
use std::collections::HashMap;

#[test]
fn vector_arithmetic_and_equality() {
    let a = Vector2D::new(2, -3);
    let b = Vector2D::new(-5, 4);
    assert_eq!(a.plus(b), Vector2D::new(-3, 1));
    assert_eq!(a.neg(), Vector2D::new(-2, 3));
    assert_eq!(a, Vector2D::new(2, -3));
    assert_ne!(a, b);
}

#[test]
fn vectors_work_as_map_keys() {
    let mut m: HashMap<Vector2D, i32> = HashMap::new();
    m.insert(Vector2D::new(1, 2), 10);
    m.insert(Vector2D::new(1, 2), 20);
    m.insert(Vector2D::new(-1, 2), 30);
    assert_eq!(m.len(), 2);
    assert_eq!(m[&Vector2D::new(1, 2)], 20);
}

#[test]
fn clamp_bounds_offsets_to_unit_steps() {
    assert_eq!(clamp(17, -1, 1), 1);
    assert_eq!(clamp(-17, -1, 1), -1);
    assert_eq!(clamp(0, -1, 1), 0);
    assert_eq!(clamp(1, -1, 1), 1);
    assert_eq!(clamp(-1, -1, 1), -1);
}

#[test]
fn unit_steps_follow_screen_orientation() {
    assert_eq!(up(), Vector2D::new(0, -1));
    assert_eq!(down(), Vector2D::new(0, 1));
    assert_eq!(left(), Vector2D::new(-1, 0));
    assert_eq!(right(), Vector2D::new(1, 0));
}
