use wanipaper::region::{Region, TupleVecExt, Vec2};

fn v(x: i32, y: i32) -> Vec2 {
    Vec2 { x, y }
}

#[test]
fn new_computes_dim() {
    let r = Region::new(v(10, 20), v(110, 220));
    assert_eq!(r.min, v(10, 20));
    assert_eq!(r.max, v(110, 220));
    assert_eq!(r.dim, v(100, 200));
}

#[test]
fn combine_commutative_concrete() {
    let a = Region::new(v(0, 0), v(100, 100));
    let b = Region::new(v(-50, 20), v(80, 300));
    assert_eq!(a.combine(b), b.combine(a));
}

#[test]
fn combine_associative_concrete() {
    let a = Region::new(v(0, 0), v(100, 100));
    let b = Region::new(v(-50, 20), v(80, 300));
    let c = Region::new(v(40, -10), v(400, 50));
    assert_eq!(a.combine(b).combine(c), a.combine(b.combine(c)));
}

#[test]
fn combine_two_displays_bounding_box() {
    let left = Region::new(v(0, 0), v(100, 100));
    let right = Region::new(v(100, 0), v(300, 100));
    let both = left.combine(right);
    assert_eq!(both.min, v(0, 0));
    assert_eq!(both.max, v(300, 100));
    assert_eq!(both.dim, v(300, 100));
}

#[test]
fn combine_of_nested_is_outer() {
    let outer = Region::new(v(-10, -10), v(500, 500));
    let inner = Region::new(v(0, 0), v(10, 10));
    assert_eq!(outer.combine(inner), outer);
}

#[test]
fn tuple_conversions() {
    assert_eq!((3i32, -4i32).to_vec2(), v(3, -4));
    assert_eq!((7u32, 9u32).to_vec2(), v(7, 9));
}
