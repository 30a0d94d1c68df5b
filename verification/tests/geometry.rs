use rusterizer::geometry::{Line, Rect, Tri, V2};

#[test]
fn test_add() {
    let a = V2::new([10, 20]);
    let b = V2::new([30, 30]);
    let c = a.add(&b);
    assert_eq!(c.x, 40);
    assert_eq!(c.y, 50);
}

#[test]
fn test_sub() {
    let a = V2::new([100, 50]);
    let b = V2::new([50, 30]);
    let c = a.sub(&b);
    let d = b.sub(&a);
    assert_eq!(c.x, 50);
    assert_eq!(c.y, 20);
    assert_eq!(d.x, -50);
    assert_eq!(d.y, -20);
}

#[test]
fn test_dotprod() {
    let a = V2::new([1, 3]);
    let b = V2::new([4, -2]);
    let d1 = a.dot(&b);
    let d2 = b.dot(&a);
    assert_eq!(-2, d1);
    assert_eq!(-2, d2);
}

#[test]
fn test_add_sub_roundtrip() {
    let a = V2::new([123, -456]);
    let b = V2::new([-789, 1011]);
    let c = a.add(&b).sub(&b);
    assert_eq!(c, a);
}

#[test]
fn test_scale() {
    let a = V2::new([3, -4]);
    let s = a.scale(5);
    assert_eq!(s.x, 15);
    assert_eq!(s.y, -20);
}

#[test]
fn test_segment_and_line_to() {
    let a = V2::new([1, 2]);
    let b = V2::new([3, 4]);
    let l1 = a.segment(&b);
    assert_eq!(l1.a, a);
    assert_eq!(l1.b, b);
    let l2 = a.line_to([3, 4]);
    assert_eq!(l2.a, a);
    assert_eq!(l2.b, b);
}

#[test]
fn test_line_rect_bounding_box() {
    let l = Line::new([5, 2], [1, 7]);
    let r = l.rect();
    assert_eq!(r.p, V2::new([1, 2]));
    assert_eq!(r.w, 4);
    assert_eq!(r.h, 5);
}

#[test]
fn test_rect_new() {
    let r = Rect::new([2, 3], 7, 9);
    assert_eq!(r.p, V2::new([2, 3]));
    assert_eq!(r.w, 7);
    assert_eq!(r.h, 9);
}

#[test]
fn test_tri_rect_bounding_box() {
    let t = Tri::new([1, 5], [-2, 3], [4, 0]);
    let r = t.rect();
    assert_eq!(r.p, V2::new([-2, 0]));
    assert_eq!(r.w, 6);
    assert_eq!(r.h, 5);
}

#[test]
fn test_tri_contains_interior_and_edges() {
    let t = Tri::new([0, 0], [10, 0], [0, 10]);
    // interior points
    assert!(t.contains(V2::new([2, 2])));
    assert!(t.contains(V2::new([1, 1])));
    // the far edge u + v = 1 is excluded
    assert!(!t.contains(V2::new([5, 5])));
    // outside the triangle entirely
    assert!(!t.contains(V2::new([11, 0])));
    assert!(!t.contains(V2::new([-1, 3])));
    assert!(!t.contains(V2::new([3, -1])));
}

#[test]
fn test_tri_contains_vertices() {
    let t = Tri::new([0, 0], [10, 0], [0, 10]);
    // v2 and v3 lie on the excluded far edge
    assert!(!t.contains(V2::new([10, 0])));
    assert!(!t.contains(V2::new([0, 10])));
    // v1, at u = v = 0, passes the asymmetric boundary test
    assert!(t.contains(V2::new([0, 0])));
}

#[test]
fn test_tri_contains_centroid() {
    let t = Tri::new([0, 0], [9, 0], [0, 9]);
    // the centroid of this triangle is the integer point (3, 3)
    assert!(t.contains(V2::new([3, 3])));
}

#[test]
fn test_tri_degenerate_contains_nothing() {
    let t = Tri::new([0, 0], [5, 5], [10, 10]);
    for x in -12..12 {
        for y in -12..12 {
            assert!(!t.contains(V2::new([x, y])));
        }
    }
    let point = Tri::new([3, 3], [3, 3], [3, 3]);
    assert!(!point.contains(V2::new([3, 3])));
}
