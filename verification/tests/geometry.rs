use olympic_lib::geometry::{Angle, Point};
use olympic_lib::sorting::{sort_angles, sort_points};
use std::cmp::Ordering;

fn xy(p: &Point) -> (i64, i64) {
    (p.x, p.y)
}

#[test]
fn new_precomputes_squared_norm() {
    let p = Point::new(3, -4);
    assert_eq!(p.x, 3);
    assert_eq!(p.y, -4);
    assert_eq!(p.norm_sq, 25);
    assert_eq!(Point::new(0, 0).norm_sq, 0);
}

#[test]
fn bottom_classification() {
    assert!(Point::new(0, -1).bottom());
    assert!(Point::new(-1, 0).bottom());
    assert!(Point::new(5, -3).bottom());
    assert!(!Point::new(0, 1).bottom());
    assert!(!Point::new(1, 0).bottom());
    assert!(!Point::new(0, 0).bottom());
    assert!(!Point::new(-2, 1).bottom());
}

#[test]
fn dot_and_cross_products() {
    let p = Point::new(2, 3);
    let q = Point::new(-1, 4);
    assert_eq!(p.dot(&q), 10);
    assert_eq!(p.cross(&q), -11);
    assert_eq!(q.cross(&p), 11);
}

#[test]
fn point_compare_is_irreflexive_on_samples() {
    let pts = [
        Point::new(1, 0),
        Point::new(0, 1),
        Point::new(-1, 0),
        Point::new(0, -1),
        Point::new(7, -5),
    ];
    for p in pts.iter() {
        assert_eq!(p.cmp(p), Ordering::Equal);
        assert!(!p.lt(p));
    }
}

#[test]
fn axis_points_sort_bottom_first_then_by_cross() {
    let mut pts = vec![
        Point::new(1, 0),
        Point::new(0, 1),
        Point::new(-1, 0),
        Point::new(0, -1),
    ];
    sort_points(&mut pts);
    let got: Vec<(i64, i64)> = pts.iter().map(xy).collect();
    assert_eq!(got, vec![(0, -1), (-1, 0), (0, 1), (1, 0)]);
}

#[test]
fn sorting_a_sorted_vector_is_a_no_op() {
    let mut pts = vec![
        Point::new(2, -7),
        Point::new(0, -1),
        Point::new(-3, 0),
        Point::new(-5, 2),
        Point::new(0, 4),
        Point::new(9, 1),
        Point::new(3, 0),
    ];
    sort_points(&mut pts);
    let once: Vec<(i64, i64)> = pts.iter().map(xy).collect();
    sort_points(&mut pts);
    let twice: Vec<(i64, i64)> = pts.iter().map(xy).collect();
    assert_eq!(once, twice);
}

#[test]
fn stable_order_of_collinear_points_is_preserved() {
    // (1, 1) and (2, 2) are order-equal; sorting must not swap them.
    let mut pts = vec![Point::new(1, 1), Point::new(2, 2)];
    sort_points(&mut pts);
    assert_eq!(pts.iter().map(xy).collect::<Vec<_>>(), vec![(1, 1), (2, 2)]);
}

#[test]
fn collinear_same_ray_points_are_order_equal() {
    let p = Point::new(1, 1);
    let q = Point::new(3, 3);
    assert!(p.eq(&q));
    assert_eq!(p.cmp(&q), Ordering::Equal);
    assert_eq!(p.partial_cmp(&q), Some(Ordering::Equal));
    let r = Point::new(1, 2);
    assert!(!p.eq(&r));
}

#[test]
fn angle_new_derives_dot_and_norm_product() {
    let v = Point::new(1, 0);
    let w = Point::new(1, 1);
    let a = Angle::new(&v, &w);
    assert_eq!(a.dot_product, 1);
    assert_eq!(a.norm_prod_sq, 2);
}

#[test]
fn acute_before_right_before_obtuse() {
    let base = Point::new(1, 0);
    let acute_arm = Point::new(1, 1);
    let right_arm = Point::new(0, 1);
    let obtuse_arm = Point::new(-1, 1);
    let acute = Angle::new(&base, &acute_arm);
    let right = Angle::new(&base, &right_arm);
    let obtuse = Angle::new(&base, &obtuse_arm);
    assert_eq!(acute.cmp(&right), Ordering::Less);
    assert_eq!(right.cmp(&obtuse), Ordering::Less);
    assert_eq!(acute.cmp(&obtuse), Ordering::Less);
    assert_eq!(obtuse.cmp(&acute), Ordering::Greater);
    assert!(acute.lt(&right));
    assert!(!right.lt(&acute));
}

#[test]
fn orthogonal_angles_with_different_norms_are_equal() {
    let a = Angle::new(&Point::new(1, 0), &Point::new(0, 1));
    let b = Angle::new(&Point::new(2, 0), &Point::new(0, 3));
    assert!(a.eq(&b));
    assert_eq!(a.cmp(&b), Ordering::Equal);
    assert_eq!(a.partial_cmp(&b), Some(Ordering::Equal));
}

#[test]
fn smaller_acute_angle_comes_first() {
    let base = Point::new(1, 0);
    // 45 degrees: cos^2 = 1/2; steeper arm: cos^2 = 1/5, a wider angle.
    let narrow = Angle::new(&base, &Point::new(1, 1));
    let wide = Angle::new(&base, &Point::new(1, 2));
    assert_eq!(narrow.cmp(&wide), Ordering::Less);
}

#[test]
fn wider_obtuse_angle_comes_last() {
    let base = Point::new(1, 0);
    // 135 degrees versus about 153 degrees.
    let narrow = Angle::new(&base, &Point::new(-1, 1));
    let wide = Angle::new(&base, &Point::new(-2, 1));
    assert_eq!(narrow.cmp(&wide), Ordering::Less);
    assert_eq!(wide.cmp(&narrow), Ordering::Greater);
}

#[test]
fn sorting_sorted_angles_is_a_no_op() {
    let base = Point::new(1, 0);
    let arms = [
        Point::new(2, 1),
        Point::new(1, 1),
        Point::new(0, 1),
        Point::new(-1, 1),
        Point::new(-3, 1),
    ];
    let mut angles: Vec<Angle> = arms.iter().map(|w| Angle::new(&base, w)).collect();
    sort_angles(&mut angles);
    let once: Vec<(i64, i64)> = angles.iter().map(|a| (a.dot_product, a.norm_prod_sq)).collect();
    sort_angles(&mut angles);
    let twice: Vec<(i64, i64)> = angles.iter().map(|a| (a.dot_product, a.norm_prod_sq)).collect();
    assert_eq!(once, twice);
    // The sorted order is by growing angle: acute arms first.
    assert!(angles[0].dot_product > 0);
    assert_eq!(angles[2].dot_product, 0);
    assert!(angles[4].dot_product < 0);
}
