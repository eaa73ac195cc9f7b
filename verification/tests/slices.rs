use olympic_lib::slices_extensions::{bisect_left, bisect_right, rotate_backward, rotate_forward};

#[test]
fn bisect_right_finds_rightmost_insertion_point() {
    let xs: [i64; 4] = [1, 3, 3, 5];
    assert_eq!(bisect_right(&xs, 3), 3);
    assert_eq!(bisect_right(&xs, 0), 0);
    assert_eq!(bisect_right(&xs, 1), 1);
    assert_eq!(bisect_right(&xs, 4), 3);
    assert_eq!(bisect_right(&xs, 6), 4);
    let empty: [i64; 0] = [];
    assert_eq!(bisect_right(&empty, 7), 0);
}

#[test]
fn bisect_left_finds_leftmost_insertion_point() {
    let xs: [i64; 4] = [1, 3, 3, 5];
    assert_eq!(bisect_left(&xs, 3), 1);
    assert_eq!(bisect_left(&xs, 0), 0);
    assert_eq!(bisect_left(&xs, 1), 0);
    assert_eq!(bisect_left(&xs, 4), 3);
    assert_eq!(bisect_left(&xs, 6), 4);
    let empty: [i64; 0] = [];
    assert_eq!(bisect_left(&empty, 7), 0);
}

#[test]
fn rotate_forward_moves_elements_up() {
    let mut v: Vec<i64> = vec![1, 2, 3, 4, 5];
    rotate_forward(&mut v, 2);
    assert_eq!(v, vec![4, 5, 1, 2, 3]);
}

#[test]
fn rotate_backward_moves_elements_down() {
    let mut v: Vec<i64> = vec![1, 2, 3, 4, 5];
    rotate_backward(&mut v, 2);
    assert_eq!(v, vec![3, 4, 5, 1, 2]);
}

#[test]
fn rotation_by_multiples_of_the_length_is_identity() {
    let mut v: Vec<i64> = vec![10, 20, 30];
    rotate_forward(&mut v, 0);
    assert_eq!(v, vec![10, 20, 30]);
    rotate_forward(&mut v, 3);
    assert_eq!(v, vec![10, 20, 30]);
    rotate_backward(&mut v, 6);
    assert_eq!(v, vec![10, 20, 30]);
}

#[test]
fn rotation_wraps_past_the_length() {
    let mut v: Vec<i64> = vec![1, 2, 3, 4, 5];
    rotate_forward(&mut v, 7);
    assert_eq!(v, vec![4, 5, 1, 2, 3]);
    let mut w: Vec<i64> = vec![1, 2, 3, 4, 5];
    rotate_backward(&mut w, 7);
    assert_eq!(w, vec![3, 4, 5, 1, 2]);
}

#[test]
fn forward_and_backward_rotations_cancel() {
    let mut v: Vec<i64> = vec![9, -1, 4, 4, 0, 7];
    rotate_forward(&mut v, 4);
    rotate_backward(&mut v, 4);
    assert_eq!(v, vec![9, -1, 4, 4, 0, 7]);
}
