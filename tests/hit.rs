use raycast::hit::nearest_hit;

#[test]
fn no_spheres_is_a_miss() {
    assert_eq!(nearest_hit(&[]), None);
}

#[test]
fn every_sphere_missed_is_a_miss() {
    assert_eq!(nearest_hit(&[None, None, None]), None);
}

#[test]
fn nearest_is_chosen() {
    assert_eq!(nearest_hit(&[Some(9), None, Some(2), Some(5)]), Some(2));
    assert_eq!(nearest_hit(&[Some(1), Some(2)]), Some(0));
    assert_eq!(nearest_hit(&[None, Some(4)]), Some(1));
}

#[test]
fn equal_distances_go_to_the_first_sphere() {
    assert_eq!(nearest_hit(&[Some(3), Some(3)]), Some(0));
    assert_eq!(nearest_hit(&[None, Some(7), Some(2), Some(2)]), Some(2));
}

#[test]
fn hits_behind_the_origin_count() {
    assert_eq!(nearest_hit(&[Some(5), Some(-3)]), Some(1));
    assert_eq!(nearest_hit(&[Some(i32::MAX), Some(i32::MIN)]), Some(1));
}
