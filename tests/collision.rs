use gravitati::collision::{collision_groups, colliding_indices};

fn matrix(n: usize, pairs: &[(usize, usize)]) -> Vec<Vec<bool>> {
    let mut m = vec![vec![false; n]; n];
    for &(i, j) in pairs {
        m[i][j] = true;
    }
    m
}

#[test]
fn no_bodies_no_collisions() {
    let hits: Vec<Vec<bool>> = vec![];
    assert!(collision_groups(&hits).is_empty());
    assert!(colliding_indices(&hits).is_empty());
}

#[test]
fn a_body_meeting_only_itself_is_no_collision() {
    let hits = matrix(3, &[(0, 0), (1, 1), (2, 2)]);
    assert!(collision_groups(&hits).is_empty());
    assert!(colliding_indices(&hits).is_empty());
}

#[test]
fn symmetric_pair_is_reported_once() {
    let hits = matrix(3, &[(0, 2), (2, 0), (2, 2)]);
    assert_eq!(collision_groups(&hits), vec![vec![0, 2], vec![2, 0]]);
    assert_eq!(colliding_indices(&hits), vec![0, 2]);
}

#[test]
fn groups_list_partners_in_index_order() {
    let hits = matrix(4, &[(1, 3), (1, 0), (1, 1), (3, 2)]);
    assert_eq!(collision_groups(&hits), vec![vec![1, 0, 3], vec![3, 2]]);
    assert_eq!(colliding_indices(&hits), vec![1, 0, 3, 2]);
}

#[test]
fn one_sided_hit_still_names_both_bodies() {
    let hits = matrix(2, &[(1, 0)]);
    assert_eq!(collision_groups(&hits), vec![vec![1, 0]]);
    assert_eq!(colliding_indices(&hits), vec![1, 0]);
}
