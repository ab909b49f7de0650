use gravitati::util::reduce2d;

#[test]
fn reduce2d_keeps_first_seen_order() {
    let r = reduce2d(vec![vec![1, 2], vec![2, 3], vec![4]]);
    assert_eq!(r, vec![1, 2, 3, 4]);
}

#[test]
fn reduce2d_of_nothing_is_empty() {
    let empty: Vec<Vec<u32>> = vec![];
    assert_eq!(reduce2d(empty), Vec::<u32>::new());
    assert_eq!(reduce2d(vec![Vec::<u32>::new(), vec![]]), Vec::<u32>::new());
}

#[test]
fn reduce2d_drops_repeats_inside_a_row() {
    let r = reduce2d(vec![vec![5, 5, 5], vec![7, 5], vec![7]]);
    assert_eq!(r, vec![5, 7]);
}

#[test]
fn reduce2d_on_strings() {
    let r = reduce2d(vec![vec!["b", "a"], vec!["a", "c", "b"]]);
    assert_eq!(r, vec!["b", "a", "c"]);
}
