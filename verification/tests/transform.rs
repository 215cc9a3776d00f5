use w3drs::transform_system::{hierarchy_update_order, hierarchy_update_order_within};

fn sample_links() -> Vec<(u32, Option<u32>, Vec<u32>)> {
    vec![
        (1, None, vec![2, 3]),
        (2, Some(1), vec![4]),
        (3, Some(1), vec![]),
        (4, Some(2), vec![]),
        (5, None, vec![]),
    ]
}

#[test]
fn hierarchy_order_is_breadth_first_from_the_roots() {
    let links = sample_links();
    assert_eq!(hierarchy_update_order(&links), vec![1, 5, 2, 3, 4]);
}

#[test]
fn hierarchy_order_visits_children_without_links() {
    let links = vec![(1, None, vec![9, 8]), (8, Some(1), vec![7])];
    assert_eq!(hierarchy_update_order(&links), vec![1, 9, 8, 7]);
}

#[test]
fn hierarchy_order_uses_the_first_link_of_an_entity() {
    let links = vec![(1, None, vec![2]), (2, Some(1), vec![3]), (2, Some(1), vec![4])];
    assert_eq!(hierarchy_update_order(&links), vec![1, 2, 3]);
}

#[test]
fn hierarchy_order_of_no_links_is_empty() {
    let links: Vec<(u32, Option<u32>, Vec<u32>)> = vec![];
    assert_eq!(hierarchy_update_order(&links), Vec::<u32>::new());
}

#[test]
fn bounded_hierarchy_walk_stops_when_steps_run_out() {
    let links = sample_links();
    assert_eq!(hierarchy_update_order_within(&links, 4), None);
    assert_eq!(hierarchy_update_order_within(&links, 5), Some(vec![1, 5, 2, 3, 4]));
    assert_eq!(hierarchy_update_order_within(&links, 100), Some(vec![1, 5, 2, 3, 4]));
    // a cycle below a root never lets the walk end
    let cyclic = vec![(1, None, vec![2]), (2, Some(1), vec![1])];
    assert_eq!(hierarchy_update_order_within(&cyclic, 1000), None);
}
