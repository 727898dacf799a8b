use nightjar::recent::most_recent;

#[test]
fn no_stamp_no_choice() {
    assert_eq!(most_recent(&vec![]), None);
}

#[test]
fn latest_stamp_is_chosen() {
    assert_eq!(most_recent(&vec![5]), Some(0));
    assert_eq!(most_recent(&vec![1, 9, 3]), Some(1));
    assert_eq!(most_recent(&vec![9, 1, 3]), Some(0));
    assert_eq!(most_recent(&vec![1, 3, 9]), Some(2));
    assert_eq!(most_recent(&vec![-4, -9, -2, -7]), Some(2));
}

#[test]
fn among_equal_stamps_the_last_is_chosen() {
    assert_eq!(most_recent(&vec![7, 7, 7]), Some(2));
    assert_eq!(most_recent(&vec![2, 8, 5, 8, 1]), Some(3));
}

#[test]
fn choice_agrees_with_stable_sort_and_reverse() {
    let stamps: Vec<i128> = vec![3, 10, 10, 2, 10, 7, 1];
    let mut order: Vec<usize> = (0..stamps.len()).collect();
    order.sort_by(|a, b| stamps[*a].cmp(&stamps[*b]));
    order.reverse();
    assert_eq!(most_recent(&stamps), order.first().copied());
}
