use rsrv::fav_month::{month_acceptable, FavMonths};

#[test]
fn server_rows_the_client_lacks_are_answered() {
    let mut s = FavMonths::new();
    s.add_month(&vec![202401, 1, 10, 100, 1, 2, 20, 200, 1]);
    s.match_month(&vec![(1, 10, 100, 1), (3, 30, 300, -1)]);
    assert_eq!(s.answer, vec![3, 30, 300, u64::MAX]);
    assert_eq!(s.pending_items(), vec![(2, 20, 200, 1)]);
}

#[test]
fn a_later_action_for_a_favourite_wins() {
    let mut s = FavMonths::new();
    s.add_month(&vec![0, 1, 1, 1, 1, 65537, 1, 1, 255]);
    assert_eq!(s.pending_items(), vec![(1, 1, 1, -1)]);
}

#[test]
fn pending_favourites_carry_over_to_later_months() {
    let mut s = FavMonths::new();
    s.add_month(&vec![1, 7, 70, 700, 1]);
    s.match_month(&vec![]);
    s.add_month(&vec![2]);
    s.match_month(&vec![(7, 70, 700, 1)]);
    assert!(s.answer.is_empty());
    assert!(s.pending_items().is_empty());
}

#[test]
fn month_lists_are_whole_groups() {
    assert!(!month_acceptable(&vec![]));
    assert!(month_acceptable(&vec![5]));
    assert!(!month_acceptable(&vec![5, 1, 2, 3]));
    assert!(month_acceptable(&vec![5, 1, 2, 3, 4]));
}

#[test]
fn a_client_in_sync_gets_nothing_back() {
    let mut s = FavMonths::new();
    s.add_month(&vec![3, 1, 2, 3, 1, 4, 5, 6, 0]);
    s.match_month(&vec![(1, 2, 3, 1), (4, 5, 6, 0)]);
    assert!(s.answer.is_empty());
    assert!(s.pending_items().is_empty());
}
