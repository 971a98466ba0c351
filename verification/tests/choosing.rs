use categorize_poi::selection::select_by_indices;

#[test]
fn select_keeps_chosen_in_order() {
    let items = vec![
        String::from("alpha"),
        String::from("beta"),
        String::from("gamma"),
    ];
    let keep = vec![2usize, 0usize];
    let r = select_by_indices(&items, &keep);
    assert_eq!(r, vec![String::from("alpha"), String::from("gamma")]);
}

#[test]
fn select_none_and_all() {
    let items = vec![String::from("a"), String::from("b")];
    assert!(select_by_indices(&items, &Vec::new()).is_empty());
    assert_eq!(select_by_indices(&items, &vec![0, 1]), items);
}

#[test]
fn out_of_range_positions_are_ignored() {
    let items = vec![String::from("a")];
    let r = select_by_indices(&items, &vec![5]);
    assert!(r.is_empty());
}
