use glassware::mux::select;

#[test]
fn select_takes_the_first_ready_at_or_after_the_cursor() {
    assert_eq!(select(&vec![true, false, true, true], 1), Some(2));
    assert_eq!(select(&vec![true, false, true, true], 2), Some(2));
    assert_eq!(select(&vec![true, false, true, true], 0), Some(0));
}

#[test]
fn select_wraps_around() {
    assert_eq!(select(&vec![false, true, false, false], 2), Some(1));
    assert_eq!(select(&vec![true, true, false], 2), Some(0));
}

#[test]
fn select_with_cursor_past_the_end_starts_over() {
    assert_eq!(select(&vec![false, true, true], 3), Some(1));
    assert_eq!(select(&vec![false, true, true], 40), Some(1));
}

#[test]
fn select_finds_nothing_when_nothing_is_ready() {
    assert_eq!(select(&vec![false, false, false], 1), None);
    assert_eq!(select(&vec![], 0), None);
}
