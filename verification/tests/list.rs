use glassware::channel::Delivery;
use glassware::list::{ChannelList, Event, OutOfRange};
use glassware::register::ChannelRegister;

fn take(list: &mut ChannelList<u32>, feed: usize) -> Option<(bool, u64, u32)> {
    match list.next(feed) {
        Delivery::Item(Event::Update { index, event }) => Some((true, index, event)),
        Delivery::Item(Event::Remove(index)) => Some((false, index, 0)),
        _ => None,
    }
}

fn idle(list: &mut ChannelList<u32>, feed: usize) -> bool {
    matches!(list.next(feed), Delivery::Pending)
}

fn over(list: &mut ChannelList<u32>, feed: usize) -> bool {
    matches!(list.next(feed), Delivery::Ended)
}

#[test]
fn snapshot_then_removal_then_drifted_update() {
    let mut list = ChannelList::new(vec![10u32, 32, 54, 63]);
    let feed = list.observe();
    assert_eq!(take(&mut list, feed), Some((true, 0, 10)));
    assert_eq!(take(&mut list, feed), Some((true, 1, 32)));
    assert_eq!(take(&mut list, feed), Some((true, 2, 54)));
    assert_eq!(take(&mut list, feed), Some((true, 3, 63)));
    assert!(idle(&mut list, feed));
    assert_eq!(list.remove(1), Ok(()));
    assert_eq!(list.len(), 3);
    assert_eq!(take(&mut list, feed), Some((false, 1, 0)));
    assert!(idle(&mut list, feed));
    assert_eq!(list.get(1), Some(54));
    assert_eq!(list.set(1, 55), Ok(()));
    assert_eq!(take(&mut list, feed), Some((true, 2, 55)));
    assert!(idle(&mut list, feed));
}

#[test]
fn built_list_keeps_values_in_order() {
    let list = ChannelList::new(vec![10u32, 32, 54, 63]);
    assert_eq!(list.len(), 4);
    assert_eq!(list.get(0), Some(10));
    assert_eq!(list.get(1), Some(32));
    assert_eq!(list.get(2), Some(54));
    assert_eq!(list.get(3), Some(63));
    assert_eq!(list.get(4), None);
    let empty: ChannelList<u32> = ChannelList::new(vec![]);
    assert_eq!(empty.len(), 0);
    assert_eq!(empty.get(0), None);
}

#[test]
fn remove_out_of_range_is_rejected_and_changes_nothing() {
    let mut list = ChannelList::new(vec![10u32, 32, 54, 63]);
    let feed = list.observe();
    assert_eq!(list.remove(4), Err(OutOfRange { index: 4, len: 4 }));
    assert_eq!(list.remove(usize::MAX), Err(OutOfRange { index: usize::MAX, len: 4 }));
    assert_eq!(list.len(), 4);
    assert_eq!(list.get(3), Some(63));
    assert_eq!(take(&mut list, feed), Some((true, 0, 10)));
    assert_eq!(take(&mut list, feed), Some((true, 1, 32)));
    assert_eq!(take(&mut list, feed), Some((true, 2, 54)));
    assert_eq!(take(&mut list, feed), Some((true, 3, 63)));
    assert!(idle(&mut list, feed));
    let mut empty: ChannelList<u32> = ChannelList::new(vec![]);
    assert_eq!(empty.remove(0), Err(OutOfRange { index: 0, len: 0 }));
}

#[test]
fn set_out_of_range_is_rejected() {
    let mut list = ChannelList::new(vec![1u32, 2]);
    assert_eq!(list.set(2, 9), Err(OutOfRange { index: 2, len: 2 }));
    assert_eq!(list.get(0), Some(1));
    assert_eq!(list.get(1), Some(2));
}

#[test]
fn removed_member_goes_silent_and_others_carry_on() {
    let mut list = ChannelList::new(vec![1u32, 2, 3]);
    let feed = list.observe();
    assert_eq!(list.set(1, 20), Ok(()));
    assert_eq!(list.remove(1), Ok(()));
    assert_eq!(list.set(0, 10), Ok(()));
    assert_eq!(list.set(1, 30), Ok(()));
    let mut seen = Vec::new();
    while let Some(event) = take(&mut list, feed) {
        seen.push(event);
    }
    let of_removed: Vec<u32> = seen.iter().filter(|e| e.0 && e.1 == 1).map(|e| e.2).collect();
    let of_first: Vec<u32> = seen.iter().filter(|e| e.0 && e.1 == 0).map(|e| e.2).collect();
    let of_last: Vec<u32> = seen.iter().filter(|e| e.0 && e.1 == 2).map(|e| e.2).collect();
    let removals: Vec<u64> = seen.iter().filter(|e| !e.0).map(|e| e.1).collect();
    assert_eq!(of_removed, vec![2, 20]);
    assert_eq!(of_first, vec![1, 10]);
    assert_eq!(of_last, vec![3, 30]);
    assert_eq!(removals, vec![1]);
    assert!(idle(&mut list, feed));
}

#[test]
fn push_is_invisible_to_existing_feeds() {
    let mut list = ChannelList::new(vec![1u32]);
    let before = list.observe();
    list.push(2);
    assert_eq!(list.len(), 2);
    assert_eq!(list.get(1), Some(2));
    assert_eq!(list.set(1, 22), Ok(()));
    assert_eq!(take(&mut list, before), Some((true, 0, 1)));
    assert!(idle(&mut list, before));
    let after = list.observe();
    assert_eq!(take(&mut list, after), Some((true, 0, 1)));
    assert_eq!(take(&mut list, after), Some((true, 1, 22)));
    assert!(idle(&mut list, after));
}

#[test]
fn ready_sources_take_turns() {
    let mut list = ChannelList::new(vec![1u32, 2]);
    let feed = list.observe();
    assert_eq!(list.set(0, 11), Ok(()));
    assert_eq!(list.set(0, 12), Ok(()));
    assert_eq!(list.set(1, 21), Ok(()));
    assert_eq!(take(&mut list, feed), Some((true, 0, 1)));
    assert_eq!(take(&mut list, feed), Some((true, 1, 2)));
    assert_eq!(take(&mut list, feed), Some((true, 0, 11)));
    assert_eq!(take(&mut list, feed), Some((true, 1, 21)));
    assert_eq!(take(&mut list, feed), Some((true, 0, 12)));
    assert!(idle(&mut list, feed));
}

#[test]
fn removals_take_their_turn_among_updates() {
    let mut list = ChannelList::new(vec![1u32, 2, 3]);
    let feed = list.observe();
    assert_eq!(list.remove(2), Ok(()));
    assert_eq!(list.remove(0), Ok(()));
    assert_eq!(take(&mut list, feed), Some((true, 0, 1)));
    assert_eq!(take(&mut list, feed), Some((true, 1, 2)));
    assert_eq!(take(&mut list, feed), Some((true, 2, 3)));
    assert_eq!(take(&mut list, feed), Some((false, 2, 0)));
    assert_eq!(take(&mut list, feed), Some((false, 0, 0)));
    assert!(idle(&mut list, feed));
}

#[test]
fn two_feeds_each_get_their_own_snapshot_and_tail() {
    let mut list = ChannelList::new(vec![1u32, 2]);
    let early = list.observe();
    assert_eq!(list.set(0, 10), Ok(()));
    let late = list.observe();
    assert_eq!(list.set(1, 20), Ok(()));
    list.unsubscribe(early);
    assert!(over(&mut list, early));
    assert_eq!(list.set(0, 100), Ok(()));
    assert_eq!(take(&mut list, late), Some((true, 0, 10)));
    assert_eq!(take(&mut list, late), Some((true, 1, 2)));
    assert_eq!(take(&mut list, late), Some((true, 0, 100)));
    assert_eq!(take(&mut list, late), Some((true, 1, 20)));
    assert!(idle(&mut list, late));
    assert!(over(&mut list, early));
}

#[test]
fn feed_ends_only_after_teardown_and_drain() {
    let mut list = ChannelList::new(vec![1u32, 2]);
    let feed = list.observe();
    assert_eq!(list.remove(0), Ok(()));
    assert_eq!(take(&mut list, feed), Some((true, 0, 1)));
    assert_eq!(take(&mut list, feed), Some((true, 1, 2)));
    assert_eq!(take(&mut list, feed), Some((false, 0, 0)));
    assert!(idle(&mut list, feed));
    assert_eq!(list.remove(0), Ok(()));
    assert_eq!(take(&mut list, feed), Some((false, 0, 0)));
    assert!(idle(&mut list, feed));
    list.close();
    assert_eq!(list.len(), 0);
    assert!(over(&mut list, feed));
}

#[test]
fn teardown_keeps_what_was_already_queued() {
    let mut list = ChannelList::new(vec![7u32]);
    let feed = list.observe();
    list.close();
    assert_eq!(take(&mut list, feed), Some((true, 0, 7)));
    assert!(over(&mut list, feed));
}

#[test]
fn unknown_feed_reads_as_ended() {
    let mut list = ChannelList::new(vec![7u32]);
    assert!(over(&mut list, 0));
    list.unsubscribe(5);
    assert_eq!(list.len(), 1);
}

#[test]
fn member_cell_type_is_the_collections_member() {
    let mut cell: ChannelRegister<u32> = ChannelRegister::new(4);
    let handle = cell.observe();
    let event: Event<ChannelRegister<u32>> = match cell.next(handle) {
        Delivery::Item(value) => Event::Update { index: 0, event: value },
        _ => Event::Remove(0),
    };
    assert!(matches!(event, Event::Update { index: 0, event: 4 }));
}
