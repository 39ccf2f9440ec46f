use glassware::channel::Delivery;
use glassware::register::ChannelRegister;

#[test]
fn observe_yields_current_value_first() {
    let mut cell = ChannelRegister::new(10u32);
    let handle = cell.observe();
    assert_eq!(handle, 0);
    assert!(cell.is_ready(handle));
    assert_eq!(cell.next(handle), Delivery::Item(10));
    assert_eq!(cell.next(handle), Delivery::Pending);
}

#[test]
fn observe_after_set_yields_the_new_value_first() {
    let mut cell = ChannelRegister::new(10u32);
    cell.set(11);
    cell.set(12);
    let handle = cell.observe();
    assert_eq!(cell.next(handle), Delivery::Item(12));
    assert_eq!(cell.next(handle), Delivery::Pending);
}

#[test]
fn sets_arrive_in_order_without_loss() {
    let mut cell = ChannelRegister::new(0u32);
    let handle = cell.observe();
    cell.set(1);
    cell.set(2);
    cell.set(2);
    cell.set(3);
    assert_eq!(cell.get(), 3);
    assert_eq!(cell.next(handle), Delivery::Item(0));
    assert_eq!(cell.next(handle), Delivery::Item(1));
    assert_eq!(cell.next(handle), Delivery::Item(2));
    assert_eq!(cell.next(handle), Delivery::Item(2));
    assert_eq!(cell.next(handle), Delivery::Item(3));
    assert_eq!(cell.next(handle), Delivery::Pending);
}

#[test]
fn polls_may_interleave_with_sets() {
    let mut cell = ChannelRegister::new(0u32);
    let handle = cell.observe();
    assert_eq!(cell.next(handle), Delivery::Item(0));
    cell.set(1);
    assert_eq!(cell.next(handle), Delivery::Item(1));
    assert_eq!(cell.next(handle), Delivery::Pending);
    cell.set(2);
    assert_eq!(cell.next(handle), Delivery::Item(2));
}

#[test]
fn late_subscriber_starts_from_its_own_snapshot() {
    let mut cell = ChannelRegister::new(1u32);
    let early = cell.observe();
    cell.set(2);
    cell.set(3);
    let late = cell.observe();
    cell.set(4);
    assert_eq!(cell.subscriptions(), 2);
    assert_eq!(cell.next(early), Delivery::Item(1));
    assert_eq!(cell.next(early), Delivery::Item(2));
    assert_eq!(cell.next(early), Delivery::Item(3));
    assert_eq!(cell.next(early), Delivery::Item(4));
    assert_eq!(cell.next(early), Delivery::Pending);
    assert_eq!(cell.next(late), Delivery::Item(3));
    assert_eq!(cell.next(late), Delivery::Item(4));
    assert_eq!(cell.next(late), Delivery::Pending);
}

#[test]
fn unsubscribing_one_leaves_the_other_intact() {
    let mut cell = ChannelRegister::new(1u32);
    let first = cell.observe();
    let second = cell.observe();
    cell.set(2);
    cell.unsubscribe(first);
    cell.set(3);
    assert!(cell.is_ended(first));
    assert_eq!(cell.next(first), Delivery::Ended);
    assert_eq!(cell.next(second), Delivery::Item(1));
    assert_eq!(cell.next(second), Delivery::Item(2));
    assert_eq!(cell.next(second), Delivery::Item(3));
    assert_eq!(cell.next(second), Delivery::Pending);
}

#[test]
fn unknown_handle_reads_as_ended() {
    let mut cell = ChannelRegister::new(1u32);
    assert!(!cell.is_ready(3));
    assert!(cell.is_ended(3));
    assert_eq!(cell.next(3), Delivery::Ended);
    cell.unsubscribe(3);
    assert_eq!(cell.subscriptions(), 0);
    assert_eq!(cell.get(), 1);
}

#[test]
fn closed_cell_drains_then_ends() {
    let mut cell = ChannelRegister::new(1u32);
    let handle = cell.observe();
    cell.set(2);
    cell.close();
    cell.set(3);
    assert_eq!(cell.next(handle), Delivery::Item(1));
    assert_eq!(cell.next(handle), Delivery::Item(2));
    assert_eq!(cell.next(handle), Delivery::Ended);
}

#[test]
fn set_without_observers_only_replaces_the_value() {
    let mut cell = ChannelRegister::new(1u32);
    cell.set(9);
    assert_eq!(cell.get(), 9);
    assert_eq!(cell.subscriptions(), 0);
}
