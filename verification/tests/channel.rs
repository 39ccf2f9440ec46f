use glassware::channel::{Channel, Delivery};

#[test]
fn seeded_channel_hands_out_its_seed_then_waits() {
    let mut channel = Channel::seeded(5u32);
    assert!(channel.is_ready());
    assert_eq!(channel.backlog(), 1);
    assert_eq!(channel.poll(), Delivery::Item(5));
    assert!(!channel.is_ready());
    assert!(!channel.is_ended());
    assert_eq!(channel.poll(), Delivery::Pending);
}

#[test]
fn open_channel_starts_empty() {
    let mut channel: Channel<u64> = Channel::open();
    assert_eq!(channel.backlog(), 0);
    assert_eq!(channel.poll(), Delivery::Pending);
}

#[test]
fn sends_queue_in_order() {
    let mut channel: Channel<u8> = Channel::open();
    channel.send(1);
    channel.send(2);
    channel.send(3);
    assert_eq!(channel.backlog(), 3);
    assert_eq!(channel.poll(), Delivery::Item(1));
    assert_eq!(channel.poll(), Delivery::Item(2));
    assert_eq!(channel.poll(), Delivery::Item(3));
    assert_eq!(channel.poll(), Delivery::Pending);
}

#[test]
fn closed_channel_drains_then_ends() {
    let mut channel = Channel::seeded(1i32);
    channel.send(2);
    channel.close();
    channel.send(3);
    assert_eq!(channel.poll(), Delivery::Item(1));
    assert_eq!(channel.poll(), Delivery::Item(2));
    assert!(channel.is_ended());
    assert_eq!(channel.poll(), Delivery::Ended);
    assert_eq!(channel.poll(), Delivery::Ended);
}

#[test]
fn hung_up_channel_absorbs_sends() {
    let mut channel = Channel::seeded(1i32);
    channel.hang_up();
    assert_eq!(channel.backlog(), 0);
    channel.send(2);
    assert_eq!(channel.backlog(), 0);
    assert!(channel.is_ended());
    assert_eq!(channel.poll(), Delivery::Ended);
}
