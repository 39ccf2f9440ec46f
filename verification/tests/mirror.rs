use glassware::list::Event;
use glassware::mirror::{plan, Patch};
use glassware::register::ChannelRegister;

#[test]
fn update_of_a_rendered_slot_rewrites_it() {
    let event: Event<ChannelRegister<u32>> = Event::Update { index: 2, event: 7 };
    assert_eq!(plan(3, &event), Some(Patch::Rewrite(2)));
    let first: Event<ChannelRegister<u32>> = Event::Update { index: 0, event: 7 };
    assert_eq!(plan(1, &first), Some(Patch::Rewrite(0)));
}

#[test]
fn update_of_a_missing_slot_appends() {
    let event: Event<ChannelRegister<u32>> = Event::Update { index: 3, event: 7 };
    assert_eq!(plan(3, &event), Some(Patch::Append));
    assert_eq!(plan(0, &event), Some(Patch::Append));
    let far: Event<ChannelRegister<u32>> = Event::Update { index: u64::MAX, event: 7 };
    assert_eq!(plan(5, &far), Some(Patch::Append));
}

#[test]
fn removal_of_a_rendered_slot_detaches_it() {
    let event: Event<ChannelRegister<u32>> = Event::Remove(1);
    assert_eq!(plan(4, &event), Some(Patch::Detach(1)));
}

#[test]
fn removal_of_a_missing_slot_has_no_plan() {
    let event: Event<ChannelRegister<u32>> = Event::Remove(4);
    assert_eq!(plan(4, &event), None);
    assert_eq!(plan(0, &event), None);
}
