use glassware::component::{Direction, Element, Heading, Paragraph, StaticStack, TransportError};

#[test]
fn heading_keeps_its_text() {
    assert_eq!(Heading::new("hello there").as_str(), "hello there");
    assert_eq!(Heading::new(String::from("title")).as_str(), "title");
}

#[test]
fn heading_from_text_keeps_its_text() {
    assert_eq!(Heading::from_text(String::from("hello there")).as_str(), "hello there");
    assert_eq!(Heading::from_text(String::new()).as_str(), "");
}

#[test]
fn paragraph_keeps_its_text() {
    let paragraph = Paragraph::new(String::from("this is some body text"));
    assert_eq!(paragraph.as_str(), "this is some body text");
}

#[test]
fn stack_keeps_elements_and_direction() {
    let stack = StaticStack::new_from_elements(vec![Element(3), Element(1), Element(2)], Direction::Horizontal);
    assert_eq!(stack.elements(), &vec![Element(3), Element(1), Element(2)]);
    assert_eq!(stack.direction(), Direction::Horizontal);
    let empty = StaticStack::new_from_elements(vec![], Direction::Vertical);
    assert!(empty.elements().is_empty());
    assert_eq!(empty.direction(), Direction::Vertical);
}

#[test]
fn elements_compare_by_number() {
    assert_eq!(Element(7), Element(7));
    assert_ne!(Element(7), Element(8));
    assert_ne!(Direction::Horizontal, Direction::Vertical);
}

#[test]
fn transport_error_keeps_both_renderings() {
    let error = TransportError::new("boom");
    assert_eq!(error.display(), "boom");
    assert_eq!(error.debug(), "\"boom\"");
    let number = TransportError::new(42u8);
    assert_eq!(number.display(), "42");
    assert_eq!(number.debug(), "42");
    let copy = error.clone();
    assert_eq!(copy.display(), "boom");
}
