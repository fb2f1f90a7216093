use haiku::message::{Message, B_MESSAGE_TYPE};

#[test]
fn it_works() {
    assert_eq!(2 + 2, 4);
}

#[test]
fn message_carries_its_what_code() {
    let message = Message::new(B_MESSAGE_TYPE);
    assert_eq!(message.what(), B_MESSAGE_TYPE);
    assert!(message.get_return_address().is_none());
}
