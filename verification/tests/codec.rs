use haiku::errors::ErrorKind;
use haiku::message::Message;
use haiku::messenger::Messenger;
use haiku::ports::PortRegistry;

#[test]
fn flatten_round_trip_preserves_everything() {
    let mut message = Message::new(0x414E5954);
    message.add_data("count", 7);
    message.add_data("count", 9);
    message.add_data("limit", 250);
    let bytes = message.flatten();
    let back = Message::unflatten(&bytes).unwrap();
    assert_eq!(back.what(), 0x414E5954);
    assert_eq!(back.find_data("count", 0), Some(7));
    assert_eq!(back.find_data("count", 1), Some(9));
    assert_eq!(back.find_data("limit", 0), Some(250));
    assert_eq!(back.find_data("count", 2), None);
    assert_eq!(back.find_data("missing", 0), None);
    assert!(back.get_return_address().is_none());
}

#[test]
fn flatten_has_exact_wire_bytes() {
    // "what" code, reply flag 0, then one field: length-prefixed name
    // and the 32-bit value, all little endian.
    let mut message = Message::new(0x01020304);
    message.add_data("ab", 0x0A0B0C0D);
    let bytes = message.flatten();
    assert_eq!(
        bytes,
        vec![0x04, 0x03, 0x02, 0x01, 0x00, 0x02, 0x00, 0x00, 0x00, 0x61, 0x62, 0x0D, 0x0C, 0x0B,
            0x0A]
    );
}

#[test]
fn unflatten_rejects_corrupt_payloads() {
    assert_eq!(
        Message::unflatten(&Vec::new()).err(),
        Some(ErrorKind::CorruptPayload)
    );
    // Too short for a header.
    assert_eq!(
        Message::unflatten(&vec![1, 2, 3]).err(),
        Some(ErrorKind::CorruptPayload)
    );
    // Bad reply flag.
    assert_eq!(
        Message::unflatten(&vec![0, 0, 0, 0, 9]).err(),
        Some(ErrorKind::CorruptPayload)
    );
    // Truncated field.
    assert_eq!(
        Message::unflatten(&vec![0, 0, 0, 0, 0, 255, 0, 0, 0, 1]).err(),
        Some(ErrorKind::CorruptPayload)
    );
    // Trailing garbage after a valid empty message.
    assert_eq!(
        Message::unflatten(&vec![0, 0, 0, 0, 0, 7]).err(),
        Some(ErrorKind::CorruptPayload)
    );
    // The shortest valid message parses.
    assert!(Message::unflatten(&vec![0, 0, 0, 0, 0]).is_ok());
}

#[test]
fn ports_deliver_in_fifo_order() {
    let mut ports = PortRegistry::new();
    let id = ports.create("mailbox", 16).unwrap();
    ports.write(id, 1, vec![10]).unwrap();
    ports.write(id, 2, vec![20]).unwrap();
    ports.write(id, 3, vec![30]).unwrap();
    assert_eq!(ports.count(id).unwrap(), 3);
    assert_eq!(ports.try_read(id).unwrap(), (1, vec![10]));
    assert_eq!(ports.try_read(id).unwrap(), (2, vec![20]));
    assert_eq!(ports.try_read(id).unwrap(), (3, vec![30]));
    assert_eq!(ports.try_read(id).err(), Some(ErrorKind::WouldBlock));
}

#[test]
fn port_errors_are_distinct() {
    let mut ports = PortRegistry::new();
    // Unknown endpoint.
    assert_eq!(ports.count(5).err(), Some(ErrorKind::BadAddress));
    assert_eq!(ports.try_read(-1).err(), Some(ErrorKind::BadAddress));
    assert_eq!(
        Messenger::from_port(&ports, 0).err(),
        Some(ErrorKind::BadAddress)
    );
    // A full mailbox refuses the send.
    let id = ports.create("tiny", 1).unwrap();
    ports.write(id, 1, vec![]).unwrap();
    assert_eq!(ports.write(id, 1, vec![]).err(), Some(ErrorKind::Transport));
    // A closed endpoint stops resolving.
    let gone = ports.create("gone", 4).unwrap();
    ports.close(gone).unwrap();
    assert_eq!(ports.write(gone, 1, vec![]).err(), Some(ErrorKind::Transport));
    assert_eq!(ports.count(gone).err(), Some(ErrorKind::BadAddress));
    assert_eq!(
        Messenger::from_port(&ports, gone).err(),
        Some(ErrorKind::BadAddress)
    );
}

#[test]
fn messengers_from_same_port_are_equal() {
    let mut ports = PortRegistry::new();
    let id = ports.create("target", 8).unwrap();
    let other = ports.create("other", 8).unwrap();
    let a = Messenger::from_port(&ports, id).unwrap();
    let b = Messenger::from_port(&ports, id).unwrap();
    let c = Messenger::from_port(&ports, other).unwrap();
    assert_eq!(a, b);
    assert_ne!(a, c);
    // Equal messengers are interchangeable as send targets: both
    // sends land in the same mailbox, in send order.
    a.send_and_ask_reply(&mut ports, Message::new(0x31313131), &c)
        .unwrap();
    b.send_and_ask_reply(&mut ports, Message::new(0x32323232), &c)
        .unwrap();
    assert_eq!(ports.count(id).unwrap(), 2);
    let (_, first) = ports.try_read(id).unwrap();
    let (_, second) = ports.try_read(id).unwrap();
    assert_eq!(Message::unflatten(&first).unwrap().what(), 0x31313131);
    assert_eq!(Message::unflatten(&second).unwrap().what(), 0x32323232);
}

#[test]
fn reply_address_survives_the_wire() {
    let mut ports = PortRegistry::new();
    let target = ports.create("target", 8).unwrap();
    let reply = ports.create("reply", 8).unwrap();
    let target_messenger = Messenger::from_port(&ports, target).unwrap();
    let reply_messenger = Messenger::from_port(&ports, reply).unwrap();
    target_messenger
        .send_and_ask_reply(&mut ports, Message::new(0x41424344), &reply_messenger)
        .unwrap();
    let (_, bytes) = ports.try_read(target).unwrap();
    let received = Message::unflatten(&bytes).unwrap();
    let back = received.get_return_address().unwrap();
    assert_eq!(back, reply_messenger);
}
