use thecurse::networking::udp::bytes::{ByteRepr, ByteReprError, ByteReprMany, StaticByteRepr};
use thecurse::networking::udp::packet_sender::message::UdpMessage;
use thecurse::networking::udp::packet_sender::packet_ack::PacketAck;
use thecurse::networking::udp::packet_sender::InnerUdpMessage;
use thecurse::networking::udp::Message;

#[test]
fn byte_repr() {
    let hello = InnerUdpMessage::Hello;
    let w5 = InnerUdpMessage::Wave(5);
    let w_max = InnerUdpMessage::Wave(u16::MAX);
    let v = vec![hello, w5, w_max];
    assert_eq!(v.len(), 3);
    let mut bytes = [0; InnerUdpMessage::MAX_LEN * 3];
    InnerUdpMessage::write_many(&v, &mut bytes);

    println!("bytes: {bytes:?}");
    let messages = InnerUdpMessage::read_many(&bytes);
    assert_eq!(messages, v);

    let mut bytes = vec![0; hello.len() + w5.len()];
    assert_eq!(InnerUdpMessage::write_many(&v, &mut bytes), 2);
    assert_eq!(InnerUdpMessage::read_many(&bytes), vec![hello, w5]);
}

#[test]
fn inner_message_encodings() {
    let mut b = [0u8; 3];
    InnerUdpMessage::Hello.write_as_bytes(&mut b);
    assert_eq!(b, [1, 0, 0]);
    InnerUdpMessage::Wave(200).write_as_bytes(&mut b);
    assert_eq!(b[..2], [2, 200]);
    InnerUdpMessage::Wave(0x1234).write_as_bytes(&mut b);
    assert_eq!(b, [3, 0x34, 0x12]);
    assert_eq!(InnerUdpMessage::Wave(255).len(), 2);
    assert_eq!(InnerUdpMessage::Wave(256).len(), 3);
    assert_eq!(InnerUdpMessage::from_bytes(&[3, 0x34, 0x12]), Ok(InnerUdpMessage::Wave(0x1234)));
}

#[test]
fn inner_message_invalid_values() {
    assert_eq!(InnerUdpMessage::from_bytes(&[]), Err(ByteReprError::InvalidValue));
    assert_eq!(InnerUdpMessage::from_bytes(&[0]), Err(ByteReprError::InvalidValue));
    assert_eq!(InnerUdpMessage::from_bytes(&[2]), Err(ByteReprError::InvalidValue));
    assert_eq!(InnerUdpMessage::from_bytes(&[9, 1, 1]), Err(ByteReprError::InvalidValue));
    // A buffer that starts with 3 but is too short cannot be read.
    assert!(!InnerUdpMessage::decodable(&[3, 1]));
    assert!(InnerUdpMessage::decodable(&[3, 1, 1]));
    assert!(!InnerUdpMessage::read_many_decodable(&[1, 3]));
    assert!(InnerUdpMessage::read_many_decodable(&[1, 2, 5, 0]));
}

#[test]
fn udp_message_roundtrip() {
    let m = UdpMessage::new(InnerUdpMessage::Wave(300));
    assert!(m.reliable);
    assert_eq!(m.len(), 4);
    let mut b = [0u8; 4];
    m.write_as_bytes(&mut b);
    assert_eq!(b, [1, 3, 44, 1]);
    assert_eq!(UdpMessage::<InnerUdpMessage>::from_bytes(&b), Ok(m));
    let unreliable = UdpMessage { reliable: false, inner: InnerUdpMessage::Hello };
    let mut b = [0u8; 2];
    unreliable.write_as_bytes(&mut b);
    assert_eq!(b, [0, 1]);
    assert_eq!(
        UdpMessage::<InnerUdpMessage>::from_bytes(&[2, 1]),
        Err(ByteReprError::InvalidValue)
    );
}

#[test]
fn packet_ack_bytes_roundtrip() {
    let ack = PacketAck { sequence_id: 0x0102, newest_received: 0x0304, ack_bits: 0x0506_0708 };
    let bytes = ack.as_bytes();
    assert_eq!(bytes, [2, 1, 4, 3, 8, 7, 6, 5]);
    assert_eq!(<PacketAck as StaticByteRepr<8>>::from_bytes(&bytes), ack);
}

#[test]
fn message_bytes() {
    let mut b = [0u8; 1];
    Message::X.write_as_bytes(&mut b);
    assert_eq!(b, [1]);
    assert_eq!(Message::from_bytes(&b), Ok(Message::X));
    assert_eq!(Message::from_bytes(&[2]), Err(ByteReprError::InvalidValue));
    assert_eq!(ByteReprError::CrcMismatch.message(), "CRC mismatch");
}
