use thecurse::networking::udp::bytes::ByteReprError;
use thecurse::networking::udp::packet_sender::packet::{Packet, PROTOCOL_VERSION};
use thecurse::networking::udp::packet_sender::packet_ack::PacketAck;
use thecurse::networking::udp::packet_sender::{InnerUdpMessage, UdpCommunicator};
use thecurse::networking::udp::Message;

/// Hands the datagrams to the receiving communicator, as its socket would.
fn deliver(datagrams: Vec<Vec<u8>>, to: &mut UdpCommunicator<InnerUdpMessage>) {
    for d in datagrams {
        assert!(Packet::<InnerUdpMessage>::decodable(&d));
        to.receive(&d);
    }
}

#[test]
fn packet_roundtrip() {
    let mut com1 = UdpCommunicator::<InnerUdpMessage>::new();
    let mut com2 = UdpCommunicator::<InnerUdpMessage>::new();
    let m1 = InnerUdpMessage::Hello;
    let m2 = InnerUdpMessage::Wave(1394);
    com2.write(m1);
    com2.write(m2);
    let sent = com2.tick(0);
    deliver(sent, &mut com1);
    let _ = com1.tick(0);
    assert_eq!(com1.read(), Some(m1));
    assert_eq!(com1.read(), Some(m2));
    assert_eq!(com1.read(), None);
}

#[test]
fn send_until_ack() {
    let mut com1 = UdpCommunicator::<InnerUdpMessage>::new();
    let mut com2 = UdpCommunicator::<InnerUdpMessage>::new();
    let m1 = InnerUdpMessage::Hello;
    com2.write(m1);
    let mut to_com1 = com2.tick(0);
    let mut to_com2 = Vec::new();

    let mut now = 0;
    let mut i = 0;
    while com2.has_work() {
        i += 1;
        now += 1;
        deliver(std::mem::take(&mut to_com1), &mut com1);
        to_com2.extend(com1.tick(now));
        if let Some(message) = com1.read() {
            assert_eq!(message, m1);
            // Send a dummy packet back to acknowledge the received one
            com1.write(InnerUdpMessage::Wave(1));
        }
        deliver(std::mem::take(&mut to_com2), &mut com2);
        to_com1.extend(com2.tick(now));
    }
    assert_eq!(i, 2);
}

/// Drops about half of the datagrams, as an unreliable network would.
struct Lossy(u64);

impl Lossy {
    fn pass(&mut self, datagrams: Vec<Vec<u8>>) -> Vec<Vec<u8>> {
        datagrams
            .into_iter()
            .filter(|_| {
                self.0 ^= self.0 << 13;
                self.0 ^= self.0 >> 7;
                self.0 ^= self.0 << 17;
                self.0 % 2 == 0
            })
            .collect()
    }
}

#[test]
fn test_reliability() {
    let mut com1 = UdpCommunicator::<InnerUdpMessage>::new();
    let mut com2 = UdpCommunicator::<InnerUdpMessage>::new();
    let mut net = Lossy(0x2545_f491_4f6c_dd1d);
    let mut send = std::collections::HashSet::new();
    assert!(send.insert(InnerUdpMessage::Hello));
    for i in 0..20000 {
        assert!(send.insert(InnerUdpMessage::Wave(i)));
    }
    for m in &send {
        com1.write(*m);
    }
    let mut now = 0;
    let mut to_com2 = net.pass(com1.tick(now));
    let mut to_com1 = Vec::new();

    let mut received = std::collections::HashSet::new();
    while com1.has_work() {
        now += 1;
        deliver(std::mem::take(&mut to_com2), &mut com2);
        to_com1.extend(net.pass(com2.tick(now)));
        while let Some(message) = com2.read() {
            assert!(received.insert(message));
        }
        deliver(std::mem::take(&mut to_com1), &mut com1);
        to_com2.extend(net.pass(com1.tick(now)));
    }

    assert_eq!(received, send);
}

#[test]
fn reliable_delivery_without_loss() {
    let mut com1 = UdpCommunicator::<InnerUdpMessage>::new();
    let mut com2 = UdpCommunicator::<InnerUdpMessage>::new();
    let mut send = std::collections::HashSet::new();
    assert!(send.insert(InnerUdpMessage::Hello));
    for i in 0..20000 {
        assert!(send.insert(InnerUdpMessage::Wave(i)));
    }
    for m in &send {
        com1.write(*m);
    }
    let mut now = 0;
    let mut to_com2 = com1.tick(now);
    let mut to_com1 = Vec::new();

    let mut received = std::collections::HashSet::new();
    while com1.has_work() {
        now += 1;
        deliver(std::mem::take(&mut to_com2), &mut com2);
        to_com1.extend(com2.tick(now));
        while let Some(message) = com2.read() {
            assert!(received.insert(message));
        }
        deliver(std::mem::take(&mut to_com1), &mut com1);
        to_com2.extend(com1.tick(now));
    }

    assert_eq!(received, send);
}

#[test]
fn packet_byte_repr() {
    let com = UdpCommunicator::<InnerUdpMessage>::new();
    let packet = Packet::new(
        com.create_ack(0),
        vec![
            InnerUdpMessage::Wave(12),
            InnerUdpMessage::Wave(9284),
            InnerUdpMessage::Hello,
        ],
    );
    let mut buf = [0; Packet::<InnerUdpMessage>::MAX_LEN];
    packet.write_as_bytes(&mut buf);
    assert_eq!(Packet::<InnerUdpMessage>::from_bytes(&buf).unwrap(), packet);
}

#[test]
fn acknowledge() {
    let mut com = UdpCommunicator::<Message>::new();
    // Those two are overridden immediately
    com.received_packets.push(());
    com.received_packets.insert((), 3);
    //
    com.received_packets.insert((), u16::MAX - 30);
    com.received_packets.insert((), u16::MAX);
    com.received_packets.push(());
    let ack = com.create_ack(0);
    let mut count = 0;
    let mut iter = com.received_packets.iter();
    while iter.next().is_some() {
        count += 1;
    }
    assert_eq!(count, 3);
    com.acknowledge(ack);
}

#[test]
fn packet_checksum_is_crc32_bzip2_with_protocol_version() {
    // The checksum algorithm of the protocol, written out in full.
    const ALGORITHM: crc::Algorithm<u32> = crc::Algorithm {
        width: 32,
        poly: 0x04c11db7,
        init: 0x00_00_00_01,
        refin: false,
        refout: false,
        xorout: 0xffffffff,
        check: 0xfc891918,
        residue: 0xc704dd7b,
    };
    assert_eq!(PROTOCOL_VERSION, 1);
    let ack = PacketAck { sequence_id: 7, newest_received: 5, ack_bits: 3 };
    let packet = Packet::new(ack, vec![InnerUdpMessage::Hello, InnerUdpMessage::Wave(2)]);
    let mut buf = vec![0u8; packet.len()];
    packet.write_as_bytes(&mut buf);
    assert_eq!(buf.len(), 16);
    let expected = crc::Crc::<u32>::new(&ALGORITHM).checksum(&buf[4..]);
    assert_eq!(buf[..4], expected.to_le_bytes());
    assert_eq!(buf[4..12], [7, 0, 5, 0, 3, 0, 0, 0]);
    assert_eq!(buf[12], 1);
    assert_eq!(buf[13..], [1, 2, 2]);
}

#[test]
fn packet_corruption_is_a_crc_mismatch() {
    let ack = PacketAck { sequence_id: 1, newest_received: 0, ack_bits: 1 };
    let packet = Packet::new(ack, vec![InnerUdpMessage::Wave(1000)]);
    let mut buf = vec![0u8; packet.len()];
    packet.write_as_bytes(&mut buf);
    buf[5] ^= 0x40;
    assert_eq!(Packet::<InnerUdpMessage>::from_bytes(&buf), Err(ByteReprError::CrcMismatch));
    // A heartbeat has no messages and keeps its flags.
    let hb = Packet::<InnerUdpMessage>::heartbeat(ack);
    let mut buf = vec![0u8; hb.len()];
    hb.write_as_bytes(&mut buf);
    assert_eq!(buf.len(), 13);
    let back = Packet::<InnerUdpMessage>::from_bytes(&buf).unwrap();
    assert!(!back.reliable && back.messages.is_empty());
    assert!(!Packet::<InnerUdpMessage>::decodable(&buf[..12]));
}

#[test]
fn duplicate_packet_is_acknowledged_by_heartbeat() {
    let mut com1 = UdpCommunicator::<InnerUdpMessage>::new();
    let mut com2 = UdpCommunicator::<InnerUdpMessage>::new();
    com2.write(InnerUdpMessage::Wave(3));
    let first = com2.tick(0);
    deliver(first.clone(), &mut com1);
    // The same packet arrives again.
    deliver(first, &mut com1);
    assert!(com1.received_packet_duplicate);
    let out = com1.tick(1);
    assert_eq!(out.len(), 1);
    assert!(!com1.received_packet_duplicate);
    assert_eq!(com1.unreliable_send_packet_id, 1);
    // The heartbeat acknowledges the packet, so the sender has no more work.
    deliver(out, &mut com2);
    assert!(!com2.has_work());
    assert_eq!(com1.read(), Some(InnerUdpMessage::Wave(3)));
    assert_eq!(com1.read(), None);
}

#[test]
fn unacknowledged_packets_are_resent_after_cooldown() {
    let mut com = UdpCommunicator::<InnerUdpMessage>::new();
    com.write(InnerUdpMessage::Hello);
    assert_eq!(com.tick(1000).len(), 1);
    assert_eq!(com.tick(1050).len(), 0);
    assert_eq!(com.tick(1100).len(), 0);
    assert_eq!(com.tick(1101).len(), 1);
    assert!(com.has_work());
}

#[test]
fn flush_fills_packets_up_to_the_data_limit() {
    let mut com = UdpCommunicator::<InnerUdpMessage>::new();
    // 400 messages of 3 bytes: 341 fit into the first packet.
    for i in 0..400u16 {
        com.write(InnerUdpMessage::Wave(1000 + i));
    }
    com.flush_messages();
    assert_eq!(com.msg_send_queue.len(), 0);
    assert_eq!(com.reliable_send_packets.get(0).unwrap().1.messages.len(), 341);
    assert_eq!(com.reliable_send_packets.get(1).unwrap().1.messages.len(), 59);
    assert!(com.reliable_send_packets.get(2).is_none());
}

#[test]
fn flush_stops_when_the_packet_buffer_is_full() {
    let mut com = UdpCommunicator::<InnerUdpMessage>::new();
    for i in 0..(33 * 341u32) {
        com.write(InnerUdpMessage::Wave(1000 + (i % 1000) as u16));
    }
    com.flush_messages();
    assert!(com.reliable_send_packets.insert_will_override());
    assert_eq!(com.msg_send_queue.len(), 341);
}

#[test]
fn flush_keeps_message_order_across_packets() {
    let mut com = UdpCommunicator::<InnerUdpMessage>::new();
    let written: Vec<InnerUdpMessage> = (0..400u16).map(|i| InnerUdpMessage::Wave(1000 + i)).collect();
    for m in &written {
        com.write(*m);
    }
    com.flush_messages();
    let mut packed = com.reliable_send_packets.get(0).unwrap().1.messages.clone();
    packed.extend(com.reliable_send_packets.get(1).unwrap().1.messages.iter().copied());
    assert_eq!(packed, written);
}

#[test]
fn same_datagram_twice_is_read_once() {
    let mut com1 = UdpCommunicator::<InnerUdpMessage>::new();
    let mut com2 = UdpCommunicator::<InnerUdpMessage>::new();
    com2.write(InnerUdpMessage::Hello);
    let out = com2.tick(0);
    deliver(out.clone(), &mut com1);
    deliver(out, &mut com1);
    assert_eq!(com1.read(), Some(InnerUdpMessage::Hello));
    assert_eq!(com1.read(), None);
}

#[test]
fn late_packet_is_read_once() {
    let mut com1 = UdpCommunicator::<InnerUdpMessage>::new();
    let mut com2 = UdpCommunicator::<InnerUdpMessage>::new();
    com2.write(InnerUdpMessage::Wave(1));
    let first = com2.tick(0);
    com2.write(InnerUdpMessage::Wave(2));
    let second = com2.tick(1);
    assert_eq!(second.len(), 1);
    deliver(second.clone(), &mut com1);
    // The older packet arrives late: it is recorded beside the newer one.
    deliver(first.clone(), &mut com1);
    assert_eq!(com1.received_packets.get_newest_index(), 1);
    assert!(com1.received_packets.get(0).is_some());
    assert!(com1.received_packets.get(1).is_some());
    // Resends of either packet are duplicates.
    deliver(second, &mut com1);
    deliver(first, &mut com1);
    assert!(com1.received_packet_duplicate);
    assert_eq!(com1.read(), Some(InnerUdpMessage::Wave(2)));
    assert_eq!(com1.read(), Some(InnerUdpMessage::Wave(1)));
    assert_eq!(com1.read(), None);
}

#[test]
fn replayed_packet_after_newer_one_is_not_read_again() {
    let mut com1 = UdpCommunicator::<InnerUdpMessage>::new();
    let mut com2 = UdpCommunicator::<InnerUdpMessage>::new();
    com2.write(InnerUdpMessage::Wave(1));
    let first = com2.tick(0);
    com2.write(InnerUdpMessage::Wave(2));
    let second = com2.tick(1);
    deliver(first.clone(), &mut com1);
    deliver(second, &mut com1);
    deliver(first, &mut com1);
    assert!(com1.received_packet_duplicate);
    assert_eq!(com1.read(), Some(InnerUdpMessage::Wave(1)));
    assert_eq!(com1.read(), Some(InnerUdpMessage::Wave(2)));
    assert_eq!(com1.read(), None);
}

#[test]
fn empty_queue_flushes_no_packet() {
    let mut com = UdpCommunicator::<InnerUdpMessage>::new();
    com.flush_messages();
    assert!(!com.has_work());
    assert!(com.tick(0).is_empty());
}

#[test]
fn packet_written_into_short_buffer_keeps_the_messages_that_fit() {
    let ack = PacketAck { sequence_id: 4, newest_received: 2, ack_bits: 5 };
    let packet = Packet::new(ack, vec![InnerUdpMessage::Hello, InnerUdpMessage::Wave(1000)]);
    assert_eq!(packet.len(), 17);
    let mut buf = vec![0u8; 15];
    packet.write_as_bytes(&mut buf);
    assert_eq!(buf[13..], [1, 0]);
    let back = Packet::<InnerUdpMessage>::from_bytes(&buf).unwrap();
    assert_eq!(back.ack, ack);
    assert_eq!(back.messages, vec![InnerUdpMessage::Hello]);
}
