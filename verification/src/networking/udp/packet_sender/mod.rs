//! The reliable-delivery state of a UDP communicator.
//!
//! The communicator queues messages, packs them into reliable packets that are
//! resent until the other side acknowledges them, and reads the messages of
//! received packets once each. The socket itself is driven by the caller: it
//! hands every received datagram to [`UdpCommunicator::receive`] and sends the
//! datagrams that [`UdpCommunicator::tick`] returns.
use vstd::prelude::*;
use std::collections::VecDeque;
use crate::networking::udp::bytes::{
    ByteRepr, ByteReprError, ByteReprMany, encode_all, lemma_encode_all_front,
};
use crate::networking::udp::ring_buffer::{RingBuffer, dist, lemma_wrapping_u16};

pub mod message;
pub mod packet;
pub mod packet_ack;

use packet::{
    Packet, PacketView, packet_valid, decode_packet, packet_decode_requires, encode_packet,
    lemma_packet_roundtrip,
};
use crate::utils::wrapping::{wrapping_gt, signed_gap, forward_distance};
use crate::networking::udp::ring_buffer::in_window;
use packet_ack::PacketAck;

verus! {

/// The messages exchanged by a pair of communicators in the tests and in the
/// connection handshake.
#[derive(Debug, PartialEq, Eq, Structural, Hash, Clone, Copy)]
pub enum InnerUdpMessage {
    Hello,
    Wave(u16),
}

/// The acknowledgement `ack` reports the index `k` as received: `k` lies at
/// most 31 indices before `ack.newest_received` and its bit is set.
pub open spec fn ack_covers(ack: PacketAck, k: u16) -> bool {
    dist(ack.newest_received, k) < 32 && (ack.ack_bits >> (dist(ack.newest_received, k) as u32))
        & 1 == 1
}

/// `ack` reports exactly the indices in `received`, relative to `newest`.
pub open spec fn ack_matches(ack: PacketAck, newest: u16, received: Set<u16>) -> bool {
    &&& ack.newest_received == newest
    &&& forall|k: u16| #[trigger] ack_covers(ack, k) <==> received.contains(k)
}

/// A message that can be queued: it is valid and its length fits a `usize`.
pub open spec fn sendable<M: ByteRepr>(m: M) -> bool {
    m.valid() && m.encode().len() <= usize::MAX
}

/// How many messages from the front of `q` fit into `available` bytes.
pub open spec fn fitting_prefix_len<M: ByteRepr>(q: Seq<M>, available: int) -> nat
    decreases q.len(),
{
    if q.len() == 0 {
        0
    } else if q[0].encode().len() <= available {
        1 + fitting_prefix_len(q.skip(1), available - q[0].encode().len())
    } else {
        0
    }
}

/// The queue of messages to send after `j` packets were filled from `q`, each
/// with as many messages as fit into [`packet::MAX_PACKET_DATA_LEN`] bytes.
pub open spec fn queue_after_packets<M: ByteRepr>(q: Seq<M>, j: nat) -> Seq<M>
    decreases j,
{
    if j == 0 {
        q
    } else {
        let r = queue_after_packets(q, (j - 1) as nat);
        r.skip(fitting_prefix_len(r, packet::MAX_PACKET_DATA_LEN as int) as int)
    }
}

/// The messages of the `j`-th packet filled from `q`.
pub open spec fn packet_messages<M: ByteRepr>(q: Seq<M>, j: nat) -> Seq<M> {
    let r = queue_after_packets(q, j);
    r.take(fitting_prefix_len(r, packet::MAX_PACKET_DATA_LEN as int) as int)
}

/// The indices that `ack` reports as received.
pub open spec fn covered_set(ack: PacketAck) -> Set<u16> {
    Set::new(|k: u16| ack_covers(ack, k))
}

proof fn lemma_bits_set(b: u32, d: u32, e: u32)
    by (bit_vector)
    requires
        d < 32,
        e < 32,
    ensures
        (((b | (1u32 << d)) >> e) & 1 == 1) == (((b >> e) & 1 == 1) || d == e),
        ((0u32 >> e) & 1 == 1) == false,
{
}

proof fn lemma_bit_test(b: u32, i: u32)
    by (bit_vector)
    requires
        i < 32,
    ensures
        ((b & (1u32 << i)) != 0) == ((b >> i) & 1 == 1),
{
}

proof fn lemma_dist_injective(n: u16, a: u16, b: u16)
    by (bit_vector)
    requires
        ((n - a) as u16) == ((n - b) as u16),
    ensures
        a == b,
{
}

proof fn lemma_dist_of_offset(n: u16, i: u16)
    by (bit_vector)
    ensures
        ((n - ((n - i) as u16)) as u16) == i,
{
}

pub struct UdpCommunicator<M: ByteRepr> {
    /// Sent reliable packets that are not acknowledged yet, with the time (in
    /// milliseconds) they were last sent.
    pub reliable_send_packets: RingBuffer<(Option<u64>, Packet<M>)>,
    pub unreliable_send_packet_id: u16,
    pub unreliable_send_packets: VecDeque<Packet<M>>,
    /// The indices of the received reliable packets.
    pub received_packets: RingBuffer<()>,
    pub msg_send_queue: VecDeque<M>,
    pub msg_recv_queue: VecDeque<M>,
    /// If this is `true`, a packet has been received more than once, potentially meaning that we
    /// have to send an ack to the other side.
    pub received_packet_duplicate: bool,
}

impl<M: ByteRepr> UdpCommunicator<M> {
    /// The buffers have their 32 slots, every queued packet can be written, and
    /// every queued message is valid.
    pub open spec fn wf(&self) -> bool {
        &&& M::prefix_secure()
        &&& self.reliable_send_packets.wf()
        &&& self.received_packets.wf()
        &&& forall|k: u16| #[trigger]
            self.reliable_send_packets@.dom().contains(k) ==> packet_valid(
                self.reliable_send_packets@[k].1@,
            )
        &&& forall|i: int|
            0 <= i < self.unreliable_send_packets@.len() ==> packet_valid(
                (#[trigger] self.unreliable_send_packets@[i])@,
            )
        &&& forall|i: int|
            0 <= i < self.msg_send_queue@.len() ==> sendable(#[trigger] self.msg_send_queue@[i])
    }

    /// A communicator with nothing sent, received or queued.
    pub fn new() -> (r: Self)
        requires
            M::prefix_secure(),
        ensures
            r.wf(),
            r.reliable_send_packets@ == Map::<u16, (Option<u64>, Packet<M>)>::empty(),
            r.reliable_send_packets.newest_index() == u16::MAX,
            r.received_packets@ == Map::<u16, ()>::empty(),
            r.received_packets.newest_index() == u16::MAX,
            r.unreliable_send_packet_id == 0,
            r.unreliable_send_packets@.len() == 0,
            r.msg_send_queue@.len() == 0,
            r.msg_recv_queue@.len() == 0,
            !r.received_packet_duplicate,
    {
        UdpCommunicator {
            reliable_send_packets: RingBuffer::new(),
            unreliable_send_packet_id: 0,
            unreliable_send_packets: VecDeque::new(),
            received_packets: RingBuffer::new(),
            msg_send_queue: VecDeque::new(),
            msg_recv_queue: VecDeque::new(),
            received_packet_duplicate: false,
        }
    }

    /// Queues a message for sending.
    pub fn write(&mut self, message: M)
        requires
            old(self).wf(),
            sendable(message),
        ensures
            final(self).wf(),
            final(self).msg_send_queue@ == old(self).msg_send_queue@.push(message),
            final(self).reliable_send_packets == old(self).reliable_send_packets,
            final(self).received_packets == old(self).received_packets,
            final(self).unreliable_send_packets == old(self).unreliable_send_packets,
            final(self).unreliable_send_packet_id == old(self).unreliable_send_packet_id,
            final(self).msg_recv_queue == old(self).msg_recv_queue,
            final(self).received_packet_duplicate == old(self).received_packet_duplicate,
    {
        self.msg_send_queue.push_back(message);
    }

    /// Takes the oldest received message that was not read yet.
    pub fn read(&mut self) -> (r: Option<M>)
        requires
            old(self).wf(),
        ensures
            final(self).wf(),
            match r {
                Some(m) => {
                    &&& old(self).msg_recv_queue@.len() > 0
                    &&& m == old(self).msg_recv_queue@[0]
                    &&& final(self).msg_recv_queue@ == old(self).msg_recv_queue@.drop_first()
                },
                None => {
                    &&& old(self).msg_recv_queue@.len() == 0
                    &&& final(self).msg_recv_queue@ == old(self).msg_recv_queue@
                },
            },
            final(self).reliable_send_packets == old(self).reliable_send_packets,
            final(self).received_packets == old(self).received_packets,
            final(self).unreliable_send_packets == old(self).unreliable_send_packets,
            final(self).unreliable_send_packet_id == old(self).unreliable_send_packet_id,
            final(self).msg_send_queue == old(self).msg_send_queue,
            final(self).received_packet_duplicate == old(self).received_packet_duplicate,
    {
        let r = self.msg_recv_queue.pop_front();
        proof {
            if r.is_some() {
                assert(self.msg_recv_queue@ =~= old(self).msg_recv_queue@.drop_first());
            }
        }
        r
    }

    /// Some sent reliable packet is not acknowledged yet.
    pub fn has_work(&self) -> (r: bool)
        requires
            self.wf(),
        ensures
            r == !(self.reliable_send_packets@.dom() =~= Set::<u16>::empty()),
    {
        !self.reliable_send_packets.is_empty()
    }

    /// The acknowledgement to send with the packet `sequence_id`: it reports
    /// exactly the received packets of the window ending at the newest one.
    pub fn create_ack(&self, sequence_id: u16) -> (r: PacketAck)
        requires
            self.wf(),
        ensures
            r.sequence_id == sequence_id,
            ack_matches(
                r,
                self.received_packets.newest_index(),
                self.received_packets@.dom(),
            ),
    {
        let mut ack_bits: u32 = 0;
        let newest_received = self.received_packets.get_newest_index();
        let ghost ks = self.received_packets.keys_seq();
        proof {
            self.received_packets.lemma_keys_seq_chronological();
            self.received_packets.lemma_dom_in_window();
            assert(ks.skip(0) =~= ks);
            assert forall|k: u16|
                #![trigger ack_covers(PacketAck { sequence_id, newest_received, ack_bits }, k)]
                ack_covers(PacketAck { sequence_id, newest_received, ack_bits }, k)
                    <==> ks.take(0).contains(k) by {
                if dist(newest_received, k) < 32 {
                    lemma_bits_set(0, 0, dist(newest_received, k) as u32);
                }
            }
        }
        let mut iter = self.received_packets.keys();
        let ghost mut n: int = 0;
        loop
            invariant
                iter.wf(),
                iter.ring_view() == self.received_packets@,
                0 <= n <= ks.len(),
                iter.remaining_keys() == ks.skip(n),
                ks == self.received_packets.keys_seq(),
                newest_received == self.received_packets.newest_index(),
                forall|k: u16| #[trigger] self.received_packets.keys_seq().contains(k)
                    <==> self.received_packets@.dom().contains(k),
                forall|k: u16| #[trigger] self.received_packets@.dom().contains(k) ==> dist(
                    newest_received,
                    k,
                ) < 32,
                forall|k: u16|
                    #![trigger ack_covers(PacketAck { sequence_id, newest_received, ack_bits }, k)]
                    ack_covers(PacketAck { sequence_id, newest_received, ack_bits }, k)
                        <==> ks.take(n).contains(k),
            ensures
                forall|k: u16|
                    #![trigger ack_covers(PacketAck { sequence_id, newest_received, ack_bits }, k)]
                    ack_covers(PacketAck { sequence_id, newest_received, ack_bits }, k)
                        <==> self.received_packets@.dom().contains(k),
            decreases ks.len() - n,
        {
            match iter.next() {
                Some(i) => {
                    let ghost old_bits = ack_bits;
                    proof {
                        assert(ks[n] == i);
                        assert(ks.contains(i));
                    }
                    proof {
                        lemma_wrapping_u16(newest_received, i);
                    }
                    let d = newest_received.wrapping_sub(i) as u32;
                    ack_bits = ack_bits | (1u32 << d);
                    proof {
                        assert(d == dist(newest_received, i));
                        assert(ks.take(n + 1) =~= ks.take(n).push(i));
                        assert forall|k: u16|
                            #![trigger ack_covers(PacketAck { sequence_id, newest_received, ack_bits }, k)]
                            ack_covers(PacketAck { sequence_id, newest_received, ack_bits }, k)
                                <==> ks.take(n + 1).contains(k) by {
                            let old_ack = PacketAck { sequence_id, newest_received, ack_bits: old_bits };
                            assert(ack_covers(old_ack, k) == ks.take(n).contains(k));
                            if ks.take(n + 1).contains(k) {
                                let j = choose|j: int| 0 <= j < n + 1 && #[trigger] ks.take(n + 1)[j] == k;
                                assert(ks[j] == k);
                                assert(ks.contains(k));
                            }
                            if dist(newest_received, k) < 32 {
                                lemma_bits_set(old_bits, d, dist(newest_received, k) as u32);
                                if dist(newest_received, k) == d {
                                    lemma_dist_injective(newest_received, k, i);
                                }
                            }
                            assert(ks.take(n).push(i).contains(k) <==> (ks.take(n).contains(k)
                                || k == i)) by {
                                if k == i {
                                    assert(ks.take(n).push(i)[n] == i);
                                }
                                if ks.take(n).contains(k) {
                                    let j = choose|j: int| 0 <= j < n && #[trigger] ks.take(n)[j] == k;
                                    assert(ks.take(n).push(i)[j] == k);
                                }
                            }
                        }
                        assert(ks.skip(n).drop_first() =~= ks.skip(n + 1));
                        n = n + 1;
                    }
                },
                None => {
                    proof {
                        assert(ks.take(n) =~= ks);
                    }
                    break;
                },
            }
        }
        PacketAck { sequence_id, newest_received, ack_bits }
    }

    /// Drops the sent reliable packets that `ack` reports as received.
    pub fn acknowledge(&mut self, ack: PacketAck)
        requires
            old(self).wf(),
        ensures
            final(self).wf(),
            final(self).reliable_send_packets@ == old(self).reliable_send_packets@.remove_keys(
                covered_set(ack),
            ),
            final(self).reliable_send_packets.newest_index()
                == old(self).reliable_send_packets.newest_index(),
            final(self).received_packets == old(self).received_packets,
            final(self).unreliable_send_packets == old(self).unreliable_send_packets,
            final(self).unreliable_send_packet_id == old(self).unreliable_send_packet_id,
            final(self).msg_send_queue == old(self).msg_send_queue,
            final(self).msg_recv_queue == old(self).msg_recv_queue,
            final(self).received_packet_duplicate == old(self).received_packet_duplicate,
    {
        let mut i: u16 = 0;
        while i < 32
            invariant
                self.wf(),
                i <= 32,
                self.reliable_send_packets@ == old(self).reliable_send_packets@.remove_keys(
                    Set::new(|k: u16| ack_covers(ack, k) && dist(ack.newest_received, k) < i),
                ),
                self.reliable_send_packets.newest_index()
                    == old(self).reliable_send_packets.newest_index(),
                self.received_packets == old(self).received_packets,
                self.unreliable_send_packets == old(self).unreliable_send_packets,
                self.unreliable_send_packet_id == old(self).unreliable_send_packet_id,
                self.msg_send_queue == old(self).msg_send_queue,
                self.msg_recv_queue == old(self).msg_recv_queue,
                self.received_packet_duplicate == old(self).received_packet_duplicate,
            decreases 32 - i,
        {
            let ghost before = self.reliable_send_packets@;
            if ack.ack_bits & (1u32 << (i as u32)) != 0 {
                let index = ack.newest_received.wrapping_sub(i);
                self.reliable_send_packets.take(index);
            }
            proof {
                lemma_bit_test(ack.ack_bits, i as u32);
                let index = ack.newest_received.wrapping_sub(i);
                lemma_wrapping_u16(ack.newest_received, i);
                lemma_dist_of_offset(ack.newest_received, i);
                assert forall|k: u16| #[trigger] ack_covers(ack, k) && dist(ack.newest_received, k)
                    == i implies k == index by {
                    lemma_dist_injective(ack.newest_received, k, index);
                }
                assert(self.reliable_send_packets@ =~= old(self).reliable_send_packets@.remove_keys(
                    Set::new(|k: u16| ack_covers(ack, k) && dist(ack.newest_received, k) < i + 1),
                ));
            }
            i = i + 1;
        }
        proof {
            assert(Set::new(|k: u16| ack_covers(ack, k) && dist(ack.newest_received, k) < 32)
                =~= covered_set(ack));
        }
    }
}


/// The reliable packets that are still to be acknowledged, after `ack` arrived.
pub open spec fn after_ack<P>(sent: Map<u16, P>, ack: PacketAck) -> Map<u16, P> {
    sent.remove_keys(covered_set(ack))
}

/// Whether recording `seq` moves the window of received indices: `seq` comes
/// after the newest recorded index.
pub open spec fn advances(newest: u16, seq: u16) -> bool {
    signed_gap(seq, newest) > 0
}

/// The newest received index after recording `seq`.
pub open spec fn newest_after(newest: u16, seq: u16) -> u16 {
    if advances(newest, seq) {
        seq
    } else {
        newest
    }
}

/// The received indices after recording `seq`: an index after the newest one
/// becomes the newest, and only the recorded indices within 32 of it stay (see
/// [`RingBuffer::insert`]); a late index within the window is added to the
/// others (see [`RingBuffer::set`]).
pub open spec fn after_record(received: Map<u16, ()>, newest: u16, seq: u16) -> Map<u16, ()> {
    if advances(newest, seq) {
        (if 1 <= seq.wrapping_sub(newest) <= 32 {
            received.restrict(Set::new(|k: u16| in_window(seq, k)))
        } else {
            Map::empty()
        }).insert(seq, ())
    } else {
        received.insert(seq, ())
    }
}

/// An index that is neither before the window nor after the newest index lies
/// in the window.
proof fn lemma_late_index_in_window(newest: u16, seq: u16)
    requires
        !(signed_gap(newest.wrapping_sub(31), seq) > 0),
        !(signed_gap(seq, newest) > 0),
    ensures
        in_window(newest, seq),
{
    lemma_wrapping_u16(newest, 31);
    lemma_u16_diff(newest, 31);
    lemma_u16_diff(newest, seq);
    lemma_u16_diff(seq, newest);
    lemma_u16_diff(newest.wrapping_sub(31), seq);
}

/// Recording an index forgets no recorded index that lies within 32 of the
/// newest one afterwards.
proof fn lemma_after_record_keeps_window(received: Map<u16, ()>, newest: u16, seq: u16)
    requires
        forall|k: u16| #[trigger] received.dom().contains(k) ==> in_window(newest, k),
    ensures
        forall|k: u16| #[trigger]
            received.dom().contains(k) && in_window(newest_after(newest, seq), k)
                ==> after_record(received, newest, seq).dom().contains(k),
{
    assert forall|k: u16| #[trigger]
        received.dom().contains(k) && in_window(newest_after(newest, seq), k)
            implies after_record(received, newest, seq).dom().contains(k) by {
        if advances(newest, seq) {
            assert(in_window(newest, k));
            lemma_u16_diff(seq, newest);
            lemma_u16_diff(seq, k);
            lemma_u16_diff(newest, k);
            lemma_wrapping_u16(seq, newest);
        }
    }
}

/// A received packet with messages is dropped as a duplicate: its index is
/// recorded already, or lies before the oldest index of the window of received
/// packets.
pub open spec fn is_duplicate(received: Map<u16, ()>, newest: u16, seq: u16) -> bool {
    received.dom().contains(seq) || signed_gap(newest.wrapping_sub(31), seq) > 0
}

impl<M: ByteRepr> UdpCommunicator<M> {
    /// What [`UdpCommunicator::receive`] does with `datagram`: bytes that are
    /// no packet change nothing; a heartbeat only acknowledges; a duplicate
    /// only sets the duplicate flag; any other packet is recorded, its messages
    /// are queued after those already there, and its acknowledgement is
    /// processed.
    pub open spec fn received(before: Self, after: Self, datagram: Seq<u8>) -> bool {
        &&& after.unreliable_send_packets == before.unreliable_send_packets
        &&& after.unreliable_send_packet_id == before.unreliable_send_packet_id
        &&& after.msg_send_queue == before.msg_send_queue
        &&& after.reliable_send_packets.newest_index()
            == before.reliable_send_packets.newest_index()
        &&& forall|k: u16| #[trigger]
            before.received_packets@.dom().contains(k) && in_window(
                after.received_packets.newest_index(),
                k,
            ) ==> after.received_packets@.dom().contains(k)
        &&& match decode_packet::<M>(datagram) {
            Err(_) => after == before,
            Ok(p) => if p.messages.len() == 0 {
                &&& after.reliable_send_packets@ == after_ack(
                    before.reliable_send_packets@,
                    p.ack,
                )
                &&& after.received_packets == before.received_packets
                &&& after.msg_recv_queue == before.msg_recv_queue
                &&& after.received_packet_duplicate == before.received_packet_duplicate
            } else if is_duplicate(
                before.received_packets@,
                before.received_packets.newest_index(),
                p.ack.sequence_id,
            ) {
                &&& after.reliable_send_packets == before.reliable_send_packets
                &&& after.received_packets == before.received_packets
                &&& after.msg_recv_queue == before.msg_recv_queue
                &&& after.received_packet_duplicate
            } else {
                &&& after.reliable_send_packets@ == after_ack(
                    before.reliable_send_packets@,
                    p.ack,
                )
                &&& after.received_packets@ == after_record(
                    before.received_packets@,
                    before.received_packets.newest_index(),
                    p.ack.sequence_id,
                )
                &&& after.received_packets.newest_index() == newest_after(
                    before.received_packets.newest_index(),
                    p.ack.sequence_id,
                )
                &&& after.msg_recv_queue@ == before.msg_recv_queue@ + p.messages
                &&& after.received_packet_duplicate == before.received_packet_duplicate
            },
        }
    }

    /// Handles one received datagram:
    /// - bytes that are no packet are dropped;
    /// - a heartbeat (a packet without messages) only acknowledges;
    /// - a duplicate packet sets the duplicate flag, so that an acknowledgement
    ///   is sent back;
    /// - any other packet is recorded, its messages are queued for reading and
    ///   its acknowledgement is processed.
    pub fn receive(&mut self, datagram: &[u8])
        requires
            old(self).wf(),
            packet_decode_requires::<M>(datagram@),
        ensures
            final(self).wf(),
            Self::received(*old(self), *final(self), datagram@),
    {
        match Packet::<M>::from_bytes(datagram) {
            Ok(packet) => {
                // Heartbeat
                if packet.messages.len() == 0 {
                    self.acknowledge(packet.ack);
                    return;
                }
                let seq = packet.ack.sequence_id;
                if self.received_packets.get(seq).is_some() {
                    self.received_packet_duplicate = true;
                    return;
                }
                if wrapping_gt(self.received_packets.get_newest_index().wrapping_sub(31), seq) {
                    self.received_packet_duplicate = true;
                    return;
                }
                let newest = self.received_packets.get_newest_index();
                proof {
                    self.received_packets.lemma_dom_in_window();
                    lemma_after_record_keeps_window(self.received_packets@, newest, seq);
                }
                if wrapping_gt(seq, newest) {
                    self.received_packets.insert((), seq);
                } else {
                    proof {
                        lemma_late_index_in_window(newest, seq);
                    }
                    self.received_packets.set((), seq);
                }
                let ack = packet.ack;
                let mut messages = packet.messages;
                let ghost all = messages@;
                let ghost queued = self.msg_recv_queue@;
                let ghost mut i: int = 0;
                while messages.len() > 0
                    invariant
                        self.wf(),
                        0 <= i <= all.len(),
                        messages@ == all.skip(i),
                        self.msg_recv_queue@ == queued + all.take(i),
                        self.reliable_send_packets == old(self).reliable_send_packets,
                        self.received_packets@ == after_record(
                            old(self).received_packets@,
                            old(self).received_packets.newest_index(),
                            seq,
                        ),
                        self.received_packets.newest_index() == newest_after(
                            old(self).received_packets.newest_index(),
                            seq,
                        ),
                        self.unreliable_send_packets == old(self).unreliable_send_packets,
                        self.unreliable_send_packet_id == old(self).unreliable_send_packet_id,
                        self.msg_send_queue == old(self).msg_send_queue,
                        self.received_packet_duplicate == old(self).received_packet_duplicate,
                    decreases messages@.len(),
                {
                    let m = messages.remove(0);
                    self.msg_recv_queue.push_back(m);
                    proof {
                        assert(all.skip(i).drop_first() =~= all.skip(i + 1));
                        assert(all.take(i + 1) =~= all.take(i).push(all[i]));
                        assert(messages@ =~= all.skip(i + 1));
                        i = i + 1;
                    }
                }
                proof {
                    assert(all.take(i) =~= all);
                }
                self.acknowledge(ack);
            },
            Err(_) => {},
        }
    }
}

/// Law: once the sender processes an acknowledgement created by the receiver,
/// exactly the packets that the receiver has recorded are dropped from the
/// sender's packets awaiting acknowledgement; every other one is kept and sent
/// again.
pub proof fn lemma_acknowledge_created_ack<P>(
    sent: Map<u16, P>,
    ack: PacketAck,
    newest: u16,
    received: Set<u16>,
)
    requires
        ack_matches(ack, newest, received),
    ensures
        after_ack(sent, ack) == sent.remove_keys(received),
        forall|k: u16| #[trigger]
            sent.dom().contains(k) && !received.contains(k) ==> after_ack(sent, ack).dom().contains(
                k,
            ) && after_ack(sent, ack)[k] == sent[k],
{
    assert(covered_set(ack) =~= received);
}

/// Handing the same datagram to a communicator twice in a row queues its
/// messages at most once: the second time queues nothing.
pub proof fn lemma_receive_twice_queues_once<M: ByteRepr>(
    c0: UdpCommunicator<M>,
    c1: UdpCommunicator<M>,
    c2: UdpCommunicator<M>,
    datagram: Seq<u8>,
)
    requires
        UdpCommunicator::received(c0, c1, datagram),
        UdpCommunicator::received(c1, c2, datagram),
    ensures
        c2.msg_recv_queue@ == c1.msg_recv_queue@,
{
}

/// What a receiver reads of what a sender wrote: the datagram of a valid
/// packet with messages can be handed to a receiver, and one that has not
/// recorded the packet's index queues exactly the packet's messages, in order,
/// after those already queued, and records the index.
pub proof fn lemma_datagram_delivers_messages<M: ByteRepr>(
    p: PacketView<M>,
    b0: UdpCommunicator<M>,
    b1: UdpCommunicator<M>,
)
    requires
        M::decode_requires(Seq::<u8>::empty()),
        packet_valid(p),
        p.messages.len() > 0,
        !is_duplicate(b0.received_packets@, b0.received_packets.newest_index(), p.ack.sequence_id),
        UdpCommunicator::received(b0, b1, encode_packet(p)),
    ensures
        packet_decode_requires::<M>(encode_packet(p)),
        b1.msg_recv_queue@ == b0.msg_recv_queue@ + p.messages,
        b1.received_packets@.dom().contains(p.ack.sequence_id),
{
    M::lemma_decode(Seq::<u8>::empty());
    lemma_packet_roundtrip(p, Seq::<u8>::empty());
    assert(encode_packet(p) + Seq::<u8>::empty() =~= encode_packet(p));
}

/// The communicator accepts the packet in `datagram`: it reads as a packet
/// with messages that is no duplicate.
pub open spec fn accepts<M: ByteRepr>(c: UdpCommunicator<M>, datagram: Seq<u8>) -> bool {
    match decode_packet::<M>(datagram) {
        Ok(p) => p.messages.len() > 0 && !is_duplicate(
            c.received_packets@,
            c.received_packets.newest_index(),
            p.ack.sequence_id,
        ),
        Err(_) => false,
    }
}

/// The index of the packet that `datagram` holds, when it reads as one.
pub open spec fn datagram_index<M: ByteRepr>(datagram: Seq<u8>) -> u16 {
    match decode_packet::<M>(datagram) {
        Ok(p) => p.ack.sequence_id,
        Err(_) => 0,
    }
}

proof fn lemma_u16_diff(x: u16, y: u16)
    by (bit_vector)
    ensures
        x >= y ==> ((x - y) as u16) == x - y,
        x < y ==> ((x - y) as u16) == x - y + 65536,
{
}

/// One received datagram keeps an index recorded while it lies within 32 of
/// the newest recorded index, as long as that index stays less than half the
/// index space ahead of it.
proof fn lemma_step_keeps_recorded<M: ByteRepr>(
    c0: UdpCommunicator<M>,
    c1: UdpCommunicator<M>,
    d: Seq<u8>,
    s: u16,
)
    requires
        UdpCommunicator::received(c0, c1, d),
        forward_distance(c0.received_packets.newest_index(), s) < 0x8000,
        forward_distance(c1.received_packets.newest_index(), s) < 0x8000,
        forward_distance(c0.received_packets.newest_index(), s) < 32
            ==> c0.received_packets@.dom().contains(s),
    ensures
        forward_distance(c1.received_packets.newest_index(), s) < 32
            ==> c1.received_packets@.dom().contains(s),
{
    if accepts(c0, d) {
        let n = c0.received_packets.newest_index();
        let t = datagram_index::<M>(d);
        if advances(n, t) {
            lemma_u16_diff(t, n);
            lemma_u16_diff(t, s);
            lemma_u16_diff(n, s);
            lemma_wrapping_u16(t, n);
            if forward_distance(t, s) < 32 && t != s {
                assert(forward_distance(n, s) < 32);
                assert(c0.received_packets@.dom().contains(s));
                assert(in_window(t, s));
                assert(1 <= t.wrapping_sub(n) <= 32);
            }
        }
    }
}

proof fn lemma_index_stays_recorded<M: ByteRepr>(
    cs: Seq<UdpCommunicator<M>>,
    ds: Seq<Seq<u8>>,
    i: int,
    k: int,
)
    requires
        cs.len() == ds.len() + 1,
        forall|m: int|
            0 <= m < ds.len() ==> UdpCommunicator::received(cs[m], cs[m + 1], #[trigger] ds[m]),
        0 <= i < k < cs.len(),
        accepts(cs[i], ds[i]),
        forall|m: int|
            i < m <= k ==> forward_distance(
                (#[trigger] cs[m]).received_packets.newest_index(),
                datagram_index::<M>(ds[i]),
            ) < 0x8000,
    ensures
        forward_distance(cs[k].received_packets.newest_index(), datagram_index::<M>(ds[i])) < 32
            ==> cs[k].received_packets@.dom().contains(datagram_index::<M>(ds[i])),
    decreases k - i,
{
    let s = datagram_index::<M>(ds[i]);
    assert(UdpCommunicator::received(cs[i], cs[i + 1], ds[i]));
    if k > i + 1 {
        lemma_index_stays_recorded(cs, ds, i, k - 1);
        assert(UdpCommunicator::received(cs[k - 1], cs[k], ds[k - 1]));
        assert(forward_distance(cs[k - 1].received_packets.newest_index(), s) < 0x8000);
        assert(forward_distance(cs[k].received_packets.newest_index(), s) < 0x8000);
        lemma_step_keeps_recorded(cs[k - 1], cs[k], ds[k - 1], s);
    } else {
        let n = cs[i].received_packets.newest_index();
        if !advances(n, s) {
            assert(cs[k].received_packets@.dom().contains(s));
        }
    }
}

/// A packet index that the communicator has accepted is not accepted again in
/// any later datagram of a run, as long as the newest recorded index stays
/// less than half the index space ahead of it: the later datagram queues no
/// message. In particular no message is queued twice while its index stays
/// within 32 of the newest recorded one.
pub proof fn lemma_accepted_index_not_accepted_again<M: ByteRepr>(
    cs: Seq<UdpCommunicator<M>>,
    ds: Seq<Seq<u8>>,
    i: int,
    j: int,
)
    requires
        cs.len() == ds.len() + 1,
        forall|m: int|
            0 <= m < ds.len() ==> UdpCommunicator::received(cs[m], cs[m + 1], #[trigger] ds[m]),
        0 <= i < j < ds.len(),
        accepts(cs[i], ds[i]),
        forall|m: int|
            i < m <= j ==> forward_distance(
                (#[trigger] cs[m]).received_packets.newest_index(),
                datagram_index::<M>(ds[i]),
            ) < 0x8000,
        datagram_index::<M>(ds[j]) == datagram_index::<M>(ds[i]),
    ensures
        !accepts(cs[j], ds[j]),
        cs[j + 1].msg_recv_queue == cs[j].msg_recv_queue,
{
    lemma_index_stays_recorded(cs, ds, i, j);
    let s = datagram_index::<M>(ds[i]);
    let c = cs[j];
    let n = c.received_packets.newest_index();
    assert(forward_distance(n, s) < 0x8000);
    let w = n.wrapping_sub(31);
    lemma_wrapping_u16(n, 31);
    lemma_u16_diff(n, 31);
    lemma_u16_diff(n, s);
    lemma_u16_diff(w, s);
    assert(is_duplicate(c.received_packets@, n, s));
    assert(UdpCommunicator::received(cs[j], cs[j + 1], ds[j]));
}

/// The messages of the first `c` packets filled from `q`, one packet after
/// the other.
pub open spec fn packed_messages<M: ByteRepr>(q: Seq<M>, c: nat) -> Seq<M>
    decreases c,
{
    if c == 0 {
        Seq::empty()
    } else {
        packed_messages(q, (c - 1) as nat) + packet_messages(q, (c - 1) as nat)
    }
}

proof fn lemma_packed_then_queued<M: ByteRepr>(q: Seq<M>, c: nat)
    ensures
        packed_messages(q, c) + queue_after_packets(q, c) == q,
    decreases c,
{
    if c > 0 {
        lemma_packed_then_queued(q, (c - 1) as nat);
        let r = queue_after_packets(q, (c - 1) as nat);
        let f = fitting_prefix_len(r, packet::MAX_PACKET_DATA_LEN as int) as int;
        lemma_fitting_prefix(r, packet::MAX_PACKET_DATA_LEN as int);
        assert(r.take(f) + r.skip(f) =~= r);
        assert(packed_messages(q, c) + queue_after_packets(q, c) =~= packed_messages(
            q,
            (c - 1) as nat,
        ) + (r.take(f) + r.skip(f)));
    }
}

proof fn lemma_queue_after_is_suffix<M: ByteRepr>(q: Seq<M>, j: nat)
    ensures
        queue_after_packets(q, j).len() <= q.len(),
        queue_after_packets(q, j) == q.skip(q.len() - queue_after_packets(q, j).len()),
    decreases j,
{
    if j > 0 {
        lemma_queue_after_is_suffix(q, (j - 1) as nat);
        let r = queue_after_packets(q, (j - 1) as nat);
        let f = fitting_prefix_len(r, packet::MAX_PACKET_DATA_LEN as int) as int;
        lemma_fitting_prefix(r, packet::MAX_PACKET_DATA_LEN as int);
        assert(r.skip(f) =~= q.skip(q.len() - r.len() + f));
    }
}

/// When every queued message fits into a packet on its own, every packet that
/// flushing makes from a non-empty queue carries at least one message.
pub proof fn lemma_flushed_packets_not_empty<M: ByteRepr>(q: Seq<M>, j: nat)
    requires
        forall|i: int| 0 <= i < q.len() ==> (#[trigger] q[i]).encode().len()
            <= packet::MAX_PACKET_DATA_LEN,
        queue_after_packets(q, j).len() > 0,
    ensures
        packet_messages(q, j).len() > 0,
{
    lemma_queue_after_is_suffix(q, j);
    let r = queue_after_packets(q, j);
    let x = q.len() - r.len();
    assert(r[0] == q[x]);
    lemma_fitting_prefix(r, packet::MAX_PACKET_DATA_LEN as int);
}

/// Flushing loses no message and keeps their order: the messages of the new
/// packets, packet after packet, followed by the messages still queued, are
/// the messages that were queued.
pub proof fn lemma_flush_keeps_messages<M: ByteRepr>(
    before: UdpCommunicator<M>,
    after: UdpCommunicator<M>,
)
    requires
        UdpCommunicator::flushed(before, after),
    ensures
        ({
            let c = after.reliable_send_packets.newest_index().wrapping_sub(
                before.reliable_send_packets.newest_index(),
            );
            packed_messages(before.msg_send_queue@, c as nat) + after.msg_send_queue@
                == before.msg_send_queue@
        }),
{
    let c = after.reliable_send_packets.newest_index().wrapping_sub(
        before.reliable_send_packets.newest_index(),
    );
    lemma_packed_then_queued(before.msg_send_queue@, c as nat);
}

/// A tick never drops a reliable packet that awaits acknowledgement: each one
/// still awaits it afterwards, with the same packet. Only an acknowledgement
/// handed to [`UdpCommunicator::receive`] removes one.
pub proof fn lemma_tick_keeps_unacknowledged<M: ByteRepr>(
    c0: UdpCommunicator<M>,
    a: UdpCommunicator<M>,
    b: UdpCommunicator<M>,
    c1: UdpCommunicator<M>,
    now: u64,
    out: Seq<Seq<u8>>,
    k: u16,
)
    requires
        UdpCommunicator::heartbeat_queued(c0, a),
        UdpCommunicator::flushed(a, b),
        UdpCommunicator::sent(b, c1, now, out),
        c0.reliable_send_packets@.dom().contains(k),
    ensures
        c1.reliable_send_packets@.dom().contains(k),
        c1.reliable_send_packets@[k].1 == c0.reliable_send_packets@[k].1,
{
    assert(a.reliable_send_packets@.dom().contains(k));
    assert(b.reliable_send_packets@.dom().contains(k));
}

/// The messages that fit take no more than the bytes available.
proof fn lemma_fitting_prefix<M: ByteRepr>(q: Seq<M>, available: int)
    ensures
        fitting_prefix_len(q, available) <= q.len(),
        available >= 0 ==> encode_all(q.take(fitting_prefix_len(q, available) as int)).len()
            <= available,
    decreases q.len(),
{
    if q.len() > 0 && q[0].encode().len() <= available {
        let l = q[0].encode().len() as int;
        lemma_fitting_prefix(q.skip(1), available - l);
        let f = fitting_prefix_len(q, available) as int;
        let t = q.take(f);
        lemma_encode_all_front(t);
        assert(t.skip(1) =~= q.skip(1).take(f - 1));
    } else {
        assert(q.take(0) =~= Seq::<M>::empty());
    }
}

impl<M: ByteRepr> UdpCommunicator<M> {
    /// How many messages from the front of the send queue fit into one packet.
    fn fitting_messages(&self) -> (r: usize)
        requires
            self.wf(),
        ensures
            r == fitting_prefix_len(self.msg_send_queue@, packet::MAX_PACKET_DATA_LEN as int),
    {
        let ghost q = self.msg_send_queue@;
        let mut available: usize = packet::MAX_PACKET_DATA_LEN;
        let mut included: usize = 0;
        assert(q.skip(0) =~= q);
        while included < self.msg_send_queue.len()
            invariant
                self.wf(),
                q == self.msg_send_queue@,
                included <= q.len(),
                available <= packet::MAX_PACKET_DATA_LEN,
                fitting_prefix_len(q, packet::MAX_PACKET_DATA_LEN as int) == included
                    + fitting_prefix_len(q.skip(included as int), available as int),
            ensures
                fitting_prefix_len(q, packet::MAX_PACKET_DATA_LEN as int) == included,
            decreases q.len() - included,
        {
            let l = self.msg_send_queue[included].len();
            assert(q.skip(included as int)[0] == q[included as int]);
            assert(q.skip(included as int).skip(1) =~= q.skip(included + 1));
            if l <= available {
                available = available - l;
                included = included + 1;
            } else {
                break;
            }
        }
        included
    }

    /// What [`UdpCommunicator::flush_messages`] does: `c` new packets, at the
    /// indices after the newest one, take the queued messages in order; the
    /// other packets stay; it stops when the queue is empty or the next packet
    /// would drop an unacknowledged one.
    pub open spec fn flushed(before: Self, after: Self) -> bool {
        let n0 = before.reliable_send_packets.newest_index();
        let c = after.reliable_send_packets.newest_index().wrapping_sub(n0);
        &&& c <= 32
        &&& after.msg_send_queue@ == queue_after_packets(before.msg_send_queue@, c as nat)
        &&& forall|j: u16|
            j < c ==> (#[trigger] queue_after_packets(before.msg_send_queue@, j as nat)).len() > 0
        &&& forall|j: u16|
            j < c ==> {
                let k = #[trigger] n0.wrapping_add(1).wrapping_add(j);
                let entry = after.reliable_send_packets@[k];
                &&& after.reliable_send_packets@.dom().contains(k)
                &&& entry.0 is None
                &&& entry.1.reliable
                &&& entry.1.ordered
                &&& entry.1.ack.sequence_id == k
                &&& ack_matches(
                    entry.1.ack,
                    before.received_packets.newest_index(),
                    before.received_packets@.dom(),
                )
                &&& entry.1.messages@ == packet_messages(before.msg_send_queue@, j as nat)
            }
        &&& forall|k: u16| #[trigger]
            before.reliable_send_packets@.dom().contains(k)
                ==> after.reliable_send_packets@.dom().contains(k)
                && after.reliable_send_packets@[k] == before.reliable_send_packets@[k]
        &&& forall|k: u16| #[trigger]
            after.reliable_send_packets@.dom().contains(k)
                ==> before.reliable_send_packets@.dom().contains(k) || dist(
                after.reliable_send_packets.newest_index(),
                k,
            ) < c
        &&& after.msg_send_queue@.len() == 0 || after.reliable_send_packets@.dom().contains(
            after.reliable_send_packets.newest_index().wrapping_sub(31),
        )
        &&& after.received_packets == before.received_packets
        &&& after.unreliable_send_packets == before.unreliable_send_packets
        &&& after.unreliable_send_packet_id == before.unreliable_send_packet_id
        &&& after.msg_recv_queue == before.msg_recv_queue
        &&& after.received_packet_duplicate == before.received_packet_duplicate
    }

    /// Packs the queued messages into reliable packets, in order, as long as
    /// there are messages and a packet can be stored without dropping an
    /// unacknowledged one. Each packet takes as many messages from the front of
    /// the queue as fit into [`packet::MAX_PACKET_DATA_LEN`] bytes (none, when
    /// the first one does not fit).
    pub fn flush_messages(&mut self)
        requires
            old(self).wf(),
        ensures
            final(self).wf(),
            Self::flushed(*old(self), *final(self)),
    {
        let ghost q0 = self.msg_send_queue@;
        let ghost n0 = self.reliable_send_packets.newest_index();
        let ghost free0 = self.reliable_send_packets.free_slots();
        let mut count: u16 = 0;
        proof {
            lemma_wrapping_u16(n0, 0);
            self.reliable_send_packets.lemma_dom_in_window();
            self.reliable_send_packets.lemma_free_slots_bound();
        }
        while !self.reliable_send_packets.insert_will_override() && self.msg_send_queue.len() > 0
            invariant
                self.wf(),
                count as nat + self.reliable_send_packets.free_slots() == free0,
                free0 <= 32,
                self.reliable_send_packets.newest_index() == n0.wrapping_add(count),
                self.msg_send_queue@ == queue_after_packets(q0, count as nat),
                forall|j: u16|
                    j < count ==> (#[trigger] queue_after_packets(q0, j as nat)).len() > 0,
                forall|j: u16|
                    j < count ==> {
                        let k = #[trigger] n0.wrapping_add(1).wrapping_add(j);
                        let entry = self.reliable_send_packets@[k];
                        &&& self.reliable_send_packets@.dom().contains(k)
                        &&& entry.0 is None
                        &&& entry.1.reliable
                        &&& entry.1.ordered
                        &&& entry.1.ack.sequence_id == k
                        &&& ack_matches(
                            entry.1.ack,
                            old(self).received_packets.newest_index(),
                            old(self).received_packets@.dom(),
                        )
                        &&& entry.1.messages@ == packet_messages(q0, j as nat)
                    },
                forall|k: u16| #[trigger]
                    old(self).reliable_send_packets@.dom().contains(k) ==> self.reliable_send_packets@.dom().contains(k)
                        && self.reliable_send_packets@[k] == old(self).reliable_send_packets@[k],
                forall|k: u16| #[trigger]
                    self.reliable_send_packets@.dom().contains(k) ==> old(self).reliable_send_packets@.dom().contains(k) || dist(
                        self.reliable_send_packets.newest_index(),
                        k,
                    ) < count,
                self.received_packets == old(self).received_packets,
                self.unreliable_send_packets == old(self).unreliable_send_packets,
                self.unreliable_send_packet_id == old(self).unreliable_send_packet_id,
                self.msg_recv_queue == old(self).msg_recv_queue,
                self.received_packet_duplicate == old(self).received_packet_duplicate,
            decreases self.reliable_send_packets.free_slots(),
        {
            let ghost before = *self;
            let included = self.fitting_messages();
            let ghost q = self.msg_send_queue@;
            proof {
                lemma_fitting_prefix(q, packet::MAX_PACKET_DATA_LEN as int);
            }
            let mut messages: Vec<M> = Vec::new();
            let mut t: usize = 0;
            assert(q.skip(0) =~= q);
            while t < included
                invariant
                    t <= included <= q.len(),
                    messages@ == q.take(t as int),
                    self.msg_send_queue@ == q.skip(t as int),
                    self.reliable_send_packets == before.reliable_send_packets,
                    self.received_packets == before.received_packets,
                    self.unreliable_send_packets == before.unreliable_send_packets,
                    self.unreliable_send_packet_id == before.unreliable_send_packet_id,
                    self.msg_recv_queue == before.msg_recv_queue,
                    self.received_packet_duplicate == before.received_packet_duplicate,
                decreases included - t,
            {
                let m = self.msg_send_queue.pop_front().unwrap();
                messages.push(m);
                proof {
                    assert(q.take(t + 1) =~= q.take(t as int).push(q[t as int]));
                    assert(self.msg_send_queue@ =~= q.skip(t + 1));
                }
                t = t + 1;
            }
            let sequence_id = self.reliable_send_packets.get_next_index();
            let ack = self.create_ack(sequence_id);
            let packet = Packet { ack, reliable: true, ordered: true, messages };
            proof {
                assert forall|i: int| 0 <= i < packet.messages@.len() implies (
                #[trigger] packet.messages@[i]).valid() by {
                    assert(packet.messages@[i] == q[i]);
                }
                assert(packet_valid(packet@));
                assert forall|i: int| 0 <= i < self.msg_send_queue@.len() implies sendable(
                    #[trigger] self.msg_send_queue@[i],
                ) by {
                    assert(self.msg_send_queue@[i] == q[i + included]);
                }
                self.reliable_send_packets.lemma_dom_in_window();
                lemma_wrapping_u16(n0, count);
                lemma_wrapping_u16(n0.wrapping_add(count), 1);
                lemma_wrapping_u16(n0, 1);
                lemma_wrapping_u16(n0.wrapping_add(1), count);
            }
            self.reliable_send_packets.push((None, packet));
            proof {
                let r = sequence_id;
                assert(r == n0.wrapping_add(1).wrapping_add(count)) by {
                    assert(((((n0 + count) as u16) + 1) as u16) == ((((n0 + 1) as u16) + count) as u16))
                        by (bit_vector);
                }
                lemma_wrapping_u16(r, 32);
                lemma_wrapping_u16(before.reliable_send_packets.newest_index(), 31);
                assert(r.wrapping_sub(32) == before.reliable_send_packets.newest_index().wrapping_sub(31))
                    by {
                    let n = before.reliable_send_packets.newest_index();
                    assert(((((n + 1) as u16) - 32) as u16) == ((n - 31) as u16)) by (bit_vector);
                }
                assert forall|j: u16| j < count + 1 implies ({
                    let k = #[trigger] n0.wrapping_add(1).wrapping_add(j);
                    let entry = self.reliable_send_packets@[k];
                    &&& self.reliable_send_packets@.dom().contains(k)
                    &&& entry.0 is None
                    &&& entry.1.reliable
                    &&& entry.1.ordered
                    &&& entry.1.ack.sequence_id == k
                    &&& ack_matches(
                        entry.1.ack,
                        old(self).received_packets.newest_index(),
                        old(self).received_packets@.dom(),
                    )
                    &&& entry.1.messages@ == packet_messages(q0, j as nat)
                }) by {
                    lemma_wrapping_u16(n0.wrapping_add(1), j);
                    if j < count {
                        let k = n0.wrapping_add(1).wrapping_add(j);
                        assert(k != r) by {
                            assert(((((n0 + 1) as u16) + j) as u16) != ((((n0 + 1) as u16) + count) as u16))
                                by (bit_vector)
                                requires
                                    j < count,
                                    count < 33,
                            ;
                        }
                    }
                }
                assert forall|k: u16| #[trigger]
                    old(self).reliable_send_packets@.dom().contains(k) implies self.reliable_send_packets@.dom().contains(k)
                        && self.reliable_send_packets@[k] == old(self).reliable_send_packets@[k] by {
                    assert(before.reliable_send_packets@.dom().contains(k));
                    assert(in_window(before.reliable_send_packets.newest_index(), k));
                    let n = before.reliable_send_packets.newest_index();
                    assert(k != r) by {
                        assert(((n - k) as u16) < 32 ==> k != ((n + 1) as u16)) by (bit_vector);
                    }
                }
                assert forall|k: u16| #[trigger]
                    self.reliable_send_packets@.dom().contains(k) implies old(self).reliable_send_packets@.dom().contains(k) || dist(
                        self.reliable_send_packets.newest_index(),
                        k,
                    ) < count + 1 by {
                    let n = before.reliable_send_packets.newest_index();
                    if k != r {
                        assert(before.reliable_send_packets@.dom().contains(k));
                        assert(dist(n, k) < count ==> dist(r, k) < count + 1) by {
                            assert(((n - k) as u16) < count && count < 33 ==> (((((n + 1) as u16)
                                - k) as u16) < count + 1)) by (bit_vector);
                        }
                    } else {
                        assert(dist(r, r) == 0) by {
                            assert(((r - r) as u16) == 0) by (bit_vector);
                        }
                    }
                }
                assert(self.msg_send_queue@ =~= queue_after_packets(q0, (count + 1) as nat));
                assert forall|j: u16| j < count + 1 implies (#[trigger] queue_after_packets(
                    q0,
                    j as nat,
                )).len() > 0 by {
                    if j == count {
                        assert(q == queue_after_packets(q0, count as nat));
                    }
                }
            }
            count = count + 1;
        }
        proof {
            lemma_wrapping_u16(n0.wrapping_add(count), n0);
            assert(((((n0 + count) as u16) - n0) as u16) == count) by (bit_vector)
                requires
                    count < 33,
            ;
        }
    }
}

/// How long (in milliseconds) a reliable packet waits before it is sent again.
pub const SEND_COOLDOWN_MILLIS: u64 = 100;

/// A reliable packet last sent at `last_send` (never, if `None`) is due at
/// time `now`.
pub open spec fn is_due(last_send: Option<u64>, now: u64) -> bool {
    match last_send {
        None => true,
        Some(t) => t < now && now - t > SEND_COOLDOWN_MILLIS,
    }
}

/// The reliable packets after sending those due at `now`: their time of last
/// sending becomes `now`.
pub open spec fn mark_sent<M: ByteRepr>(
    sent: Map<u16, (Option<u64>, Packet<M>)>,
    now: u64,
) -> Map<u16, (Option<u64>, Packet<M>)> {
    Map::new(
        |k: u16| sent.dom().contains(k),
        |k: u16|
            (
                if is_due(sent[k].0, now) {
                    Some(now)
                } else {
                    sent[k].0
                },
                sent[k].1,
            ),
    )
}

/// The datagrams of the reliable packets at the indices `ks` that are due at
/// `now`, in the order of `ks`.
pub open spec fn due_datagrams<M: ByteRepr>(
    ks: Seq<u16>,
    sent: Map<u16, (Option<u64>, Packet<M>)>,
    now: u64,
) -> Seq<Seq<u8>>
    decreases ks.len(),
{
    if ks.len() == 0 {
        Seq::empty()
    } else {
        due_datagrams(ks.drop_last(), sent, now) + if is_due(sent[ks.last()].0, now) {
            seq![encode_packet(sent[ks.last()].1@)]
        } else {
            Seq::empty()
        }
    }
}

impl<M: ByteRepr> UdpCommunicator<M> {
    /// The datagram that carries `packet`.
    fn packet_datagram(packet: &Packet<M>) -> (r: Vec<u8>)
        requires
            packet_valid(packet@),
        ensures
            r@ == encode_packet(packet@),
    {
        let n = packet.len();
        let mut buf: Vec<u8> = Vec::new();
        let mut i: usize = 0;
        while i < n
            invariant
                buf@.len() == i,
                i <= n,
            decreases n - i,
        {
            buf.push(0);
            i = i + 1;
        }
        proof {
            packet::lemma_valid_messages_fit(packet@);
            packet::lemma_packet_lengths(packet@);
        }
        packet.write_as_bytes(buf.as_mut_slice());
        assert(buf@ =~= encode_packet(packet@));
        buf
    }

    /// What sending at time `now` does: the due reliable packets (oldest first)
    /// and then all queued unreliable packets become datagrams; the due packets
    /// are marked as sent at `now`, and the unreliable queue is emptied.
    pub open spec fn sent(before: Self, after: Self, now: u64, out: Seq<Seq<u8>>) -> bool {
        &&& after.reliable_send_packets@ == mark_sent(before.reliable_send_packets@, now)
        &&& after.reliable_send_packets.newest_index()
            == before.reliable_send_packets.newest_index()
        &&& out == due_datagrams(
            before.reliable_send_packets.keys_seq(),
            before.reliable_send_packets@,
            now,
        ) + before.unreliable_send_packets@.map_values(|p: Packet<M>| encode_packet(p@))
        &&& after.unreliable_send_packets@.len() == 0
        &&& after.received_packets == before.received_packets
        &&& after.unreliable_send_packet_id == before.unreliable_send_packet_id
        &&& after.msg_send_queue == before.msg_send_queue
        &&& after.msg_recv_queue == before.msg_recv_queue
        &&& after.received_packet_duplicate == before.received_packet_duplicate
    }

    /// Produces the datagrams to send at time `now` (in milliseconds).
    fn send_packets(&mut self, now: u64) -> (r: Vec<Vec<u8>>)
        requires
            old(self).wf(),
        ensures
            final(self).wf(),
            Self::sent(*old(self), *final(self), now, r@.map_values(|d: Vec<u8>| d@)),
    {
        let ghost ks = self.reliable_send_packets.keys_seq();
        let ghost ring0 = self.reliable_send_packets@;
        let mut keys: Vec<u16> = Vec::new();
        proof {
            self.reliable_send_packets.lemma_keys_seq_chronological();
            assert(ks.skip(0) =~= ks);
        }
        {
            let mut it = self.reliable_send_packets.keys();
            loop
                invariant
                    it.wf(),
                    it.ring_view() == ring0,
                    keys@.len() <= ks.len(),
                    it.remaining_keys() == ks.skip(keys@.len() as int),
                    keys@ == ks.take(keys@.len() as int),
                ensures
                    keys@ == ks,
                decreases ks.len() - keys@.len(),
            {
                match it.next() {
                    Some(k) => {
                        proof {
                            assert(ks.take(keys@.len() + 1int) =~= keys@.push(k));
                            assert(ks.skip(keys@.len() as int).drop_first() =~= ks.skip(
                                keys@.len() + 1int,
                            ));
                        }
                        keys.push(k);
                    },
                    None => {
                        proof {
                            assert(ks.take(keys@.len() as int) =~= ks);
                        }
                        break;
                    },
                }
            }
        }
        let mut out: Vec<Vec<u8>> = Vec::new();
        let mut i: usize = 0;
        proof {
            assert(ks.take(0) =~= Seq::<u16>::empty());
            assert(out@.map_values(|d: Vec<u8>| d@) =~= due_datagrams(ks.take(0), ring0, now));
        }
        while i < keys.len()
            invariant
                self.wf(),
                keys@ == ks,
                i <= ks.len(),
                ks == old(self).reliable_send_packets.keys_seq(),
                ring0 == old(self).reliable_send_packets@,
                forall|k: u16| #[trigger] ks.contains(k) <==> ring0.dom().contains(k),
                forall|a: int, b: int| 0 <= a < b < ks.len() ==> ks[a] != ks[b],
                self.reliable_send_packets@.dom() == ring0.dom(),
                forall|k: u16| #[trigger]
                    ring0.dom().contains(k) ==> self.reliable_send_packets@[k] == if ks.take(
                        i as int,
                    ).contains(k) {
                        mark_sent(ring0, now)[k]
                    } else {
                        ring0[k]
                    },
                self.reliable_send_packets.newest_index()
                    == old(self).reliable_send_packets.newest_index(),
                out@.map_values(|d: Vec<u8>| d@) == due_datagrams(ks.take(i as int), ring0, now),
                self.received_packets == old(self).received_packets,
                self.unreliable_send_packets == old(self).unreliable_send_packets,
                self.unreliable_send_packet_id == old(self).unreliable_send_packet_id,
                self.msg_send_queue == old(self).msg_send_queue,
                self.msg_recv_queue == old(self).msg_recv_queue,
                self.received_packet_duplicate == old(self).received_packet_duplicate,
            decreases ks.len() - i,
        {
            let k = keys[i];
            proof {
                assert(ks.contains(k));
                assert(!ks.take(i as int).contains(k)) by {
                    if ks.take(i as int).contains(k) {
                        let j = choose|j: int| 0 <= j < i && #[trigger] ks.take(i as int)[j] == k;
                        assert(ks[j] == ks[i as int]);
                    }
                }
                assert(ks.take(i + 1) =~= ks.take(i as int).push(k));
                assert(ks.take(i + 1).drop_last() =~= ks.take(i as int));
            }
            let ghost before_ring = self.reliable_send_packets@;
            let ghost old_out = out@.map_values(|d: Vec<u8>| d@);
            match self.reliable_send_packets.get_mut(k) {
                Some(entry) => {
                    let due = match entry.0 {
                        None => true,
                        Some(t) => t < now && now - t > SEND_COOLDOWN_MILLIS,
                    };
                    if due {
                        entry.0 = Some(now);
                        let d = Self::packet_datagram(&entry.1);
                        out.push(d);
                        proof {
                            assert(out@.map_values(|d: Vec<u8>| d@) =~= old_out.push(
                                encode_packet(ring0[k].1@),
                            ));
                        }
                    } else {
                        proof {
                            assert(out@.map_values(|d: Vec<u8>| d@) =~= old_out);
                        }
                    }
                },
                None => {},
            }
            proof {
                assert(self.reliable_send_packets@.dom() =~= ring0.dom());
                assert forall|k2: u16| #[trigger]
                    ring0.dom().contains(k2) implies self.reliable_send_packets@[k2] == if ks.take(
                        i + 1,
                    ).contains(k2) {
                        mark_sent(ring0, now)[k2]
                    } else {
                        ring0[k2]
                    } by {
                    if k2 == k {
                        assert(ks.take(i + 1)[i as int] == k);
                    } else {
                        assert(ks.take(i + 1).contains(k2) == ks.take(i as int).contains(k2)) by {
                            if ks.take(i + 1).contains(k2) {
                                let j = choose|j: int|
                                    0 <= j < i + 1 && #[trigger] ks.take(i + 1)[j] == k2;
                                assert(ks.take(i as int)[j] == k2);
                            }
                            if ks.take(i as int).contains(k2) {
                                let j = choose|j: int|
                                    0 <= j < i && #[trigger] ks.take(i as int)[j] == k2;
                                assert(ks.take(i + 1)[j] == k2);
                            }
                        }
                    }
                }
            }
            i = i + 1;
        }
        proof {
            assert(ks.take(ks.len() as int) =~= ks);
            assert(self.reliable_send_packets@ =~= mark_sent(ring0, now)) by {
                assert forall|k2: u16| #[trigger] ring0.dom().contains(k2) implies ks.take(
                    ks.len() as int,
                ).contains(k2) by {}
            }
        }
        let ghost unrel = self.unreliable_send_packets@;
        let ghost mid = out@.map_values(|d: Vec<u8>| d@);
        let ghost mut j: int = 0;
        while self.unreliable_send_packets.len() > 0
            invariant
                self.wf(),
                0 <= j <= unrel.len(),
                self.unreliable_send_packets@ == unrel.skip(j),
                out@.map_values(|d: Vec<u8>| d@) == mid + unrel.take(j).map_values(
                    |p: Packet<M>| encode_packet(p@),
                ),
                self.reliable_send_packets@ == mark_sent(ring0, now),
                self.reliable_send_packets.newest_index()
                    == old(self).reliable_send_packets.newest_index(),
                self.received_packets == old(self).received_packets,
                self.unreliable_send_packet_id == old(self).unreliable_send_packet_id,
                self.msg_send_queue == old(self).msg_send_queue,
                self.msg_recv_queue == old(self).msg_recv_queue,
                self.received_packet_duplicate == old(self).received_packet_duplicate,
            decreases self.unreliable_send_packets@.len(),
        {
            let packet = self.unreliable_send_packets.pop_front().unwrap();
            proof {
                assert(packet == unrel[j]);
                assert(packet_valid(packet@));
            }
            let d = Self::packet_datagram(&packet);
            let ghost old_out = out@.map_values(|d: Vec<u8>| d@);
            out.push(d);
            proof {
                assert(out@.map_values(|d: Vec<u8>| d@) =~= old_out.push(encode_packet(packet@)));
                assert(unrel.take(j + 1) =~= unrel.take(j).push(unrel[j]));
                assert(unrel.take(j + 1).map_values(|p: Packet<M>| encode_packet(p@)) =~= unrel.take(
                    j,
                ).map_values(|p: Packet<M>| encode_packet(p@)).push(encode_packet(unrel[j]@)));
                assert(out@.map_values(|d: Vec<u8>| d@) =~= mid + unrel.take(j + 1).map_values(
                    |p: Packet<M>| encode_packet(p@),
                ));
                assert(self.unreliable_send_packets@ =~= unrel.skip(j + 1));
                j = j + 1;
            }
        }
        proof {
            assert(unrel.take(j) =~= unrel);
        }
        out
    }
}

proof fn lemma_due_datagrams_are_packets<M: ByteRepr>(
    ks: Seq<u16>,
    sent: Map<u16, (Option<u64>, Packet<M>)>,
    now: u64,
    i: int,
)
    requires
        0 <= i < due_datagrams(ks, sent, now).len(),
    ensures
        exists|j: int|
            0 <= j < ks.len() && due_datagrams(ks, sent, now)[i] == encode_packet(
                sent[#[trigger] ks[j]].1@,
            ),
    decreases ks.len(),
{
    let front = due_datagrams(ks.drop_last(), sent, now);
    if i < front.len() {
        lemma_due_datagrams_are_packets(ks.drop_last(), sent, now, i);
        let j = choose|j: int|
            0 <= j < ks.drop_last().len() && front[i] == encode_packet(
                sent[#[trigger] ks.drop_last()[j]].1@,
            );
        assert(ks.drop_last()[j] == ks[j]);
    } else {
        assert(ks[ks.len() - 1] == ks.last());
    }
}

/// Every datagram that a tick sends is the representation of a valid packet,
/// which a receiver reads back whole.
pub proof fn lemma_sent_datagrams_read_back<M: ByteRepr>(
    b: UdpCommunicator<M>,
    c: UdpCommunicator<M>,
    now: u64,
    out: Seq<Seq<u8>>,
    i: int,
)
    requires
        M::decode_requires(Seq::<u8>::empty()),
        b.wf(),
        UdpCommunicator::sent(b, c, now, out),
        0 <= i < out.len(),
    ensures
        exists|p: PacketView<M>|
            {
                &&& packet_valid(p)
                &&& out[i] == encode_packet(p)
                &&& packet_decode_requires::<M>(out[i])
                &&& decode_packet::<M>(out[i]) == Ok::<PacketView<M>, ByteReprError>(p)
            },
{
    M::lemma_decode(Seq::<u8>::empty());
    let ks = b.reliable_send_packets.keys_seq();
    let sent = b.reliable_send_packets@;
    let due = due_datagrams(ks, sent, now);
    let p = if i < due.len() {
        lemma_due_datagrams_are_packets(ks, sent, now, i);
        let j = choose|j: int|
            0 <= j < ks.len() && due[i] == encode_packet(sent[#[trigger] ks[j]].1@);
        b.reliable_send_packets.lemma_keys_seq_chronological();
        assert(ks.contains(ks[j]));
        assert(sent.dom().contains(ks[j]));
        sent[ks[j]].1@
    } else {
        let u = b.unreliable_send_packets@;
        assert(out[i] == encode_packet(u[i - due.len()]@));
        u[i - due.len()]@
    };
    lemma_packet_roundtrip(p, Seq::<u8>::empty());
    assert(encode_packet(p) + Seq::<u8>::empty() =~= encode_packet(p));
}

impl<M: ByteRepr> UdpCommunicator<M> {
    /// What the first step of [`UdpCommunicator::tick`] does: when a duplicate
    /// was received and no message waits to be sent (which would carry an
    /// acknowledgement), a heartbeat packet with the next unreliable id and a
    /// fresh acknowledgement is queued and the duplicate flag is cleared.
    pub open spec fn heartbeat_queued(before: Self, after: Self) -> bool {
        if before.received_packet_duplicate && before.msg_send_queue@.len() == 0 {
            let hb = after.unreliable_send_packets@.last();
            &&& !after.received_packet_duplicate
            &&& after.unreliable_send_packet_id == before.unreliable_send_packet_id.wrapping_add(1)
            &&& after.unreliable_send_packets@.drop_last() == before.unreliable_send_packets@
            &&& after.unreliable_send_packets@.len() == before.unreliable_send_packets@.len() + 1
            &&& hb@.messages.len() == 0
            &&& !hb.reliable
            &&& !hb.ordered
            &&& hb.ack.sequence_id == before.unreliable_send_packet_id
            &&& ack_matches(
                hb.ack,
                before.received_packets.newest_index(),
                before.received_packets@.dom(),
            )
            &&& after.reliable_send_packets == before.reliable_send_packets
            &&& after.received_packets == before.received_packets
            &&& after.msg_send_queue == before.msg_send_queue
            &&& after.msg_recv_queue == before.msg_recv_queue
        } else {
            after == before
        }
    }

    /// One step of the communicator at time `now` (in milliseconds), after the
    /// received datagrams were handed to [`UdpCommunicator::receive`]: queue a
    /// heartbeat if an acknowledgement is owed, pack queued messages into
    /// packets, and return the datagrams to send.
    pub fn tick(&mut self, now: u64) -> (r: Vec<Vec<u8>>)
        requires
            old(self).wf(),
        ensures
            final(self).wf(),
            exists|a: Self, b: Self|
                {
                    &&& Self::heartbeat_queued(*old(self), a)
                    &&& Self::flushed(a, b)
                    &&& Self::sent(b, *final(self), now, r@.map_values(|d: Vec<u8>| d@))
                },
    {
        if self.received_packet_duplicate && self.msg_send_queue.len() == 0 {
            self.received_packet_duplicate = false;
            let sequence_id = self.unreliable_send_packet_id;
            self.unreliable_send_packet_id = self.unreliable_send_packet_id.wrapping_add(1);
            let packet = Packet::heartbeat(self.create_ack(sequence_id));
            self.unreliable_send_packets.push_back(packet);
            proof {
                assert(self.unreliable_send_packets@.drop_last() =~= old(
                    self,
                ).unreliable_send_packets@);
                assert(packet_valid(packet@)) by {
                    assert(packet@.messages =~= Seq::<M>::empty());
                }
            }
        }
        let ghost a = *self;
        self.flush_messages();
        let ghost b = *self;
        let r = self.send_packets(now);
        assert(Self::heartbeat_queued(*old(self), a));
        r
    }
}
} // verus!
