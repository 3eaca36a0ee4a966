//! Packets: a checksum, the acknowledgement header, a metadata byte and the
//! messages.
use vstd::prelude::*;
use vstd::bytes::*;
use crate::networking::udp::bytes::{
    ByteRepr, ByteReprError, ByteReprMany, StaticByteRepr, decode_all, encode_all,
    read_many_defined, lemma_decode_all_len, lemma_encode_all_take, lemma_encode_all_take_len,
    lemma_read_many_of_written,
};
use crate::networking::udp::packet_sender::packet_ack::PacketAck;

verus! {

/// The maximum allowed length of the data part of a UDP packet.
/// The total maximum length is computed by adding the header length as well.
pub const MAX_PACKET_DATA_LEN: usize = 1024;

/// 4 bytes for the CRC, then the [`PacketAck`], then 1 byte extra metadata
/// (reliable, ordered).
pub const PACKET_HEADER_LEN: usize = 13;

/// The maximum allowed length of a UDP packet.
pub const MAX_PACKET_LEN: usize = 1037;

/// The initial value of the packet checksum, so that packets of other protocol
/// versions fail the check.
pub const PROTOCOL_VERSION: u32 = 0x00_00_00_01;

/// The CRC-32/BZIP2 checksum of `data` when the computation starts from
/// `initial` in place of the algorithm's own initial value.
pub uninterp spec fn crc32_bzip2(initial: u32, data: Seq<u8>) -> u32;

/// Calls the `crc` crate: `Crc::<u32>::new(&CRC_32_BZIP2)`, then
/// `digest_with_initial(initial)`, `update(data)` and `finalize()`. The contract
/// claims only that the result is determined by `initial` and `data`; which
/// value the checksum has is left to the crate.
#[verifier::external_body]
fn crc32_bzip2_with_initial(initial: u32, data: &[u8]) -> (r: u32)
    ensures
        r == crc32_bzip2(initial, data@),
{
    let crc = crc::Crc::<u32>::new(&crc::CRC_32_BZIP2);
    let mut digest = crc.digest_with_initial(initial);
    digest.update(data);
    digest.finalize()
}

/// The content of a packet.
pub struct PacketView<M> {
    pub ack: PacketAck,
    pub reliable: bool,
    pub ordered: bool,
    pub messages: Seq<M>,
}

#[derive(Debug, PartialEq)]
pub struct Packet<M: ByteRepr> {
    pub ack: PacketAck,
    pub reliable: bool,
    pub ordered: bool,
    /// If `messages.is_empty()`, then this was send as a heartbeat packet
    pub messages: Vec<M>,
}

impl<M: ByteRepr> View for Packet<M> {
    type V = PacketView<M>;

    open spec fn view(&self) -> PacketView<M> {
        PacketView {
            ack: self.ack,
            reliable: self.reliable,
            ordered: self.ordered,
            messages: self.messages@,
        }
    }
}

/// Bit 0 says whether the packet is reliable, bit 1 whether it is ordered.
pub open spec fn meta_byte(reliable: bool, ordered: bool) -> u8 {
    (if reliable {
        1u8
    } else {
        0u8
    }) | (if ordered {
        2u8
    } else {
        0u8
    })
}

/// The bytes that the checksum covers: the acknowledgement, the metadata byte
/// and the messages.
pub open spec fn packet_body<M: ByteRepr>(p: PacketView<M>) -> Seq<u8> {
    p.ack.spec_as_bytes() + seq![meta_byte(p.reliable, p.ordered)] + encode_all(p.messages)
}

/// The representation of a packet: the little-endian checksum of the body, then
/// the body.
pub open spec fn encode_packet<M: ByteRepr>(p: PacketView<M>) -> Seq<u8> {
    spec_u32_to_le_bytes(crc32_bzip2(PROTOCOL_VERSION, packet_body(p))) + packet_body(p)
}

/// The packets that can be written and read back: their messages are valid,
/// read back independently of what follows, and take at most
/// [`MAX_PACKET_DATA_LEN`] bytes.
pub open spec fn packet_valid<M: ByteRepr>(p: PacketView<M>) -> bool {
    &&& M::prefix_secure()
    &&& forall|i: int| 0 <= i < p.messages.len() ==> (#[trigger] p.messages[i]).valid()
    &&& encode_all(p.messages).len() <= MAX_PACKET_DATA_LEN
}

/// The stored checksum of a packet buffer.
pub open spec fn stored_checksum(bytes: Seq<u8>) -> u32 {
    spec_u32_from_le_bytes(bytes.take(4))
}

/// The packet that a buffer holds when its checksum matches.
pub open spec fn packet_fields<M: ByteRepr>(bytes: Seq<u8>) -> PacketView<M> {
    PacketView {
        ack: PacketAck::spec_from_bytes(bytes.subrange(4, 12)),
        reliable: bytes[12] & 1 != 0,
        ordered: bytes[12] & 2 != 0,
        messages: decode_all::<M>(bytes.skip(PACKET_HEADER_LEN as int)),
    }
}

/// What reading a packet from `bytes` gives: the messages are read from the
/// bytes after the header until reading fails; the checksum must match the
/// header and the bytes of those messages.
pub open spec fn decode_packet<M: ByteRepr>(bytes: Seq<u8>) -> Result<PacketView<M>, ByteReprError> {
    let body_len = encode_all(decode_all::<M>(bytes.skip(PACKET_HEADER_LEN as int))).len();
    if bytes.len() < PACKET_HEADER_LEN {
        Err(ByteReprError::InvalidValue)
    } else if crc32_bzip2(PROTOCOL_VERSION, bytes.subrange(4, PACKET_HEADER_LEN + body_len))
        != stored_checksum(bytes) {
        Err(ByteReprError::CrcMismatch)
    } else {
        Ok(packet_fields::<M>(bytes))
    }
}

/// Reading a packet from `bytes` does not panic.
pub open spec fn packet_decode_requires<M: ByteRepr>(bytes: Seq<u8>) -> bool {
    bytes.len() >= PACKET_HEADER_LEN && read_many_defined::<M>(
        bytes.skip(PACKET_HEADER_LEN as int),
    )
}

proof fn lemma_meta_byte(r: bool, o: bool)
    ensures
        (meta_byte(r, o) & 1 != 0) == r,
        (meta_byte(r, o) & 2 != 0) == o,
{
    let a: u8 = if r {
        1
    } else {
        0
    };
    let b: u8 = if o {
        2
    } else {
        0
    };
    assert(((a | b) & 1 != 0) == (a == 1) && ((a | b) & 2 != 0) == (b == 2)) by (bit_vector)
        requires
            a == 0 || a == 1,
            b == 0 || b == 2,
    ;
}

pub(crate) proof fn lemma_packet_lengths<M: ByteRepr>(p: PacketView<M>)
    ensures
        packet_body(p).len() == 9 + encode_all(p.messages).len(),
        encode_packet(p).len() == PACKET_HEADER_LEN + encode_all(p.messages).len(),
{
    lemma_auto_spec_u32_to_from_le_bytes();
    p.ack.lemma_roundtrip();
}

/// `k` messages from the front of `msgs` are the ones that are written into
/// `avail` bytes, one after the other, up to the first that does not fit.
pub open spec fn fits_prefix<M: ByteRepr>(msgs: Seq<M>, avail: int, k: int) -> bool {
    &&& 0 <= k <= msgs.len()
    &&& encode_all(msgs.take(k)).len() <= avail
    &&& k < msgs.len() ==> encode_all(msgs.take(k)).len() + msgs[k].encode().len() > avail
}

/// How many messages from the front of `msgs` are written into `avail` bytes.
pub open spec fn written_count<M: ByteRepr>(msgs: Seq<M>, avail: int) -> int {
    choose|k: int| fits_prefix(msgs, avail, k)
}

/// The packet as far as it is written into a buffer of `len` bytes: its
/// messages are those that fit after the header.
pub open spec fn written_packet<M: ByteRepr>(p: PacketView<M>, len: int) -> PacketView<M> {
    PacketView {
        ack: p.ack,
        reliable: p.reliable,
        ordered: p.ordered,
        messages: p.messages.take(written_count(p.messages, len - PACKET_HEADER_LEN)),
    }
}

/// Only one number of messages is the one written.
proof fn lemma_fits_prefix_unique<M: ByteRepr>(msgs: Seq<M>, avail: int, k1: int, k2: int)
    requires
        fits_prefix(msgs, avail, k1),
        fits_prefix(msgs, avail, k2),
    ensures
        k1 == k2,
{
    if k1 < k2 {
        lemma_encode_all_take(msgs, k1);
        lemma_encode_all_take_len(msgs.take(k2), k1 + 1);
        assert(msgs.take(k2).take(k1 + 1) =~= msgs.take(k1 + 1));
    } else if k2 < k1 {
        lemma_encode_all_take(msgs, k2);
        lemma_encode_all_take_len(msgs.take(k1), k2 + 1);
        assert(msgs.take(k1).take(k2 + 1) =~= msgs.take(k2 + 1));
    }
}

/// The messages of a valid packet each fit into a packet's data.
pub proof fn lemma_valid_messages_fit<M: ByteRepr>(p: PacketView<M>)
    requires
        packet_valid(p),
    ensures
        forall|i: int|
            0 <= i < p.messages.len() ==> (#[trigger] p.messages[i]).valid()
                && p.messages[i].encode().len() <= MAX_PACKET_DATA_LEN,
{
    assert forall|i: int| 0 <= i < p.messages.len() implies (#[trigger] p.messages[i]).valid()
        && p.messages[i].encode().len() <= MAX_PACKET_DATA_LEN by {
        lemma_encode_all_take(p.messages, i);
        lemma_encode_all_take_len(p.messages, i + 1);
    }
}

impl<M: ByteRepr> Packet<M> {
    /// The greatest number of bytes of a packet.
    pub const MAX_LEN: usize = MAX_PACKET_LEN;

    /// A reliable, unordered packet with the given messages.
    pub fn new(ack: PacketAck, messages: Vec<M>) -> (r: Self)
        ensures
            r@ == (PacketView { ack, reliable: true, ordered: false, messages: messages@ }),
    {
        Self { ack, reliable: true, ordered: false, messages }
    }

    /// An unreliable packet without messages.
    pub fn heartbeat(ack: PacketAck) -> (r: Self)
        ensures
            r@ == (PacketView {
                ack,
                reliable: false,
                ordered: false,
                messages: Seq::<M>::empty(),
            }),
    {
        Self { ack, reliable: false, ordered: false, messages: Vec::new() }
    }

    /// The number of bytes of the packet's representation.
    pub fn len(&self) -> (r: usize)
        requires
            encode_all(self.messages@).len() <= usize::MAX - PACKET_HEADER_LEN,
        ensures
            r == encode_packet(self@).len(),
    {
        proof {
            lemma_packet_lengths(self@);
            assert(self.messages@.take(self.messages@.len() as int) =~= self.messages@);
        }
        PACKET_HEADER_LEN + Self::data_len(&self.messages, self.messages.len())
    }

    /// The number of bytes of the representations of the first `k` of
    /// `messages`.
    fn data_len(messages: &Vec<M>, k: usize) -> (r: usize)
        requires
            k <= messages@.len(),
            encode_all(messages@.take(k as int)).len() <= usize::MAX - PACKET_HEADER_LEN,
        ensures
            r == encode_all(messages@.take(k as int)).len(),
    {
        let ghost front = messages@.take(k as int);
        let mut acc: usize = 0;
        let mut i: usize = 0;
        assert(messages@.take(0) =~= Seq::<M>::empty());
        while i < k
            invariant
                i <= k <= messages@.len(),
                front == messages@.take(k as int),
                acc == encode_all(messages@.take(i as int)).len(),
                encode_all(front).len() <= usize::MAX - PACKET_HEADER_LEN,
            decreases k - i,
        {
            proof {
                lemma_encode_all_take(messages@, i as int);
                lemma_encode_all_take_len(front, i + 1);
                assert(front.take(i + 1) =~= messages@.take(i + 1));
            }
            acc = acc + messages[i].len();
            i = i + 1;
        }
        acc
    }

    /// Writes the packet's representation to the front of `bytes`, with as
    /// many of its messages as fit after the header, up to the first that does
    /// not fit; the checksum covers what was written.
    /// *Panics* if `bytes` is shorter than the header.
    pub fn write_as_bytes(&self, bytes: &mut [u8])
        requires
            forall|i: int|
                0 <= i < self.messages@.len() ==> (#[trigger] self.messages@[i]).valid()
                    && self.messages@[i].encode().len() <= usize::MAX,
            old(bytes)@.len() >= PACKET_HEADER_LEN,
        ensures
            ({
                let w = written_packet(self@, old(bytes)@.len() as int);
                &&& fits_prefix(
                    self.messages@,
                    old(bytes)@.len() - PACKET_HEADER_LEN,
                    w.messages.len() as int,
                )
                &&& final(bytes)@ == encode_packet(w) + old(bytes)@.skip(encode_packet(w).len() as int)
            }),
            encode_packet(self@).len() <= old(bytes)@.len() ==> final(bytes)@ == encode_packet(self@)
                + old(bytes)@.skip(encode_packet(self@).len() as int),
    {
        proof {
            lemma_auto_spec_u32_to_from_le_bytes();
        }
        let ack = self.ack.as_bytes();
        let mut i: usize = 0;
        while i < 8
            invariant
                i <= 8,
                ack@ == self.ack.spec_as_bytes(),
                bytes@.len() == old(bytes)@.len(),
                bytes@.len() >= PACKET_HEADER_LEN,
                forall|j: int| 0 <= j < bytes@.len() && !(4 <= j < 4 + i) ==> bytes@[j] == old(
                    bytes,
                )@[j],
                forall|j: int| 4 <= j < 4 + i ==> bytes@[j] == ack@[j - 4],
            decreases 8 - i,
        {
            bytes[4 + i] = ack[i];
            i = i + 1;
        }
        let reliable: u8 = if self.reliable {
            1
        } else {
            0
        };
        let ordered: u8 = if self.ordered {
            2
        } else {
            0
        };
        bytes[4 + PacketAck::LEN] = reliable | ordered;
        let ghost header = bytes@;
        let ghost avail = old(bytes)@.len() - PACKET_HEADER_LEN;
        let written = {
            let (_head, tail) = bytes.split_at_mut(PACKET_HEADER_LEN);
            M::write_many(self.messages.as_slice(), tail)
        };
        let ghost w = PacketView {
            ack: self.ack,
            reliable: self.reliable,
            ordered: self.ordered,
            messages: self.messages@.take(written as int),
        };
        proof {
            assert(fits_prefix(self.messages@, avail, written as int));
            lemma_fits_prefix_unique(
                self.messages@,
                avail,
                written as int,
                written_count(self.messages@, avail),
            );
            assert(w == written_packet(self@, old(bytes)@.len() as int));
            lemma_packet_lengths(w);
            lemma_packet_lengths(self@);
        }
        let data_len = Self::data_len(&self.messages, written);
        proof {
            assert(bytes@.subrange(4, PACKET_HEADER_LEN + data_len) =~= packet_body(w));
        }
        let body = vstd::slice::slice_subrange(&*bytes, 4, PACKET_HEADER_LEN + data_len);
        let crc = crc32_bzip2_with_initial(PROTOCOL_VERSION, body);
        let crc_bytes = u32_to_le_bytes(crc);
        bytes[0] = crc_bytes[0];
        bytes[1] = crc_bytes[1];
        bytes[2] = crc_bytes[2];
        bytes[3] = crc_bytes[3];
        assert(bytes@ =~= encode_packet(w) + old(bytes)@.skip(encode_packet(w).len() as int));
        proof {
            if encode_packet(self@).len() <= old(bytes)@.len() {
                assert(self.messages@.take(self.messages@.len() as int) =~= self.messages@);
                assert(fits_prefix(self.messages@, avail, self.messages@.len() as int));
                lemma_fits_prefix_unique(
                    self.messages@,
                    avail,
                    written as int,
                    self.messages@.len() as int,
                );
                assert(w.messages =~= self.messages@);
            }
        }
    }

    /// Whether reading a packet from `bytes` is defined (does not panic).
    pub fn decodable(bytes: &[u8]) -> (r: bool)
        ensures
            r == packet_decode_requires::<M>(bytes@),
    {
        if bytes.len() < PACKET_HEADER_LEN {
            return false;
        }
        let tail = vstd::slice::slice_subrange(bytes, PACKET_HEADER_LEN, bytes.len());
        assert(tail@ =~= bytes@.skip(PACKET_HEADER_LEN as int));
        M::read_many_decodable(tail)
    }

    /// Reads a packet from `bytes`.
    /// *Panics* (and so requires otherwise) if `bytes` is shorter than the
    /// header or holds messages that panic when read.
    pub fn from_bytes(bytes: &[u8]) -> (r: Result<Self, ByteReprError>)
        requires
            packet_decode_requires::<M>(bytes@),
        ensures
            match r {
                Ok(p) => decode_packet::<M>(bytes@) == Ok::<PacketView<M>, ByteReprError>(p@),
                Err(e) => decode_packet::<M>(bytes@) == Err::<PacketView<M>, ByteReprError>(e),
            },
    {
        let tail = vstd::slice::slice_subrange(bytes, PACKET_HEADER_LEN, bytes.len());
        assert(tail@ =~= bytes@.skip(PACKET_HEADER_LEN as int));
        let messages = M::read_many(tail);
        proof {
            lemma_decode_all_len::<M>(tail@);
        }
        proof {
            assert(messages@.take(messages@.len() as int) =~= messages@);
        }
        let body_len = Self::data_len(&messages, messages.len());
        let body = vstd::slice::slice_subrange(bytes, 4, PACKET_HEADER_LEN + body_len);
        let checksum = crc32_bzip2_with_initial(PROTOCOL_VERSION, body);
        Self::from_decoded(bytes, messages, checksum)
    }

    /// Builds the packet that `bytes` hold from the messages read from them and
    /// the checksum computed over the header and those messages: the packet if
    /// the checksum matches the stored one, `CrcMismatch` otherwise.
    pub fn from_decoded(bytes: &[u8], messages: Vec<M>, checksum: u32) -> (r: Result<
        Self,
        ByteReprError,
    >)
        requires
            bytes@.len() >= PACKET_HEADER_LEN,
            messages@ == decode_all::<M>(bytes@.skip(PACKET_HEADER_LEN as int)),
        ensures
            match r {
                Ok(p) => checksum == stored_checksum(bytes@) && p@ == packet_fields::<M>(bytes@),
                Err(e) => checksum != stored_checksum(bytes@) && e == ByteReprError::CrcMismatch,
            },
    {
        let stored = u32_from_le_bytes(vstd::slice::slice_subrange(bytes, 0, 4));
        assert(bytes@.subrange(0, 4) =~= bytes@.take(4));
        if checksum != stored {
            return Err(ByteReprError::CrcMismatch);
        }
        let meta_byte = bytes[4 + PacketAck::LEN];
        let reliable = meta_byte & 1 != 0;
        let ordered = meta_byte & 2 != 0;
        let s = vstd::slice::slice_subrange(bytes, 4, 4 + PacketAck::LEN);
        let ack_bytes: [u8; 8] = [s[0], s[1], s[2], s[3], s[4], s[5], s[6], s[7]];
        assert(ack_bytes@ =~= bytes@.subrange(4, 12));
        Ok(Self { ack: PacketAck::from_bytes(&ack_bytes), reliable, ordered, messages })
    }
}

/// Law: a valid packet written with `write_as_bytes` is read back by
/// `from_bytes`, also from a larger buffer whose remaining bytes do not read as
/// a message; its representation fits into [`MAX_PACKET_LEN`] bytes.
pub proof fn lemma_packet_roundtrip<M: ByteRepr>(p: PacketView<M>, rest: Seq<u8>)
    requires
        packet_valid(p),
        M::decode_requires(rest),
        M::decode(rest) is Err,
    ensures
        encode_packet(p).len() <= MAX_PACKET_LEN,
        packet_decode_requires::<M>(encode_packet(p) + rest),
        decode_packet::<M>(encode_packet(p) + rest) == Ok::<PacketView<M>, ByteReprError>(p),
{
    lemma_packet_lengths(p);
    lemma_auto_spec_u32_to_from_le_bytes();
    p.ack.lemma_roundtrip();
    lemma_meta_byte(p.reliable, p.ordered);
    lemma_read_many_of_written(p.messages, rest);
    let body = packet_body(p);
    let crc = crc32_bzip2(PROTOCOL_VERSION, body);
    let b = encode_packet(p) + rest;
    assert(b.skip(PACKET_HEADER_LEN as int) =~= encode_all(p.messages) + rest);
    let body_len = encode_all(p.messages).len();
    assert(b.subrange(4, PACKET_HEADER_LEN + body_len) =~= body);
    assert(b.take(4) =~= spec_u32_to_le_bytes(crc));
    assert(b.subrange(4, 12) =~= p.ack.spec_as_bytes());
    assert(b[12] == meta_byte(p.reliable, p.ordered));
    assert(packet_fields::<M>(b).messages =~= p.messages);
}

} // verus!
