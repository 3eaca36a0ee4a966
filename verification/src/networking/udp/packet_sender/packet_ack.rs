//! The acknowledgement header that every packet carries.
use vstd::prelude::*;
use vstd::bytes::*;
use crate::networking::udp::bytes::StaticByteRepr;

verus! {

#[derive(Debug, PartialEq, Eq, Structural, Clone, Copy)]
pub struct PacketAck {
    /// The id of the [`super::packet::Packet`] with which this [`PacketAck`] is send
    pub sequence_id: u16,
    /// The id of the most recent received packet.
    pub newest_received: u16,
    /// Bitflags indicating which of the previous 31 packets were received
    pub ack_bits: u32,
}

impl PacketAck {
    /// The number of bytes of the representation.
    pub const LEN: usize = 8;
}

impl StaticByteRepr<8> for PacketAck {
    /// The little-endian bytes of the three fields, in order.
    open spec fn spec_as_bytes(&self) -> Seq<u8> {
        spec_u16_to_le_bytes(self.sequence_id) + spec_u16_to_le_bytes(self.newest_received)
            + spec_u32_to_le_bytes(self.ack_bits)
    }

    open spec fn spec_from_bytes(bytes: Seq<u8>) -> Self {
        PacketAck {
            sequence_id: spec_u16_from_le_bytes(bytes.subrange(0, 2)),
            newest_received: spec_u16_from_le_bytes(bytes.subrange(2, 4)),
            ack_bits: spec_u32_from_le_bytes(bytes.subrange(4, 8)),
        }
    }

    proof fn lemma_roundtrip(&self) {
        lemma_auto_spec_u16_to_from_le_bytes();
        lemma_auto_spec_u32_to_from_le_bytes();
        let b = self.spec_as_bytes();
        assert(b.subrange(0, 2) =~= spec_u16_to_le_bytes(self.sequence_id));
        assert(b.subrange(2, 4) =~= spec_u16_to_le_bytes(self.newest_received));
        assert(b.subrange(4, 8) =~= spec_u32_to_le_bytes(self.ack_bits));
    }

    fn as_bytes(&self) -> (r: [u8; 8]) {
        let a = u16_to_le_bytes(self.sequence_id);
        let b = u16_to_le_bytes(self.newest_received);
        let c = u32_to_le_bytes(self.ack_bits);
        proof {
            lemma_auto_spec_u32_to_from_le_bytes();
        }
        let r = [a[0], a[1], b[0], b[1], c[0], c[1], c[2], c[3]];
        assert(r@ =~= self.spec_as_bytes());
        r
    }

    fn from_bytes(bytes: &[u8; 8]) -> (r: Self) {
        let s = bytes.as_slice();
        let seq = vstd::slice::slice_subrange(s, 0, 2);
        let newest = vstd::slice::slice_subrange(s, 2, 4);
        let bits = vstd::slice::slice_subrange(s, 4, 8);
        PacketAck {
            sequence_id: u16_from_le_bytes(seq),
            newest_received: u16_from_le_bytes(newest),
            ack_bits: u32_from_le_bytes(bits),
        }
    }
}

} // verus!
