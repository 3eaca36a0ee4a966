//! Messages over UDP: their byte representation, the ring buffer of packet
//! indices and the reliable-delivery state of a communicator.
use vstd::prelude::*;
use crate::networking::udp::bytes::{ByteRepr, ByteReprError};

pub mod bytes;
pub mod packet_sender;
pub mod ring_buffer;

verus! {

/// The port on the local host that the game's UDP socket listens on.
pub const UDP_PORT: u16 = 7188;

/// A message with a single value, used to exercise the communicator.
#[derive(Debug, PartialEq, Eq, Structural, Clone, Copy)]
pub enum Message {
    X,
}

impl ByteRepr for Message {
    open spec fn min_len() -> nat {
        1
    }

    open spec fn max_len() -> nat {
        1
    }

    open spec fn valid(&self) -> bool {
        true
    }

    /// `X` is `[1]`.
    open spec fn encode(&self) -> Seq<u8> {
        seq![1u8]
    }

    open spec fn decode(bytes: Seq<u8>) -> Result<Self, ByteReprError> {
        if bytes.len() > 0 && bytes[0] == 1 {
            Ok(Message::X)
        } else {
            Err(ByteReprError::InvalidValue)
        }
    }

    open spec fn decode_requires(bytes: Seq<u8>) -> bool {
        true
    }

    open spec fn prefix_secure() -> bool {
        true
    }

    proof fn lemma_encode(&self) {
        assert(self.encode() + Seq::<u8>::empty() =~= self.encode());
    }

    proof fn lemma_decode(bytes: Seq<u8>) {
    }

    fn len(&self) -> (r: usize) {
        match self {
            Message::X => 1,
        }
    }

    fn write_as_bytes(&self, bytes: &mut [u8]) {
        match self {
            Message::X => {
                bytes[0] = 1;
            },
        }
        assert(bytes@ =~= self.encode() + old(bytes)@.skip(1));
    }

    fn from_bytes(bytes: &[u8]) -> (r: Result<Self, ByteReprError>) {
        if bytes.len() > 0 && bytes[0] == 1 {
            Ok(Message::X)
        } else {
            Err(ByteReprError::InvalidValue)
        }
    }

    fn decodable(bytes: &[u8]) -> (r: bool) {
        true
    }
}

} // verus!
