//! A message together with the flag that says whether it is sent reliably.
use vstd::prelude::*;
use crate::networking::udp::bytes::{ByteRepr, ByteReprError};

verus! {

#[derive(Debug, PartialEq, Eq)]
pub struct UdpMessage<M: ByteRepr> {
    pub reliable: bool,
    pub inner: M,
}

impl<M: ByteRepr> UdpMessage<M> {
    /// A reliably sent message.
    pub fn new(inner: M) -> (r: Self)
        ensures
            r.reliable,
            r.inner == inner,
    {
        Self { reliable: true, inner }
    }
}

impl<M: ByteRepr> ByteRepr for UdpMessage<M> {
    open spec fn min_len() -> nat {
        1 + M::min_len()
    }

    open spec fn max_len() -> nat {
        1 + M::max_len()
    }

    open spec fn valid(&self) -> bool {
        self.inner.valid()
    }

    /// One byte for the flag (1 reliable, 0 not), then the inner message.
    open spec fn encode(&self) -> Seq<u8> {
        seq![if self.reliable { 1u8 } else { 0u8 }] + self.inner.encode()
    }

    open spec fn decode(bytes: Seq<u8>) -> Result<Self, ByteReprError> {
        if bytes.len() == 0 || bytes[0] > 1 {
            Err(ByteReprError::InvalidValue)
        } else {
            match M::decode(bytes.skip(1)) {
                Ok(inner) => Ok(UdpMessage { reliable: bytes[0] == 1, inner }),
                Err(e) => Err(e),
            }
        }
    }

    open spec fn decode_requires(bytes: Seq<u8>) -> bool {
        bytes.len() == 0 || bytes[0] > 1 || M::decode_requires(bytes.skip(1))
    }

    open spec fn prefix_secure() -> bool {
        M::prefix_secure()
    }

    proof fn lemma_encode(&self) {
        self.inner.lemma_encode();
        let e = self.encode();
        assert(e.skip(1) =~= self.inner.encode());
        if M::prefix_secure() {
            assert forall|rest: Seq<u8>|
                #![trigger (self.encode() + rest)]
                Self::decode_requires(self.encode() + rest) && Self::decode(self.encode() + rest)
                    == Ok::<Self, ByteReprError>(*self) by {
                assert((e + rest).skip(1) =~= self.inner.encode() + rest);
            }
        }
    }

    proof fn lemma_decode(bytes: Seq<u8>) {
        if bytes.len() > 0 {
            M::lemma_decode(bytes.skip(1));
        }
    }

    fn len(&self) -> (r: usize) {
        1 + self.inner.len()
    }

    fn write_as_bytes(&self, bytes: &mut [u8]) {
        bytes[0] = match self.reliable {
            true => 1,
            false => 0,
        };
        let ghost flagged = bytes@;
        let (_head, tail) = bytes.split_at_mut(1);
        self.inner.write_as_bytes(tail);
        assert(bytes@ =~= self.encode() + old(bytes)@.skip(self.encode().len() as int));
    }

    fn from_bytes(bytes: &[u8]) -> (r: Result<Self, ByteReprError>) {
        if bytes.len() == 0 {
            return Err(ByteReprError::InvalidValue);
        }
        let reliable = match bytes[0] {
            1 => true,
            0 => false,
            _ => return Err(ByteReprError::InvalidValue),
        };
        let rest = vstd::slice::slice_subrange(bytes, 1, bytes.len());
        assert(rest@ =~= bytes@.skip(1));
        let inner = M::from_bytes(rest)?;
        Ok(Self { reliable, inner })
    }

    fn decodable(bytes: &[u8]) -> (r: bool) {
        if bytes.len() == 0 || bytes[0] > 1 {
            true
        } else {
            let rest = vstd::slice::slice_subrange(bytes, 1, bytes.len());
            assert(rest@ =~= bytes@.skip(1));
            M::decodable(rest)
        }
    }
}

} // verus!
