//! Byte representations of values sent over UDP.
use vstd::prelude::*;
use crate::networking::udp::packet_sender::InnerUdpMessage;

verus! {

/// A value with a byte representation of the fixed length `LEN`.
pub trait StaticByteRepr<const LEN: usize>: Sized {
    /// The `LEN` bytes that represent the value.
    spec fn spec_as_bytes(&self) -> Seq<u8>;

    /// The value that `bytes` represent.
    spec fn spec_from_bytes(bytes: Seq<u8>) -> Self;

    /// Reading the bytes of a value gives the value back.
    proof fn lemma_roundtrip(&self)
        ensures
            self.spec_as_bytes().len() == LEN,
            Self::spec_from_bytes(self.spec_as_bytes()) == *self,
    ;

    fn as_bytes(&self) -> (r: [u8; LEN])
        ensures
            r@ == self.spec_as_bytes(),
    ;

    fn from_bytes(bytes: &[u8; LEN]) -> (r: Self)
        ensures
            r == Self::spec_from_bytes(bytes@),
    ;
}

/// Why bytes do not represent a value.
#[derive(Debug, PartialEq, Eq, Structural, Clone, Copy)]
pub enum ByteReprError {
    InvalidValue,
    CrcMismatch,
}

impl ByteReprError {
    /// The message that describes the error.
    pub fn message(&self) -> (r: &'static str)
        ensures
            r@ == match *self {
                ByteReprError::InvalidValue => "Invalid value"@,
                ByteReprError::CrcMismatch => "CRC mismatch"@,
            },
    {
        match self {
            ByteReprError::InvalidValue => "Invalid value",
            ByteReprError::CrcMismatch => "CRC mismatch",
        }
    }
}

/// A value with a byte representation of variable length, which is read from
/// the front of a byte buffer.
pub trait ByteRepr: Sized {
    /// The least number of bytes of a representation.
    spec fn min_len() -> nat;

    /// The greatest number of bytes of a representation.
    spec fn max_len() -> nat;

    /// The values that have a representation.
    spec fn valid(&self) -> bool;

    /// The representation of the value.
    spec fn encode(&self) -> Seq<u8>;

    /// What reading a value from the front of `bytes` gives.
    spec fn decode(bytes: Seq<u8>) -> Result<Self, ByteReprError>;

    /// The buffers that reading from does not panic on.
    spec fn decode_requires(bytes: Seq<u8>) -> bool;

    /// Reading a representation ignores whatever follows it.
    spec fn prefix_secure() -> bool;

    /// A valid value's representation lies within the length bounds and reads
    /// back as the value.
    proof fn lemma_encode(&self)
        requires
            self.valid(),
        ensures
            1 <= Self::min_len() <= self.encode().len() <= Self::max_len(),
            Self::decode_requires(self.encode()),
            Self::decode(self.encode()) == Ok::<Self, ByteReprError>(*self),
            Self::prefix_secure() ==> forall|rest: Seq<u8>|
                #![trigger (self.encode() + rest)]
                Self::decode_requires(self.encode() + rest) && Self::decode(self.encode() + rest)
                    == Ok::<Self, ByteReprError>(*self),
    ;

    /// A value read from a buffer has a representation no longer than the
    /// buffer, and of at least one byte.
    proof fn lemma_decode(bytes: Seq<u8>)
        ensures
            Self::decode(bytes) matches Ok(v) ==> {
                &&& 1 <= v.encode().len() <= bytes.len()
                &&& Self::prefix_secure() ==> v.valid()
            },
    ;

    fn len(&self) -> (r: usize)
        requires
            self.encode().len() <= usize::MAX,
        ensures
            r == self.encode().len(),
    ;

    /// Writes the representation to the front of `bytes`.
    /// *Panics* if `bytes.len() < self.len()`
    fn write_as_bytes(&self, bytes: &mut [u8])
        requires
            self.valid(),
            self.encode().len() <= old(bytes)@.len(),
        ensures
            final(bytes)@ == self.encode() + old(bytes)@.skip(self.encode().len() as int),
    ;

    /// Reads a value from the front of `bytes`.
    fn from_bytes(bytes: &[u8]) -> (r: Result<Self, ByteReprError>)
        requires
            Self::decode_requires(bytes@),
        ensures
            r == Self::decode(bytes@),
    ;

    /// Whether reading from `bytes` is defined (does not panic).
    fn decodable(bytes: &[u8]) -> (r: bool)
        ensures
            r == Self::decode_requires(bytes@),
    ;
}


/// Reading and writing sequences of values, for every type with a byte
/// representation.
pub trait ByteReprMany: ByteRepr {
    /// Writes all items of `v` into `bytes`.
    /// Returns the number of items of `v` that fit into and have been written to `bytes`.
    fn write_many(v: &[Self], bytes: &mut [u8]) -> (r: usize)
        requires
            forall|i: int|
                0 <= i < v@.len() ==> (#[trigger] v@[i]).valid() && v@[i].encode().len()
                    <= usize::MAX,
        ensures
            r <= v@.len(),
            final(bytes)@.len() == old(bytes)@.len(),
            encode_all(v@.take(r as int)).len() <= old(bytes)@.len(),
            final(bytes)@ == encode_all(v@.take(r as int)) + old(bytes)@.skip(
                encode_all(v@.take(r as int)).len() as int,
            ),
            r < v@.len() ==> encode_all(v@.take(r as int)).len() + v@[r as int].encode().len()
                > old(bytes)@.len(),
    ;


    /// Reads values from the front of `bytes` until reading fails.
    fn read_many(bytes: &[u8]) -> (r: Vec<Self>)
        requires
            read_many_defined::<Self>(bytes@),
        ensures
            r@ == decode_all::<Self>(bytes@),
    ;


    /// Whether reading values with [`ByteRepr::read_many`] from `bytes` is
    /// defined (does not panic).
    fn read_many_decodable(bytes: &[u8]) -> (r: bool)
        ensures
            r == read_many_defined::<Self>(bytes@),
    ;
}

impl<M: ByteRepr> ByteReprMany for M {
    fn write_many(v: &[Self], bytes: &mut [u8]) -> (r: usize)
    {
        let mut ptr: usize = 0;
        let mut i: usize = 0;
        assert(v@.take(0) =~= Seq::<M>::empty());
        assert(old(bytes)@.skip(0) =~= old(bytes)@);
        while i < v.len()
            invariant
                forall|j: int|
                    0 <= j < v@.len() ==> (#[trigger] v@[j]).valid() && v@[j].encode().len()
                        <= usize::MAX,
                i <= v@.len(),
                ptr == encode_all(v@.take(i as int)).len(),
                ptr <= bytes@.len(),
                bytes@.len() == old(bytes)@.len(),
                bytes@ == encode_all(v@.take(i as int)) + old(bytes)@.skip(ptr as int),
            decreases v@.len() - i,
        {
            let item = &v[i];
            proof {
                item.lemma_encode();
            }
            let n = item.len();
            if bytes.len() - ptr < n {
                return i;
            }
            let ghost before = bytes@;
            let (_head, tail) = bytes.split_at_mut(ptr);
            item.write_as_bytes(tail);
            proof {
                let s1 = v@.take(i + 1);
                assert(s1.drop_last() =~= v@.take(i as int));
                assert(s1.last() == v@[i as int]);
                assert(encode_all(s1) == encode_all(v@.take(i as int)) + v@[i as int].encode());
                assert(before.skip(ptr as int) =~= old(bytes)@.skip(ptr as int));
                assert(old(bytes)@.skip(ptr as int).skip(n as int) =~= old(bytes)@.skip(ptr + n));
                assert(before.take(ptr as int) =~= encode_all(v@.take(i as int)));
                assert(bytes@ =~= encode_all(s1) + old(bytes)@.skip(ptr + n));
            }
            ptr = ptr + n;
            i = i + 1;
        }
        proof {
            assert(v@.take(v@.len() as int) =~= v@);
        }
        v.len()
    }


    fn read_many(bytes: &[u8]) -> (r: Vec<Self>)
    {
        let mut ptr: usize = 0;
        let mut out: Vec<Self> = Vec::new();
        assert(bytes@.skip(0) =~= bytes@);
        assert(out@ + decode_all::<Self>(bytes@) =~= decode_all::<Self>(bytes@));
        loop
            invariant
                ptr <= bytes@.len(),
                read_many_defined::<Self>(bytes@.skip(ptr as int)),
                out@ + decode_all::<Self>(bytes@.skip(ptr as int)) == decode_all::<Self>(bytes@),
            decreases bytes@.len() - ptr,
        {
            let rest = vstd::slice::slice_subrange(bytes, ptr, bytes.len());
            assert(rest@ =~= bytes@.skip(ptr as int));
            match Self::from_bytes(rest) {
                Ok(v) => {
                    proof {
                        Self::lemma_decode(rest@);
                        assert(bytes@.skip(ptr as int).skip(v.encode().len() as int) =~= bytes@.skip(
                            ptr + v.encode().len(),
                        ));
                        assert(out@.push(v) + decode_all::<Self>(bytes@.skip(ptr + v.encode().len()))
                            =~= out@ + decode_all::<Self>(bytes@.skip(ptr as int)));
                    }
                    ptr = ptr + v.len();
                    out.push(v);
                },
                Err(_) => {
                    proof {
                        assert(out@ + Seq::<Self>::empty() =~= out@);
                    }
                    return out;
                },
            }
        }
    }


    fn read_many_decodable(bytes: &[u8]) -> (r: bool)
    {
        let mut ptr: usize = 0;
        assert(bytes@.skip(0) =~= bytes@);
        loop
            invariant
                ptr <= bytes@.len(),
                read_many_defined::<Self>(bytes@.skip(ptr as int)) == read_many_defined::<Self>(
                    bytes@,
                ),
            decreases bytes@.len() - ptr,
        {
            let rest = vstd::slice::slice_subrange(bytes, ptr, bytes.len());
            assert(rest@ =~= bytes@.skip(ptr as int));
            if !Self::decodable(rest) {
                return false;
            }
            match Self::from_bytes(rest) {
                Ok(v) => {
                    proof {
                        Self::lemma_decode(rest@);
                        assert(bytes@.skip(ptr as int).skip(v.encode().len() as int) =~= bytes@.skip(
                            ptr + v.encode().len(),
                        ));
                    }
                    ptr = ptr + v.len();
                },
                Err(_) => {
                    return true;
                },
            }
        }
    }
}

/// The representations of `vs`, one after the other.
pub open spec fn encode_all<M: ByteRepr>(vs: Seq<M>) -> Seq<u8>
    decreases vs.len(),
{
    if vs.len() == 0 {
        Seq::empty()
    } else {
        encode_all(vs.drop_last()) + vs.last().encode()
    }
}

/// The values that reading from the front of `bytes` until the first failure
/// gives.
pub open spec fn decode_all<M: ByteRepr>(bytes: Seq<u8>) -> Seq<M>
    decreases bytes.len(),
{
    match M::decode(bytes) {
        Ok(v) => if 1 <= v.encode().len() <= bytes.len() {
            seq![v] + decode_all::<M>(bytes.skip(v.encode().len() as int))
        } else {
            Seq::empty()
        },
        Err(_) => Seq::empty(),
    }
}

/// Reading values from the front of `bytes` until the first failure does not
/// panic.
pub open spec fn read_many_defined<M: ByteRepr>(bytes: Seq<u8>) -> bool
    decreases bytes.len(),
{
    &&& M::decode_requires(bytes)
    &&& match M::decode(bytes) {
        Ok(v) => if 1 <= v.encode().len() <= bytes.len() {
            read_many_defined::<M>(bytes.skip(v.encode().len() as int))
        } else {
            true
        },
        Err(_) => true,
    }
}


proof fn lemma_u16_le_bytes(n: u16)
    by (bit_vector)
    ensures
        (n >> 8 == 0) == (n < 256),
        ((n & 0xff) as u8) == ((n % 256) as u8),
        ((n >> 8) as u8) == ((n / 256) as u8),
        n < 256 ==> ((n as u8) as u16) == n,
{
}

proof fn lemma_u16_from_le_bytes(lo: u8, hi: u8)
    by (bit_vector)
    ensures
        ((lo as u16) | ((hi as u16) << 8)) == ((lo + 256 * hi) as u16),
        (((lo + 256 * hi) as u16) % 256) as u8 == lo,
        (((lo + 256 * hi) as u16) / 256) as u8 == hi,
        (((lo + 256 * hi) as u16) < 256) == (hi == 0),
{
}

impl InnerUdpMessage {
    /// The least number of bytes of a representation.
    pub const MIN_LEN: usize = 1;
    /// The greatest number of bytes of a representation.
    pub const MAX_LEN: usize = 3;
}

impl ByteRepr for InnerUdpMessage {
    open spec fn min_len() -> nat {
        Self::MIN_LEN as nat
    }

    open spec fn max_len() -> nat {
        Self::MAX_LEN as nat
    }

    open spec fn valid(&self) -> bool {
        true
    }

    /// `Hello` is `[1]`; a `Wave` below 256 is `[2, n]`, any other `[3]`
    /// followed by the little-endian bytes of the number.
    open spec fn encode(&self) -> Seq<u8> {
        match *self {
            InnerUdpMessage::Hello => seq![1u8],
            InnerUdpMessage::Wave(n) => if n < 256 {
                seq![2u8, n as u8]
            } else {
                seq![3u8, (n % 256) as u8, (n / 256) as u8]
            },
        }
    }

    open spec fn decode(bytes: Seq<u8>) -> Result<Self, ByteReprError> {
        if bytes.len() == 0 {
            Err(ByteReprError::InvalidValue)
        } else if bytes[0] == 1 {
            Ok(InnerUdpMessage::Hello)
        } else if bytes[0] == 2 {
            if bytes.len() >= 2 {
                Ok(InnerUdpMessage::Wave(bytes[1] as u16))
            } else {
                Err(ByteReprError::InvalidValue)
            }
        } else if bytes[0] == 3 {
            if bytes.len() >= 3 {
                Ok(InnerUdpMessage::Wave((bytes[1] + 256 * bytes[2]) as u16))
            } else {
                Err(ByteReprError::InvalidValue)
            }
        } else {
            Err(ByteReprError::InvalidValue)
        }
    }

    /// Reading panics on a buffer that starts with 3 and is shorter than 3
    /// bytes.
    open spec fn decode_requires(bytes: Seq<u8>) -> bool {
        !(bytes.len() >= 1 && bytes[0] == 3 && bytes.len() < 3)
    }

    open spec fn prefix_secure() -> bool {
        true
    }

    proof fn lemma_encode(&self) {
        assert forall|rest: Seq<u8>|
            #![trigger (self.encode() + rest)]
            Self::decode_requires(self.encode() + rest) && Self::decode(self.encode() + rest)
                == Ok::<Self, ByteReprError>(*self) by {
            let b = self.encode() + rest;
            if let InnerUdpMessage::Wave(n) = *self {
                lemma_u16_le_bytes(n);
                lemma_u16_from_le_bytes((n % 256) as u8, (n / 256) as u8);
                if n >= 256 {
                    assert(b[1] == (n % 256) as u8 && b[2] == (n / 256) as u8);
                    assert(((n % 256) as u8) + 256 * ((n / 256) as u8) == n);
                }
            }
        }
        assert(self.encode() + Seq::<u8>::empty() =~= self.encode());
    }

    proof fn lemma_decode(bytes: Seq<u8>) {
        if bytes.len() >= 3 && bytes[0] == 3 {
            lemma_u16_from_le_bytes(bytes[1], bytes[2]);
        }
    }

    fn len(&self) -> (r: usize) {
        match self {
            InnerUdpMessage::Hello => 1,
            InnerUdpMessage::Wave(n) => {
                let n: u16 = *n;
                proof {
                    lemma_u16_le_bytes(n);
                }
                if n >> 8 == 0 {
                    2
                } else {
                    3
                }
            },
        }
    }

    fn write_as_bytes(&self, bytes: &mut [u8]) {
        match self {
            InnerUdpMessage::Hello => {
                bytes[0] = 1;
            },
            InnerUdpMessage::Wave(n) => {
                let n: u16 = *n;
                proof {
                    lemma_u16_le_bytes(n);
                }
                if n >> 8 == 0 {
                    bytes[0] = 2;
                    bytes[1] = n as u8;
                } else {
                    bytes[0] = 3;
                    bytes[1] = (n & 0xff) as u8;
                    bytes[2] = (n >> 8) as u8;
                }
            },
        }
        assert(bytes@ =~= self.encode() + old(bytes)@.skip(self.encode().len() as int));
    }

    fn from_bytes(bytes: &[u8]) -> (r: Result<Self, ByteReprError>) {
        if bytes.len() == 0 {
            return Err(ByteReprError::InvalidValue);
        }
        let tag = bytes[0];
        if tag == 1 {
            Ok(InnerUdpMessage::Hello)
        } else if tag == 2 {
            if bytes.len() >= 2 {
                Ok(InnerUdpMessage::Wave(bytes[1] as u16))
            } else {
                Err(ByteReprError::InvalidValue)
            }
        } else if tag == 3 {
            let lo = bytes[1];
            let hi = bytes[2];
            proof {
                lemma_u16_from_le_bytes(lo, hi);
            }
            Ok(InnerUdpMessage::Wave((lo as u16) | ((hi as u16) << 8)))
        } else {
            Err(ByteReprError::InvalidValue)
        }
    }

    fn decodable(bytes: &[u8]) -> (r: bool) {
        !(bytes.len() >= 1 && bytes[0] == 3 && bytes.len() < 3)
    }
}

/// The representations of a nonempty sequence start with that of its first
/// value.
pub proof fn lemma_encode_all_front<M: ByteRepr>(vs: Seq<M>)
    requires
        vs.len() > 0,
    ensures
        encode_all(vs) == vs[0].encode() + encode_all(vs.skip(1)),
    decreases vs.len(),
{
    if vs.len() == 1 {
        assert(vs.drop_last() =~= Seq::<M>::empty());
        assert(vs.skip(1) =~= Seq::<M>::empty());
        assert(encode_all(vs) =~= vs[0].encode() + encode_all(vs.skip(1)));
    } else {
        lemma_encode_all_front(vs.drop_last());
        assert(vs.drop_last().skip(1) =~= vs.skip(1).drop_last());
        assert(vs.skip(1).last() == vs.last());
        assert(encode_all(vs) =~= vs[0].encode() + encode_all(vs.skip(1)));
    }
}

/// Law: values written one after another with `write_many` are read back in
/// order by `read_many`, as long as the bytes after them do not read as a value.
pub proof fn lemma_read_many_of_written<M: ByteRepr>(vs: Seq<M>, rest: Seq<u8>)
    requires
        M::prefix_secure(),
        forall|i: int| 0 <= i < vs.len() ==> (#[trigger] vs[i]).valid(),
        M::decode_requires(rest),
        M::decode(rest) is Err,
    ensures
        decode_all::<M>(encode_all(vs) + rest) == vs,
        read_many_defined::<M>(encode_all(vs) + rest),
    decreases vs.len(),
{
    if vs.len() == 0 {
        assert(encode_all(vs) + rest =~= rest);
        assert(decode_all::<M>(rest) =~= vs);
    } else {
        let tail = vs.skip(1);
        lemma_read_many_of_written(tail, rest);
        lemma_encode_all_front(vs);
        vs[0].lemma_encode();
        let b = encode_all(vs) + rest;
        let e = vs[0].encode();
        assert(b =~= e + (encode_all(tail) + rest));
        assert(b.skip(e.len() as int) =~= encode_all(tail) + rest);
        assert(decode_all::<M>(b) =~= seq![vs[0]] + tail);
        assert(seq![vs[0]] + tail =~= vs);
    }
}

/// Appending a value to a sequence appends its representation.
pub proof fn lemma_encode_all_take<M: ByteRepr>(vs: Seq<M>, i: int)
    requires
        0 <= i < vs.len(),
    ensures
        encode_all(vs.take(i + 1)) == encode_all(vs.take(i)) + vs[i].encode(),
{
    assert(vs.take(i + 1).drop_last() =~= vs.take(i));
}

/// The representation of a prefix is no longer than that of the whole
/// sequence.
pub proof fn lemma_encode_all_take_len<M: ByteRepr>(vs: Seq<M>, i: int)
    requires
        0 <= i <= vs.len(),
    ensures
        encode_all(vs.take(i)).len() <= encode_all(vs).len(),
    decreases vs.len() - i,
{
    if i < vs.len() {
        lemma_encode_all_take(vs, i);
        lemma_encode_all_take_len(vs, i + 1);
    } else {
        assert(vs.take(i) =~= vs);
    }
}

/// What is read from a buffer has representations no longer than the buffer.
pub proof fn lemma_decode_all_len<M: ByteRepr>(bytes: Seq<u8>)
    ensures
        encode_all(decode_all::<M>(bytes)).len() <= bytes.len(),
    decreases bytes.len(),
{
    let d = decode_all::<M>(bytes);
    if d.len() > 0 {
        if let Ok(v) = M::decode(bytes) {
            let l = v.encode().len() as int;
            lemma_decode_all_len::<M>(bytes.skip(l));
            lemma_encode_all_front(d);
            assert(d.skip(1) =~= decode_all::<M>(bytes.skip(l)));
        }
    } else {
        assert(d =~= Seq::<M>::empty());
    }
}
} // verus!
