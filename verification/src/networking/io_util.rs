//! The framing of TCP messages: each serialized message is preceded by its
//! length as four little-endian bytes.
use vstd::prelude::*;
use vstd::bytes::*;

verus! {

/// The length prefix written before a message of `payload_len` bytes: the
/// length cut to 32 bits, little-endian.
pub fn frame_len_prefix(payload_len: usize) -> (r: [u8; 4])
    ensures
        r@ == spec_u32_to_le_bytes(payload_len as u32),
{
    let len = payload_len as u32;
    let b = u32_to_le_bytes(len);
    proof {
        lemma_auto_spec_u32_to_from_le_bytes();
    }
    let r = [b[0], b[1], b[2], b[3]];
    assert(r@ =~= b@);
    r
}

/// The length of the message that follows the prefix `len_buf`.
pub fn frame_payload_len(len_buf: &[u8; 4]) -> (r: usize)
    ensures
        r == spec_u32_from_le_bytes(len_buf@),
{
    u32_from_le_bytes(len_buf.as_slice()) as usize
}

/// Grows `buf` with zeros so that a message of `len` bytes can be read into it
/// (to at most `isize::MAX` bytes); a buffer that is long enough is left as it
/// is.
pub fn prepare_buffer(buf: &mut Vec<u8>, len: usize)
    ensures
        ({
            let target = if len < isize::MAX {
                len as int
            } else {
                isize::MAX as int
            };
            &&& final(buf)@.len() == if old(buf)@.len() < target {
                target
            } else {
                old(buf)@.len() as int
            }
            &&& final(buf)@.take(old(buf)@.len() as int) == old(buf)@
            &&& forall|i: int| old(buf)@.len() <= i < final(buf)@.len() ==> final(buf)@[i] == 0
        }),
{
    let target = if len < isize::MAX as usize {
        len
    } else {
        isize::MAX as usize
    };
    let ghost start = buf@;
    assert(start.take(start.len() as int) =~= start);
    if buf.len() < len {
        while buf.len() < target
            invariant
                start.len() <= buf@.len(),
                buf@.len() <= target || buf@ == start,
                buf@.take(start.len() as int) == start,
                forall|i: int| start.len() <= i < buf@.len() ==> buf@[i] == 0,
            decreases target - buf@.len(),
        {
            buf.push(0);
            assert(buf@.take(start.len() as int) =~= start);
        }
    }
}

} // verus!
