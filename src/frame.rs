//! The framing of the input event stream between processes: each encoded
//! message goes out behind its length, as four big-endian bytes.
use vstd::prelude::*;

verus! {

/// The number that four bytes spell, most significant first.
pub open spec fn be_u32(b0: u8, b1: u8, b2: u8, b3: u8) -> u32 {
    ((b0 as u32) << 24u32) | ((b1 as u32) << 16u32) | ((b2 as u32) << 8u32) | (b3 as u32)
}

/// The length that a frame header announces.
pub fn frame_length(header: &[u8; 4]) -> (n: u32)
    ensures
        n == be_u32(header@[0], header@[1], header@[2], header@[3]),
{
    ((header[0] as u32) << 24u32) | ((header[1] as u32) << 16u32) | ((header[2] as u32) << 8u32) | (
    header[3] as u32)
}

/// The header announcing a payload of `n` bytes.
pub fn length_header(n: u32) -> (h: [u8; 4])
    ensures
        be_u32(h@[0], h@[1], h@[2], h@[3]) == n,
{
    let h: [u8; 4] = [(n >> 24u32) as u8, (n >> 16u32) as u8, (n >> 8u32) as u8, n as u8];
    assert(be_u32((n >> 24u32) as u8, (n >> 16u32) as u8, (n >> 8u32) as u8, n as u8) == n) by (bit_vector);
    h
}

/// `payload` behind its length header; `None` when its length does not fit
/// the four header bytes.
pub fn frame(payload: &Vec<u8>) -> (r: Option<Vec<u8>>)
    ensures
        r is Some <==> payload@.len() <= u32::MAX,
        r matches Some(v) ==> {
            &&& v@.len() == 4 + payload@.len()
            &&& be_u32(v@[0], v@[1], v@[2], v@[3]) == payload@.len()
            &&& v@.skip(4) == payload@
        },
{
    if payload.len() > u32::MAX as usize {
        return None;
    }
    let h = length_header(payload.len() as u32);
    let mut v: Vec<u8> = Vec::new();
    v.push(h[0]);
    v.push(h[1]);
    v.push(h[2]);
    v.push(h[3]);
    let mut i: usize = 0;
    while i < payload.len()
        invariant
            i <= payload.len(),
            v@.len() == 4 + i,
            v@[0] == h@[0] && v@[1] == h@[1] && v@[2] == h@[2] && v@[3] == h@[3],
            v@.skip(4) == payload@.take(i as int),
        decreases payload.len() - i,
    {
        v.push(payload[i]);
        assert(v@.skip(4) =~= payload@.take(i as int + 1));
        i = i + 1;
    }
    assert(payload@.take(i as int) =~= payload@);
    Some(v)
}

} // verus!
