use vstd::prelude::*;

verus! {

/// A kernel-owned byte buffer.
pub struct KByteBuf {
    pub buf: Vec<u8>,
}

impl KByteBuf {
    /// An empty buffer.
    pub fn new() -> (r: KByteBuf)
        ensures
            r.buf@.len() == 0,
    {
        KByteBuf { buf: Vec::new() }
    }

    /// A buffer of `length` zero bytes.
    pub fn new_zeroed(length: usize) -> (r: KByteBuf)
        ensures
            r.buf@.len() == length,
            forall|i: int| 0 <= i < length ==> r.buf@[i] == 0,
    {
        let mut buf: Vec<u8> = Vec::new();
        let mut i: usize = 0;
        while i < length
            invariant
                i <= length,
                buf@.len() == i,
                forall|j: int| 0 <= j < i ==> buf@[j] == 0,
            decreases length - i,
        {
            buf.push(0);
            i += 1;
        }
        KByteBuf { buf }
    }

    /// The bytes.
    pub fn as_slice(&self) -> (r: &[u8])
        ensures
            r@ == self.buf@,
    {
        self.buf.as_slice()
    }

    /// The number of bytes.
    pub fn len(&self) -> (r: usize)
        ensures
            r == self.buf@.len(),
    {
        self.buf.len()
    }
}

/// The little-endian `u16` at `off`.
pub open spec fn le16(s: Seq<u8>, off: int) -> u16 {
    (s[off] as u16 | ((s[off + 1] as u16) << 8u16)) as u16
}

/// The little-endian `u32` at `off`.
pub open spec fn le32(s: Seq<u8>, off: int) -> u32 {
    (s[off] as u32 | ((s[off + 1] as u32) << 8u32) | ((s[off + 2] as u32) << 16u32) | ((s[off
        + 3] as u32) << 24u32)) as u32
}

/// Read the little-endian `u16` at `off`.
pub fn read_u16(s: &[u8], off: usize) -> (r: u16)
    requires
        off + 2 <= s@.len(),
    ensures
        r == le16(s@, off as int),
{
    s[off] as u16 | ((s[off + 1] as u16) << 8u16)
}

/// Read the little-endian `u32` at `off`.
pub fn read_u32(s: &[u8], off: usize) -> (r: u32)
    requires
        off + 4 <= s@.len(),
    ensures
        r == le32(s@, off as int),
{
    s[off] as u32 | ((s[off + 1] as u32) << 8u32) | ((s[off + 2] as u32) << 16u32) | ((s[off + 3] as u32)
        << 24u32)
}

} // verus!
