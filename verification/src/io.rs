//! An in-memory output byte stream with little-endian integer
//! writers. The renderer encodes a finished image into it; the caller
//! owns moving the bytes to disk.

use vstd::prelude::*;

verus! {

/// The two little-endian bytes of a 16-bit value.
pub open spec fn spec_le16(v: int) -> Seq<u8> {
    seq![(v % 256) as u8, ((v / 256) % 256) as u8]
}

/// The four little-endian bytes of a 32-bit value.
pub open spec fn spec_le32(v: int) -> Seq<u8> {
    seq![
        (v % 256) as u8,
        ((v / 256) % 256) as u8,
        ((v / 65536) % 256) as u8,
        ((v / 16777216) % 256) as u8,
    ]
}

/// A growing sequence of output bytes.
pub struct OutputStream {
    pub bytes: Vec<u8>,
}

impl OutputStream {
    /// An empty stream.
    pub fn new() -> (s: OutputStream)
        ensures
            s.bytes@ == Seq::<u8>::empty(),
    {
        OutputStream { bytes: Vec::new() }
    }

    /// Appends the given bytes.
    pub fn write(&mut self, array: &[u8])
        ensures
            final(self).bytes@ == old(self).bytes@ + array@,
    {
        let mut i: usize = 0;
        while i < array.len()
            invariant
                i <= array.len(),
                self.bytes@ == old(self).bytes@ + array@.subrange(0, i as int),
            decreases array.len() - i,
        {
            self.bytes.push(array[i]);
            proof {
                assert(self.bytes@ == old(self).bytes@ + array@.subrange(0, i + 1));
            }
            i = i + 1;
        }
        proof {
            assert(array@.subrange(0, array@.len() as int) == array@);
        }
    }

    /// Appends `value` as two little-endian bytes.
    pub fn write_u16_le(&mut self, value: u16)
        ensures
            final(self).bytes@ == old(self).bytes@ + spec_le16(value as int),
    {
        let lo: u8 = (value % 256) as u8;
        let hi: u8 = ((value / 256) % 256) as u8;
        self.bytes.push(lo);
        self.bytes.push(hi);
        proof {
            assert(self.bytes@ == old(self).bytes@ + spec_le16(value as int));
        }
    }

    /// Appends `value` as four little-endian bytes.
    pub fn write_u32_le(&mut self, value: u32)
        ensures
            final(self).bytes@ == old(self).bytes@ + spec_le32(value as int),
    {
        let b0: u8 = (value % 256) as u8;
        let b1: u8 = ((value / 256) % 256) as u8;
        let b2: u8 = ((value / 65536) % 256) as u8;
        let b3: u8 = ((value / 16777216) % 256) as u8;
        self.bytes.push(b0);
        self.bytes.push(b1);
        self.bytes.push(b2);
        self.bytes.push(b3);
        proof {
            assert(self.bytes@ == old(self).bytes@ + spec_le32(value as int));
        }
    }

    /// Read-only access to the accumulated bytes.
    pub fn as_bytes(&self) -> (r: &Vec<u8>)
        ensures
            r@ == self.bytes@,
    {
        &self.bytes
    }
}

} // verus!
