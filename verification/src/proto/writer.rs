//! The writing half of the framing layer: primitive big-endian integer and
//! NUL-terminated string output into a byte buffer.  The buffer is the
//! message's wire image; the transport that carries it lives outside this
//! crate.

use vstd::prelude::*;

use crate::wire::{i32_bits, i32_to_u32, spec_i32_to_be_bytes, spec_u32_to_be_bytes};

verus! {

pub struct Writer {
    data: Vec<u8>,
}

impl View for Writer {
    type V = Seq<u8>;

    closed spec fn view(&self) -> Seq<u8> {
        self.data@
    }
}

impl Writer {
    pub fn new() -> (w: Writer)
        ensures
            w@ == Seq::<u8>::empty(),
    {
        Writer { data: Vec::new() }
    }

    pub fn write_byte(&mut self, byte: u8)
        ensures
            final(self)@ == old(self)@ + seq![byte],
    {
        self.data.push(byte);
    }

    pub fn write_i32(&mut self, value: i32)
        ensures
            final(self)@ == old(self)@ + spec_i32_to_be_bytes(value),
    {
        let u: u32 = i32_bits(value);
        proof {
            assert(((u >> 24) & 0xff) < 256 && ((u >> 16) & 0xff) < 256 && ((u >> 8) & 0xff) < 256
                && (u & 0xff) < 256) by (bit_vector);
        }
        self.data.push(((u >> 24) & 0xff) as u8);
        self.data.push(((u >> 16) & 0xff) as u8);
        self.data.push(((u >> 8) & 0xff) as u8);
        self.data.push((u & 0xff) as u8);
        proof {
            assert(self.data@ =~= old(self).data@ + spec_u32_to_be_bytes(i32_to_u32(value)));
        }
    }

    /// Writes the text bytes followed by a single NUL terminator.
    pub fn write_str(&mut self, s: &[u8])
        ensures
            final(self)@ == old(self)@ + s@ + seq![0u8],
    {
        let n: usize = s.len();
        let mut i: usize = 0;
        while i < n
            invariant
                0 <= i <= n,
                n == s@.len(),
                self.data@ == old(self).data@ + s@.take(i as int),
            decreases n - i,
        {
            self.data.push(s[i]);
            proof {
                assert(self.data@ =~= old(self).data@ + s@.take(i + 1));
            }
            i = i + 1;
        }
        self.data.push(0);
        proof {
            assert(s@.take(n as int) =~= s@);
            assert(self.data@ =~= old(self).data@ + s@ + seq![0u8]);
        }
    }

    /// Hands the accumulated wire image out.
    pub fn into_vec(self) -> (v: Vec<u8>)
        ensures
            v@ == self@,
    {
        self.data
    }

    pub fn len(&self) -> (n: usize)
        ensures
            n == self@.len(),
    {
        self.data.len()
    }
}

} // verus!
