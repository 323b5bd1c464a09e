use vstd::prelude::*;

use crate::endian::{Context, Endianness};
use crate::wire::{
    be_bytes, le_bytes, lemma_pow256_values, pow256, scalar_bytes, twos,
    WireFormat,
};
use crate::writable::Writable;

verus! {

/// An exclusive-use sink for one top-level serialize call: wraps the output
/// buffer and carries the call's resolved byte order.
pub struct Writer {
    pub buffer: Vec<u8>,
    pub context: Context,
}

/// Append the little-endian layout of the low `n` bytes of `v`.
fn push_le(out: &mut Vec<u8>, v: u64, n: usize)
    ensures
        final(out)@ == old(out)@ + le_bytes(v as nat, n as nat),
    decreases n,
{
    if n == 0 {
        assert(final(out)@ =~= old(out)@ + le_bytes(v as nat, 0));
    } else {
        out.push((v % 256) as u8);
        push_le(out, v / 256, n - 1);
        assert(final(out)@ =~= old(out)@ + le_bytes(v as nat, n as nat));
    }
}

/// Append the big-endian layout of the low `n` bytes of `v`.
fn push_be(out: &mut Vec<u8>, v: u64, n: usize)
    ensures
        final(out)@ == old(out)@ + be_bytes(v as nat, n as nat),
    decreases n,
{
    if n == 0 {
        assert(final(out)@ =~= old(out)@ + be_bytes(v as nat, 0));
    } else {
        push_be(out, v / 256, n - 1);
        out.push((v % 256) as u8);
        assert(final(out)@ =~= old(out)@ + be_bytes(v as nat, n as nat));
    }
}

impl Writer {
    /// A fresh writer around an empty output buffer, bound to `context`.
    pub fn new(context: Context) -> (w: Writer)
        ensures
            w.buffer@ == Seq::<u8>::empty(),
            w.context == context,
    {
        let buffer: Vec<u8> = Vec::new();
        Writer { buffer, context }
    }

    /// The byte order this writer lays multi-byte scalars out in.
    pub fn endianness(&self) -> (e: Endianness)
        ensures
            e == self.context.endianness,
    {
        self.context.endianness
    }

    /// Hand the accumulated bytes back to the caller.
    pub fn into_buffer(self) -> (r: Vec<u8>)
        ensures
            r == self.buffer,
    {
        self.buffer
    }

    /// Emit raw bytes, unframed: the one funnel for bulk byte output.
    pub fn write_bytes(&mut self, bytes: &[u8])
        ensures
            final(self).buffer@ == old(self).buffer@ + bytes@,
            final(self).context == old(self).context,
    {
        let n = bytes.len();
        let mut i: usize = 0;
        while i < n
            invariant
                n == bytes@.len(),
                i <= n,
                self.buffer@ == old(self).buffer@ + bytes@.subrange(0, i as int),
                self.context == old(self).context,
            decreases n - i,
        {
            let b = *vstd::slice::slice_index_get(bytes, i);
            self.buffer.push(b);
            assert(bytes@.subrange(0, i + 1) =~= bytes@.subrange(0, i as int).push(bytes@[i as int]));
            assert(self.buffer@ =~= old(self).buffer@ + bytes@.subrange(0, i + 1));
            i = i + 1;
        }
        assert(bytes@.subrange(0, n as int) =~= bytes@);
    }

    /// Emit the low `n` bytes of `v` in the active byte order.
    fn write_scalar(&mut self, v: u64, n: usize)
        ensures
            final(self).buffer@ == old(self).buffer@ + scalar_bytes(
                v as nat,
                n as nat,
                old(self).context.endianness,
            ),
            final(self).context == old(self).context,
    {
        match self.context.endianness {
            Endianness::LittleEndian => push_le(&mut self.buffer, v, n),
            Endianness::BigEndian => push_be(&mut self.buffer, v, n),
        }
    }

    pub fn write_u8(&mut self, v: u8)
        ensures
            final(self).buffer@ == old(self).buffer@ + scalar_bytes(
                v as nat,
                1,
                old(self).context.endianness,
            ),
            final(self).buffer@ == old(self).buffer@.push(v),
            final(self).context == old(self).context,
    {
        self.write_scalar(v as u64, 1);
        proof {
            let e = old(self).context.endianness;
            crate::wire::lemma_scalar_bytes_one(v as nat, e);
            assert(old(self).buffer@ + seq![v] =~= old(self).buffer@.push(v));
        }
    }

    pub fn write_u16(&mut self, v: u16)
        ensures
            final(self).buffer@ == old(self).buffer@ + scalar_bytes(
                v as nat,
                2,
                old(self).context.endianness,
            ),
            final(self).context == old(self).context,
    {
        self.write_scalar(v as u64, 2);
    }

    pub fn write_u32(&mut self, v: u32)
        ensures
            final(self).buffer@ == old(self).buffer@ + scalar_bytes(
                v as nat,
                4,
                old(self).context.endianness,
            ),
            final(self).context == old(self).context,
    {
        self.write_scalar(v as u64, 4);
    }

    pub fn write_u64(&mut self, v: u64)
        ensures
            final(self).buffer@ == old(self).buffer@ + scalar_bytes(
                v as nat,
                8,
                old(self).context.endianness,
            ),
            final(self).context == old(self).context,
    {
        self.write_scalar(v, 8);
    }

    pub fn write_i8(&mut self, v: i8)
        ensures
            final(self).buffer@ == old(self).buffer@ + scalar_bytes(
                twos(v as int, pow256(1)),
                1,
                old(self).context.endianness,
            ),
            final(self).context == old(self).context,
    {
        proof {
            lemma_pow256_values();
        }
        let u: u16 = if v >= 0 {
            v as u16
        } else {
            ((v as i16) + 0x100) as u16
        };
        self.write_scalar(u as u64, 1);
    }

    pub fn write_i16(&mut self, v: i16)
        ensures
            final(self).buffer@ == old(self).buffer@ + scalar_bytes(
                twos(v as int, pow256(2)),
                2,
                old(self).context.endianness,
            ),
            final(self).context == old(self).context,
    {
        proof {
            lemma_pow256_values();
        }
        let u: u32 = if v >= 0 {
            v as u32
        } else {
            ((v as i32) + 0x1_0000) as u32
        };
        self.write_scalar(u as u64, 2);
    }

    pub fn write_i32(&mut self, v: i32)
        ensures
            final(self).buffer@ == old(self).buffer@ + scalar_bytes(
                twos(v as int, pow256(4)),
                4,
                old(self).context.endianness,
            ),
            final(self).context == old(self).context,
    {
        proof {
            lemma_pow256_values();
        }
        let u: u64 = if v >= 0 {
            v as u64
        } else {
            ((v as i64) + 0x1_0000_0000) as u64
        };
        self.write_scalar(u, 4);
    }

    pub fn write_i64(&mut self, v: i64)
        ensures
            final(self).buffer@ == old(self).buffer@ + scalar_bytes(
                twos(v as int, pow256(8)),
                8,
                old(self).context.endianness,
            ),
            final(self).context == old(self).context,
    {
        proof {
            lemma_pow256_values();
        }
        let u: u64 = if v >= 0 {
            v as u64
        } else {
            (((v as i128) + 0x1_0000_0000_0000_0000_i128) as u64)
        };
        self.write_scalar(u, 8);
    }

    /// The generic recursive entry point: encode any writable value.
    pub fn write_value<T: Writable + ?Sized>(&mut self, value: &T)
        requires
            T::wire_ok(value.model()),
        ensures
            final(self).buffer@ == old(self).buffer@ + T::wire(
                value.model(),
                old(self).context.endianness,
            ),
            final(self).context == old(self).context,
    {
        value.write_to(self)
    }
}

} // verus!
