use vstd::prelude::*;

use crate::endian::{Context, Endianness};
use crate::wire::{
    be_val, le_val, lemma_be_bytes_of_val, lemma_le_bytes_of_val, lemma_pow256_values, pow256,
    scalar_bytes,
};

verus! {

/// The kinds of decode failure. Every failure is terminal for the call: no
/// partial value is handed back and nothing is silently repaired.
#[derive(Clone, Copy, PartialEq, Eq, Structural, Debug)]
pub enum Error {
    /// The input ends before the bytes its own declared shape requires.
    Truncated,
    /// A tag byte outside its defined set: an option or endianness marker
    /// that is neither 0 nor 1.
    InvalidDiscriminant,
    /// Bytes where text was expected that are not valid UTF-8.
    InvalidUtf8,
}

/// The unsigned value of `s[i .. i + n]` read least significant byte first.
fn take_le(s: &[u8], i: usize, n: usize) -> (v: u64)
    requires
        i + n <= s@.len(),
        n <= 8,
    ensures
        v as nat == le_val(s@.subrange(i as int, (i + n) as int)),
        v < pow256(n as nat),
    decreases n,
{
    proof {
        lemma_pow256_values();
    }
    if n == 0 {
        proof {
            assert(s@.subrange(i as int, i as int) =~= Seq::<u8>::empty());
        }
        0
    } else {
        let slen = s.len();
        let rest = take_le(s, i + 1, n - 1);
        let b = *vstd::slice::slice_index_get(s, i);
        proof {
            let sub = s@.subrange(i as int, (i + n) as int);
            assert(sub.drop_first() =~= s@.subrange((i + 1) as int, (i + n) as int));
            assert(sub[0] == s@[i as int]);
            crate::wire::lemma_pow256_mono((n - 1) as nat, 7);
            assert(b + 256 * rest < 256 * pow256((n - 1) as nat)) by (nonlinear_arith)
                requires
                    b < 256,
                    rest < pow256((n - 1) as nat),
            ;
            assert(pow256(n as nat) == 256 * pow256((n - 1) as nat));
        }
        b as u64 + 256 * rest
    }
}

/// The unsigned value of `s[i .. i + n]` read most significant byte first.
fn take_be(s: &[u8], i: usize, n: usize) -> (v: u64)
    requires
        i + n <= s@.len(),
        n <= 8,
    ensures
        v as nat == be_val(s@.subrange(i as int, (i + n) as int)),
        v < pow256(n as nat),
    decreases n,
{
    proof {
        lemma_pow256_values();
    }
    if n == 0 {
        proof {
            assert(s@.subrange(i as int, i as int) =~= Seq::<u8>::empty());
        }
        0
    } else {
        let slen = s.len();
        let rest = take_be(s, i, n - 1);
        let b = *vstd::slice::slice_index_get(s, i + n - 1);
        proof {
            let sub = s@.subrange(i as int, (i + n) as int);
            assert(sub.drop_last() =~= s@.subrange(i as int, (i + n - 1) as int));
            assert(sub.last() == s@[(i + n - 1) as int]);
            crate::wire::lemma_pow256_mono((n - 1) as nat, 7);
            assert(b + 256 * rest < 256 * pow256((n - 1) as nat)) by (nonlinear_arith)
                requires
                    b < 256,
                    rest < pow256((n - 1) as nat),
            ;
            assert(pow256(n as nat) == 256 * pow256((n - 1) as nat));
        }
        b as u64 + 256 * rest
    }
}

/// An exclusive-use source for one top-level deserialize call: wraps the input
/// bytes, owns the read cursor, and carries the call's resolved byte order.
pub struct Reader<'a> {
    pub data: &'a [u8],
    pub pos: usize,
    pub context: Context,
}

impl<'a> Reader<'a> {
    /// The cursor never passes the end of the input.
    pub open spec fn wf(&self) -> bool {
        self.pos <= self.data@.len()
    }

    /// How many bytes are left to read.
    pub open spec fn remaining(&self) -> nat {
        (self.data@.len() - self.pos) as nat
    }

    pub fn new(data: &'a [u8], context: Context) -> (r: Reader<'a>)
        ensures
            r.data@ == data@,
            r.pos == 0,
            r.context == context,
            r.wf(),
    {
        Reader { data, pos: 0, context }
    }

    /// The byte order this reader assembles multi-byte scalars in.
    pub fn endianness(&self) -> (e: Endianness)
        ensures
            e == self.context.endianness,
    {
        self.context.endianness
    }

    /// Read one `n`-byte unsigned scalar in the active byte order. Succeeds
    /// exactly when `n` bytes remain; a shorter input is a truncation failure
    /// and moves nothing.
    pub fn read_scalar(&mut self, n: usize) -> (res: Result<u64, Error>)
        requires
            old(self).wf(),
            1 <= n <= 8,
        ensures
            final(self).data@ == old(self).data@,
            final(self).context == old(self).context,
            final(self).wf(),
            old(self).remaining() >= n ==> (res matches Ok(v) && v < pow256(n as nat)
                && final(self).pos == old(self).pos + n && old(self).data@.subrange(
                old(self).pos as int,
                final(self).pos as int,
            ) == scalar_bytes(v as nat, n as nat, old(self).context.endianness)),
            old(self).remaining() < n ==> res == Err::<u64, Error>(Error::Truncated)
                && final(self).pos == old(self).pos,
    {
        if self.data.len() - self.pos < n {
            return Err(Error::Truncated);
        }
        let ghost sub = self.data@.subrange(self.pos as int, self.pos + n as int);
        let v = match self.context.endianness {
            Endianness::LittleEndian => {
                let v = take_le(self.data, self.pos, n);
                proof {
                    lemma_le_bytes_of_val(sub);
                }
                v
            },
            Endianness::BigEndian => {
                let v = take_be(self.data, self.pos, n);
                proof {
                    lemma_be_bytes_of_val(sub);
                }
                v
            },
        };
        self.pos = self.pos + n;
        Ok(v)
    }

    /// Read `n` raw bytes. Succeeds exactly when `n` bytes remain; a shorter
    /// input is a truncation failure and moves nothing.
    pub fn read_bytes(&mut self, n: usize) -> (res: Result<Vec<u8>, Error>)
        requires
            old(self).wf(),
        ensures
            final(self).data@ == old(self).data@,
            final(self).context == old(self).context,
            final(self).wf(),
            old(self).remaining() >= n ==> (res matches Ok(v) && v@ == old(self).data@.subrange(
                old(self).pos as int,
                old(self).pos + n as int,
            ) && final(self).pos == old(self).pos + n),
            old(self).remaining() < n ==> res == Err::<Vec<u8>, Error>(Error::Truncated)
                && final(self).pos == old(self).pos,
    {
        if self.data.len() - self.pos < n {
            return Err(Error::Truncated);
        }
        let dlen = self.data.len();
        let mut out: Vec<u8> = Vec::new();
        let mut i: usize = 0;
        while i < n
            invariant
                dlen == self.data@.len(),
                self.wf(),
                self.data@ == old(self).data@,
                self.context == old(self).context,
                self.pos == old(self).pos,
                old(self).pos + n <= self.data@.len(),
                i <= n,
                out@ == self.data@.subrange(self.pos as int, self.pos + i as int),
            decreases n - i,
        {
            let b = *vstd::slice::slice_index_get(self.data, self.pos + i);
            out.push(b);
            proof {
                assert(self.data@.subrange(self.pos as int, self.pos + i + 1 as int)
                    =~= self.data@.subrange(self.pos as int, self.pos + i as int).push(
                    self.data@[self.pos + i as int],
                ));
            }
            i = i + 1;
        }
        self.pos = self.pos + n;
        Ok(out)
    }
}

} // verus!
