use vstd::prelude::*;

use crate::endian::Endianness;
use core::ops::Range;
use crate::wire::{
    lemma_scalar_bytes_len, lemma_size_seq_fixed, lemma_size_seq_split, lemma_wire_seq_len,
    lemma_wire_seq_push, pow256, scalar_bytes, seq_model, size_seq, twos, wire_ok_seq, wire_seq,
    WireFormat,
};
use crate::writer::Writer;
use vstd::string::StringSliceAdditionalSpecFns;
use vstd::utf8::encode_utf8;

verus! {

/// The write half of the capability pair: a value that knows its own wire
/// shape and can emit it through a `Writer`.
pub trait Writable: WireFormat {
    /// Emit exactly the wire bytes of this value, in the writer's byte order,
    /// appended to whatever the writer already holds.
    fn write_to(&self, w: &mut Writer)
        requires
            Self::wire_ok(self.model()),
        ensures
            final(w).buffer@ == old(w).buffer@ + Self::wire(
                self.model(),
                old(w).context.endianness,
            ),
            final(w).context == old(w).context,
    ;

    /// The exact number of bytes `write_to` will emit: callers may allocate
    /// the output buffer once from this.
    fn bytes_needed(&self) -> (n: usize)
        requires
            Self::wire_ok(self.model()),
        ensures
            n as nat == Self::size(self.model()),
    ;

    /// The primitive-capability tag: the fixed element width for the closed
    /// set of primitive scalars, `None` for every other type.
    fn primitive_info() -> (r: Option<usize>)
        ensures
            match (r, Self::primitive_width()) {
                (Some(a), Some(b)) => a as nat == b,
                (None, None) => true,
                _ => false,
            },
    ;

    /// Emit the back-to-back encodings of a whole slice of elements. Primitive
    /// element types may take the bulk raw-bytes path here; the bytes emitted
    /// are the same either way.
    fn write_slice_to(s: &[Self], w: &mut Writer) where Self: Sized
        requires
            Self::primitive_width() is Some,
            wire_ok_seq::<Self>(seq_model(s@)),
        ensures
            final(w).buffer@ == old(w).buffer@ + wire_seq::<Self>(
                seq_model(s@),
                old(w).context.endianness,
            ),
            final(w).context == old(w).context,
    ;
}

/// The per-element path: encode each element in order through the writer.
pub fn write_elements<T: Writable>(s: &[T], w: &mut Writer)
    requires
        wire_ok_seq::<T>(seq_model(s@)),
    ensures
        final(w).buffer@ == old(w).buffer@ + wire_seq::<T>(
            seq_model(s@),
            old(w).context.endianness,
        ),
        final(w).context == old(w).context,
{
    let ghost ms = seq_model::<T>(s@);
    let ghost e = w.context.endianness;
    let n = s.len();
    let mut i: usize = 0;
    proof {
        assert(ms.subrange(0, 0) =~= Seq::<T::Model>::empty());
    }
    while i < n
        invariant
            n == s@.len(),
            i <= n,
            ms == seq_model::<T>(s@),
            wire_ok_seq::<T>(ms),
            e == old(w).context.endianness,
            w.context == old(w).context,
            w.buffer@ == old(w).buffer@ + wire_seq::<T>(ms.subrange(0, i as int), e),
        decreases n - i,
    {
        let elem = vstd::slice::slice_index_get(s, i);
        proof {
            assert(ms[i as int] == s@[i as int].model());
            assert(T::wire_ok(ms[i as int]));
        }
        elem.write_to(w);
        proof {
            lemma_wire_seq_push::<T>(ms.subrange(0, i as int), ms[i as int], e);
            assert(ms.subrange(0, i + 1) =~= ms.subrange(0, i as int).push(ms[i as int]));
            assert(w.buffer@ =~= old(w).buffer@ + wire_seq::<T>(ms.subrange(0, i + 1), e));
        }
        i = i + 1;
    }
    proof {
        assert(ms.subrange(0, n as int) =~= ms);
    }
}

/// A sequence of single bytes encodes to itself: the element encodings are the
/// bytes, in order.
pub proof fn lemma_wire_seq_bytes(ms: Seq<u8>, e: Endianness)
    ensures
        wire_seq::<u8>(ms, e) == ms,
    decreases ms.len(),
{
    if ms.len() == 0 {
        assert(wire_seq::<u8>(ms, e) =~= ms);
    } else {
        lemma_wire_seq_bytes(ms.drop_first(), e);
        crate::wire::lemma_scalar_bytes_one(ms[0] as nat, e);
        assert(<u8 as WireFormat>::wire(ms[0], e) =~= seq![ms[0]]);
        assert(wire_seq::<u8>(ms, e) =~= ms);
    }
}

impl WireFormat for u8 {
    type Model = u8;

    open spec fn model(&self) -> u8 {
        *self
    }

    open spec fn wire(m: u8, e: Endianness) -> Seq<u8> {
        scalar_bytes(m as nat, 1, e)
    }

    open spec fn wire_ok(m: u8) -> bool {
        true
    }

    open spec fn size(m: u8) -> nat {
        1
    }

    open spec fn primitive_width() -> Option<nat> {
        Some(1)
    }

    proof fn lemma_size(m: u8, e: Endianness) {
        lemma_scalar_bytes_len(m as nat, 1, e);
    }

    proof fn lemma_size_fits(m: u8) {
    }

    proof fn lemma_primitive(m: u8) {
    }
}

impl Writable for u8 {
    fn write_to(&self, w: &mut Writer) {
        w.write_u8(*self);
    }

    fn bytes_needed(&self) -> (n: usize) {
        1
    }

    fn primitive_info() -> (r: Option<usize>) {
        Some(1)
    }

    fn write_slice_to(s: &[u8], w: &mut Writer) {
        proof {
            assert(seq_model::<u8>(s@) =~= s@);
            lemma_wire_seq_bytes(s@, w.context.endianness);
        }
        w.write_bytes(s);
    }
}

impl WireFormat for u16 {
    type Model = u16;

    open spec fn model(&self) -> u16 {
        *self
    }

    open spec fn wire(m: u16, e: Endianness) -> Seq<u8> {
        scalar_bytes(m as nat, 2, e)
    }

    open spec fn wire_ok(m: u16) -> bool {
        true
    }

    open spec fn size(m: u16) -> nat {
        2
    }

    open spec fn primitive_width() -> Option<nat> {
        Some(2)
    }

    proof fn lemma_size(m: u16, e: Endianness) {
        lemma_scalar_bytes_len(m as nat, 2, e);
    }

    proof fn lemma_size_fits(m: u16) {
    }

    proof fn lemma_primitive(m: u16) {
    }
}

impl Writable for u16 {
    fn write_to(&self, w: &mut Writer) {
        w.write_u16(*self);
    }

    fn bytes_needed(&self) -> (n: usize) {
        2
    }

    fn primitive_info() -> (r: Option<usize>) {
        Some(2)
    }

    fn write_slice_to(s: &[u16], w: &mut Writer) {
        let ghost ms = seq_model::<u16>(s@);
        let ghost e = w.context.endianness;
        let n = s.len();
        let mut i: usize = 0;
        proof {
            assert(ms.subrange(0, 0) =~= Seq::<u16>::empty());
        }
        while i < n
            invariant
                n == s@.len(),
                i <= n,
                ms == seq_model::<u16>(s@),
                e == old(w).context.endianness,
                w.context == old(w).context,
                w.buffer@ == old(w).buffer@ + wire_seq::<u16>(ms.subrange(0, i as int), e),
            decreases n - i,
        {
            let v = *vstd::slice::slice_index_get(s, i);
            w.write_u16(v);
            proof {
                assert(ms[i as int] == s@[i as int].model());
                lemma_wire_seq_push::<u16>(ms.subrange(0, i as int), ms[i as int], e);
                assert(ms.subrange(0, i + 1) =~= ms.subrange(0, i as int).push(ms[i as int]));
                assert(w.buffer@ =~= old(w).buffer@ + wire_seq::<u16>(ms.subrange(0, i + 1), e));
            }
            i = i + 1;
        }
        proof {
            assert(ms.subrange(0, n as int) =~= ms);
        }
    }
}

impl WireFormat for u32 {
    type Model = u32;

    open spec fn model(&self) -> u32 {
        *self
    }

    open spec fn wire(m: u32, e: Endianness) -> Seq<u8> {
        scalar_bytes(m as nat, 4, e)
    }

    open spec fn wire_ok(m: u32) -> bool {
        true
    }

    open spec fn size(m: u32) -> nat {
        4
    }

    open spec fn primitive_width() -> Option<nat> {
        Some(4)
    }

    proof fn lemma_size(m: u32, e: Endianness) {
        lemma_scalar_bytes_len(m as nat, 4, e);
    }

    proof fn lemma_size_fits(m: u32) {
    }

    proof fn lemma_primitive(m: u32) {
    }
}

impl Writable for u32 {
    fn write_to(&self, w: &mut Writer) {
        w.write_u32(*self);
    }

    fn bytes_needed(&self) -> (n: usize) {
        4
    }

    fn primitive_info() -> (r: Option<usize>) {
        Some(4)
    }

    fn write_slice_to(s: &[u32], w: &mut Writer) {
        let ghost ms = seq_model::<u32>(s@);
        let ghost e = w.context.endianness;
        let n = s.len();
        let mut i: usize = 0;
        proof {
            assert(ms.subrange(0, 0) =~= Seq::<u32>::empty());
        }
        while i < n
            invariant
                n == s@.len(),
                i <= n,
                ms == seq_model::<u32>(s@),
                e == old(w).context.endianness,
                w.context == old(w).context,
                w.buffer@ == old(w).buffer@ + wire_seq::<u32>(ms.subrange(0, i as int), e),
            decreases n - i,
        {
            let v = *vstd::slice::slice_index_get(s, i);
            w.write_u32(v);
            proof {
                assert(ms[i as int] == s@[i as int].model());
                lemma_wire_seq_push::<u32>(ms.subrange(0, i as int), ms[i as int], e);
                assert(ms.subrange(0, i + 1) =~= ms.subrange(0, i as int).push(ms[i as int]));
                assert(w.buffer@ =~= old(w).buffer@ + wire_seq::<u32>(ms.subrange(0, i + 1), e));
            }
            i = i + 1;
        }
        proof {
            assert(ms.subrange(0, n as int) =~= ms);
        }
    }
}

impl WireFormat for u64 {
    type Model = u64;

    open spec fn model(&self) -> u64 {
        *self
    }

    open spec fn wire(m: u64, e: Endianness) -> Seq<u8> {
        scalar_bytes(m as nat, 8, e)
    }

    open spec fn wire_ok(m: u64) -> bool {
        true
    }

    open spec fn size(m: u64) -> nat {
        8
    }

    open spec fn primitive_width() -> Option<nat> {
        Some(8)
    }

    proof fn lemma_size(m: u64, e: Endianness) {
        lemma_scalar_bytes_len(m as nat, 8, e);
    }

    proof fn lemma_size_fits(m: u64) {
    }

    proof fn lemma_primitive(m: u64) {
    }
}

impl Writable for u64 {
    fn write_to(&self, w: &mut Writer) {
        w.write_u64(*self);
    }

    fn bytes_needed(&self) -> (n: usize) {
        8
    }

    fn primitive_info() -> (r: Option<usize>) {
        Some(8)
    }

    fn write_slice_to(s: &[u64], w: &mut Writer) {
        let ghost ms = seq_model::<u64>(s@);
        let ghost e = w.context.endianness;
        let n = s.len();
        let mut i: usize = 0;
        proof {
            assert(ms.subrange(0, 0) =~= Seq::<u64>::empty());
        }
        while i < n
            invariant
                n == s@.len(),
                i <= n,
                ms == seq_model::<u64>(s@),
                e == old(w).context.endianness,
                w.context == old(w).context,
                w.buffer@ == old(w).buffer@ + wire_seq::<u64>(ms.subrange(0, i as int), e),
            decreases n - i,
        {
            let v = *vstd::slice::slice_index_get(s, i);
            w.write_u64(v);
            proof {
                assert(ms[i as int] == s@[i as int].model());
                lemma_wire_seq_push::<u64>(ms.subrange(0, i as int), ms[i as int], e);
                assert(ms.subrange(0, i + 1) =~= ms.subrange(0, i as int).push(ms[i as int]));
                assert(w.buffer@ =~= old(w).buffer@ + wire_seq::<u64>(ms.subrange(0, i + 1), e));
            }
            i = i + 1;
        }
        proof {
            assert(ms.subrange(0, n as int) =~= ms);
        }
    }
}

impl WireFormat for i8 {
    type Model = i8;

    open spec fn model(&self) -> i8 {
        *self
    }

    open spec fn wire(m: i8, e: Endianness) -> Seq<u8> {
        scalar_bytes(twos(m as int, pow256(1)), 1, e)
    }

    open spec fn wire_ok(m: i8) -> bool {
        true
    }

    open spec fn size(m: i8) -> nat {
        1
    }

    open spec fn primitive_width() -> Option<nat> {
        Some(1)
    }

    proof fn lemma_size(m: i8, e: Endianness) {
        lemma_scalar_bytes_len(twos(m as int, pow256(1)), 1, e);
    }

    proof fn lemma_size_fits(m: i8) {
    }

    proof fn lemma_primitive(m: i8) {
    }
}

impl Writable for i8 {
    fn write_to(&self, w: &mut Writer) {
        w.write_i8(*self);
    }

    fn bytes_needed(&self) -> (n: usize) {
        1
    }

    fn primitive_info() -> (r: Option<usize>) {
        Some(1)
    }

    fn write_slice_to(s: &[i8], w: &mut Writer) {
        let ghost ms = seq_model::<i8>(s@);
        let ghost e = w.context.endianness;
        let n = s.len();
        let mut i: usize = 0;
        proof {
            assert(ms.subrange(0, 0) =~= Seq::<i8>::empty());
        }
        while i < n
            invariant
                n == s@.len(),
                i <= n,
                ms == seq_model::<i8>(s@),
                e == old(w).context.endianness,
                w.context == old(w).context,
                w.buffer@ == old(w).buffer@ + wire_seq::<i8>(ms.subrange(0, i as int), e),
            decreases n - i,
        {
            let v = *vstd::slice::slice_index_get(s, i);
            w.write_i8(v);
            proof {
                assert(ms[i as int] == s@[i as int].model());
                lemma_wire_seq_push::<i8>(ms.subrange(0, i as int), ms[i as int], e);
                assert(ms.subrange(0, i + 1) =~= ms.subrange(0, i as int).push(ms[i as int]));
                assert(w.buffer@ =~= old(w).buffer@ + wire_seq::<i8>(ms.subrange(0, i + 1), e));
            }
            i = i + 1;
        }
        proof {
            assert(ms.subrange(0, n as int) =~= ms);
        }
    }
}

impl WireFormat for i16 {
    type Model = i16;

    open spec fn model(&self) -> i16 {
        *self
    }

    open spec fn wire(m: i16, e: Endianness) -> Seq<u8> {
        scalar_bytes(twos(m as int, pow256(2)), 2, e)
    }

    open spec fn wire_ok(m: i16) -> bool {
        true
    }

    open spec fn size(m: i16) -> nat {
        2
    }

    open spec fn primitive_width() -> Option<nat> {
        Some(2)
    }

    proof fn lemma_size(m: i16, e: Endianness) {
        lemma_scalar_bytes_len(twos(m as int, pow256(2)), 2, e);
    }

    proof fn lemma_size_fits(m: i16) {
    }

    proof fn lemma_primitive(m: i16) {
    }
}

impl Writable for i16 {
    fn write_to(&self, w: &mut Writer) {
        w.write_i16(*self);
    }

    fn bytes_needed(&self) -> (n: usize) {
        2
    }

    fn primitive_info() -> (r: Option<usize>) {
        Some(2)
    }

    fn write_slice_to(s: &[i16], w: &mut Writer) {
        let ghost ms = seq_model::<i16>(s@);
        let ghost e = w.context.endianness;
        let n = s.len();
        let mut i: usize = 0;
        proof {
            assert(ms.subrange(0, 0) =~= Seq::<i16>::empty());
        }
        while i < n
            invariant
                n == s@.len(),
                i <= n,
                ms == seq_model::<i16>(s@),
                e == old(w).context.endianness,
                w.context == old(w).context,
                w.buffer@ == old(w).buffer@ + wire_seq::<i16>(ms.subrange(0, i as int), e),
            decreases n - i,
        {
            let v = *vstd::slice::slice_index_get(s, i);
            w.write_i16(v);
            proof {
                assert(ms[i as int] == s@[i as int].model());
                lemma_wire_seq_push::<i16>(ms.subrange(0, i as int), ms[i as int], e);
                assert(ms.subrange(0, i + 1) =~= ms.subrange(0, i as int).push(ms[i as int]));
                assert(w.buffer@ =~= old(w).buffer@ + wire_seq::<i16>(ms.subrange(0, i + 1), e));
            }
            i = i + 1;
        }
        proof {
            assert(ms.subrange(0, n as int) =~= ms);
        }
    }
}

impl WireFormat for i32 {
    type Model = i32;

    open spec fn model(&self) -> i32 {
        *self
    }

    open spec fn wire(m: i32, e: Endianness) -> Seq<u8> {
        scalar_bytes(twos(m as int, pow256(4)), 4, e)
    }

    open spec fn wire_ok(m: i32) -> bool {
        true
    }

    open spec fn size(m: i32) -> nat {
        4
    }

    open spec fn primitive_width() -> Option<nat> {
        Some(4)
    }

    proof fn lemma_size(m: i32, e: Endianness) {
        lemma_scalar_bytes_len(twos(m as int, pow256(4)), 4, e);
    }

    proof fn lemma_size_fits(m: i32) {
    }

    proof fn lemma_primitive(m: i32) {
    }
}

impl Writable for i32 {
    fn write_to(&self, w: &mut Writer) {
        w.write_i32(*self);
    }

    fn bytes_needed(&self) -> (n: usize) {
        4
    }

    fn primitive_info() -> (r: Option<usize>) {
        Some(4)
    }

    fn write_slice_to(s: &[i32], w: &mut Writer) {
        let ghost ms = seq_model::<i32>(s@);
        let ghost e = w.context.endianness;
        let n = s.len();
        let mut i: usize = 0;
        proof {
            assert(ms.subrange(0, 0) =~= Seq::<i32>::empty());
        }
        while i < n
            invariant
                n == s@.len(),
                i <= n,
                ms == seq_model::<i32>(s@),
                e == old(w).context.endianness,
                w.context == old(w).context,
                w.buffer@ == old(w).buffer@ + wire_seq::<i32>(ms.subrange(0, i as int), e),
            decreases n - i,
        {
            let v = *vstd::slice::slice_index_get(s, i);
            w.write_i32(v);
            proof {
                assert(ms[i as int] == s@[i as int].model());
                lemma_wire_seq_push::<i32>(ms.subrange(0, i as int), ms[i as int], e);
                assert(ms.subrange(0, i + 1) =~= ms.subrange(0, i as int).push(ms[i as int]));
                assert(w.buffer@ =~= old(w).buffer@ + wire_seq::<i32>(ms.subrange(0, i + 1), e));
            }
            i = i + 1;
        }
        proof {
            assert(ms.subrange(0, n as int) =~= ms);
        }
    }
}

impl WireFormat for i64 {
    type Model = i64;

    open spec fn model(&self) -> i64 {
        *self
    }

    open spec fn wire(m: i64, e: Endianness) -> Seq<u8> {
        scalar_bytes(twos(m as int, pow256(8)), 8, e)
    }

    open spec fn wire_ok(m: i64) -> bool {
        true
    }

    open spec fn size(m: i64) -> nat {
        8
    }

    open spec fn primitive_width() -> Option<nat> {
        Some(8)
    }

    proof fn lemma_size(m: i64, e: Endianness) {
        lemma_scalar_bytes_len(twos(m as int, pow256(8)), 8, e);
    }

    proof fn lemma_size_fits(m: i64) {
    }

    proof fn lemma_primitive(m: i64) {
    }
}

impl Writable for i64 {
    fn write_to(&self, w: &mut Writer) {
        w.write_i64(*self);
    }

    fn bytes_needed(&self) -> (n: usize) {
        8
    }

    fn primitive_info() -> (r: Option<usize>) {
        Some(8)
    }

    fn write_slice_to(s: &[i64], w: &mut Writer) {
        let ghost ms = seq_model::<i64>(s@);
        let ghost e = w.context.endianness;
        let n = s.len();
        let mut i: usize = 0;
        proof {
            assert(ms.subrange(0, 0) =~= Seq::<i64>::empty());
        }
        while i < n
            invariant
                n == s@.len(),
                i <= n,
                ms == seq_model::<i64>(s@),
                e == old(w).context.endianness,
                w.context == old(w).context,
                w.buffer@ == old(w).buffer@ + wire_seq::<i64>(ms.subrange(0, i as int), e),
            decreases n - i,
        {
            let v = *vstd::slice::slice_index_get(s, i);
            w.write_i64(v);
            proof {
                assert(ms[i as int] == s@[i as int].model());
                lemma_wire_seq_push::<i64>(ms.subrange(0, i as int), ms[i as int], e);
                assert(ms.subrange(0, i + 1) =~= ms.subrange(0, i as int).push(ms[i as int]));
                assert(w.buffer@ =~= old(w).buffer@ + wire_seq::<i64>(ms.subrange(0, i + 1), e));
            }
            i = i + 1;
        }
        proof {
            assert(ms.subrange(0, n as int) =~= ms);
        }
    }
}

impl WireFormat for bool {
    type Model = bool;

    open spec fn model(&self) -> bool {
        *self
    }

    open spec fn wire(m: bool, e: Endianness) -> Seq<u8> {
        seq![if m { 1u8 } else { 0u8 }]
    }

    open spec fn wire_ok(m: bool) -> bool {
        true
    }

    open spec fn size(m: bool) -> nat {
        1
    }

    open spec fn primitive_width() -> Option<nat> {
        None
    }

    proof fn lemma_size(m: bool, e: Endianness) {
    }

    proof fn lemma_size_fits(m: bool) {
    }

    proof fn lemma_primitive(m: bool) {
    }
}

impl Writable for bool {
    fn write_to(&self, w: &mut Writer) {
        w.write_u8(if *self { 1 } else { 0 });
        proof {
            let tag: u8 = if *self { 1 } else { 0 };
            assert(old(w).buffer@.push(tag) =~= old(w).buffer@ + seq![tag]);
        }
    }

    fn bytes_needed(&self) -> (n: usize) {
        1
    }

    fn primitive_info() -> (r: Option<usize>) {
        None
    }

    fn write_slice_to(s: &[bool], w: &mut Writer) {
        // not a primitive scalar: the bulk path never applies, so this is
        // unreachable under its own precondition
    }
}

impl WireFormat for Endianness {
    type Model = Endianness;

    open spec fn model(&self) -> Endianness {
        *self
    }

    open spec fn wire(m: Endianness, e: Endianness) -> Seq<u8> {
        match m {
            Endianness::LittleEndian => seq![0u8],
            Endianness::BigEndian => seq![1u8],
        }
    }

    open spec fn wire_ok(m: Endianness) -> bool {
        true
    }

    open spec fn size(m: Endianness) -> nat {
        1
    }

    open spec fn primitive_width() -> Option<nat> {
        None
    }

    proof fn lemma_size(m: Endianness, e: Endianness) {
    }

    proof fn lemma_size_fits(m: Endianness) {
    }

    proof fn lemma_primitive(m: Endianness) {
    }
}

impl Writable for Endianness {
    fn write_to(&self, w: &mut Writer) {
        let tag: u8 = match *self {
            Endianness::LittleEndian => 0,
            Endianness::BigEndian => 1,
        };
        w.write_u8(tag);
        proof {
            assert(old(w).buffer@.push(tag) =~= old(w).buffer@ + seq![tag]);
        }
    }

    fn bytes_needed(&self) -> (n: usize) {
        1
    }

    fn primitive_info() -> (r: Option<usize>) {
        None
    }

    fn write_slice_to(s: &[Endianness], w: &mut Writer) {
        // not a primitive scalar: the bulk path never applies, so this is
        // unreachable under its own precondition
    }
}

impl WireFormat for String {
    type Model = Seq<char>;

    open spec fn model(&self) -> Seq<char> {
        self@
    }

    open spec fn wire(m: Seq<char>, e: Endianness) -> Seq<u8> {
        scalar_bytes(encode_utf8(m).len(), 4, e) + encode_utf8(m)
    }

    open spec fn wire_ok(m: Seq<char>) -> bool {
        encode_utf8(m).len() <= u32::MAX && 4 + encode_utf8(m).len() <= usize::MAX
    }

    open spec fn size(m: Seq<char>) -> nat {
        4 + encode_utf8(m).len()
    }

    open spec fn primitive_width() -> Option<nat> {
        None
    }

    proof fn lemma_size(m: Seq<char>, e: Endianness) {
        lemma_scalar_bytes_len(encode_utf8(m).len(), 4, e);
    }

    proof fn lemma_size_fits(m: Seq<char>) {
    }

    proof fn lemma_primitive(m: Seq<char>) {
    }
}

impl Writable for String {
    /// Text is encoded as its UTF-8 byte sequence under the sequence rule: a
    /// 4-byte byte-count prefix, then the raw bytes in one bulk write.
    fn write_to(&self, w: &mut Writer) {
        let bytes: &[u8] = self.as_str().as_bytes();
        let len32: u32 = bytes.len() as u32;
        w.write_u32(len32);
        w.write_bytes(bytes);
        proof {
            let e = old(w).context.endianness;
            assert(w.buffer@ =~= old(w).buffer@ + (scalar_bytes(encode_utf8(self@).len(), 4, e)
                + encode_utf8(self@)));
        }
    }

    fn bytes_needed(&self) -> (n: usize) {
        4 + self.as_str().as_bytes().len()
    }

    fn primitive_info() -> (r: Option<usize>) {
        None
    }

    fn write_slice_to(s: &[String], w: &mut Writer) {
        // not a primitive scalar: the bulk path never applies, so this is
        // unreachable under its own precondition
    }
}

impl<T: WireFormat> WireFormat for Vec<T> {
    type Model = Seq<T::Model>;

    open spec fn model(&self) -> Seq<T::Model> {
        seq_model::<T>(self@)
    }

    open spec fn wire(m: Seq<T::Model>, e: Endianness) -> Seq<u8> {
        scalar_bytes(m.len(), 4, e) + wire_seq::<T>(m, e)
    }

    open spec fn wire_ok(m: Seq<T::Model>) -> bool {
        m.len() <= u32::MAX && wire_ok_seq::<T>(m) && 4 + size_seq::<T>(m) <= usize::MAX
    }

    open spec fn size(m: Seq<T::Model>) -> nat {
        4 + size_seq::<T>(m)
    }

    open spec fn primitive_width() -> Option<nat> {
        None
    }

    proof fn lemma_size(m: Seq<T::Model>, e: Endianness) {
        lemma_scalar_bytes_len(m.len(), 4, e);
        lemma_wire_seq_len::<T>(m, e);
    }

    proof fn lemma_size_fits(m: Seq<T::Model>) {
    }

    proof fn lemma_primitive(m: Seq<T::Model>) {
    }
}

impl<T: Writable> Writable for Vec<T> {
    /// A homogeneous sequence: a 4-byte element-count prefix, then the bulk
    /// raw-bytes path when the element type is primitive and either one byte
    /// wide or in no need of byte-order conversion, else the per-element path.
    /// Both paths emit identical bytes; the choice is a speed matter only.
    fn write_to(&self, w: &mut Writer) {
        let len32: u32 = self.len() as u32;
        w.write_u32(len32);
        match T::primitive_info() {
            Some(width) => {
                if width == 1 || !w.endianness().conversion_necessary() {
                    T::write_slice_to(self.as_slice(), w);
                } else {
                    write_elements(self.as_slice(), w);
                }
            },
            None => {
                write_elements(self.as_slice(), w);
            },
        }
        proof {
            let e = old(w).context.endianness;
            let m = seq_model::<T>(self@);
            assert(w.buffer@ =~= old(w).buffer@ + (scalar_bytes(m.len(), 4, e) + wire_seq::<T>(
                m,
                e,
            )));
        }
    }

    fn bytes_needed(&self) -> (n: usize) {
        let ghost m = seq_model::<T>(self@);
        proof {
            <Vec<T> as WireFormat>::lemma_size_fits(m);
        }
        match T::primitive_info() {
            Some(width) => {
                proof {
                    lemma_size_seq_fixed::<T>(m, T::primitive_width()->Some_0);
                }
                4 + self.len() * width
            },
            None => {
                let n = self.len();
                let mut total: usize = 4;
                let mut i: usize = 0;
                proof {
                    assert(m.subrange(0, 0) =~= Seq::<T::Model>::empty());
                }
                while i < n
                    invariant
                        n == self@.len(),
                        i <= n,
                        m == seq_model::<T>(self@),
                        <Vec<T> as WireFormat>::wire_ok(m),
                        total as nat == 4 + size_seq::<T>(m.subrange(0, i as int)),
                    decreases n - i,
                {
                    proof {
                        lemma_size_seq_split::<T>(m, i + 1);
                        lemma_size_seq_split::<T>(m.subrange(0, i + 1), i as int);
                        assert(m.subrange(0, i + 1).subrange(0, i as int) =~= m.subrange(
                            0,
                            i as int,
                        ));
                        assert(m.subrange(0, i + 1).subrange(i as int, i + 1) =~= seq![
                            m[i as int],
                        ]);
                        assert(seq![m[i as int]].drop_first() =~= Seq::<T::Model>::empty());
                        assert(size_seq::<T>(Seq::<T::Model>::empty()) == 0);
                        assert(size_seq::<T>(seq![m[i as int]]) == T::size(m[i as int]));
                        assert(m[i as int] == self@[i as int].model());
                    }
                    let elem = vstd::slice::slice_index_get(self.as_slice(), i);
                    let k = elem.bytes_needed();
                    total = total + k;
                    i = i + 1;
                }
                proof {
                    assert(m.subrange(0, n as int) =~= m);
                }
                total
            },
        }
    }

    fn primitive_info() -> (r: Option<usize>) {
        None
    }

    fn write_slice_to(s: &[Vec<T>], w: &mut Writer) {
        // not a primitive scalar: the bulk path never applies, so this is
        // unreachable under its own precondition
    }
}

impl<T: WireFormat> WireFormat for Option<T> {
    type Model = Option<T::Model>;

    open spec fn model(&self) -> Option<T::Model> {
        match self {
            Option::None => Option::None,
            Option::Some(v) => Option::Some(v.model()),
        }
    }

    open spec fn wire(m: Option<T::Model>, e: Endianness) -> Seq<u8> {
        match m {
            Option::None => seq![0u8],
            Option::Some(mv) => seq![1u8] + T::wire(mv, e),
        }
    }

    open spec fn wire_ok(m: Option<T::Model>) -> bool {
        match m {
            Option::None => true,
            Option::Some(mv) => T::wire_ok(mv) && 1 + T::size(mv) <= usize::MAX,
        }
    }

    open spec fn size(m: Option<T::Model>) -> nat {
        match m {
            Option::None => 1,
            Option::Some(mv) => 1 + T::size(mv),
        }
    }

    open spec fn primitive_width() -> Option<nat> {
        None
    }

    proof fn lemma_size(m: Option<T::Model>, e: Endianness) {
        match m {
            Option::None => {},
            Option::Some(mv) => {
                T::lemma_size(mv, e);
            },
        }
    }

    proof fn lemma_size_fits(m: Option<T::Model>) {
    }

    proof fn lemma_primitive(m: Option<T::Model>) {
    }
}

impl<T: Writable> Writable for Option<T> {
    /// An optional value: a 1-byte tag, 0 for absent with nothing after it,
    /// 1 for present followed immediately by the payload's encoding.
    fn write_to(&self, w: &mut Writer) {
        match self {
            Option::None => {
                w.write_u8(0);
                proof {
                    assert(old(w).buffer@.push(0u8) =~= old(w).buffer@ + seq![0u8]);
                }
            },
            Option::Some(v) => {
                w.write_u8(1);
                v.write_to(w);
                proof {
                    let e = old(w).context.endianness;
                    assert(w.buffer@ =~= old(w).buffer@ + (seq![1u8] + T::wire(v.model(), e)));
                }
            },
        }
    }

    fn bytes_needed(&self) -> (n: usize) {
        match self {
            Option::None => 1,
            Option::Some(v) => 1 + v.bytes_needed(),
        }
    }

    fn primitive_info() -> (r: Option<usize>) {
        None
    }

    fn write_slice_to(s: &[Option<T>], w: &mut Writer) {
        // not a primitive scalar: the bulk path never applies, so this is
        // unreachable under its own precondition
    }
}

impl WireFormat for () {
    type Model = ();

    open spec fn model(&self) -> () {
        ()
    }

    open spec fn wire(m: (), e: Endianness) -> Seq<u8> {
        Seq::empty()
    }

    open spec fn wire_ok(m: ()) -> bool {
        true
    }

    open spec fn size(m: ()) -> nat {
        0
    }

    open spec fn primitive_width() -> Option<nat> {
        None
    }

    proof fn lemma_size(m: (), e: Endianness) {
    }

    proof fn lemma_size_fits(m: ()) {
    }

    proof fn lemma_primitive(m: ()) {
    }
}

impl Writable for () {
    /// The unit value encodes to zero bytes.
    fn write_to(&self, w: &mut Writer) {
        proof {
            assert(w.buffer@ + Seq::<u8>::empty() =~= w.buffer@);
        }
    }

    fn bytes_needed(&self) -> (n: usize) {
        0
    }

    fn primitive_info() -> (r: Option<usize>) {
        None
    }

    fn write_slice_to(s: &[()], w: &mut Writer) {
        // not a primitive scalar: the bulk path never applies, so this is
        // unreachable under its own precondition
    }
}

impl<A: WireFormat> WireFormat for (A,) {
    type Model = (A::Model,);

    open spec fn model(&self) -> (A::Model,) {
        (self.0.model(),)
    }

    open spec fn wire(m: (A::Model,), e: Endianness) -> Seq<u8> {
        A::wire(m.0, e)
    }

    open spec fn wire_ok(m: (A::Model,)) -> bool {
        A::wire_ok(m.0)
    }

    open spec fn size(m: (A::Model,)) -> nat {
        A::size(m.0)
    }

    open spec fn primitive_width() -> Option<nat> {
        None
    }

    proof fn lemma_size(m: (A::Model,), e: Endianness) {
        A::lemma_size(m.0, e);
    }

    proof fn lemma_size_fits(m: (A::Model,)) {
        A::lemma_size_fits(m.0);
    }

    proof fn lemma_primitive(m: (A::Model,)) {
    }
}

impl<A: Writable> Writable for (A,) {
    /// Tuple members are encoded in declared order, back to back, with no
    /// padding and no per-member framing.
    fn write_to(&self, w: &mut Writer) {
        self.0.write_to(w);
    }

    fn bytes_needed(&self) -> (n: usize) {
        self.0.bytes_needed()
    }

    fn primitive_info() -> (r: Option<usize>) {
        None
    }

    fn write_slice_to(s: &[(A,)], w: &mut Writer) {
        // not a primitive scalar: the bulk path never applies, so this is
        // unreachable under its own precondition
    }
}

impl<A: WireFormat, B: WireFormat> WireFormat for (A, B) {
    type Model = (A::Model, B::Model);

    open spec fn model(&self) -> (A::Model, B::Model) {
        (self.0.model(), self.1.model())
    }

    open spec fn wire(m: (A::Model, B::Model), e: Endianness) -> Seq<u8> {
        A::wire(m.0, e) + B::wire(m.1, e)
    }

    open spec fn wire_ok(m: (A::Model, B::Model)) -> bool {
        A::wire_ok(m.0) && B::wire_ok(m.1) && A::size(m.0) + B::size(m.1) <= usize::MAX
    }

    open spec fn size(m: (A::Model, B::Model)) -> nat {
        A::size(m.0) + B::size(m.1)
    }

    open spec fn primitive_width() -> Option<nat> {
        None
    }

    proof fn lemma_size(m: (A::Model, B::Model), e: Endianness) {
        A::lemma_size(m.0, e);
        B::lemma_size(m.1, e);
    }

    proof fn lemma_size_fits(m: (A::Model, B::Model)) {
    }

    proof fn lemma_primitive(m: (A::Model, B::Model)) {
    }
}

impl<A: Writable, B: Writable> Writable for (A, B) {
    /// Tuple members are encoded in declared order, back to back, with no
    /// padding and no per-member framing.
    fn write_to(&self, w: &mut Writer) {
        self.0.write_to(w);
        self.1.write_to(w);
        proof {
            let e = old(w).context.endianness;
            assert(w.buffer@ =~= old(w).buffer@ + (A::wire(self.0.model(), e) + B::wire(
                self.1.model(),
                e,
            )));
        }
    }

    fn bytes_needed(&self) -> (n: usize) {
        self.0.bytes_needed() + self.1.bytes_needed()
    }

    fn primitive_info() -> (r: Option<usize>) {
        None
    }

    fn write_slice_to(s: &[(A, B)], w: &mut Writer) {
        // not a primitive scalar: the bulk path never applies, so this is
        // unreachable under its own precondition
    }
}

impl<T: WireFormat> WireFormat for Range<T> {
    type Model = (T::Model, T::Model);

    open spec fn model(&self) -> (T::Model, T::Model) {
        (self.start.model(), self.end.model())
    }

    open spec fn wire(m: (T::Model, T::Model), e: Endianness) -> Seq<u8> {
        T::wire(m.0, e) + T::wire(m.1, e)
    }

    open spec fn wire_ok(m: (T::Model, T::Model)) -> bool {
        T::wire_ok(m.0) && T::wire_ok(m.1) && T::size(m.0) + T::size(m.1) <= usize::MAX
    }

    open spec fn size(m: (T::Model, T::Model)) -> nat {
        T::size(m.0) + T::size(m.1)
    }

    open spec fn primitive_width() -> Option<nat> {
        None
    }

    proof fn lemma_size(m: (T::Model, T::Model), e: Endianness) {
        T::lemma_size(m.0, e);
        T::lemma_size(m.1, e);
    }

    proof fn lemma_size_fits(m: (T::Model, T::Model)) {
    }

    proof fn lemma_primitive(m: (T::Model, T::Model)) {
    }
}

impl<T: Writable> Writable for Range<T> {
    /// A range-like pair: the start bound, then the end bound, back to back
    /// with no framing.
    fn write_to(&self, w: &mut Writer) {
        self.start.write_to(w);
        self.end.write_to(w);
        proof {
            let e = old(w).context.endianness;
            assert(w.buffer@ =~= old(w).buffer@ + (T::wire(self.start.model(), e) + T::wire(
                self.end.model(),
                e,
            )));
        }
    }

    fn bytes_needed(&self) -> (n: usize) {
        self.start.bytes_needed() + self.end.bytes_needed()
    }

    fn primitive_info() -> (r: Option<usize>) {
        None
    }

    fn write_slice_to(s: &[Range<T>], w: &mut Writer) {
        // not a primitive scalar: the bulk path never applies, so this is
        // unreachable under its own precondition
    }
}

impl<A: WireFormat, B: WireFormat, C: WireFormat> WireFormat for (A, B, C) {
    type Model = (A::Model, B::Model, C::Model);

    open spec fn model(&self) -> (A::Model, B::Model, C::Model) {
        (self.0.model(), self.1.model(), self.2.model())
    }

    open spec fn wire(m: (A::Model, B::Model, C::Model), e: Endianness) -> Seq<u8> {
        A::wire(m.0, e) + B::wire(m.1, e) + C::wire(m.2, e)
    }

    open spec fn wire_ok(m: (A::Model, B::Model, C::Model)) -> bool {
        A::wire_ok(m.0) && B::wire_ok(m.1) && C::wire_ok(m.2) && A::size(m.0) + B::size(m.1)
            + C::size(m.2) <= usize::MAX
    }

    open spec fn size(m: (A::Model, B::Model, C::Model)) -> nat {
        A::size(m.0) + B::size(m.1) + C::size(m.2)
    }

    open spec fn primitive_width() -> Option<nat> {
        None
    }

    proof fn lemma_size(m: (A::Model, B::Model, C::Model), e: Endianness) {
        A::lemma_size(m.0, e);
        B::lemma_size(m.1, e);
        C::lemma_size(m.2, e);
    }

    proof fn lemma_size_fits(m: (A::Model, B::Model, C::Model)) {
    }

    proof fn lemma_primitive(m: (A::Model, B::Model, C::Model)) {
    }
}

impl<A: Writable, B: Writable, C: Writable> Writable for (A, B, C) {
    /// Tuple members are encoded in declared order, back to back, with no
    /// padding and no per-member framing.
    fn write_to(&self, w: &mut Writer) {
        self.0.write_to(w);
        self.1.write_to(w);
        self.2.write_to(w);
        proof {
            let e = old(w).context.endianness;
            assert(w.buffer@ =~= old(w).buffer@ + (A::wire(self.0.model(), e) + B::wire(
                self.1.model(),
                e,
            ) + C::wire(self.2.model(), e)));
        }
    }

    fn bytes_needed(&self) -> (n: usize) {
        self.0.bytes_needed() + self.1.bytes_needed() + self.2.bytes_needed()
    }

    fn primitive_info() -> (r: Option<usize>) {
        None
    }

    fn write_slice_to(s: &[(A, B, C)], w: &mut Writer) {
        // not a primitive scalar: the bulk path never applies, so this is
        // unreachable under its own precondition
    }
}

} // verus!
