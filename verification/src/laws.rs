use vstd::prelude::*;

use crate::endian::Endianness;
use crate::wire::{
    be_bytes, le_bytes, lemma_scalar_bytes_len, scalar_bytes, wire_seq, WireFormat,
};
use crate::writable::lemma_wire_seq_bytes;
use vstd::utf8::encode_utf8;

verus! {

/// Exact sizing: the byte count `bytes_needed` reports — `size` of the model —
/// equals the length of the encoding `write_to` emits, under either byte order.
pub proof fn lemma_exact_sizing<T: WireFormat>(m: T::Model, e: Endianness)
    ensures
        T::wire(m, e).len() == T::size(m),
{
    T::lemma_size(m, e);
}

/// Option framing: an absent value is the single byte 0 and nothing more; a
/// present value is the byte 1 followed immediately by the payload's encoding.
pub proof fn lemma_option_framing<T: WireFormat>(m: Option<T::Model>, e: Endianness)
    ensures
        <Option<T> as WireFormat>::wire(Option::None, e) == seq![0u8],
        m matches Some(mv) ==> <Option<T> as WireFormat>::wire(m, e) == seq![1u8] + T::wire(mv, e),
{
}

/// An empty sequence, and empty text, encode to exactly the 4-byte zero
/// length prefix with no payload bytes after it.
pub proof fn lemma_empty_encoding<T: WireFormat>(e: Endianness)
    ensures
        <Vec<T> as WireFormat>::wire(Seq::<T::Model>::empty(), e) == seq![0u8, 0u8, 0u8, 0u8],
        <String as WireFormat>::wire(Seq::<char>::empty(), e) == seq![0u8, 0u8, 0u8, 0u8],
{
    reveal_with_fuel(le_bytes, 5);
    reveal_with_fuel(be_bytes, 5);
    assert(le_bytes(0, 4) =~= seq![0u8, 0u8, 0u8, 0u8]);
    assert(be_bytes(0, 4) =~= seq![0u8, 0u8, 0u8, 0u8]);
    assert(encode_utf8(Seq::<char>::empty()) =~= Seq::<u8>::empty());
    assert(scalar_bytes(0, 4, e) + Seq::<u8>::empty() =~= scalar_bytes(0, 4, e));
    assert(wire_seq::<T>(Seq::<T::Model>::empty(), e) =~= Seq::<u8>::empty());
}

/// Bulk and per-element agreement for single-byte elements: the payload bytes
/// of a byte sequence are the bytes themselves, identical under either byte
/// order; only the 4-byte length prefix follows the active order.
pub proof fn lemma_byte_seq_order_blind_payload(ms: Seq<u8>)
    ensures
        <Vec<u8> as WireFormat>::wire(ms, Endianness::LittleEndian) == scalar_bytes(
            ms.len(),
            4,
            Endianness::LittleEndian,
        ) + ms,
        <Vec<u8> as WireFormat>::wire(ms, Endianness::BigEndian) == scalar_bytes(
            ms.len(),
            4,
            Endianness::BigEndian,
        ) + ms,
        <Vec<u8> as WireFormat>::wire(ms, Endianness::LittleEndian).skip(4) == <Vec<
            u8,
        > as WireFormat>::wire(ms, Endianness::BigEndian).skip(4),
{
    lemma_wire_seq_bytes(ms, Endianness::LittleEndian);
    lemma_wire_seq_bytes(ms, Endianness::BigEndian);
    lemma_scalar_bytes_len(ms.len(), 4, Endianness::LittleEndian);
    lemma_scalar_bytes_len(ms.len(), 4, Endianness::BigEndian);
    assert((scalar_bytes(ms.len(), 4, Endianness::LittleEndian) + ms).skip(4) =~= ms);
    assert((scalar_bytes(ms.len(), 4, Endianness::BigEndian) + ms).skip(4) =~= ms);
}

} // verus!
