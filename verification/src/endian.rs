use vstd::prelude::*;

verus! {

/// Byte order of multi-byte scalars on the wire. A "native" request is a
/// resolution step, not a stored variant: it collapses to one of these two
/// before any byte is written or read.
#[derive(Clone, Copy, PartialEq, Eq, Structural, Debug)]
pub enum Endianness {
    LittleEndian,
    BigEndian,
}

/// Relies on u16::to_ne_bytes: the two bytes of the value in the machine's own
/// order, which is either its little-endian form (low byte first) or its
/// big-endian form (high byte first).
#[verifier::external_body]
fn native_order_parts(v: u16) -> (r: (u8, u8))
    ensures
        (r.0 == v % 256 && r.1 == v / 256) || (r.0 == v / 256 && r.1 == v % 256),
{
    let b = v.to_ne_bytes();
    (b[0], b[1])
}

impl Endianness {
    /// Resolve a "native" byte-order request to the host's own order. The wire
    /// contracts never depend on which of the two comes back: the encoded bytes
    /// are fixed by the value and the resolved order alone.
    pub fn resolve_native() -> Endianness {
        let parts = native_order_parts(0x0102);
        if parts.0 == 0x02 {
            Endianness::LittleEndian
        } else {
            Endianness::BigEndian
        }
    }

    /// True when laying out multi-byte scalars under `self` requires reordering
    /// the host's in-memory bytes. This only ever selects between two code
    /// paths that emit identical bytes, so no contract rests on its result.
    pub fn conversion_necessary(&self) -> bool {
        *self != Endianness::resolve_native()
    }
}

/// Per-call configuration: carries the resolved byte order for the duration of
/// one top-level serialize or deserialize call.
#[derive(Clone, Copy, PartialEq, Eq, Structural, Debug)]
pub struct Context {
    pub endianness: Endianness,
}

impl Context {
    pub fn new(endianness: Endianness) -> (c: Context)
        ensures
            c.endianness == endianness,
    {
        Context { endianness }
    }

    pub fn endianness(&self) -> (e: Endianness)
        ensures
            e == self.endianness,
    {
        self.endianness
    }
}

} // verus!
