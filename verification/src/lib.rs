//! A binary serialization core: a symmetric pair of capabilities — written to
//! a byte sink, read back from a byte source — for primitives, text,
//! sequences, options, tuples and the unit value, with endianness-controlled
//! layout, exact size precomputation, and a verified guarantee that encoding
//! and decoding are inverse to one another.

use vstd::prelude::*;

pub mod endian;
pub mod laws;
pub mod readable;
pub mod reader;
pub mod wire;
pub mod writable;
pub mod writer;

pub use endian::{Context, Endianness};
pub use readable::Readable;
pub use reader::{Error, Reader};
pub use wire::WireFormat;
pub use writable::Writable;
pub use writer::Writer;

verus! {

/// Serialize one value under the given byte order: build a context and a
/// writer around a fresh buffer, run the value's recursive write, and hand
/// the buffer back. The result is exactly the value's wire bytes.
pub fn encode<T: Writable>(value: &T, endianness: Endianness) -> (out: Vec<u8>)
    requires
        T::wire_ok(value.model()),
    ensures
        out@ == T::wire(value.model(), endianness),
{
    let context = Context::new(endianness);
    let mut writer = Writer::new(context);
    writer.write_value(value);
    writer.into_buffer()
}

/// Serialize borrowed text: it encodes exactly as owned text does, under the
/// same UTF-8 sequence rule, so the ownership of the text is the caller's
/// concern alone.
pub fn encode_str(value: &str, endianness: Endianness) -> (out: Vec<u8>)
    requires
        <String as WireFormat>::wire_ok(value@),
    ensures
        out@ == <String as WireFormat>::wire(value@, endianness),
{
    let owned = <String as vstd::string::StringExecFns>::from_str(value);
    encode(&owned, endianness)
}

/// Deserialize one value from the front of `data` under the given byte order.
/// On success exactly the value's wire bytes were read; and whenever the
/// encoding of some well-formed model starts the buffer, that model — and no
/// other — comes back, so decoding an encoding returns the encoded value.
pub fn decode<T: Readable>(data: &[u8], endianness: Endianness) -> (res: Result<T, Error>)
    ensures
        res matches Ok(v) ==> {
            &&& T::wire_ok(v.model())
            &&& T::size(v.model()) <= data@.len()
            &&& data@.subrange(0, T::size(v.model()) as int) == T::wire(v.model(), endianness)
        },
        forall|m: T::Model|
            T::wire_ok(m) && #[trigger] crate::wire::parses_at::<T>(data@, 0, endianness, m) ==> (
            res matches Ok(v) && v.model() == m),
{
    let context = Context::new(endianness);
    let mut reader = Reader::new(data, context);
    T::read_from(&mut reader)
}

} // verus!
