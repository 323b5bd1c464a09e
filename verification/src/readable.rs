use vstd::prelude::*;

use crate::endian::Endianness;
use core::ops::Range;
use crate::reader::{Error, Reader};
use crate::wire::{
    lemma_pow256_values, lemma_scalar_bytes_inj, lemma_scalar_bytes_len, lemma_scalar_bytes_one,
    lemma_size_seq_push, lemma_wire_seq_len, lemma_wire_seq_push, lemma_wire_seq_split, parses_at,
    pow256, scalar_bytes, scalar_val, seq_model, size_seq, twos, wire_ok_seq, wire_seq, WireFormat,
};
use vstd::utf8::{decode_utf8, encode_utf8, valid_utf8};

verus! {

broadcast use vstd::utf8::encode_utf8_valid_utf8;

/// The read half of the capability pair: a value of this type can be decoded
/// back off a byte source, in lockstep with the order it was written in.
pub trait Readable: WireFormat + Sized {
    /// Decode one value from the reader's position. Exactly the decoded
    /// value's wire bytes are consumed on success; and whenever the bytes of
    /// some well-formed model stand at the position, that model — and no
    /// other — is returned. A failure is terminal: no partial value escapes.
    fn read_from(r: &mut Reader) -> (res: Result<Self, Error>)
        requires
            old(r).wf(),
        ensures
            final(r).wf(),
            final(r).data@ == old(r).data@,
            final(r).context == old(r).context,
            res matches Ok(v) ==> {
                &&& Self::wire_ok(v.model())
                &&& old(r).pos + Self::size(v.model()) == final(r).pos
                &&& final(r).pos <= old(r).data@.len()
                &&& old(r).data@.subrange(old(r).pos as int, final(r).pos as int) == Self::wire(
                    v.model(),
                    old(r).context.endianness,
                )
            },
            forall|m: Self::Model|
                Self::wire_ok(m) && #[trigger] parses_at::<Self>(
                    old(r).data@,
                    old(r).pos as int,
                    old(r).context.endianness,
                    m,
                ) ==> (res matches Ok(v) && v.model() == m),
    ;
}

/// A concatenation standing at a position in a buffer splits into its two
/// parts, each standing at its own offset.
pub proof fn lemma_parts_at(data: Seq<u8>, pos: int, a: Seq<u8>, b: Seq<u8>)
    requires
        0 <= pos,
        pos + a.len() + b.len() <= data.len(),
        data.subrange(pos, pos + a.len() + b.len()) == a + b,
    ensures
        data.subrange(pos, pos + a.len()) == a,
        data.subrange(pos + a.len(), pos + a.len() + b.len()) == b,
{
    let whole = data.subrange(pos, pos + a.len() + b.len());
    assert forall|k: int| 0 <= k < a.len() implies data.subrange(pos, pos + a.len())[k] == a[k] by {
        assert(whole[k] == a[k]);
        assert(whole[k] == data[pos + k]);
    }
    assert(data.subrange(pos, pos + a.len()) =~= a);
    assert forall|k: int|
        0 <= k < b.len() implies data.subrange(pos + a.len(), pos + a.len() + b.len())[k]
        == b[k] by {
        assert(whole[a.len() + k] == b[k]);
        assert(whole[a.len() + k] == data[pos + a.len() + k]);
    }
    assert(data.subrange(pos + a.len(), pos + a.len() + b.len()) =~= b);
}

/// Relies on String::from_utf8: it succeeds exactly on valid UTF-8 input and
/// decodes it, per the UTF-8 specification that vstd's `valid_utf8` and
/// `decode_utf8` write out.
#[verifier::external_body]
fn string_from_utf8(bytes: Vec<u8>) -> (r: Option<String>)
    ensures
        r is Some <==> valid_utf8(bytes@),
        r matches Some(s) ==> s@ == decode_utf8(bytes@),
{
    match String::from_utf8(bytes) {
        Ok(s) => Some(s),
        Err(_) => None,
    }
}

impl Readable for u8 {
    fn read_from(r: &mut Reader) -> (res: Result<u8, Error>)
        ensures
            res is Err ==> res == Err::<u8, Error>(Error::Truncated) && old(r).remaining() < 1,
    {
        let ghost data = r.data@;
        let ghost pos = r.pos as int;
        let ghost e = r.context.endianness;
        proof {
            lemma_pow256_values();
        }
        match r.read_scalar(1) {
            Ok(v) => {
                let out = v as u8;
                proof {
                    assert forall|m: u8|
                        <u8 as WireFormat>::wire_ok(m) && parses_at::<u8>(data, pos, e, m)
                        implies m == out by {
                        lemma_scalar_bytes_len(m as nat, 1, e);
                        lemma_scalar_bytes_inj(m as nat, v as nat, 1, e);
                    }
                }
                Ok(out)
            },
            Err(err) => {
                proof {
                    assert forall|m: u8|
                        <u8 as WireFormat>::wire_ok(m) && parses_at::<u8>(data, pos, e, m)
                        implies false by {
                        lemma_scalar_bytes_len(m as nat, 1, e);
                    }
                }
                Err(err)
            },
        }
    }
}

impl Readable for u16 {
    fn read_from(r: &mut Reader) -> (res: Result<u16, Error>)
        ensures
            res is Err ==> res == Err::<u16, Error>(Error::Truncated) && old(r).remaining() < 2,
    {
        let ghost data = r.data@;
        let ghost pos = r.pos as int;
        let ghost e = r.context.endianness;
        proof {
            lemma_pow256_values();
        }
        match r.read_scalar(2) {
            Ok(v) => {
                let out = v as u16;
                proof {
                    assert forall|m: u16|
                        <u16 as WireFormat>::wire_ok(m) && parses_at::<u16>(data, pos, e, m)
                        implies m == out by {
                        lemma_scalar_bytes_len(m as nat, 2, e);
                        lemma_scalar_bytes_inj(m as nat, v as nat, 2, e);
                    }
                }
                Ok(out)
            },
            Err(err) => {
                proof {
                    assert forall|m: u16|
                        <u16 as WireFormat>::wire_ok(m) && parses_at::<u16>(data, pos, e, m)
                        implies false by {
                        lemma_scalar_bytes_len(m as nat, 2, e);
                    }
                }
                Err(err)
            },
        }
    }
}

impl Readable for u32 {
    fn read_from(r: &mut Reader) -> (res: Result<u32, Error>)
        ensures
            res is Err ==> res == Err::<u32, Error>(Error::Truncated) && old(r).remaining() < 4,
    {
        let ghost data = r.data@;
        let ghost pos = r.pos as int;
        let ghost e = r.context.endianness;
        proof {
            lemma_pow256_values();
        }
        match r.read_scalar(4) {
            Ok(v) => {
                let out = v as u32;
                proof {
                    assert forall|m: u32|
                        <u32 as WireFormat>::wire_ok(m) && parses_at::<u32>(data, pos, e, m)
                        implies m == out by {
                        lemma_scalar_bytes_len(m as nat, 4, e);
                        lemma_scalar_bytes_inj(m as nat, v as nat, 4, e);
                    }
                }
                Ok(out)
            },
            Err(err) => {
                proof {
                    assert forall|m: u32|
                        <u32 as WireFormat>::wire_ok(m) && parses_at::<u32>(data, pos, e, m)
                        implies false by {
                        lemma_scalar_bytes_len(m as nat, 4, e);
                    }
                }
                Err(err)
            },
        }
    }
}

impl Readable for u64 {
    fn read_from(r: &mut Reader) -> (res: Result<u64, Error>)
        ensures
            res is Err ==> res == Err::<u64, Error>(Error::Truncated) && old(r).remaining() < 8,
    {
        let ghost data = r.data@;
        let ghost pos = r.pos as int;
        let ghost e = r.context.endianness;
        proof {
            lemma_pow256_values();
        }
        match r.read_scalar(8) {
            Ok(v) => {
                proof {
                    assert forall|m: u64|
                        <u64 as WireFormat>::wire_ok(m) && parses_at::<u64>(data, pos, e, m)
                        implies m == v by {
                        lemma_scalar_bytes_len(m as nat, 8, e);
                        lemma_scalar_bytes_inj(m as nat, v as nat, 8, e);
                    }
                }
                Ok(v)
            },
            Err(err) => {
                proof {
                    assert forall|m: u64|
                        <u64 as WireFormat>::wire_ok(m) && parses_at::<u64>(data, pos, e, m)
                        implies false by {
                        lemma_scalar_bytes_len(m as nat, 8, e);
                    }
                }
                Err(err)
            },
        }
    }
}

impl Readable for i8 {
    fn read_from(r: &mut Reader) -> (res: Result<i8, Error>)
        ensures
            res is Err ==> res == Err::<i8, Error>(Error::Truncated) && old(r).remaining() < 1,
    {
        let ghost data = r.data@;
        let ghost pos = r.pos as int;
        let ghost e = r.context.endianness;
        proof {
            lemma_pow256_values();
        }
        match r.read_scalar(1) {
            Ok(v) => {
                let out: i8 = if v < 0x80 {
                    v as i8
                } else {
                    ((v as i16) - 0x100) as i8
                };
                proof {
                    assert(twos(out as int, pow256(1)) == v as nat);
                    assert forall|m: i8|
                        <i8 as WireFormat>::wire_ok(m) && parses_at::<i8>(data, pos, e, m)
                        implies m == out by {
                        lemma_scalar_bytes_len(twos(m as int, pow256(1)), 1, e);
                        lemma_scalar_bytes_inj(twos(m as int, pow256(1)), v as nat, 1, e);
                    }
                }
                Ok(out)
            },
            Err(err) => {
                proof {
                    assert forall|m: i8|
                        <i8 as WireFormat>::wire_ok(m) && parses_at::<i8>(data, pos, e, m)
                        implies false by {
                        lemma_scalar_bytes_len(twos(m as int, pow256(1)), 1, e);
                    }
                }
                Err(err)
            },
        }
    }
}

impl Readable for i16 {
    fn read_from(r: &mut Reader) -> (res: Result<i16, Error>)
        ensures
            res is Err ==> res == Err::<i16, Error>(Error::Truncated) && old(r).remaining() < 2,
    {
        let ghost data = r.data@;
        let ghost pos = r.pos as int;
        let ghost e = r.context.endianness;
        proof {
            lemma_pow256_values();
        }
        match r.read_scalar(2) {
            Ok(v) => {
                let out: i16 = if v < 0x8000 {
                    v as i16
                } else {
                    ((v as i32) - 0x1_0000) as i16
                };
                proof {
                    assert(twos(out as int, pow256(2)) == v as nat);
                    assert forall|m: i16|
                        <i16 as WireFormat>::wire_ok(m) && parses_at::<i16>(data, pos, e, m)
                        implies m == out by {
                        lemma_scalar_bytes_len(twos(m as int, pow256(2)), 2, e);
                        lemma_scalar_bytes_inj(twos(m as int, pow256(2)), v as nat, 2, e);
                    }
                }
                Ok(out)
            },
            Err(err) => {
                proof {
                    assert forall|m: i16|
                        <i16 as WireFormat>::wire_ok(m) && parses_at::<i16>(data, pos, e, m)
                        implies false by {
                        lemma_scalar_bytes_len(twos(m as int, pow256(2)), 2, e);
                    }
                }
                Err(err)
            },
        }
    }
}

impl Readable for i32 {
    fn read_from(r: &mut Reader) -> (res: Result<i32, Error>)
        ensures
            res is Err ==> res == Err::<i32, Error>(Error::Truncated) && old(r).remaining() < 4,
    {
        let ghost data = r.data@;
        let ghost pos = r.pos as int;
        let ghost e = r.context.endianness;
        proof {
            lemma_pow256_values();
        }
        match r.read_scalar(4) {
            Ok(v) => {
                let out: i32 = if v < 0x8000_0000 {
                    v as i32
                } else {
                    ((v as i64) - 0x1_0000_0000_i64) as i32
                };
                proof {
                    assert(twos(out as int, pow256(4)) == v as nat);
                    assert forall|m: i32|
                        <i32 as WireFormat>::wire_ok(m) && parses_at::<i32>(data, pos, e, m)
                        implies m == out by {
                        lemma_scalar_bytes_len(twos(m as int, pow256(4)), 4, e);
                        lemma_scalar_bytes_inj(twos(m as int, pow256(4)), v as nat, 4, e);
                    }
                }
                Ok(out)
            },
            Err(err) => {
                proof {
                    assert forall|m: i32|
                        <i32 as WireFormat>::wire_ok(m) && parses_at::<i32>(data, pos, e, m)
                        implies false by {
                        lemma_scalar_bytes_len(twos(m as int, pow256(4)), 4, e);
                    }
                }
                Err(err)
            },
        }
    }
}

impl Readable for i64 {
    fn read_from(r: &mut Reader) -> (res: Result<i64, Error>)
        ensures
            res is Err ==> res == Err::<i64, Error>(Error::Truncated) && old(r).remaining() < 8,
    {
        let ghost data = r.data@;
        let ghost pos = r.pos as int;
        let ghost e = r.context.endianness;
        proof {
            lemma_pow256_values();
        }
        match r.read_scalar(8) {
            Ok(v) => {
                let out: i64 = if v < 0x8000_0000_0000_0000 {
                    v as i64
                } else {
                    (((v as i128) - 0x1_0000_0000_0000_0000_i128) as i64)
                };
                proof {
                    assert(twos(out as int, pow256(8)) == v as nat);
                    assert forall|m: i64|
                        <i64 as WireFormat>::wire_ok(m) && parses_at::<i64>(data, pos, e, m)
                        implies m == out by {
                        lemma_scalar_bytes_len(twos(m as int, pow256(8)), 8, e);
                        lemma_scalar_bytes_inj(twos(m as int, pow256(8)), v as nat, 8, e);
                    }
                }
                Ok(out)
            },
            Err(err) => {
                proof {
                    assert forall|m: i64|
                        <i64 as WireFormat>::wire_ok(m) && parses_at::<i64>(data, pos, e, m)
                        implies false by {
                        lemma_scalar_bytes_len(twos(m as int, pow256(8)), 8, e);
                    }
                }
                Err(err)
            },
        }
    }
}

impl Readable for bool {
    fn read_from(r: &mut Reader) -> (res: Result<bool, Error>)
        ensures
            res matches Err(k) ==> ((k == Error::Truncated && old(r).remaining() < 1) || (k
                == Error::InvalidDiscriminant && old(r).remaining() >= 1 && old(r).data@[old(
                r,
            ).pos as int] != 0 && old(r).data@[old(r).pos as int] != 1)),
    {
        let ghost data = r.data@;
        let ghost pos = r.pos as int;
        let ghost e = r.context.endianness;
        match r.read_scalar(1) {
            Ok(v) => {
                proof {
                    lemma_pow256_values();
                    lemma_scalar_bytes_one(v as nat, e);
                    assert(data.subrange(pos, pos + 1)[0] == data[pos]);
                    assert(data[pos] == v as u8);
                }
                if v == 0 {
                    Ok(false)
                } else if v == 1 {
                    Ok(true)
                } else {
                    proof {
                        assert forall|m: bool|
                            <bool as WireFormat>::wire_ok(m) && parses_at::<bool>(data, pos, e, m)
                            implies false by {
                            assert(data[pos] == <bool as WireFormat>::wire(m, e)[0]);
                        }
                    }
                    Err(Error::InvalidDiscriminant)
                }
            },
            Err(err) => {
                proof {
                    assert forall|m: bool|
                        <bool as WireFormat>::wire_ok(m) && parses_at::<bool>(data, pos, e, m)
                        implies false by {
                        assert(<bool as WireFormat>::wire(m, e).len() == 1);
                    }
                }
                Err(err)
            },
        }
    }
}

impl Readable for Endianness {
    fn read_from(r: &mut Reader) -> (res: Result<Endianness, Error>)
        ensures
            res matches Err(k) ==> ((k == Error::Truncated && old(r).remaining() < 1) || (k
                == Error::InvalidDiscriminant && old(r).remaining() >= 1 && old(r).data@[old(
                r,
            ).pos as int] != 0 && old(r).data@[old(r).pos as int] != 1)),
    {
        let ghost data = r.data@;
        let ghost pos = r.pos as int;
        let ghost e = r.context.endianness;
        match r.read_scalar(1) {
            Ok(v) => {
                proof {
                    lemma_pow256_values();
                    lemma_scalar_bytes_one(v as nat, e);
                    assert(data.subrange(pos, pos + 1)[0] == data[pos]);
                    assert(data[pos] == v as u8);
                }
                if v == 0 {
                    Ok(Endianness::LittleEndian)
                } else if v == 1 {
                    Ok(Endianness::BigEndian)
                } else {
                    proof {
                        assert forall|m: Endianness|
                            <Endianness as WireFormat>::wire_ok(m) && parses_at::<Endianness>(
                                data,
                                pos,
                                e,
                                m,
                            ) implies false by {
                            assert(data[pos] == <Endianness as WireFormat>::wire(m, e)[0]);
                        }
                    }
                    Err(Error::InvalidDiscriminant)
                }
            },
            Err(err) => {
                proof {
                    assert forall|m: Endianness|
                        <Endianness as WireFormat>::wire_ok(m) && parses_at::<Endianness>(
                            data,
                            pos,
                            e,
                            m,
                        ) implies false by {
                        assert(<Endianness as WireFormat>::wire(m, e).len() == 1);
                    }
                }
                Err(err)
            },
        }
    }
}

impl<T: Readable> Readable for Option<T> {
    fn read_from(r: &mut Reader) -> (res: Result<Option<T>, Error>)
        ensures
            old(r).remaining() < 1 ==> res == Err::<Option<T>, Error>(Error::Truncated),
    {
        let ghost data = r.data@;
        let ghost pos = r.pos as int;
        let ghost e = r.context.endianness;
        match r.read_scalar(1) {
            Ok(tag) => {
                proof {
                    lemma_pow256_values();
                    lemma_scalar_bytes_one(tag as nat, e);
                    assert(data.subrange(pos, pos + 1)[0] == data[pos]);
                    assert(data[pos] == tag as u8);
                }
                if tag == 0 {
                    proof {
                        assert forall|m: Option<T::Model>|
                            <Option<T> as WireFormat>::wire_ok(m) && parses_at::<Option<T>>(
                                data,
                                pos,
                                e,
                                m,
                            ) implies m is None by {
                            match m {
                                Some(mv) => {
                                    assert(data[pos] == <Option<T> as WireFormat>::wire(m, e)[0]);
                                    assert(<Option<T> as WireFormat>::wire(m, e)[0] == 1u8);
                                },
                                None => {},
                            }
                        }
                        assert(data.subrange(pos, pos + 1) =~= seq![0u8]);
                    }
                    Ok(None)
                } else if tag == 1 {
                    let ghost pos1 = r.pos as int;
                    match T::read_from(r) {
                        Ok(x) => {
                            proof {
                                let wx = T::wire(x.model(), e);
                                T::lemma_size(x.model(), e);
                                assert(data.subrange(pos, pos1 + wx.len() as int) =~= data.subrange(
                                    pos,
                                    pos1,
                                ) + data.subrange(pos1, pos1 + wx.len() as int));
                                assert(data.subrange(pos, pos1) =~= seq![1u8]);
                                assert(seq![1u8] + wx == <Option<T> as WireFormat>::wire(
                                    Some(x.model()),
                                    e,
                                ));
                                assert forall|m: Option<T::Model>|
                                    <Option<T> as WireFormat>::wire_ok(m) && parses_at::<Option<T>>(
                                        data,
                                        pos,
                                        e,
                                        m,
                                    ) implies (m matches Some(mv) && mv == x.model()) by {
                                    match m {
                                        Some(mv) => {
                                            let wm = T::wire(mv, e);
                                            lemma_parts_at(data, pos, seq![1u8], wm);
                                            assert(parses_at::<T>(data, pos1, e, mv));
                                        },
                                        None => {
                                            assert(data[pos] == <Option<T> as WireFormat>::wire(
                                                m,
                                                e,
                                            )[0]);
                                        },
                                    }
                                }
                            }
                            Ok(Some(x))
                        },
                        Err(err) => {
                            proof {
                                assert forall|m: Option<T::Model>|
                                    <Option<T> as WireFormat>::wire_ok(m) && parses_at::<Option<T>>(
                                        data,
                                        pos,
                                        e,
                                        m,
                                    ) implies false by {
                                    match m {
                                        Some(mv) => {
                                            let wm = T::wire(mv, e);
                                            lemma_parts_at(data, pos, seq![1u8], wm);
                                            assert(parses_at::<T>(data, pos1, e, mv));
                                        },
                                        None => {
                                            assert(data[pos] == <Option<T> as WireFormat>::wire(
                                                m,
                                                e,
                                            )[0]);
                                        },
                                    }
                                }
                            }
                            Err(err)
                        },
                    }
                } else {
                    proof {
                        assert forall|m: Option<T::Model>|
                            <Option<T> as WireFormat>::wire_ok(m) && parses_at::<Option<T>>(
                                data,
                                pos,
                                e,
                                m,
                            ) implies false by {
                            assert(data[pos] == <Option<T> as WireFormat>::wire(m, e)[0]);
                        }
                    }
                    Err(Error::InvalidDiscriminant)
                }
            },
            Err(err) => {
                proof {
                    assert forall|m: Option<T::Model>|
                        <Option<T> as WireFormat>::wire_ok(m) && parses_at::<Option<T>>(
                            data,
                            pos,
                            e,
                            m,
                        ) implies false by {
                        assert(<Option<T> as WireFormat>::wire(m, e).len() >= 1);
                    }
                }
                Err(err)
            },
        }
    }
}

impl Readable for String {
    fn read_from(r: &mut Reader) -> (res: Result<String, Error>)
        ensures
            ({
                let data = old(r).data@;
                let pos = old(r).pos as int;
                let e = old(r).context.endianness;
                let rem = old(r).remaining() as int;
                let declared = scalar_val(data.subrange(pos, pos + 4), e) as int;
                &&& (rem < 4 ==> res == Err::<String, Error>(Error::Truncated))
                &&& (rem >= 4 && rem - 4 < declared ==> res == Err::<String, Error>(
                    Error::Truncated,
                ))
                &&& (rem >= 4 && rem - 4 >= declared ==> ((res is Ok <==> valid_utf8(
                    data.subrange(pos + 4, pos + 4 + declared),
                )) && (res is Err ==> res == Err::<String, Error>(Error::InvalidUtf8))))
            }),
    {
        let ghost data = r.data@;
        let ghost pos = r.pos as int;
        let ghost e = r.context.endianness;
        proof {
            lemma_pow256_values();
        }
        let n64 = match r.read_scalar(4) {
            Ok(v) => v,
            Err(err) => {
                proof {
                    assert forall|m: Seq<char>|
                        <String as WireFormat>::wire_ok(m) && parses_at::<String>(data, pos, e, m)
                        implies false by {
                        lemma_scalar_bytes_len(encode_utf8(m).len(), 4, e);
                    }
                }
                return Err(err);
            },
        };
        proof {
            crate::wire::lemma_scalar_val_of_bytes(n64 as nat, 4, e);
        }
        let count = n64 as usize;
        let ghost pos1 = r.pos as int;
        match r.read_bytes(count) {
            Ok(bytes) => {
                let ghost bseq = bytes@;
                match string_from_utf8(bytes) {
                    Some(s) => {
                        proof {
                            vstd::utf8::decode_utf8_encode_utf8(bseq);
                            assert(encode_utf8(s@) == bseq);
                            assert(data.subrange(pos, pos1 + count as int) =~= data.subrange(
                                pos,
                                pos1,
                            ) + data.subrange(pos1, pos1 + count as int));
                            assert forall|m: Seq<char>|
                                <String as WireFormat>::wire_ok(m) && parses_at::<String>(
                                    data,
                                    pos,
                                    e,
                                    m,
                                ) implies s@ == m by {
                                let wm = encode_utf8(m);
                                lemma_scalar_bytes_len(wm.len(), 4, e);
                                lemma_parts_at(data, pos, scalar_bytes(wm.len(), 4, e), wm);
                                lemma_scalar_bytes_inj(wm.len(), n64 as nat, 4, e);
                                assert(wm == bseq);
                                vstd::utf8::encode_utf8_decode_utf8(m);
                            }
                        }
                        Ok(s)
                    },
                    None => {
                        proof {
                            assert forall|m: Seq<char>|
                                <String as WireFormat>::wire_ok(m) && parses_at::<String>(
                                    data,
                                    pos,
                                    e,
                                    m,
                                ) implies false by {
                                let wm = encode_utf8(m);
                                lemma_scalar_bytes_len(wm.len(), 4, e);
                                lemma_parts_at(data, pos, scalar_bytes(wm.len(), 4, e), wm);
                                lemma_scalar_bytes_inj(wm.len(), n64 as nat, 4, e);
                                assert(wm == bseq);
                            }
                        }
                        Err(Error::InvalidUtf8)
                    },
                }
            },
            Err(err) => {
                proof {
                    assert forall|m: Seq<char>|
                        <String as WireFormat>::wire_ok(m) && parses_at::<String>(data, pos, e, m)
                        implies false by {
                        let wm = encode_utf8(m);
                        lemma_scalar_bytes_len(wm.len(), 4, e);
                        lemma_parts_at(data, pos, scalar_bytes(wm.len(), 4, e), wm);
                        lemma_scalar_bytes_inj(wm.len(), n64 as nat, 4, e);
                    }
                }
                Err(err)
            },
        }
    }
}

impl<T: Readable> Readable for Vec<T> {
    #[verifier::rlimit(50)]
    fn read_from(r: &mut Reader) -> (res: Result<Vec<T>, Error>)
        ensures
            old(r).remaining() < 4 ==> res == Err::<Vec<T>, Error>(Error::Truncated),
    {
        let ghost data = r.data@;
        let ghost pos = r.pos as int;
        let ghost e = r.context.endianness;
        proof {
            lemma_pow256_values();
        }
        let n64 = match r.read_scalar(4) {
            Ok(v) => v,
            Err(err) => {
                proof {
                    assert forall|m: Seq<T::Model>|
                        <Vec<T> as WireFormat>::wire_ok(m) && parses_at::<Vec<T>>(data, pos, e, m)
                        implies false by {
                        lemma_scalar_bytes_len(m.len(), 4, e);
                        lemma_wire_seq_len::<T>(m, e);
                    }
                }
                return Err(err);
            },
        };
        let n = n64 as usize;
        let ghost pos1 = r.pos as int;
        let mut out: Vec<T> = Vec::new();
        let mut i: usize = 0;
        proof {
            assert(seq_model::<T>(out@) =~= Seq::<T::Model>::empty());
            assert(data.subrange(pos1, pos1) =~= Seq::<u8>::empty());
            assert forall|m: Seq<T::Model>|
                <Vec<T> as WireFormat>::wire_ok(m) && #[trigger] parses_at::<Vec<T>>(
                    data,
                    pos,
                    e,
                    m,
                ) implies m.len() == n64 && m.subrange(0, 0) == seq_model::<T>(out@) by {
                lemma_scalar_bytes_len(m.len(), 4, e);
                lemma_wire_seq_len::<T>(m, e);
                lemma_parts_at(data, pos, scalar_bytes(m.len(), 4, e), wire_seq::<T>(m, e));
                lemma_scalar_bytes_inj(m.len(), n64 as nat, 4, e);
                assert(m.subrange(0, 0) =~= Seq::<T::Model>::empty());
            }
        }
        while i < n
            invariant
                r.wf(),
                data == old(r).data@,
                pos == old(r).pos as int,
                e == old(r).context.endianness,
                r.data@ == data,
                r.context.endianness == e,
                r.context == old(r).context,
                0 <= pos,
                pos + 4 == pos1,
                pos1 <= r.pos as int <= data.len(),
                i <= n,
                n == n64,
                n64 < pow256(4),
                pow256(4) == 0x1_0000_0000,
                out@.len() == i,
                data.subrange(pos, pos1) == scalar_bytes(n64 as nat, 4, e),
                wire_ok_seq::<T>(seq_model(out@)),
                r.pos as int == pos1 + size_seq::<T>(seq_model(out@)),
                data.subrange(pos1, r.pos as int) == wire_seq::<T>(seq_model(out@), e),
                forall|m: Seq<T::Model>|
                    <Vec<T> as WireFormat>::wire_ok(m) && #[trigger] parses_at::<Vec<T>>(
                        data,
                        pos,
                        e,
                        m,
                    ) ==> m.len() == n64 && m.subrange(0, i as int) == seq_model::<T>(out@),
            decreases n - i,
        {
            let ghost prepos = r.pos as int;
            let ghost mprev = seq_model::<T>(out@);
            proof {
                assert forall|m: Seq<T::Model>|
                    <Vec<T> as WireFormat>::wire_ok(m) && #[trigger] parses_at::<Vec<T>>(
                        data,
                        pos,
                        e,
                        m,
                    ) implies parses_at::<T>(data, prepos, e, m[i as int]) && T::wire_ok(
                    m[i as int],
                ) by {
                    lemma_scalar_bytes_len(m.len(), 4, e);
                    lemma_wire_seq_len::<T>(m, e);
                    lemma_parts_at(data, pos, scalar_bytes(m.len(), 4, e), wire_seq::<T>(m, e));
                    lemma_scalar_bytes_inj(m.len(), n64 as nat, 4, e);
                    lemma_wire_seq_split::<T>(m, i as int, e);
                    assert(m.subrange(0, i as int) == mprev);
                    lemma_wire_seq_len::<T>(m.subrange(0, i as int), e);
                    lemma_wire_seq_len::<T>(m.subrange(i as int, m.len() as int), e);
                    lemma_parts_at(
                        data,
                        pos1,
                        wire_seq::<T>(m.subrange(0, i as int), e),
                        wire_seq::<T>(m.subrange(i as int, m.len() as int), e),
                    );
                    let tail = m.subrange(i as int, m.len() as int);
                    assert(tail.len() > 0);
                    assert(wire_seq::<T>(tail, e) == T::wire(tail[0], e) + wire_seq::<T>(
                        tail.drop_first(),
                        e,
                    ));
                    lemma_wire_seq_len::<T>(tail.drop_first(), e);
                    T::lemma_size(tail[0], e);
                    lemma_parts_at(
                        data,
                        prepos,
                        T::wire(tail[0], e),
                        wire_seq::<T>(tail.drop_first(), e),
                    );
                    assert(tail[0] == m[i as int]);
                }
            }
            match T::read_from(r) {
                Ok(x) => {
                    proof {
                        let mnew = seq_model::<T>(out@.push(x));
                        assert(mnew =~= mprev.push(x.model()));
                        lemma_wire_seq_push::<T>(mprev, x.model(), e);
                        lemma_size_seq_push::<T>(mprev, x.model());
                        T::lemma_size(x.model(), e);
                        assert(data.subrange(pos1, prepos + T::size(x.model()) as int)
                            =~= data.subrange(pos1, prepos) + data.subrange(
                            prepos,
                            prepos + T::size(x.model()) as int,
                        ));
                        assert forall|m: Seq<T::Model>|
                            <Vec<T> as WireFormat>::wire_ok(m) && #[trigger] parses_at::<Vec<T>>(
                                data,
                                pos,
                                e,
                                m,
                            ) implies m.subrange(0, i + 1) == mprev.push(x.model()) by {
                            assert(parses_at::<T>(data, prepos, e, m[i as int]));
                            assert(x.model() == m[i as int]);
                            assert(m.subrange(0, i + 1) =~= m.subrange(0, i as int).push(
                                m[i as int],
                            ));
                        }
                    }
                    out.push(x);
                    i = i + 1;
                },
                Err(err) => {
                    proof {
                        assert forall|m: Seq<T::Model>|
                            <Vec<T> as WireFormat>::wire_ok(m) && #[trigger] parses_at::<Vec<T>>(
                                data,
                                pos,
                                e,
                                m,
                            ) implies false by {
                            assert(parses_at::<T>(data, prepos, e, m[i as int]));
                        }
                    }
                    return Err(err);
                },
            }
        }
        proof {
            let mout = seq_model::<T>(out@);
            assert(data.subrange(pos, r.pos as int) =~= data.subrange(pos, pos1) + data.subrange(
                pos1,
                r.pos as int,
            ));
            assert(<Vec<T> as WireFormat>::wire(mout, e) == scalar_bytes(mout.len(), 4, e)
                + wire_seq::<T>(mout, e));
            assert(mout.len() == n64);
            assert forall|m: Seq<T::Model>|
                <Vec<T> as WireFormat>::wire_ok(m) && #[trigger] parses_at::<Vec<T>>(
                    data,
                    pos,
                    e,
                    m,
                ) implies m == mout by {
                assert(m.subrange(0, m.len() as int) =~= m);
            }
        }
        Ok(out)
    }
}

impl Readable for () {
    fn read_from(r: &mut Reader) -> (res: Result<(), Error>) {
        let ghost data = r.data@;
        let ghost pos = r.pos as int;
        proof {
            assert(data.subrange(pos, pos) =~= Seq::<u8>::empty());
        }
        Ok(())
    }
}

impl<A: Readable> Readable for (A,) {
    fn read_from(r: &mut Reader) -> (res: Result<(A,), Error>) {
        let ghost data = r.data@;
        let ghost pos = r.pos as int;
        let ghost e = r.context.endianness;
        match A::read_from(r) {
            Ok(a) => {
                proof {
                    assert forall|m: (A::Model,)|
                        <(A,) as WireFormat>::wire_ok(m) && parses_at::<(A,)>(data, pos, e, m)
                        implies m.0 == a.model() by {
                        assert(parses_at::<A>(data, pos, e, m.0));
                    }
                }
                Ok((a,))
            },
            Err(err) => {
                proof {
                    assert forall|m: (A::Model,)|
                        <(A,) as WireFormat>::wire_ok(m) && parses_at::<(A,)>(data, pos, e, m)
                        implies false by {
                        assert(parses_at::<A>(data, pos, e, m.0));
                    }
                }
                Err(err)
            },
        }
    }
}

impl<A: Readable, B: Readable> Readable for (A, B) {
    fn read_from(r: &mut Reader) -> (res: Result<(A, B), Error>) {
        let ghost data = r.data@;
        let ghost pos = r.pos as int;
        let ghost e = r.context.endianness;
        match A::read_from(r) {
            Ok(a) => {
                let ghost pos1 = r.pos as int;
                proof {
                    A::lemma_size(a.model(), e);
                    assert forall|m: (A::Model, B::Model)|
                        <(A, B) as WireFormat>::wire_ok(m) && parses_at::<(A, B)>(data, pos, e, m)
                        implies parses_at::<B>(data, pos1, e, m.1) && B::wire_ok(m.1) by {
                        lemma_parts_at(data, pos, A::wire(m.0, e), B::wire(m.1, e));
                        assert(parses_at::<A>(data, pos, e, m.0));
                        assert(m.0 == a.model());
                        A::lemma_size(m.0, e);
                    }
                }
                match B::read_from(r) {
                    Ok(b) => {
                        proof {
                            B::lemma_size(b.model(), e);
                            assert(data.subrange(pos, r.pos as int) =~= data.subrange(pos, pos1)
                                + data.subrange(pos1, r.pos as int));
                            assert forall|m: (A::Model, B::Model)|
                                <(A, B) as WireFormat>::wire_ok(m) && parses_at::<(A, B)>(
                                    data,
                                    pos,
                                    e,
                                    m,
                                ) implies m.0 == a.model() && m.1 == b.model() by {
                                lemma_parts_at(data, pos, A::wire(m.0, e), B::wire(m.1, e));
                                assert(parses_at::<A>(data, pos, e, m.0));
                            }
                        }
                        Ok((a, b))
                    },
                    Err(err) => {
                        proof {
                            assert forall|m: (A::Model, B::Model)|
                                <(A, B) as WireFormat>::wire_ok(m) && parses_at::<(A, B)>(
                                    data,
                                    pos,
                                    e,
                                    m,
                                ) implies false by {
                                assert(parses_at::<B>(data, pos1, e, m.1));
                            }
                        }
                        Err(err)
                    },
                }
            },
            Err(err) => {
                proof {
                    assert forall|m: (A::Model, B::Model)|
                        <(A, B) as WireFormat>::wire_ok(m) && parses_at::<(A, B)>(data, pos, e, m)
                        implies false by {
                        lemma_parts_at(data, pos, A::wire(m.0, e), B::wire(m.1, e));
                        assert(parses_at::<A>(data, pos, e, m.0));
                    }
                }
                Err(err)
            },
        }
    }
}

impl<T: Readable> Readable for Range<T> {
    fn read_from(r: &mut Reader) -> (res: Result<Range<T>, Error>) {
        let ghost data = r.data@;
        let ghost pos = r.pos as int;
        let ghost e = r.context.endianness;
        match T::read_from(r) {
            Ok(a) => {
                let ghost pos1 = r.pos as int;
                proof {
                    T::lemma_size(a.model(), e);
                    assert forall|m: (T::Model, T::Model)|
                        <Range<T> as WireFormat>::wire_ok(m) && parses_at::<Range<T>>(
                            data,
                            pos,
                            e,
                            m,
                        ) implies parses_at::<T>(data, pos1, e, m.1) && T::wire_ok(m.1) by {
                        lemma_parts_at(data, pos, T::wire(m.0, e), T::wire(m.1, e));
                        assert(parses_at::<T>(data, pos, e, m.0));
                        assert(m.0 == a.model());
                        T::lemma_size(m.0, e);
                    }
                }
                match T::read_from(r) {
                    Ok(b) => {
                        proof {
                            T::lemma_size(b.model(), e);
                            assert(data.subrange(pos, r.pos as int) =~= data.subrange(pos, pos1)
                                + data.subrange(pos1, r.pos as int));
                            assert forall|m: (T::Model, T::Model)|
                                <Range<T> as WireFormat>::wire_ok(m) && parses_at::<Range<T>>(
                                    data,
                                    pos,
                                    e,
                                    m,
                                ) implies m.0 == a.model() && m.1 == b.model() by {
                                lemma_parts_at(data, pos, T::wire(m.0, e), T::wire(m.1, e));
                                assert(parses_at::<T>(data, pos, e, m.0));
                            }
                        }
                        Ok(a..b)
                    },
                    Err(err) => {
                        proof {
                            assert forall|m: (T::Model, T::Model)|
                                <Range<T> as WireFormat>::wire_ok(m) && parses_at::<Range<T>>(
                                    data,
                                    pos,
                                    e,
                                    m,
                                ) implies false by {
                                assert(parses_at::<T>(data, pos1, e, m.1));
                            }
                        }
                        Err(err)
                    },
                }
            },
            Err(err) => {
                proof {
                    assert forall|m: (T::Model, T::Model)|
                        <Range<T> as WireFormat>::wire_ok(m) && parses_at::<Range<T>>(
                            data,
                            pos,
                            e,
                            m,
                        ) implies false by {
                        lemma_parts_at(data, pos, T::wire(m.0, e), T::wire(m.1, e));
                        assert(parses_at::<T>(data, pos, e, m.0));
                    }
                }
                Err(err)
            },
        }
    }
}

impl<A: Readable, B: Readable, C: Readable> Readable for (A, B, C) {
    fn read_from(r: &mut Reader) -> (res: Result<(A, B, C), Error>) {
        let ghost data = r.data@;
        let ghost pos = r.pos as int;
        let ghost e = r.context.endianness;
        match A::read_from(r) {
            Ok(a) => {
                let ghost pos1 = r.pos as int;
                proof {
                    A::lemma_size(a.model(), e);
                    assert forall|m: (A::Model, B::Model, C::Model)|
                        <(A, B, C) as WireFormat>::wire_ok(m) && parses_at::<(A, B, C)>(
                            data,
                            pos,
                            e,
                            m,
                        ) implies parses_at::<B>(data, pos1, e, m.1) && B::wire_ok(m.1) by {
                        assert(A::wire(m.0, e) + B::wire(m.1, e) + C::wire(m.2, e) =~= A::wire(
                            m.0,
                            e,
                        ) + (B::wire(m.1, e) + C::wire(m.2, e)));
                        lemma_parts_at(data, pos, A::wire(m.0, e), B::wire(m.1, e) + C::wire(
                            m.2,
                            e,
                        ));
                        assert(parses_at::<A>(data, pos, e, m.0));
                        assert(m.0 == a.model());
                        A::lemma_size(m.0, e);
                        lemma_parts_at(data, pos1, B::wire(m.1, e), C::wire(m.2, e));
                    }
                }
                match B::read_from(r) {
                    Ok(b) => {
                        let ghost pos2 = r.pos as int;
                        proof {
                            B::lemma_size(b.model(), e);
                            assert forall|m: (A::Model, B::Model, C::Model)|
                                <(A, B, C) as WireFormat>::wire_ok(m) && parses_at::<(A, B, C)>(
                                    data,
                                    pos,
                                    e,
                                    m,
                                ) implies parses_at::<C>(data, pos2, e, m.2) && C::wire_ok(
                                m.2,
                            ) by {
                                assert(A::wire(m.0, e) + B::wire(m.1, e) + C::wire(m.2, e)
                                    =~= A::wire(m.0, e) + (B::wire(m.1, e) + C::wire(m.2, e)));
                                lemma_parts_at(data, pos, A::wire(m.0, e), B::wire(m.1, e)
                                    + C::wire(m.2, e));
                                assert(parses_at::<A>(data, pos, e, m.0));
                                assert(m.0 == a.model());
                                A::lemma_size(m.0, e);
                                lemma_parts_at(data, pos1, B::wire(m.1, e), C::wire(m.2, e));
                                assert(parses_at::<B>(data, pos1, e, m.1));
                                assert(m.1 == b.model());
                                B::lemma_size(m.1, e);
                            }
                        }
                        match C::read_from(r) {
                            Ok(c) => {
                                proof {
                                    C::lemma_size(c.model(), e);
                                    assert(data.subrange(pos, r.pos as int) =~= data.subrange(
                                        pos,
                                        pos1,
                                    ) + data.subrange(pos1, pos2) + data.subrange(
                                        pos2,
                                        r.pos as int,
                                    ));
                                    assert forall|m: (A::Model, B::Model, C::Model)|
                                        <(A, B, C) as WireFormat>::wire_ok(m) && parses_at::<(
                                            A,
                                            B,
                                            C,
                                        )>(data, pos, e, m) implies m.0 == a.model() && m.1
                                        == b.model() && m.2 == c.model() by {
                                        assert(A::wire(m.0, e) + B::wire(m.1, e) + C::wire(m.2, e)
                                            =~= A::wire(m.0, e) + (B::wire(m.1, e) + C::wire(
                                            m.2,
                                            e,
                                        )));
                                        lemma_parts_at(data, pos, A::wire(m.0, e), B::wire(m.1, e)
                                            + C::wire(m.2, e));
                                        assert(parses_at::<A>(data, pos, e, m.0));
                                        A::lemma_size(m.0, e);
                                        lemma_parts_at(data, pos1, B::wire(m.1, e), C::wire(
                                            m.2,
                                            e,
                                        ));
                                        assert(parses_at::<B>(data, pos1, e, m.1));
                                        assert(parses_at::<C>(data, pos2, e, m.2));
                                    }
                                }
                                Ok((a, b, c))
                            },
                            Err(err) => {
                                proof {
                                    assert forall|m: (A::Model, B::Model, C::Model)|
                                        <(A, B, C) as WireFormat>::wire_ok(m) && parses_at::<(
                                            A,
                                            B,
                                            C,
                                        )>(data, pos, e, m) implies false by {
                                        assert(parses_at::<C>(data, pos2, e, m.2));
                                    }
                                }
                                Err(err)
                            },
                        }
                    },
                    Err(err) => {
                        proof {
                            assert forall|m: (A::Model, B::Model, C::Model)|
                                <(A, B, C) as WireFormat>::wire_ok(m) && parses_at::<(A, B, C)>(
                                    data,
                                    pos,
                                    e,
                                    m,
                                ) implies false by {
                                assert(parses_at::<B>(data, pos1, e, m.1));
                            }
                        }
                        Err(err)
                    },
                }
            },
            Err(err) => {
                proof {
                    assert forall|m: (A::Model, B::Model, C::Model)|
                        <(A, B, C) as WireFormat>::wire_ok(m) && parses_at::<(A, B, C)>(
                            data,
                            pos,
                            e,
                            m,
                        ) implies false by {
                        assert(A::wire(m.0, e) + B::wire(m.1, e) + C::wire(m.2, e) =~= A::wire(
                            m.0,
                            e,
                        ) + (B::wire(m.1, e) + C::wire(m.2, e)));
                        lemma_parts_at(data, pos, A::wire(m.0, e), B::wire(m.1, e) + C::wire(
                            m.2,
                            e,
                        ));
                        assert(parses_at::<A>(data, pos, e, m.0));
                    }
                }
                Err(err)
            },
        }
    }
}

} // verus!
