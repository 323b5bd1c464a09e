use vstd::prelude::*;

use crate::endian::Endianness;

verus! {

/// 256 raised to `n`: the number of values an `n`-byte scalar can take.
pub open spec fn pow256(n: nat) -> nat
    decreases n,
{
    if n == 0 {
        1
    } else {
        256 * pow256((n - 1) as nat)
    }
}

pub proof fn lemma_pow256_values()
    ensures
        pow256(0) == 1,
        pow256(1) == 0x100,
        pow256(2) == 0x1_0000,
        pow256(4) == 0x1_0000_0000,
        pow256(7) == 0x100_0000_0000_0000,
        pow256(8) == 0x1_0000_0000_0000_0000,
{
    reveal_with_fuel(pow256, 9);
}

pub proof fn lemma_pow256_mono(a: nat, b: nat)
    requires
        a <= b,
    ensures
        pow256(a) <= pow256(b),
    decreases b,
{
    if a < b {
        lemma_pow256_mono(a, (b - 1) as nat);
        assert(pow256(b) == 256 * pow256((b - 1) as nat));
        assert(pow256((b - 1) as nat) <= 256 * pow256((b - 1) as nat)) by (nonlinear_arith)
            requires
                pow256((b - 1) as nat) >= 0,
        ;
    }
}

/// The value `v` laid out in `n` bytes, least significant byte first.
/// Only the low `n` bytes of `v` are represented.
pub open spec fn le_bytes(v: nat, n: nat) -> Seq<u8>
    decreases n,
{
    if n == 0 {
        Seq::empty()
    } else {
        seq![(v % 256) as u8] + le_bytes(v / 256, (n - 1) as nat)
    }
}

/// The value `v` laid out in `n` bytes, most significant byte first.
pub open spec fn be_bytes(v: nat, n: nat) -> Seq<u8>
    decreases n,
{
    if n == 0 {
        Seq::empty()
    } else {
        be_bytes(v / 256, (n - 1) as nat) + seq![(v % 256) as u8]
    }
}

/// The bytes of an `n`-byte unsigned scalar of value `v` under byte order `e`.
pub open spec fn scalar_bytes(v: nat, n: nat, e: Endianness) -> Seq<u8> {
    match e {
        Endianness::LittleEndian => le_bytes(v, n),
        Endianness::BigEndian => be_bytes(v, n),
    }
}

/// A one-byte scalar lays out as its single byte under either order.
pub proof fn lemma_scalar_bytes_one(v: nat, e: Endianness)
    requires
        v < 256,
    ensures
        scalar_bytes(v, 1, e) == seq![v as u8],
{
    reveal_with_fuel(le_bytes, 2);
    reveal_with_fuel(be_bytes, 2);
    assert(le_bytes(v, 1) =~= seq![v as u8]);
    assert(be_bytes(v, 1) =~= seq![v as u8]);
}

/// The unsigned value read off bytes laid out least significant first.
pub open spec fn le_val(s: Seq<u8>) -> nat
    decreases s.len(),
{
    if s.len() == 0 {
        0
    } else {
        (s[0] + 256 * le_val(s.drop_first())) as nat
    }
}

/// The unsigned value read off bytes laid out most significant first.
pub open spec fn be_val(s: Seq<u8>) -> nat
    decreases s.len(),
{
    if s.len() == 0 {
        0
    } else {
        (s.last() + 256 * be_val(s.drop_last())) as nat
    }
}

/// The unsigned value read off `n` scalar bytes under byte order `e`.
pub open spec fn scalar_val(s: Seq<u8>, e: Endianness) -> nat {
    match e {
        Endianness::LittleEndian => le_val(s),
        Endianness::BigEndian => be_val(s),
    }
}

/// The two's-complement image of a signed value in a domain of `m` values.
pub open spec fn twos(v: int, m: nat) -> nat {
    if v >= 0 {
        v as nat
    } else {
        (v + m) as nat
    }
}

pub proof fn lemma_le_bytes_len(v: nat, n: nat)
    ensures
        le_bytes(v, n).len() == n,
    decreases n,
{
    if n > 0 {
        lemma_le_bytes_len(v / 256, (n - 1) as nat);
    }
}

pub proof fn lemma_be_bytes_len(v: nat, n: nat)
    ensures
        be_bytes(v, n).len() == n,
    decreases n,
{
    if n > 0 {
        lemma_be_bytes_len(v / 256, (n - 1) as nat);
    }
}

pub proof fn lemma_scalar_bytes_len(v: nat, n: nat, e: Endianness)
    ensures
        scalar_bytes(v, n, e).len() == n,
{
    lemma_le_bytes_len(v, n);
    lemma_be_bytes_len(v, n);
}

/// Reading back the little-endian layout of a representable value recovers it.
pub proof fn lemma_le_val_of_bytes(v: nat, n: nat)
    requires
        v < pow256(n),
    ensures
        le_val(le_bytes(v, n)) == v,
    decreases n,
{
    if n == 0 {
    } else {
        let rest = le_bytes(v / 256, (n - 1) as nat);
        assert((seq![(v % 256) as u8] + rest).drop_first() =~= rest);
        assert(pow256(n) == 256 * pow256((n - 1) as nat));
        assert(v / 256 < pow256((n - 1) as nat)) by (nonlinear_arith)
            requires
                v < 256 * pow256((n - 1) as nat),
        ;
        lemma_le_val_of_bytes(v / 256, (n - 1) as nat);
    }
}

/// Reading back the big-endian layout of a representable value recovers it.
pub proof fn lemma_be_val_of_bytes(v: nat, n: nat)
    requires
        v < pow256(n),
    ensures
        be_val(be_bytes(v, n)) == v,
    decreases n,
{
    if n == 0 {
    } else {
        let rest = be_bytes(v / 256, (n - 1) as nat);
        lemma_be_bytes_len(v / 256, (n - 1) as nat);
        assert((rest + seq![(v % 256) as u8]).drop_last() =~= rest);
        assert((rest + seq![(v % 256) as u8]).last() == (v % 256) as u8);
        assert(pow256(n) == 256 * pow256((n - 1) as nat));
        assert(v / 256 < pow256((n - 1) as nat)) by (nonlinear_arith)
            requires
                v < 256 * pow256((n - 1) as nat),
        ;
        lemma_be_val_of_bytes(v / 256, (n - 1) as nat);
    }
}

/// Any byte sequence is the little-endian layout of the value read off it.
pub proof fn lemma_le_bytes_of_val(s: Seq<u8>)
    ensures
        le_val(s) < pow256(s.len()),
        le_bytes(le_val(s), s.len()) == s,
    decreases s.len(),
{
    if s.len() == 0 {
        assert(le_bytes(le_val(s), 0) =~= s);
    } else {
        lemma_le_bytes_of_val(s.drop_first());
        let b0 = s[0] as nat;
        let r = le_val(s.drop_first());
        assert(pow256(s.len()) == 256 * pow256((s.len() - 1) as nat));
        assert(b0 + 256 * r < 256 * pow256((s.len() - 1) as nat)) by (nonlinear_arith)
            requires
                b0 < 256,
                r < pow256((s.len() - 1) as nat),
        ;
        assert((b0 + 256 * r) % 256 == b0) by (nonlinear_arith)
            requires
                b0 < 256,
                r >= 0,
        ;
        assert((b0 + 256 * r) / 256 == r) by (nonlinear_arith)
            requires
                b0 < 256,
                r >= 0,
        ;
        assert(le_bytes(le_val(s), s.len()) =~= s);
    }
}

/// Any byte sequence is the big-endian layout of the value read off it.
pub proof fn lemma_be_bytes_of_val(s: Seq<u8>)
    ensures
        be_val(s) < pow256(s.len()),
        be_bytes(be_val(s), s.len()) == s,
    decreases s.len(),
{
    if s.len() == 0 {
        assert(be_bytes(be_val(s), 0) =~= s);
    } else {
        lemma_be_bytes_of_val(s.drop_last());
        let b0 = s.last() as nat;
        let r = be_val(s.drop_last());
        assert(pow256(s.len()) == 256 * pow256((s.len() - 1) as nat));
        assert(b0 + 256 * r < 256 * pow256((s.len() - 1) as nat)) by (nonlinear_arith)
            requires
                b0 < 256,
                r < pow256((s.len() - 1) as nat),
        ;
        assert((b0 + 256 * r) % 256 == b0) by (nonlinear_arith)
            requires
                b0 < 256,
                r >= 0,
        ;
        assert((b0 + 256 * r) / 256 == r) by (nonlinear_arith)
            requires
                b0 < 256,
                r >= 0,
        ;
        assert(be_bytes(be_val(s), s.len()) =~= s);
    }
}

pub proof fn lemma_scalar_val_of_bytes(v: nat, n: nat, e: Endianness)
    requires
        v < pow256(n),
    ensures
        scalar_val(scalar_bytes(v, n, e), e) == v,
{
    lemma_le_val_of_bytes(v, n);
    lemma_be_val_of_bytes(v, n);
}

pub proof fn lemma_scalar_bytes_of_val(s: Seq<u8>, e: Endianness)
    ensures
        scalar_val(s, e) < pow256(s.len()),
        scalar_bytes(scalar_val(s, e), s.len(), e) == s,
{
    lemma_le_bytes_of_val(s);
    lemma_be_bytes_of_val(s);
}

/// No two representable values share a scalar layout.
pub proof fn lemma_scalar_bytes_inj(a: nat, b: nat, n: nat, e: Endianness)
    requires
        a < pow256(n),
        b < pow256(n),
        scalar_bytes(a, n, e) == scalar_bytes(b, n, e),
    ensures
        a == b,
{
    lemma_scalar_val_of_bytes(a, n, e);
    lemma_scalar_val_of_bytes(b, n, e);
}

/// The capability pair every wire-encodable type carries: a mathematical model
/// of the value, and the exact byte layout of that model under each byte order.
pub trait WireFormat {
    /// The mathematical value this datum stands for.
    type Model;

    /// The model of this value.
    spec fn model(&self) -> Self::Model;

    /// The exact bytes of model `m` on the wire under byte order `e`.
    spec fn wire(m: Self::Model, e: Endianness) -> Seq<u8>;

    /// Whether model `m` can be framed: every length prefix fits four bytes and
    /// the whole encoding is addressable.
    spec fn wire_ok(m: Self::Model) -> bool;

    /// The exact number of wire bytes of model `m`, the same under either order.
    spec fn size(m: Self::Model) -> nat;

    /// For the closed set of fixed-width primitive scalars, the element width
    /// that makes bulk treatment of sequences legal; `None` for all others.
    spec fn primitive_width() -> Option<nat>;

    proof fn lemma_size(m: Self::Model, e: Endianness)
        ensures
            Self::wire(m, e).len() == Self::size(m),
    ;

    proof fn lemma_size_fits(m: Self::Model)
        requires
            Self::wire_ok(m),
        ensures
            Self::size(m) <= usize::MAX,
    ;

    proof fn lemma_primitive(m: Self::Model)
        ensures
            Self::primitive_width() matches Some(w) ==> Self::size(m) == w && Self::wire_ok(m),
    ;
}

/// The models of the elements of a sequence of values.
pub open spec fn seq_model<T: WireFormat>(s: Seq<T>) -> Seq<T::Model> {
    Seq::new(s.len(), |i: int| s[i].model())
}

/// The back-to-back encodings of the element models `ms`, with no padding and
/// no per-element framing.
pub open spec fn wire_seq<T: WireFormat>(ms: Seq<T::Model>, e: Endianness) -> Seq<u8>
    decreases ms.len(),
{
    if ms.len() == 0 {
        Seq::empty()
    } else {
        T::wire(ms[0], e) + wire_seq::<T>(ms.drop_first(), e)
    }
}

/// The total number of wire bytes of the element models `ms`.
pub open spec fn size_seq<T: WireFormat>(ms: Seq<T::Model>) -> nat
    decreases ms.len(),
{
    if ms.len() == 0 {
        0
    } else {
        T::size(ms[0]) + size_seq::<T>(ms.drop_first())
    }
}

pub open spec fn wire_ok_seq<T: WireFormat>(ms: Seq<T::Model>) -> bool {
    forall|i: int| 0 <= i < ms.len() ==> T::wire_ok(#[trigger] ms[i])
}

pub proof fn lemma_wire_seq_push<T: WireFormat>(ms: Seq<T::Model>, m: T::Model, e: Endianness)
    ensures
        wire_seq::<T>(ms.push(m), e) == wire_seq::<T>(ms, e) + T::wire(m, e),
    decreases ms.len(),
{
    let p = ms.push(m);
    assert(p.len() == ms.len() + 1);
    if ms.len() == 0 {
        assert(p.drop_first() =~= Seq::<T::Model>::empty());
        assert(p[0] == m);
        assert(wire_seq::<T>(p, e) == T::wire(m, e) + wire_seq::<T>(Seq::<T::Model>::empty(), e));
        assert(T::wire(m, e) + Seq::<u8>::empty() =~= T::wire(m, e));
        assert(Seq::<u8>::empty() + T::wire(m, e) =~= T::wire(m, e));
    } else {
        assert(p.drop_first() =~= ms.drop_first().push(m));
        assert(p[0] == ms[0]);
        lemma_wire_seq_push::<T>(ms.drop_first(), m, e);
        assert(wire_seq::<T>(p, e) == T::wire(ms[0], e) + (wire_seq::<T>(ms.drop_first(), e)
            + T::wire(m, e)));
        assert(T::wire(ms[0], e) + (wire_seq::<T>(ms.drop_first(), e) + T::wire(m, e)) =~= (T::wire(
            ms[0],
            e,
        ) + wire_seq::<T>(ms.drop_first(), e)) + T::wire(m, e));
    }
}

pub proof fn lemma_size_seq_push<T: WireFormat>(ms: Seq<T::Model>, m: T::Model)
    ensures
        size_seq::<T>(ms.push(m)) == size_seq::<T>(ms) + T::size(m),
    decreases ms.len(),
{
    let p = ms.push(m);
    assert(p.len() == ms.len() + 1);
    if ms.len() == 0 {
        assert(p.drop_first() =~= Seq::<T::Model>::empty());
        assert(p[0] == m);
        assert(size_seq::<T>(p) == T::size(m) + size_seq::<T>(Seq::<T::Model>::empty()));
    } else {
        assert(p.drop_first() =~= ms.drop_first().push(m));
        assert(p[0] == ms[0]);
        lemma_size_seq_push::<T>(ms.drop_first(), m);
    }
}

pub proof fn lemma_wire_seq_len<T: WireFormat>(ms: Seq<T::Model>, e: Endianness)
    ensures
        wire_seq::<T>(ms, e).len() == size_seq::<T>(ms),
    decreases ms.len(),
{
    if ms.len() > 0 {
        T::lemma_size(ms[0], e);
        lemma_wire_seq_len::<T>(ms.drop_first(), e);
    }
}

/// Splitting a sequence splits its encoding at the matching byte offset.
pub proof fn lemma_wire_seq_split<T: WireFormat>(ms: Seq<T::Model>, k: int, e: Endianness)
    requires
        0 <= k <= ms.len(),
    ensures
        wire_seq::<T>(ms, e) == wire_seq::<T>(ms.subrange(0, k), e) + wire_seq::<T>(
            ms.subrange(k, ms.len() as int),
            e,
        ),
    decreases k,
{
    if k == 0 {
        assert(ms.subrange(0, 0) =~= Seq::<T::Model>::empty());
        assert(ms.subrange(0, ms.len() as int) =~= ms);
        assert(wire_seq::<T>(ms, e) =~= wire_seq::<T>(ms.subrange(0, 0), e) + wire_seq::<T>(
            ms.subrange(0, ms.len() as int),
            e,
        ));
    } else {
        let head = ms.subrange(0, k);
        let tail = ms.subrange(k, ms.len() as int);
        assert(ms.drop_first() =~= ms.subrange(1, ms.len() as int));
        lemma_wire_seq_split::<T>(ms.drop_first(), k - 1, e);
        assert(ms.drop_first().subrange(0, k - 1) =~= head.drop_first());
        assert(ms.drop_first().subrange(k - 1, ms.drop_first().len() as int) =~= tail);
        assert(head[0] == ms[0]);
        assert(wire_seq::<T>(ms, e) =~= wire_seq::<T>(head, e) + wire_seq::<T>(tail, e));
    }
}

pub proof fn lemma_size_seq_split<T: WireFormat>(ms: Seq<T::Model>, k: int)
    requires
        0 <= k <= ms.len(),
    ensures
        size_seq::<T>(ms) == size_seq::<T>(ms.subrange(0, k)) + size_seq::<T>(
            ms.subrange(k, ms.len() as int),
        ),
    decreases k,
{
    if k == 0 {
        assert(ms.subrange(0, 0) =~= Seq::<T::Model>::empty());
        assert(ms.subrange(0, ms.len() as int) =~= ms);
    } else {
        let head = ms.subrange(0, k);
        let tail = ms.subrange(k, ms.len() as int);
        assert(ms.drop_first() =~= ms.subrange(1, ms.len() as int));
        lemma_size_seq_split::<T>(ms.drop_first(), k - 1);
        assert(ms.drop_first().subrange(0, k - 1) =~= head.drop_first());
        assert(ms.drop_first().subrange(k - 1, ms.drop_first().len() as int) =~= tail);
        assert(head[0] == ms[0]);
    }
}

/// For a fixed-width primitive element type, the total size is count times width.
pub proof fn lemma_size_seq_fixed<T: WireFormat>(ms: Seq<T::Model>, w: nat)
    requires
        T::primitive_width() == Some(w),
    ensures
        size_seq::<T>(ms) == ms.len() * w,
    decreases ms.len(),
{
    if ms.len() == 0 {
        assert(0 * w == 0) by (nonlinear_arith);
    } else {
        T::lemma_primitive(ms[0]);
        lemma_size_seq_fixed::<T>(ms.drop_first(), w);
        assert(w + (ms.len() - 1) * w == ms.len() * w) by (nonlinear_arith);
    }
}

/// The bytes of model `m` stand at position `pos` in `data`.
pub open spec fn parses_at<T: WireFormat>(data: Seq<u8>, pos: int, e: Endianness, m: T::Model) -> bool {
    &&& 0 <= pos
    &&& pos + T::wire(m, e).len() <= data.len()
    &&& data.subrange(pos, pos + T::wire(m, e).len()) == T::wire(m, e)
}

} // verus!
