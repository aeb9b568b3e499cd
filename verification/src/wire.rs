//! The protocol-buffer wire encoding (LEB128 varints, tags, length-delimited
//! and fixed-width fields), and the laws that the reader in [`crate::proto`]
//! gives back what was encoded.
use vstd::prelude::*;

use crate::proto::{fields_from, proto_walk, varint_at, varint_end, varint_shift, varint_value, FieldVal};

verus! {

/// The minimal LEB128 encoding of `v`: seven bits per byte, low group first,
/// the high bit set on every byte but the last.
pub open spec fn leb128(v: u64) -> Seq<u8>
    decreases v,
{
    if v < 128 {
        seq![v as u8]
    } else {
        proof {
            assert((v >> 7u64) < v) by (bit_vector)
                requires
                    v >= 128,
            ;
        }
        seq![((v & 0x7f) | 0x80) as u8] + leb128(v >> 7u64)
    }
}

/// `128` to the power `k`.
pub open spec fn pow128(k: nat) -> int
    decreases k,
{
    if k == 0 {
        1
    } else {
        128 * pow128((k - 1) as nat)
    }
}

/// The powers of 128 that bound ten-byte and nine-byte encodings.
proof fn lemma_pow128_values()
    ensures
        pow128(9) == 0x8000_0000_0000_0000,
        pow128(10) == 1180591620717411303424,
{
    assert(pow128(0) == 1);
    assert(pow128(1) == 128);
    assert(pow128(2) == 16384);
    assert(pow128(3) == 2097152);
    assert(pow128(4) == 268435456);
    assert(pow128(5) == 34359738368);
    assert(pow128(6) == 4398046511104);
    assert(pow128(7) == 562949953421312);
    assert(pow128(8) == 72057594037927936);
    assert(pow128(9) == 9223372036854775808);
    assert(pow128(10) == 1180591620717411303424);
}

proof fn lemma_shift_or(x: u64, y: u64, c: u64, s: u64) by (bit_vector)
    requires
        s <= 56,
    ensures
        (x | (y << 7u64)) | (c << (s + 7) as u64) == x | ((y | (c << s)) << 7u64),
{
}

/// Reading a byte in front of a (short enough) varint: its seven low bits,
/// then the rest shifted up by seven.
proof fn lemma_value_cons(b: u8, rest: Seq<u8>)
    requires
        rest.len() <= 9,
    ensures
        varint_value(seq![b] + rest) == ((b & 0x7f) as u64) | (varint_value(rest) << 7u64),
    decreases rest.len(),
{
    let x = (b & 0x7f) as u64;
    if rest.len() == 0 {
        assert(seq![b] + rest =~= seq![b]);
        assert(seq![b].drop_last() =~= Seq::<u8>::empty());
        assert(varint_shift(0) == 0u32);
        assert(varint_value(Seq::<u8>::empty()) == 0);
        assert(rest =~= Seq::<u8>::empty());
        assert(varint_value(seq![b]) == 0u64 | (x << (0u32 % 64)));
        assert((0u64 | (x << (0u32 % 64))) == x | (0u64 << 7u64)) by (bit_vector);
    } else {
        let r0 = rest.drop_last();
        let k = rest.len() - 1;
        let c = (rest.last() & 0x7f) as u64;
        lemma_value_cons(b, r0);
        assert((seq![b] + rest).drop_last() =~= seq![b] + r0);
        assert((seq![b] + rest).last() == rest.last());
        let sh0 = varint_shift(k);
        let sh1 = varint_shift(k + 1);
        assert(sh0 == (7 * k) as u32 && sh0 <= 56);
        assert(sh1 == (7 * k + 7) as u32 && sh1 == sh0 + 7);
        let s = sh0 as u64;
        let vr0 = varint_value(r0);
        lemma_shift_or(x, vr0, c, s);
        assert(varint_value(rest) == vr0 | (c << (sh0 % 64)));
        assert(varint_value(seq![b] + rest) == varint_value(seq![b] + r0) | (c << (sh1 % 64)));
        assert(c << (sh1 % 64) == c << (s + 7) as u64 && c << (sh0 % 64) == c << s) by (bit_vector)
            requires
                sh0 <= 56,
                sh1 == sh0 + 7,
                s == sh0 as u64,
        ;
    }
}

/// An encoding of a value below `128^k` takes at most `k` bytes.
proof fn lemma_leb_len(v: u64, k: nat)
    requires
        1 <= k,
        v < pow128(k),
    ensures
        1 <= leb128(v).len() <= k,
    decreases v,
{
    if v >= 128 {
        assert((v >> 7u64) == v / 128) by (bit_vector);
        assert((v >> 7u64) < v) by (bit_vector)
            requires
                v >= 128,
        ;
        assert(pow128(k) == 128 * pow128((k - 1) as nat));
        if k == 1 {
            assert(pow128(0) == 1);
        } else {
            lemma_leb_len(v >> 7u64, (k - 1) as nat);
        }
    }
}

/// Every `u64` encodes in one to ten bytes.
pub proof fn lemma_leb_len_u64(v: u64)
    ensures
        1 <= leb128(v).len() <= 10,
{
    lemma_pow128_values();
    lemma_leb_len(v, 10);
}

/// The bytes of an encoding read back as its value.
proof fn lemma_leb_value(v: u64)
    ensures
        varint_value(leb128(v)) == v,
    decreases v,
{
    if v < 128 {
        lemma_value_cons(v as u8, Seq::empty());
        assert(seq![v as u8] + Seq::<u8>::empty() =~= seq![v as u8]);
        assert(varint_value(Seq::<u8>::empty()) == 0);
        assert((((v as u8) & 0x7f) as u64) | (0u64 << 7u64) == v) by (bit_vector)
            requires
                v < 128,
        ;
    } else {
        let w = v >> 7u64;
        assert(w < v) by (bit_vector)
            requires
                v >= 128,
                w == v >> 7u64,
        ;
        assert(w == v / 128) by (bit_vector)
            requires
                w == v >> 7u64,
        ;
        lemma_pow128_values();
        lemma_leb_len(w, 9);
        lemma_leb_value(w);
        let b = ((v & 0x7f) | 0x80) as u8;
        lemma_value_cons(b, leb128(w));
        assert(((b & 0x7f) as u64) | (w << 7u64) == v) by (bit_vector)
            requires
                b == ((v & 0x7f) | 0x80) as u8,
                w == v >> 7u64,
        ;
    }
}

/// Where the encoding of `v` stands at `i`, the varint read there ends just
/// after it and has the value `v`.
pub proof fn lemma_leb_at(buf: Seq<u8>, i: int, v: u64)
    requires
        0 <= i,
        i + leb128(v).len() <= buf.len(),
        buf.subrange(i, i + leb128(v).len()) == leb128(v),
    ensures
        varint_end(buf, i) == i + leb128(v).len(),
        varint_at(buf, i) == v,
    decreases v,
{
    let n = leb128(v).len();
    assert(buf[i] == leb128(v)[0]);
    if v < 128 {
        assert(((v as u8) & 0x80) == 0) by (bit_vector)
            requires
                v < 128,
        ;
    } else {
        let w = v >> 7u64;
        assert(w < v) by (bit_vector)
            requires
                v >= 128,
                w == v >> 7u64,
        ;
        let b = ((v & 0x7f) | 0x80) as u8;
        assert((b & 0x80) != 0) by (bit_vector)
            requires
                b == ((v & 0x7f) | 0x80) as u8,
        ;
        assert(buf.subrange(i + 1, i + 1 + leb128(w).len()) =~= leb128(w)) by {
            assert forall|j: int| 0 <= j < leb128(w).len() implies buf.subrange(i + 1, i + 1 + leb128(w).len())[j]
                == leb128(w)[j] by {
                assert(buf.subrange(i, i + n)[j + 1] == leb128(v)[j + 1]);
            }
        }
        lemma_leb_at(buf, i + 1, w);
    }
    lemma_leb_value(v);
}

/// Reading a varint at the end of any prefix `p`, where the minimal LEB128
/// encoding of `v` follows (and anything after it), gives `v` and the index
/// just past the encoding, which is one to ten bytes long.
pub proof fn law_read_varint_leb128(p: Seq<u8>, v: u64, s: Seq<u8>)
    ensures
        1 <= leb128(v).len() <= 10,
        varint_end(p + leb128(v) + s, p.len() as int) == p.len() + leb128(v).len(),
        varint_at(p + leb128(v) + s, p.len() as int) == v,
{
    lemma_leb_len_u64(v);
    let buf = p + leb128(v) + s;
    assert(buf.subrange(p.len() as int, p.len() + leb128(v).len() as int) =~= leb128(v));
    lemma_leb_at(buf, p.len() as int, v);
}

/// One entry of an encoded message: a field that the reader keeps, or a
/// fixed-width field (8 or 4 bytes) that it skips.
pub enum WireItem {
    Field(u32, FieldVal),
    Fixed64(u32, Seq<u8>),
    Fixed32(u32, Seq<u8>),
}

/// The tag of field `n` with wire type `wt`: `n << 3 | wt`.
pub open spec fn tag_of(n: u32, wt: u64) -> u64 {
    ((n as u64) << 3u64) | wt
}

/// The bytes of one entry: its tag, then a varint, a length and the bytes,
/// or the fixed-width bytes.
pub open spec fn enc_item(it: WireItem) -> Seq<u8> {
    match it {
        WireItem::Field(n, FieldVal::V(x)) => leb128(tag_of(n, 0)) + leb128(x),
        WireItem::Field(n, FieldVal::B(b)) => leb128(tag_of(n, 2)) + leb128(b.len() as u64) + b,
        WireItem::Fixed64(n, d) => leb128(tag_of(n, 1)) + d,
        WireItem::Fixed32(n, d) => leb128(tag_of(n, 5)) + d,
    }
}

/// The bytes of a message made of these entries, in order.
pub open spec fn enc_items(items: Seq<WireItem>) -> Seq<u8>
    decreases items.len(),
{
    if items.len() == 0 {
        Seq::empty()
    } else {
        enc_item(items[0]) + enc_items(items.drop_first())
    }
}

/// A fixed-width entry holds exactly its width in bytes.
pub open spec fn item_ok(it: WireItem) -> bool {
    match it {
        WireItem::Field(_, _) => true,
        WireItem::Fixed64(_, d) => d.len() == 8,
        WireItem::Fixed32(_, d) => d.len() == 4,
    }
}

/// The fields that the entries hold, fixed-width entries left out.
pub open spec fn fields_of(items: Seq<WireItem>) -> Seq<(u32, FieldVal)>
    decreases items.len(),
{
    if items.len() == 0 {
        Seq::empty()
    } else {
        let rest = fields_of(items.drop_first());
        match items[0] {
            WireItem::Field(n, v) => seq![(n, v)] + rest,
            _ => rest,
        }
    }
}

proof fn lemma_tag(n: u32, wt: u64)
    requires
        wt < 8,
    ensures
        (tag_of(n, wt) >> 3u64) as u32 == n,
        tag_of(n, wt) & 7u64 == wt,
{
    assert((((n as u64) << 3u64) | wt) >> 3u64 == n as u64 && (((n as u64) << 3u64) | wt) & 7u64 == wt) by (bit_vector)
        requires
            wt < 8,
    ;
}

/// Splits the tail of `buf` from `i`, which is `a + z`, into `a` and `z`.
proof fn lemma_split(buf: Seq<u8>, i: int, a: Seq<u8>, z: Seq<u8>)
    requires
        0 <= i <= buf.len(),
        buf.subrange(i, buf.len() as int) == a + z,
    ensures
        i + a.len() + z.len() == buf.len(),
        buf.subrange(i, i + a.len()) == a,
        buf.subrange(i + a.len(), buf.len() as int) == z,
{
    let tail = buf.subrange(i, buf.len() as int);
    assert(tail.len() == (a + z).len());
    assert(i + a.len() <= buf.len());
    assert forall|j: int| 0 <= j < a.len() implies buf.subrange(i, i + a.len())[j] == a[j] by {
        assert(tail[j] == (a + z)[j]);
        assert(tail[j] == buf[i + j]);
        assert(buf.subrange(i, i + a.len())[j] == buf[i + j]);
    }
    assert forall|j: int| 0 <= j < z.len() implies buf.subrange(i + a.len(), buf.len() as int)[j] == z[j] by {
        assert(tail[a.len() + j] == (a + z)[a.len() + j]);
        assert(tail[a.len() + j] == buf[i + a.len() + j]);
        assert(buf.subrange(i + a.len(), buf.len() as int)[j] == buf[i + a.len() + j]);
    }
    assert(buf.subrange(i, i + a.len()) =~= a);
    assert(buf.subrange(i + a.len(), buf.len() as int) =~= z);
}

proof fn lemma_walk(buf: Seq<u8>, i: int, items: Seq<WireItem>)
    requires
        0 <= i <= buf.len(),
        buf.len() <= usize::MAX,
        buf.subrange(i, buf.len() as int) == enc_items(items),
        forall|k: int| 0 <= k < items.len() ==> item_ok(#[trigger] items[k]),
    ensures
        fields_from(buf, i) == Some(fields_of(items)),
    decreases items.len(),
{
    if items.len() == 0 {
        assert(buf.subrange(i, buf.len() as int).len() == 0);
    } else {
        let it = items[0];
        let rest = items.drop_first();
        assert forall|k: int| 0 <= k < rest.len() implies item_ok(#[trigger] rest[k]) by {
            assert(rest[k] == items[k + 1]);
        }
        assert(item_ok(items[0]));
        let e_rest = enc_items(rest);
        match it {
            WireItem::Field(n, FieldVal::V(x)) => {
                let t = tag_of(n, 0);
                lemma_tag(n, 0);
                lemma_leb_len_u64(t);
                lemma_leb_len_u64(x);
                assert(enc_items(items) =~= leb128(t) + (leb128(x) + e_rest));
                lemma_split(buf, i, leb128(t), leb128(x) + e_rest);
                let te = i + leb128(t).len();
                lemma_leb_at(buf, i, t);
                lemma_split(buf, te, leb128(x), e_rest);
                lemma_leb_at(buf, te, x);
                let ve = te + leb128(x).len();
                lemma_walk(buf, ve, rest);
            },
            WireItem::Field(n, FieldVal::B(b)) => {
                let t = tag_of(n, 2);
                let l = b.len() as u64;
                lemma_tag(n, 2);
                lemma_leb_len_u64(t);
                lemma_leb_len_u64(l);
                assert(enc_items(items) =~= leb128(t) + (leb128(l) + (b + e_rest)));
                lemma_split(buf, i, leb128(t), leb128(l) + (b + e_rest));
                let te = i + leb128(t).len();
                lemma_leb_at(buf, i, t);
                lemma_split(buf, te, leb128(l), b + e_rest);
                lemma_leb_at(buf, te, l);
                let le = te + leb128(l).len();
                lemma_split(buf, le, b, e_rest);
                assert(l == b.len());
                assert((varint_at(buf, te) as usize) as int == b.len());
                let end = le + b.len();
                lemma_walk(buf, end, rest);
            },
            WireItem::Fixed64(n, d) => {
                let t = tag_of(n, 1);
                lemma_tag(n, 1);
                lemma_leb_len_u64(t);
                assert(enc_items(items) =~= leb128(t) + (d + e_rest));
                lemma_split(buf, i, leb128(t), d + e_rest);
                let te = i + leb128(t).len();
                lemma_leb_at(buf, i, t);
                lemma_split(buf, te, d, e_rest);
                lemma_walk(buf, te + 8, rest);
            },
            WireItem::Fixed32(n, d) => {
                let t = tag_of(n, 5);
                lemma_tag(n, 5);
                lemma_leb_len_u64(t);
                assert(enc_items(items) =~= leb128(t) + (d + e_rest));
                lemma_split(buf, i, leb128(t), d + e_rest);
                let te = i + leb128(t).len();
                lemma_leb_at(buf, i, t);
                lemma_split(buf, te, d, e_rest);
                lemma_walk(buf, te + 4, rest);
            },
        }
    }
}

/// Reading the field list of an encoded message gives back its fields, in
/// order and with their values, and skips every complete fixed-width field
/// wherever it stands (a message no longer than `usize::MAX` bytes).
pub proof fn law_proto_fields_decode_encoding(items: Seq<WireItem>)
    requires
        forall|k: int| 0 <= k < items.len() ==> item_ok(#[trigger] items[k]),
        enc_items(items).len() <= usize::MAX,
    ensures
        proto_walk(enc_items(items)) == Some(fields_of(items)),
{
    let buf = enc_items(items);
    assert(buf.subrange(0, buf.len() as int) =~= buf);
    lemma_walk(buf, 0, items);
}

} // verus!
