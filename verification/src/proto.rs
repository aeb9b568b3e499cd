//! A minimal protocol-buffer wire reader: varints and the top-level field list
//! of a message, plus lookups of the first field with a given number.
use vstd::prelude::*;
use vstd::slice::slice_to_vec;
use vstd::wrapping::u32_specs;
use vstd::wrapping::u64_specs;

use crate::text::utf8_string;
use vstd::utf8::*;

verus! {

/// The value of one field on the wire: a varint, or a length-delimited run of bytes.
pub enum F {
    V(u64),
    B(Vec<u8>),
}

/// The mathematical value of an [`F`].
pub enum FieldVal {
    V(u64),
    B(Seq<u8>),
}

impl View for F {
    type V = FieldVal;

    open spec fn view(&self) -> FieldVal {
        match self {
            F::V(v) => FieldVal::V(*v),
            F::B(b) => FieldVal::B(b@),
        }
    }
}

/// The view of a decoded field list.
pub open spec fn fields_view(s: Seq<(u32, F)>) -> Seq<(u32, FieldVal)> {
    s.map_values(|p: (u32, F)| (p.0, p.1@))
}

/// Index just past the varint that starts at `i`: the byte after the first byte
/// at or after `i` whose high bit is clear, or the end of the buffer.
pub open spec fn varint_end(buf: Seq<u8>, i: int) -> int
    decreases buf.len() - i,
{
    if i >= buf.len() {
        i
    } else if buf[i] & 0x80 == 0 {
        i + 1
    } else {
        varint_end(buf, i + 1)
    }
}

/// The shift applied to the `k`-th byte of a varint: `7 * k` kept in a `u32`
/// that wraps, as the running shift counter does.
pub open spec fn varint_shift(k: int) -> u32 {
    ((7 * k) % 0x1_0000_0000) as u32
}

/// The value of a varint whose bytes are `bytes`: the low seven bits of each
/// byte, shifted left by its position times seven (the shift taken modulo 64,
/// bits shifted past the top dropped), or-ed together.
pub open spec fn varint_value(bytes: Seq<u8>) -> u64
    decreases bytes.len(),
{
    if bytes.len() == 0 {
        0
    } else {
        varint_value(bytes.drop_last()) | u64_specs::wrapping_shl(
            (bytes.last() & 0x7f) as u64,
            varint_shift(bytes.len() - 1),
        )
    }
}

/// The value of the varint that starts at `i` (0 when `i` is past the end).
pub open spec fn varint_at(buf: Seq<u8>, i: int) -> u64 {
    if 0 <= i < buf.len() {
        varint_value(buf.subrange(i, varint_end(buf, i)))
    } else {
        0
    }
}

pub proof fn lemma_varint_end(buf: Seq<u8>, i: int)
    requires
        0 <= i,
    ensures
        i < buf.len() ==> i < varint_end(buf, i) <= buf.len(),
        i >= buf.len() ==> varint_end(buf, i) == i,
    decreases buf.len() - i,
{
    if i < buf.len() && buf[i] & 0x80 != 0 {
        lemma_varint_end(buf, i + 1);
    }
}

/// Reads the varint that starts at `i`; returns its value and the index after it.
pub fn read_varint(buf: &[u8], i: usize) -> (r: (u64, usize))
    ensures
        r.1 == varint_end(buf@, i as int),
        r.0 == varint_at(buf@, i as int),
{
    if i >= buf.len() {
        return (0, i);
    }
    let ghost start = i as int;
    let mut v: u64 = 0;
    let mut s: u32 = 0;
    let mut i = i;
    let mut done = false;
    proof {
        lemma_varint_end(buf@, start);
        assert(buf@.subrange(start, start) =~= Seq::<u8>::empty());
    }
    while i < buf.len() && !done
        invariant
            0 <= start <= i <= buf.len(),
            start < buf.len(),
            s == varint_shift(i - start),
            v == varint_value(buf@.subrange(start, i as int)),
            done ==> i == varint_end(buf@, start),
            !done ==> varint_end(buf@, start) == varint_end(buf@, i as int),
        decreases buf.len() - i,
    {
        let b = buf[i];
        let ghost k = i - start;
        proof {
            assert(buf@.subrange(start, i + 1).drop_last() =~= buf@.subrange(start, i as int));
            assert(buf@.subrange(start, i + 1).last() == b);
        }
        i = i + 1;
        v = v | ((b & 0x7f) as u64).wrapping_shl(s);
        if b & 0x80 == 0 {
            done = true;
        }
        s = s.wrapping_add(7);
        proof {
            assert(s == varint_shift(k + 1)) by {
                assert((7 * k) % 0x1_0000_0000 + 7 < 0x2_0000_0000);
                assert(((7 * k) % 0x1_0000_0000 + 7) % 0x1_0000_0000 == (7 * (k + 1)) % 0x1_0000_0000) by (nonlinear_arith);
            }
        }
    }
    (v, i)
}

/// The fields of a message, read from index `i` on. `None` when the walk meets
/// a length-delimited field whose end, offset plus declared length, is past
/// `usize::MAX`: the slice it would take is then out of order.
pub open spec fn fields_from(buf: Seq<u8>, i: int) -> Option<Seq<(u32, FieldVal)>>
    decreases buf.len() - i,
{
    if i < 0 || i >= buf.len() {
        Some(Seq::empty())
    } else {
        let te = varint_end(buf, i);
        let tag = varint_at(buf, i);
        let f = (tag >> 3u64) as u32;
        let wt = tag & 7u64;
        proof {
            lemma_varint_end(buf, i);
            lemma_varint_end(buf, te);
        }
        if wt == 0 {
            let ve = varint_end(buf, te);
            match fields_from(buf, ve) {
                Some(rest) => Some(seq![(f, FieldVal::V(varint_at(buf, te)))] + rest),
                None => None,
            }
        } else if wt == 2 {
            let le = varint_end(buf, te);
            let len = (varint_at(buf, te) as usize) as int;
            if le + len > usize::MAX {
                None
            } else {
                let end = if le + len < buf.len() { le + len } else { buf.len() as int };
                match fields_from(buf, end) {
                    Some(rest) => Some(seq![(f, FieldVal::B(buf.subrange(le, end)))] + rest),
                    None => None,
                }
            }
        } else if wt == 1 {
            if te + 8 > buf.len() {
                Some(Seq::empty())
            } else {
                fields_from(buf, te + 8)
            }
        } else if wt == 5 {
            if te + 4 > buf.len() {
                Some(Seq::empty())
            } else {
                fields_from(buf, te + 4)
            }
        } else {
            Some(Seq::empty())
        }
    }
}

/// The fields of the message `buf`, in wire order. Fields of wire types 1 and 5
/// are skipped; an unknown wire type, or a fixed-width field cut short, ends the
/// list; a length-delimited field is cut at the end of the buffer.
pub open spec fn proto_walk(buf: Seq<u8>) -> Option<Seq<(u32, FieldVal)>> {
    fields_from(buf, 0)
}

proof fn lemma_fields_view_push(s: Seq<(u32, F)>, x: (u32, F))
    ensures
        fields_view(s.push(x)) == fields_view(s).push((x.0, x.1@)),
{
    assert(fields_view(s.push(x)) =~= fields_view(s).push((x.0, x.1@)));
}

/// Walks the message: its fields, or `None` exactly when [`proto_walk`] is
/// `None`. A caller tests with it what [`proto_fields`] requires.
pub fn walk_fields(buf: &[u8]) -> (r: Option<Vec<(u32, F)>>)
    ensures
        r is None <==> proto_walk(buf@) is None,
        r matches Some(v) ==> fields_view(v@) == proto_walk(buf@).unwrap(),
{
    let mut out: Vec<(u32, F)> = Vec::new();
    let mut i: usize = 0;
    proof {
        assert(fields_view(out@) =~= Seq::<(u32, FieldVal)>::empty());
    }
    while i < buf.len()
        invariant
            i <= buf.len(),
            proto_walk(buf@) == (match fields_from(buf@, i as int) {
                Some(rest) => Some(fields_view(out@) + rest),
                None => None::<Seq<(u32, FieldVal)>>,
            }),
        decreases buf.len() - i,
    {
        let ghost gi = i as int;
        let (tag, ni) = read_varint(buf, i);
        proof {
            lemma_varint_end(buf@, gi);
            lemma_varint_end(buf@, ni as int);
        }
        i = ni;
        let f = (tag >> 3) as u32;
        let wt = tag & 7;
        if wt == 0 {
            let (v, n2) = read_varint(buf, i);
            i = n2;
            let ghost old_out = out@;
            out.push((f, F::V(v)));
            proof {
                lemma_fields_view_push(old_out, (f, F::V(v)));
                match fields_from(buf@, i as int) {
                    Some(rest) => {
                        assert(fields_view(out@) + rest =~= fields_view(old_out) + (seq![(f, FieldVal::V(v))] + rest));
                    },
                    None => {},
                }
            }
        } else if wt == 2 {
            let (len, n2) = read_varint(buf, i);
            i = n2;
            let l = len as usize;
            if l > usize::MAX - i {
                return None;
            }
            let sum = i + l;
            let end = if sum < buf.len() { sum } else { buf.len() };
            let bytes = slice_to_vec(&buf[i..end]);
            let ghost old_out = out@;
            proof {
                assert(bytes@ == buf@.subrange(i as int, end as int));
            }
            out.push((f, F::B(bytes)));
            proof {
                lemma_fields_view_push(old_out, (f, F::B(bytes)));
                match fields_from(buf@, end as int) {
                    Some(rest) => {
                        assert(fields_view(out@) + rest =~= fields_view(old_out) + (seq![(f, FieldVal::B(buf@.subrange(i as int, end as int)))] + rest));
                    },
                    None => {},
                }
            }
            i = end;
        } else if wt == 1 {
            if 8 > buf.len() - i {
                proof {
                    assert(fields_view(out@) + Seq::<(u32, FieldVal)>::empty() =~= fields_view(out@));
                }
                return Some(out);
            }
            i = i + 8;
        } else if wt == 5 {
            if 4 > buf.len() - i {
                proof {
                    assert(fields_view(out@) + Seq::<(u32, FieldVal)>::empty() =~= fields_view(out@));
                }
                return Some(out);
            }
            i = i + 4;
        } else {
            proof {
                assert(fields_view(out@) + Seq::<(u32, FieldVal)>::empty() =~= fields_view(out@));
            }
            return Some(out);
        }
    }
    proof {
        assert(fields_view(out@) + Seq::<(u32, FieldVal)>::empty() =~= fields_view(out@));
    }
    Some(out)
}

/// The fields of a message, in wire order (see [`proto_walk`]).
pub fn proto_fields(buf: &[u8]) -> (out: Vec<(u32, F)>)
    requires
        proto_walk(buf@) is Some,
    ensures
        fields_view(out@) == proto_walk(buf@).unwrap(),
{
    match walk_fields(buf) {
        Some(v) => v,
        None => Vec::new(),
    }
}

/// The first varint field numbered `n` at or after position `i`.
pub open spec fn first_num_from(fs: Seq<(u32, FieldVal)>, n: u32, i: int) -> Option<u64>
    decreases fs.len() - i,
{
    if i < 0 || i >= fs.len() {
        None
    } else {
        match fs[i] {
            (x, FieldVal::V(v)) if x == n => Some(v),
            _ => first_num_from(fs, n, i + 1),
        }
    }
}

/// The first length-delimited field numbered `n` at or after position `i`.
pub open spec fn first_bytes_from(fs: Seq<(u32, FieldVal)>, n: u32, i: int) -> Option<Seq<u8>>
    decreases fs.len() - i,
{
    if i < 0 || i >= fs.len() {
        None
    } else {
        match fs[i] {
            (x, FieldVal::B(b)) if x == n => Some(b),
            _ => first_bytes_from(fs, n, i + 1),
        }
    }
}

/// The text of the first length-delimited field numbered `n`, at or after
/// position `i`, whose bytes are valid UTF-8.
pub open spec fn first_str_from(fs: Seq<(u32, FieldVal)>, n: u32, i: int) -> Option<Seq<char>>
    decreases fs.len() - i,
{
    if i < 0 || i >= fs.len() {
        None
    } else {
        match fs[i] {
            (x, FieldVal::B(b)) if x == n && valid_utf8(b) => Some(decode_utf8(b)),
            _ => first_str_from(fs, n, i + 1),
        }
    }
}

pub open spec fn first_num(fs: Seq<(u32, FieldVal)>, n: u32) -> Option<u64> {
    first_num_from(fs, n, 0)
}

pub open spec fn first_bytes(fs: Seq<(u32, FieldVal)>, n: u32) -> Option<Seq<u8>> {
    first_bytes_from(fs, n, 0)
}

pub open spec fn first_str(fs: Seq<(u32, FieldVal)>, n: u32) -> Option<Seq<char>> {
    first_str_from(fs, n, 0)
}

/// The value of the first varint field numbered `n`.
pub fn fnum(fs: &[(u32, F)], n: u32) -> (r: Option<u64>)
    ensures
        r == first_num(fields_view(fs@), n),
{
    let ghost s = fields_view(fs@);
    let mut i: usize = 0;
    while i < fs.len()
        invariant
            i <= fs.len(),
            s == fields_view(fs@),
            first_num(s, n) == first_num_from(s, n, i as int),
        decreases fs.len() - i,
    {
        let (x, v) = &fs[i];
        assert(s[i as int] == (*x, v@));
        match v {
            F::V(val) => {
                if *x == n {
                    return Some(*val);
                }
            },
            F::B(_) => {},
        }
        i = i + 1;
    }
    None
}

/// Position of the first length-delimited field numbered `n`.
pub(crate) fn find_bytes(fs: &[(u32, F)], n: u32) -> (r: Option<usize>)
    ensures
        r is None <==> first_bytes(fields_view(fs@), n) is None,
        r matches Some(k) ==> (k < fs.len() && (fs@[k as int].1 matches F::B(b) && first_bytes(
            fields_view(fs@),
            n,
        ) == Some(b@))),
{
    let ghost s = fields_view(fs@);
    let mut i: usize = 0;
    while i < fs.len()
        invariant
            i <= fs.len(),
            s == fields_view(fs@),
            first_bytes(s, n) == first_bytes_from(s, n, i as int),
        decreases fs.len() - i,
    {
        let (x, v) = &fs[i];
        assert(s[i as int] == (*x, v@));
        match v {
            F::B(_) => {
                if *x == n {
                    return Some(i);
                }
            },
            F::V(_) => {},
        }
        i = i + 1;
    }
    None
}

/// Whether the sub-message in the first length-delimited field numbered `n`,
/// if there is one, can be walked (see [`proto_walk`]).
pub open spec fn sub_walks(fs: Seq<(u32, FieldVal)>, n: u32) -> bool {
    first_bytes(fs, n) matches Some(b) ==> proto_walk(b) is Some
}

/// The fields of the sub-message held in the first length-delimited field numbered `n`.
pub fn fsub(fs: &[(u32, F)], n: u32) -> (r: Option<Vec<(u32, F)>>)
    requires
        sub_walks(fields_view(fs@), n),
    ensures
        r is None <==> first_bytes(fields_view(fs@), n) is None,
        r matches Some(v) ==> fields_view(v@) == proto_walk(
            first_bytes(fields_view(fs@), n).unwrap(),
        ).unwrap(),
{
    match find_bytes(fs, n) {
        None => None,
        Some(k) => match &fs[k].1 {
            F::B(b) => Some(proto_fields(b.as_slice())),
            F::V(_) => None,
        },
    }
}

/// The text of the first length-delimited field numbered `n` that holds valid UTF-8.
pub fn fstr(fs: &[(u32, F)], n: u32) -> (r: Option<String>)
    ensures
        r is None <==> first_str(fields_view(fs@), n) is None,
        r matches Some(t) ==> first_str(fields_view(fs@), n) == Some(t@),
{
    let ghost s = fields_view(fs@);
    let mut i: usize = 0;
    while i < fs.len()
        invariant
            i <= fs.len(),
            s == fields_view(fs@),
            first_str(s, n) == first_str_from(s, n, i as int),
        decreases fs.len() - i,
    {
        let (x, v) = &fs[i];
        assert(s[i as int] == (*x, v@));
        match v {
            F::B(b) => {
                if *x == n {
                    if let Some(t) = utf8_string(b.clone()) {
                        return Some(t);
                    }
                }
            },
            F::V(_) => {},
        }
        i = i + 1;
    }
    None
}

} // verus!
