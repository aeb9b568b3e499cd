//! The quota snapshot that the Devin CLI caches on disk (`user_status.*.bin`):
//! which cache file to read, and how its protobuf payload becomes a quota.
use vstd::prelude::*;
use vstd::string::StringSliceAdditionalSpecFns;
use vstd::wrapping::u64_specs;

use crate::codec::{b64_standard_decode, b64_standard_decoded};
use crate::proto::{
    fields_view, find_bytes, first_bytes, first_num, first_str, fnum, fstr, proto_walk, sub_walks,
    walk_fields, F, FieldVal,
};
use crate::text::lex_le;

verus! {

/// The quota fields read from a cached user status.
pub struct CachedQuota {
    /// When the cache was written, in milliseconds.
    pub fetched_at: u64,
    pub user: String,
    pub email: String,
    pub plan: String,
    /// Plan period start and end, in milliseconds.
    pub plan_start: u64,
    pub plan_end: u64,
    /// Remaining daily and weekly quota in percent; -1 when absent.
    pub daily_remaining_pct: i64,
    pub weekly_remaining_pct: i64,
    /// When the daily and weekly quotas reset, in milliseconds.
    pub daily_reset_at: u64,
    pub weekly_reset_at: u64,
}

/// What a cached status payload yields.
pub enum QuotaPayload {
    Decoded(CachedQuota),
    /// The payload is not base64, or holds no plan status (field 13).
    Unreadable,
    /// A length-delimited field that the decoding walks declares an end past
    /// `usize::MAX`, where slicing it is out of order.
    LengthOverflow,
}

pub struct CachedQuotaView {
    pub fetched_at: u64,
    pub user: Seq<char>,
    pub email: Seq<char>,
    pub plan: Seq<char>,
    pub plan_start: u64,
    pub plan_end: u64,
    pub daily_remaining_pct: i64,
    pub weekly_remaining_pct: i64,
    pub daily_reset_at: u64,
    pub weekly_reset_at: u64,
}

pub enum QuotaPayloadView {
    Decoded(CachedQuotaView),
    Unreadable,
    LengthOverflow,
}

impl View for CachedQuota {
    type V = CachedQuotaView;

    open spec fn view(&self) -> CachedQuotaView {
        CachedQuotaView {
            fetched_at: self.fetched_at,
            user: self.user@,
            email: self.email@,
            plan: self.plan@,
            plan_start: self.plan_start,
            plan_end: self.plan_end,
            daily_remaining_pct: self.daily_remaining_pct,
            weekly_remaining_pct: self.weekly_remaining_pct,
            daily_reset_at: self.daily_reset_at,
            weekly_reset_at: self.weekly_reset_at,
        }
    }
}

impl View for QuotaPayload {
    type V = QuotaPayloadView;

    open spec fn view(&self) -> QuotaPayloadView {
        match self {
            QuotaPayload::Decoded(q) => QuotaPayloadView::Decoded(q@),
            QuotaPayload::Unreadable => QuotaPayloadView::Unreadable,
            QuotaPayload::LengthOverflow => QuotaPayloadView::LengthOverflow,
        }
    }
}

/// Seconds to milliseconds (the product wraps around modulo 2^64).
pub open spec fn secs_to_ms(s: u64) -> u64 {
    u64_specs::wrapping_mul(s, 1000)
}

/// Seconds become milliseconds by multiplying by 1000: exactly `s * 1000`
/// whenever that fits in a `u64`, and in every case that product modulo 2^64.
pub proof fn law_secs_to_ms(s: u64)
    ensures
        s <= u64::MAX / 1000 ==> secs_to_ms(s) == s * 1000,
        secs_to_ms(s) == (s * 1000) % 0x1_0000_0000_0000_0000,
{
    assert(s * 1000 >= 0) by (nonlinear_arith);
    if s <= u64::MAX / 1000 {
        assert(s * 1000 <= u64::MAX) by (nonlinear_arith)
            requires
                s <= u64::MAX / 1000,
        ;
    }
}

/// A percentage field: the varint reinterpreted as `i64`, or -1 when absent.
pub open spec fn pct_or_missing(v: Option<u64>) -> i64 {
    match v {
        Some(x) => x as i64,
        None => -1i64,
    }
}

/// The sub-message in the first length-delimited field numbered `n`.
pub open spec fn sub_message(fs: Seq<(u32, FieldVal)>, n: u32) -> Option<Seq<(u32, FieldVal)>> {
    match first_bytes(fs, n) {
        Some(b) => Some(proto_walk(b).unwrap()),
        None => None,
    }
}

/// A timestamp sub-message: its field 1 in seconds, as milliseconds (0 when absent).
pub open spec fn stamp_ms(m: Option<Seq<(u32, FieldVal)>>) -> u64 {
    let secs = match m {
        Some(x) => match first_num(x, 1) {
            Some(v) => v,
            None => 0,
        },
        None => 0,
    };
    secs_to_ms(secs)
}

pub open spec fn text_or_empty(t: Option<Seq<char>>) -> Seq<char> {
    match t {
        Some(s) => s,
        None => Seq::empty(),
    }
}

/// The quota that a decoded status payload holds: the user (field 3) and email
/// (field 7) of the top message; from its plan status (field 13) the plan name
/// (field 2 of plan info, field 1), the plan period (fields 2 and 3, each a
/// timestamp whose field 1 is seconds), the remaining daily and weekly percent
/// (fields 14, 15) and their reset times in seconds (fields 17, 18).
pub open spec fn quota_of_payload(fetched_at_secs: Option<u64>, payload: Seq<u8>) -> QuotaPayloadView {
    match proto_walk(payload) {
        None => QuotaPayloadView::LengthOverflow,
        Some(top) => match first_bytes(top, 13) {
            None => QuotaPayloadView::Unreadable,
            Some(psb) => match proto_walk(psb) {
                None => QuotaPayloadView::LengthOverflow,
                Some(ps) => if !(sub_walks(ps, 1) && sub_walks(ps, 2) && sub_walks(ps, 3)) {
                    QuotaPayloadView::LengthOverflow
                } else {
                    let plan_info = match sub_message(ps, 1) {
                        Some(p) => p,
                        None => Seq::empty(),
                    };
                    QuotaPayloadView::Decoded(
                        CachedQuotaView {
                            fetched_at: secs_to_ms(
                                match fetched_at_secs {
                                    Some(s) => s,
                                    None => 0,
                                },
                            ),
                            user: text_or_empty(first_str(top, 3)),
                            email: text_or_empty(first_str(top, 7)),
                            plan: text_or_empty(first_str(plan_info, 2)),
                            plan_start: stamp_ms(sub_message(ps, 2)),
                            plan_end: stamp_ms(sub_message(ps, 3)),
                            daily_remaining_pct: pct_or_missing(first_num(ps, 14)),
                            weekly_remaining_pct: pct_or_missing(first_num(ps, 15)),
                            daily_reset_at: secs_to_ms(
                                match first_num(ps, 17) {
                                    Some(v) => v,
                                    None => 0,
                                },
                            ),
                            weekly_reset_at: secs_to_ms(
                                match first_num(ps, 18) {
                                    Some(v) => v,
                                    None => 0,
                                },
                            ),
                        },
                    )
                },
            },
        },
    }
}

/// The value, or 0 when there is none.
pub open spec fn or_zero(v: Option<u64>) -> u64 {
    match v {
        Some(x) => x,
        None => 0,
    }
}

/// The seconds of a timestamp sub-message: its field 1.
pub open spec fn stamp_secs(m: Option<Seq<(u32, FieldVal)>>) -> Option<u64> {
    match m {
        Some(x) => first_num(x, 1),
        None => None,
    }
}

/// Every time in a decoded quota is its seconds times 1000 (modulo 2^64):
/// the cache time, the plan start and end (field 1 of fields 2 and 3 of the
/// plan status) and the daily and weekly resets (fields 17 and 18), each 0
/// seconds when absent.
pub proof fn law_quota_times_in_ms(fetched_at_secs: Option<u64>, payload: Seq<u8>)
    ensures
        quota_of_payload(fetched_at_secs, payload) matches QuotaPayloadView::Decoded(q) ==> {
            let ps = proto_walk(first_bytes(proto_walk(payload).unwrap(), 13).unwrap()).unwrap();
            &&& q.fetched_at == (or_zero(fetched_at_secs) * 1000) % 0x1_0000_0000_0000_0000
            &&& q.plan_start == (or_zero(stamp_secs(sub_message(ps, 2))) * 1000) % 0x1_0000_0000_0000_0000
            &&& q.plan_end == (or_zero(stamp_secs(sub_message(ps, 3))) * 1000) % 0x1_0000_0000_0000_0000
            &&& q.daily_reset_at == (or_zero(first_num(ps, 17)) * 1000) % 0x1_0000_0000_0000_0000
            &&& q.weekly_reset_at == (or_zero(first_num(ps, 18)) * 1000) % 0x1_0000_0000_0000_0000
        },
{
    if let QuotaPayloadView::Decoded(q) = quota_of_payload(fetched_at_secs, payload) {
        let ps = proto_walk(first_bytes(proto_walk(payload).unwrap(), 13).unwrap()).unwrap();
        law_secs_to_ms(or_zero(fetched_at_secs));
        law_secs_to_ms(or_zero(stamp_secs(sub_message(ps, 2))));
        law_secs_to_ms(or_zero(stamp_secs(sub_message(ps, 3))));
        law_secs_to_ms(or_zero(first_num(ps, 17)));
        law_secs_to_ms(or_zero(first_num(ps, 18)));
    }
}

/// The sub-message in field `n`, with `Err` where walking it would overflow.
fn sub_checked(fs: &Vec<(u32, F)>, n: u32) -> (r: Result<Option<Vec<(u32, F)>>, ()>)
    ensures
        r is Err <==> !sub_walks(fields_view(fs@), n),
        r matches Ok(o) ==> (match o {
            Some(v) => sub_message(fields_view(fs@), n) == Some(fields_view(v@)),
            None => sub_message(fields_view(fs@), n) is None,
        }),
{
    match find_bytes(fs.as_slice(), n) {
        None => Ok(None),
        Some(k) => match &fs[k].1 {
            F::B(b) => match walk_fields(b.as_slice()) {
                Some(v) => Ok(Some(v)),
                None => Err(()),
            },
            F::V(_) => Ok(None),
        },
    }
}

fn text_or_default(t: Option<String>) -> (r: String)
    ensures
        r@ == text_or_empty(match t {
            Some(s) => Some(s@),
            None => None,
        }),
{
    match t {
        Some(s) => s,
        None => String::new(),
    }
}

fn stamp(m: &Option<Vec<(u32, F)>>) -> (r: u64)
    ensures
        r == stamp_ms(match m {
            Some(v) => Some(fields_view(v@)),
            None => None,
        }),
{
    let secs = match m {
        Some(x) => match fnum(x.as_slice(), 1) {
            Some(v) => v,
            None => 0,
        },
        None => 0,
    };
    secs.wrapping_mul(1000)
}

/// Decodes the base64 payload of a cached user status; `fetched_at_secs` is the
/// cache's `fetched_at_secs` when that is an unsigned integer.
pub fn decode_quota(fetched_at_secs: Option<u64>, payload_b64: &str) -> (r: QuotaPayload)
    ensures
        r@ == (match b64_standard_decoded(payload_b64.spec_bytes()) {
            Some(p) => quota_of_payload(fetched_at_secs, p),
            None => QuotaPayloadView::Unreadable,
        }),
{
    match b64_standard_decode(payload_b64.as_bytes()) {
        Some(p) => quota_from_payload(fetched_at_secs, p.as_slice()),
        None => QuotaPayload::Unreadable,
    }
}

/// The quota in a decoded status payload (see [`quota_of_payload`]).
pub fn quota_from_payload(fetched_at_secs: Option<u64>, payload: &[u8]) -> (r: QuotaPayload)
    ensures
        r@ == quota_of_payload(fetched_at_secs, payload@),
{
    let top = match walk_fields(payload) {
        Some(t) => t,
        None => return QuotaPayload::LengthOverflow,
    };
    let ps = match find_bytes(top.as_slice(), 13) {
        None => return QuotaPayload::Unreadable,
        Some(k) => match &top[k].1 {
            F::B(b) => match walk_fields(b.as_slice()) {
                Some(v) => v,
                None => return QuotaPayload::LengthOverflow,
            },
            F::V(_) => return QuotaPayload::Unreadable,
        },
    };
    let plan_info = match sub_checked(&ps, 1) {
        Err(()) => return QuotaPayload::LengthOverflow,
        Ok(Some(v)) => v,
        Ok(None) => {
            let e: Vec<(u32, F)> = Vec::new();
            proof {
                assert(fields_view(e@) =~= Seq::<(u32, FieldVal)>::empty());
            }
            e
        },
    };
    let start = match sub_checked(&ps, 2) {
        Err(()) => return QuotaPayload::LengthOverflow,
        Ok(o) => o,
    };
    let end = match sub_checked(&ps, 3) {
        Err(()) => return QuotaPayload::LengthOverflow,
        Ok(o) => o,
    };
    let fetched = match fetched_at_secs {
        Some(s) => s,
        None => 0,
    };
    let daily = match fnum(ps.as_slice(), 14) {
        Some(v) => v as i64,
        None => -1,
    };
    let weekly = match fnum(ps.as_slice(), 15) {
        Some(v) => v as i64,
        None => -1,
    };
    let daily_reset = match fnum(ps.as_slice(), 17) {
        Some(v) => v,
        None => 0,
    };
    let weekly_reset = match fnum(ps.as_slice(), 18) {
        Some(v) => v,
        None => 0,
    };
    QuotaPayload::Decoded(
        CachedQuota {
            fetched_at: fetched.wrapping_mul(1000),
            user: text_or_default(fstr(top.as_slice(), 3)),
            email: text_or_default(fstr(top.as_slice(), 7)),
            plan: text_or_default(fstr(plan_info.as_slice(), 2)),
            plan_start: stamp(&start),
            plan_end: stamp(&end),
            daily_remaining_pct: daily,
            weekly_remaining_pct: weekly,
            daily_reset_at: daily_reset.wrapping_mul(1000),
            weekly_reset_at: weekly_reset.wrapping_mul(1000),
        },
    )
}

/// Whether a directory entry is a cached user status: `user_status.*.bin`.
pub open spec fn is_status_file(name: Seq<u8>) -> bool {
    &&& name.len() >= 12
    &&& name.take(12) == seq![117u8, 115, 101, 114, 95, 115, 116, 97, 116, 117, 115, 46]
    &&& name.len() >= 4
    &&& name.skip(name.len() - 4) == seq![46u8, 98, 105, 110]
}

fn has_prefix(name: &Vec<u8>, prefix: &[u8]) -> (r: bool)
    ensures
        r == (name@.len() >= prefix@.len() && name@.take(prefix@.len() as int) == prefix@),
{
    if name.len() < prefix.len() {
        return false;
    }
    let mut i: usize = 0;
    while i < prefix.len()
        invariant
            i <= prefix.len() <= name.len(),
            forall|j: int| 0 <= j < i ==> name@[j] == prefix@[j],
        decreases prefix.len() - i,
    {
        if name[i] != prefix[i] {
            assert(name@.take(prefix@.len() as int)[i as int] != prefix@[i as int]);
            return false;
        }
        i = i + 1;
    }
    assert(name@.take(prefix@.len() as int) =~= prefix@);
    true
}

fn has_suffix(name: &Vec<u8>, suffix: &[u8]) -> (r: bool)
    ensures
        r == (name@.len() >= suffix@.len() && name@.skip(name@.len() - suffix@.len()) == suffix@),
{
    if name.len() < suffix.len() {
        return false;
    }
    let off = name.len() - suffix.len();
    let mut i: usize = 0;
    while i < suffix.len()
        invariant
            i <= suffix.len() <= name.len(),
            off == name.len() - suffix.len(),
            forall|j: int| 0 <= j < i ==> name@[off + j] == suffix@[j],
        decreases suffix.len() - i,
    {
        if name[off + i] != suffix[i] {
            assert(name@.skip(off as int)[i as int] != suffix@[i as int]);
            return false;
        }
        i = i + 1;
    }
    assert(name@.skip(off as int) =~= suffix@);
    true
}

/// Whether `name` is a cached user status file name.
pub fn status_file_name(name: &Vec<u8>) -> (r: bool)
    ensures
        r == is_status_file(name@),
{
    let prefix: [u8; 12] = [117, 115, 101, 114, 95, 115, 116, 97, 116, 117, 115, 46];
    let suffix: [u8; 4] = [46, 98, 105, 110];
    let p = has_prefix(name, prefix.as_slice());
    let s = has_suffix(name, suffix.as_slice());
    proof {
        assert(prefix@ =~= seq![117u8, 115, 101, 114, 95, 115, 116, 97, 116, 117, 115, 46]);
        assert(suffix@ =~= seq![46u8, 98, 105, 110]);
    }
    p && s
}

/// Of the directory entries `names` (file names as bytes), the greatest
/// `user_status.*.bin` name in byte order, or `None` when there is none.
pub fn pick_status_file(names: &Vec<Vec<u8>>) -> (r: Option<Vec<u8>>)
    ensures
        r is None <==> (forall|j: int| 0 <= j < names@.len() ==> !is_status_file(#[trigger] names@[j]@)),
        r matches Some(m) ==> (exists|j: int| 0 <= j < names@.len() && names@[j]@ == m@) && is_status_file(m@)
            && (forall|j: int| 0 <= j < names@.len() && is_status_file(#[trigger] names@[j]@) ==> lex_le(names@[j]@, m@)),
{
    let mut best: Option<Vec<u8>> = None;
    let mut i: usize = 0;
    while i < names.len()
        invariant
            i <= names.len(),
            best is None <==> (forall|j: int| 0 <= j < i ==> !is_status_file(#[trigger] names@[j]@)),
            best matches Some(m) ==> (exists|j: int| 0 <= j < i && names@[j]@ == m@) && is_status_file(m@)
                && (forall|j: int| 0 <= j < i && is_status_file(#[trigger] names@[j]@) ==> lex_le(names@[j]@, m@)),
        decreases names.len() - i,
    {
        let name = &names[i];
        if status_file_name(name) {
            match &best {
                None => {
                    proof {
                        crate::text::lemma_lex_le_refl(name@);
                    }
                    best = Some(name.clone());
                },
                Some(m) => {
                    if crate::text::bytes_le(m.as_slice(), name.as_slice()) {
                        proof {
                            assert forall|j: int| 0 <= j < i + 1 && is_status_file(#[trigger] names@[j]@) implies lex_le(names@[j]@, name@) by {
                                if j < i {
                                    crate::text::lemma_lex_le_trans(names@[j]@, m@, name@);
                                } else {
                                    crate::text::lemma_lex_le_refl(name@);
                                }
                            }
                        }
                        best = Some(name.clone());
                    } else {
                        proof {
                            crate::text::lemma_lex_le_total(m@, name@);
                        }
                    }
                },
            }
        }
        i = i + 1;
    }
    best
}

} // verus!

verus! {

/// Whether every character is an ASCII digit.
pub open spec fn all_digits(cs: Seq<char>) -> bool {
    forall|i: int| 0 <= i < cs.len() ==> '0' <= #[trigger] cs[i] <= '9'
}

/// The number that a string of ASCII digits denotes.
pub open spec fn digits_value(cs: Seq<char>) -> nat
    decreases cs.len(),
{
    if cs.len() == 0 {
        0
    } else {
        digits_value(cs.drop_last()) * 10 + ((cs.last() as int) - 48) as nat
    }
}

/// `str::parse::<u64>`: an optional `+`, then one or more ASCII digits whose
/// value fits in a `u64`.
pub open spec fn parsed_u64(cs: Seq<char>) -> Option<u64> {
    let ds = if cs.len() > 0 && cs[0] == '+' {
        cs.drop_first()
    } else {
        cs
    };
    if ds.len() > 0 && all_digits(ds) && digits_value(ds) <= u64::MAX {
        Some(digits_value(ds) as u64)
    } else {
        None
    }
}

/// Parses an unsigned decimal (see [`parsed_u64`]).
pub fn parse_u64(s: &str) -> (r: Option<u64>)
    ensures
        r == parsed_u64(s@),
{
    let n = s.unicode_len();
    let mut i: usize = 0;
    if n > 0 && s.get_char(0) == '+' {
        i = 1;
    }
    let start = i;
    let ghost ds = if n > 0 && s@[0] == '+' { s@.drop_first() } else { s@ };
    proof {
        assert(ds =~= s@.subrange(start as int, n as int));
    }
    if start >= n {
        return None;
    }
    let mut v: u64 = 0;
    let mut overflow = false;
    while i < n
        invariant
            start <= i <= n,
            n == s@.len(),
            ds == s@.subrange(start as int, n as int),
            ds == (if s@.len() > 0 && s@[0] == '+' { s@.drop_first() } else { s@ }),
            all_digits(s@.subrange(start as int, i as int)),
            !overflow ==> v == digits_value(s@.subrange(start as int, i as int)),
            overflow ==> digits_value(s@.subrange(start as int, i as int)) > u64::MAX,
        decreases n - i,
    {
        let c = s.get_char(i);
        if !('0' <= c && c <= '9') {
            proof {
                assert(ds[i - start] == c);
            }
            return None;
        }
        let d = (c as u32 - 48) as u64;
        let ghost prev = s@.subrange(start as int, i as int);
        let ghost next = s@.subrange(start as int, i + 1);
        proof {
            assert(next.drop_last() =~= prev);
            assert(next.last() == c);
            assert(digits_value(next) == digits_value(prev) * 10 + d);
            assert(all_digits(next));
        }
        if !overflow {
            match v.checked_mul(10) {
                Some(t) => match t.checked_add(d) {
                    Some(u) => {
                        v = u;
                    },
                    None => {
                        overflow = true;
                    },
                },
                None => {
                    overflow = true;
                    proof {
                        assert(digits_value(prev) * 10 + d >= digits_value(prev) * 10);
                    }
                },
            }
        } else {
            proof {
                assert(digits_value(prev) * 10 + d >= digits_value(prev)) by (nonlinear_arith)
                    requires
                        digits_value(prev) >= 0,
                        d >= 0,
                ;
            }
        }
        i = i + 1;
    }
    proof {
        assert(s@.subrange(start as int, n as int) == ds);
    }
    if overflow {
        None
    } else {
        Some(v)
    }
}

/// A count in the status JSON: a number, or a string of digits (protobuf-JSON
/// writes 64-bit numbers as strings).
pub struct JsonCount {
    /// The value when it is an unsigned integer.
    pub number: Option<u64>,
    /// The value when it is a string.
    pub text: Option<String>,
}

pub open spec fn count_value(c: JsonCount) -> u64 {
    match c.number {
        Some(n) => n,
        None => match c.text {
            Some(t) => match parsed_u64(t@) {
                Some(v) => v,
                None => 0,
            },
            None => 0,
        },
    }
}

/// The value of a count: the number, else the parsed string, else 0.
pub fn json_count(c: &JsonCount) -> (r: u64)
    ensures
        r == count_value(*c),
{
    match c.number {
        Some(n) => n,
        None => match &c.text {
            Some(t) => match parse_u64(t.as_str()) {
                Some(v) => v,
                None => 0,
            },
            None => 0,
        },
    }
}

/// The `planStatus` object of a live status, as plain values.
pub struct PlanStatusJson {
    pub plan_name: Option<String>,
    pub plan_start: Option<String>,
    pub plan_end: Option<String>,
    pub daily_remaining_pct: JsonCount,
    pub weekly_remaining_pct: JsonCount,
    pub daily_reset_at: JsonCount,
    pub weekly_reset_at: JsonCount,
}

/// A quota read live from the server.
pub struct LiveQuota {
    pub fetched_at: i64,
    pub user: String,
    pub email: String,
    pub plan: String,
    pub plan_start: i64,
    pub plan_end: i64,
    pub daily_remaining_pct: i64,
    pub weekly_remaining_pct: i64,
    pub daily_reset_at: i64,
    pub weekly_reset_at: i64,
}

/// An RFC 3339 time in milliseconds, 0 when it does not parse (a missing
/// time is parsed as the empty text).
pub open spec fn time_ms(t: Option<String>) -> i64 {
    let text = match t {
        Some(s) => s@,
        None => ""@,
    };
    match crate::codec::rfc3339_millis(text) {
        Some(v) => v,
        None => 0,
    }
}

pub open spec fn text_of(t: Option<String>) -> Seq<char> {
    match t {
        Some(s) => s@,
        None => Seq::empty(),
    }
}

fn time_ms_exec(t: &Option<String>) -> (r: i64)
    ensures
        r == time_ms(*t),
        t is None ==> r == 0,
{
    let parsed = match t {
        Some(s) => crate::codec::parse_rfc3339_millis(s.as_str()),
        None => {
            proof {
                reveal_strlit("");
                assert(vstd::utf8::encode_utf8(""@) =~= Seq::<u8>::empty());
            }
            crate::codec::parse_rfc3339_millis("")
        },
    };
    match parsed {
        Some(v) => v,
        None => 0,
    }
}

fn text_of_exec(t: &Option<String>) -> (r: String)
    ensures
        r@ == text_of(*t),
{
    match t {
        Some(s) => s.clone(),
        None => String::new(),
    }
}

/// The live quota from a plan status: the plan name, the plan period, the
/// remaining percentages and the reset times (seconds to milliseconds, with
/// products that wrap around as two's-complement `i64` values).
pub fn live_quota(ps: &PlanStatusJson, user: &Option<String>, email: &Option<String>, fetched_at: i64) -> (r: LiveQuota)
    ensures
        r.fetched_at == fetched_at,
        r.user@ == text_of(*user),
        r.email@ == text_of(*email),
        r.plan@ == text_of(ps.plan_name),
        r.plan_start == time_ms(ps.plan_start),
        r.plan_end == time_ms(ps.plan_end),
        ps.plan_start is None ==> r.plan_start == 0,
        ps.plan_end is None ==> r.plan_end == 0,
        r.daily_remaining_pct == count_value(ps.daily_remaining_pct) as i64,
        r.weekly_remaining_pct == count_value(ps.weekly_remaining_pct) as i64,
        r.daily_reset_at == vstd::wrapping::i64_specs::wrapping_mul(count_value(ps.daily_reset_at) as i64, 1000),
        r.weekly_reset_at == vstd::wrapping::i64_specs::wrapping_mul(count_value(ps.weekly_reset_at) as i64, 1000),
{
    LiveQuota {
        fetched_at,
        user: text_of_exec(user),
        email: text_of_exec(email),
        plan: text_of_exec(&ps.plan_name),
        plan_start: time_ms_exec(&ps.plan_start),
        plan_end: time_ms_exec(&ps.plan_end),
        daily_remaining_pct: json_count(&ps.daily_remaining_pct) as i64,
        weekly_remaining_pct: json_count(&ps.weekly_remaining_pct) as i64,
        daily_reset_at: (json_count(&ps.daily_reset_at) as i64).wrapping_mul(1000),
        weekly_reset_at: (json_count(&ps.weekly_reset_at) as i64).wrapping_mul(1000),
    }
}

} // verus!
