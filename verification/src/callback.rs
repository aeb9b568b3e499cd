//! The loopback listener's decision on one browser request: which path was
//! asked for, and whether it carries the expected state and a code.
use vstd::prelude::*;
use vstd::utf8::*;

use crate::text::push_char;

verus! {

/// Whether `c` has the Unicode `White_Space` property (PropList.txt), which
/// `char::is_whitespace` decides: U+0009 to U+000D, U+0020, U+0085, U+00A0,
/// U+1680, U+2000 to U+200A, U+2028, U+2029, U+202F, U+205F and U+3000.
pub open spec fn white_space(c: char) -> bool {
    let u = c as u32;
    ||| 0x09 <= u <= 0x0d
    ||| u == 0x20
    ||| u == 0x85
    ||| u == 0xa0
    ||| u == 0x1680
    ||| 0x2000 <= u <= 0x200a
    ||| u == 0x2028
    ||| u == 0x2029
    ||| u == 0x202f
    ||| u == 0x205f
    ||| u == 0x3000
}

/// What `String::from_utf8_lossy` gives for these bytes: invalid sequences
/// become U+FFFD.
pub uninterp spec fn utf8_lossy(bytes: Seq<u8>) -> Seq<char>;

/// `char::is_whitespace`. Claims that the result is the Unicode `White_Space`
/// property that its documentation names, as [`white_space`] lists it.
#[verifier::external_body]
fn is_white_space(c: char) -> (r: bool)
    ensures
        r == white_space(c),
{
    c.is_whitespace()
}

/// `String::from_utf8_lossy`, as characters. Claims that the result is the one
/// named by [`utf8_lossy`], and that valid UTF-8 decodes as it is (std's
/// documentation: valid input is returned without changes).
#[verifier::external_body]
fn lossy_chars(bytes: &[u8]) -> (r: Vec<char>)
    ensures
        r@ == utf8_lossy(bytes@),
        valid_utf8(bytes@) ==> r@ == decode_utf8(bytes@),
{
    String::from_utf8_lossy(bytes).chars().collect()
}

/// First index at or after `i` that holds `c`, or the length.
pub open spec fn find_from(s: Seq<char>, c: char, i: int) -> int
    decreases s.len() - i,
{
    if i >= s.len() {
        s.len() as int
    } else if s[i] == c {
        i
    } else {
        find_from(s, c, i + 1)
    }
}

/// First index at or after `i` that is not white space, or the length.
pub open spec fn skip_ws(s: Seq<char>, i: int) -> int
    decreases s.len() - i,
{
    if i >= s.len() {
        s.len() as int
    } else if !white_space(s[i]) {
        i
    } else {
        skip_ws(s, i + 1)
    }
}

/// First index at or after `i` that is white space, or the length.
pub open spec fn run_end(s: Seq<char>, i: int) -> int
    decreases s.len() - i,
{
    if i >= s.len() {
        s.len() as int
    } else if white_space(s[i]) {
        i
    } else {
        run_end(s, i + 1)
    }
}

pub proof fn lemma_find_from(s: Seq<char>, c: char, i: int)
    requires
        0 <= i <= s.len(),
    ensures
        i <= find_from(s, c, i) <= s.len(),
        find_from(s, c, i) < s.len() ==> s[find_from(s, c, i)] == c,
    decreases s.len() - i,
{
    if i < s.len() && s[i] != c {
        lemma_find_from(s, c, i + 1);
    }
}

pub proof fn lemma_skip_ws(s: Seq<char>, i: int)
    requires
        0 <= i <= s.len(),
    ensures
        i <= skip_ws(s, i) <= s.len(),
    decreases s.len() - i,
{
    if i < s.len() && white_space(s[i]) {
        lemma_skip_ws(s, i + 1);
    }
}

pub proof fn lemma_run_end(s: Seq<char>, i: int)
    requires
        0 <= i <= s.len(),
    ensures
        i <= run_end(s, i) <= s.len(),
    decreases s.len() - i,
{
    if i < s.len() && !white_space(s[i]) {
        lemma_run_end(s, i + 1);
    }
}

/// The first line, as `str::lines` gives it: up to the first line feed, less
/// a carriage return just before it; the whole text when there is no line feed.
pub open spec fn first_line(req: Seq<char>) -> Seq<char> {
    let n = find_from(req, '\n', 0);
    if n < req.len() {
        let l = req.take(n);
        if l.len() > 0 && l.last() == '\r' {
            l.drop_last()
        } else {
            l
        }
    } else {
        req
    }
}

/// The second white-space-separated word (the request target), or empty.
pub open spec fn second_word(line: Seq<char>) -> Seq<char> {
    let a = skip_ws(line, 0);
    let b = run_end(line, a);
    let c = skip_ws(line, b);
    let d = run_end(line, c);
    line.subrange(c, d)
}

pub open spec fn callback_prefix() -> Seq<char> {
    seq!['/', 'c', 'a', 'l', 'l', 'b', 'a', 'c', 'k']
}

pub open spec fn code_key() -> Seq<char> {
    seq!['c', 'o', 'd', 'e']
}

pub open spec fn state_key() -> Seq<char> {
    seq!['s', 't', 'a', 't', 'e']
}

/// The query: the text between the first `?` and the next `?` (or the end);
/// empty when there is no `?`.
pub open spec fn query_of(path: Seq<char>) -> Seq<char> {
    let q = find_from(path, '?', 0);
    if q >= path.len() {
        Seq::empty()
    } else {
        path.subrange(q + 1, find_from(path, '?', q + 1))
    }
}

/// The value of one `key=value` piece when its key (up to the first `=`) is `key`.
pub open spec fn piece_value(piece: Seq<char>, key: Seq<char>) -> Option<Seq<char>> {
    let e = find_from(piece, '=', 0);
    if e < piece.len() && piece.take(e) == key {
        Some(piece.skip(e + 1))
    } else {
        None
    }
}

/// The value of the last `&`-separated piece, from position `i` on, whose key is `key`.
pub open spec fn param_from(q: Seq<char>, key: Seq<char>, i: int) -> Option<Seq<char>>
    decreases q.len() - i,
{
    if i < 0 || i > q.len() {
        None
    } else {
        let pe = find_from(q, '&', i);
        proof {
            lemma_find_from(q, '&', i);
        }
        let own = piece_value(q.subrange(i, pe), key);
        if pe < q.len() {
            match param_from(q, key, pe + 1) {
                Some(v) => Some(v),
                None => own,
            }
        } else {
            own
        }
    }
}

/// How the listener answers one request.
pub enum CallbackReply {
    /// The path is not `/callback…`: answer 404 and keep listening.
    NotFound,
    /// The state matches and a code came: answer with the success page, keep
    /// the code and stop listening.
    Accepted(String),
    /// Answer with the failure page and keep listening.
    Rejected,
}

pub enum CallbackReplyView {
    NotFound,
    Accepted(Seq<char>),
    Rejected,
}

impl View for CallbackReply {
    type V = CallbackReplyView;

    open spec fn view(&self) -> CallbackReplyView {
        match self {
            CallbackReply::NotFound => CallbackReplyView::NotFound,
            CallbackReply::Accepted(c) => CallbackReplyView::Accepted(c@),
            CallbackReply::Rejected => CallbackReplyView::Rejected,
        }
    }
}

/// The answer to a request whose text is `req` when the sign-in's state is `state`.
pub open spec fn reply_to(req: Seq<char>, state: Seq<char>) -> CallbackReplyView {
    let path = second_word(first_line(req));
    if !(path.len() >= 9 && path.take(9) == callback_prefix()) {
        CallbackReplyView::NotFound
    } else {
        let q = query_of(path);
        match (param_from(q, state_key(), 0), param_from(q, code_key(), 0)) {
            (Some(s), Some(c)) if s == state => CallbackReplyView::Accepted(c),
            _ => CallbackReplyView::Rejected,
        }
    }
}

fn find_char(s: &Vec<char>, c: char, i: usize, end: usize) -> (r: usize)
    requires
        i <= end <= s@.len(),
    ensures
        r == find_from(s@.take(end as int), c, i as int),
{
    let ghost t = s@.take(end as int);
    let mut k = i;
    while k < end
        invariant
            i <= k <= end <= s@.len(),
            t == s@.take(end as int),
            find_from(t, c, i as int) == find_from(t, c, k as int),
        decreases end - k,
    {
        if s[k] == c {
            return k;
        }
        k = k + 1;
    }
    k
}

fn skip_white(s: &Vec<char>, i: usize, end: usize) -> (r: usize)
    requires
        i <= end <= s@.len(),
    ensures
        r == skip_ws(s@.take(end as int), i as int),
{
    let ghost t = s@.take(end as int);
    let mut k = i;
    while k < end
        invariant
            i <= k <= end <= s@.len(),
            t == s@.take(end as int),
            skip_ws(t, i as int) == skip_ws(t, k as int),
        decreases end - k,
    {
        if !is_white_space(s[k]) {
            return k;
        }
        k = k + 1;
    }
    k
}

fn word_end(s: &Vec<char>, i: usize, end: usize) -> (r: usize)
    requires
        i <= end <= s@.len(),
    ensures
        r == run_end(s@.take(end as int), i as int),
{
    let ghost t = s@.take(end as int);
    let mut k = i;
    while k < end
        invariant
            i <= k <= end <= s@.len(),
            t == s@.take(end as int),
            run_end(t, i as int) == run_end(t, k as int),
        decreases end - k,
    {
        if is_white_space(s[k]) {
            return k;
        }
        k = k + 1;
    }
    k
}

fn range_eq(s: &Vec<char>, a: usize, b: usize, lit: &[char]) -> (r: bool)
    requires
        a <= b <= s@.len(),
    ensures
        r == (s@.subrange(a as int, b as int) == lit@),
{
    if b - a != lit.len() {
        return false;
    }
    let mut k: usize = 0;
    while k < lit.len()
        invariant
            k <= lit@.len(),
            b - a == lit@.len(),
            a <= b <= s@.len(),
            forall|j: int| 0 <= j < k ==> s@[a + j] == lit@[j],
        decreases lit.len() - k,
    {
        if s[a + k] != lit[k] {
            assert(s@.subrange(a as int, b as int)[k as int] != lit@[k as int]);
            return false;
        }
        k = k + 1;
    }
    assert(s@.subrange(a as int, b as int) =~= lit@);
    true
}

fn copy_range(s: &Vec<char>, a: usize, b: usize) -> (r: String)
    requires
        a <= b <= s@.len(),
    ensures
        r@ == s@.subrange(a as int, b as int),
{
    let mut out = String::new();
    let mut k = a;
    while k < b
        invariant
            a <= k <= b <= s@.len(),
            out@ == s@.subrange(a as int, k as int),
        decreases b - k,
    {
        push_char(&mut out, s[k]);
        assert(out@ =~= s@.subrange(a as int, k + 1));
        k = k + 1;
    }
    out
}

/// The value of the last piece of `s[qa..qb]` keyed `key`, as a range of `s`.
fn param(s: &Vec<char>, qa: usize, qb: usize, key: &[char]) -> (r: Option<(usize, usize)>)
    requires
        qa <= qb <= s@.len(),
    ensures
        match param_from(s@.subrange(qa as int, qb as int), key@, 0) {
            None => r is None,
            Some(v) => r matches Some((x, y)) && qa <= x <= y <= qb && s@.subrange(x as int, y as int) == v,
        },
{
    let ghost q = s@.subrange(qa as int, qb as int);
    let mut found: Option<(usize, usize)> = None;
    let mut i = qa;
    // walk the pieces from the left; the last match wins
    loop
        invariant
            qa <= i <= qb <= s@.len(),
            q == s@.subrange(qa as int, qb as int),
            param_from(q, key@, 0) == (match param_from(q, key@, i - qa) {
                Some(v) => Some(v),
                None => match found {
                    Some((x, y)) => Some(s@.subrange(x as int, y as int)),
                    None => None::<Seq<char>>,
                },
            }),
            found matches Some((x, y)) ==> qa <= x <= y <= qb,
        decreases qb - i,
    {
        let pe = find_char(s, '&', i, qb);
        proof {
            assert(s@.take(qb as int).subrange(qa as int, qb as int) =~= q);
            lemma_find_from(s@.take(qb as int), '&', i as int);
            lemma_find_from(q, '&', i - qa);
            assert(find_from(q, '&', i - qa) == pe - qa) by {
                lemma_find_shift(s@.take(qb as int), qa as int, '&', i as int);
            }
        }
        let eq = find_char(s, '=', i, pe);
        proof {
            lemma_find_from(s@.take(pe as int), '=', i as int);
            let piece = q.subrange(i - qa, pe - qa);
            assert(piece =~= s@.take(pe as int).subrange(i as int, pe as int));
            lemma_find_shift(s@.take(pe as int), i as int, '=', i as int);
            assert(find_from(piece, '=', 0) == eq - i);
        }
        let own = if eq < pe && range_eq(s, i, eq, key) {
            Some((eq + 1, pe))
        } else {
            None
        };
        proof {
            let piece = q.subrange(i - qa, pe - qa);
            if eq < pe {
                assert(piece.take(eq - i) =~= s@.subrange(i as int, eq as int));
                assert(piece.skip(eq - i + 1) =~= s@.subrange(eq + 1, pe as int));
            }
        }
        if own.is_some() {
            found = own;
        }
        if pe >= qb {
            return found;
        }
        i = pe + 1;
    }
}

pub proof fn lemma_find_shift(s: Seq<char>, a: int, c: char, i: int)
    requires
        0 <= a <= i <= s.len(),
    ensures
        find_from(s.subrange(a, s.len() as int), c, i - a) == find_from(s, c, i) - a,
    decreases s.len() - i,
{
    if i < s.len() && s[i] != c {
        lemma_find_shift(s, a, c, i + 1);
    }
}

/// Decides how the listener answers the request whose bytes are `request`,
/// for the sign-in whose state is `state`: the bytes are read as text the way
/// `String::from_utf8_lossy` reads them, then [`reply_for`] decides.
pub fn callback_reply(request: &[u8], state: &str) -> (r: CallbackReply)
    ensures
        r@ == reply_to(utf8_lossy(request@), state@),
        valid_utf8(request@) ==> r@ == reply_to(decode_utf8(request@), state@),
{
    let req = lossy_chars(request);
    reply_for(&req, state)
}

/// Decides how the listener answers the request whose text is `req`, for the
/// sign-in whose state is `state` (see [`reply_to`]).
#[verifier::rlimit(60)]
pub fn reply_for(req: &Vec<char>, state: &str) -> (r: CallbackReply)
    ensures
        r@ == reply_to(req@, state@),
{
    // the first line
    let n = find_char(req, '\n', 0, req.len());
    proof {
        assert(req@.take(req@.len() as int) =~= req@);
        lemma_find_from(req@, '\n', 0);
    }
    let line_end = if n < req.len() {
        if n > 0 && req[n - 1] == '\r' {
            n - 1
        } else {
            n
        }
    } else {
        req.len()
    };
    let ghost line = first_line(req@);
    proof {
        assert(line =~= req@.take(line_end as int));
    }
    // the second word
    let a = skip_white(req, 0, line_end);
    proof {
        lemma_skip_ws(line, 0);
    }
    let b = word_end(req, a, line_end);
    proof {
        lemma_run_end(line, a as int);
    }
    let c = skip_white(req, b, line_end);
    proof {
        lemma_skip_ws(line, b as int);
    }
    let d = word_end(req, c, line_end);
    proof {
        lemma_run_end(line, c as int);
    }
    let ghost path = second_word(line);
    proof {
        assert(path =~= req@.subrange(c as int, d as int));
    }
    let prefix: [char; 9] = ['/', 'c', 'a', 'l', 'l', 'b', 'a', 'c', 'k'];
    proof {
        assert(prefix@ =~= callback_prefix());
    }
    if d - c < 9 || !range_eq(req, c, c + 9, prefix.as_slice()) {
        proof {
            if d - c >= 9 {
                assert(path.take(9) =~= req@.subrange(c as int, c + 9));
            }
        }
        return CallbackReply::NotFound;
    }
    proof {
        assert(path.take(9) =~= req@.subrange(c as int, c + 9));
    }
    // the query
    let q = find_char(req, '?', c, d);
    proof {
        lemma_find_from(req@.take(d as int), '?', c as int);
        assert(req@.take(d as int).subrange(c as int, d as int) =~= path);
        lemma_find_shift(req@.take(d as int), c as int, '?', c as int);
    }
    let (qa, qb) = if q >= d {
        (d, d)
    } else {
        let e = find_char(req, '?', q + 1, d);
        proof {
            lemma_find_from(req@.take(d as int), '?', q + 1);
            lemma_find_shift(req@.take(d as int), c as int, '?', q + 1);
        }
        (q + 1, e)
    };
    proof {
        assert(query_of(path) =~= req@.subrange(qa as int, qb as int));
    }
    let state_lit: [char; 5] = ['s', 't', 'a', 't', 'e'];
    let code_lit: [char; 4] = ['c', 'o', 'd', 'e'];
    proof {
        assert(state_lit@ =~= state_key());
        assert(code_lit@ =~= code_key());
    }
    let got_state = param(req, qa, qb, state_lit.as_slice());
    let got_code = param(req, qa, qb, code_lit.as_slice());
    match (got_state, got_code) {
        (Some((sx, sy)), Some((cx, cy))) => {
            let st = copy_range(req, sx, sy);
            let want = copy_range_str(state);
            if st == want {
                CallbackReply::Accepted(copy_range(req, cx, cy))
            } else {
                CallbackReply::Rejected
            }
        },
        _ => CallbackReply::Rejected,
    }
}

/// How long the listener waits for the browser: 300 seconds, in nanoseconds.
pub open spec fn listen_limit_nanos() -> u128 {
    300_000_000_000
}

/// What the listener learned last.
pub enum ListenEvent {
    /// Time to look again: the time since it started, and whether the
    /// sign-in is still in progress.
    Poll(u128, bool),
    /// A connection arrived with these request bytes.
    Request(Vec<u8>),
    /// No connection was waiting.
    NoConnection,
    /// Accepting failed.
    AcceptFailed,
}

/// What the listener does next.
pub enum ListenStep {
    /// Accept the next connection.
    Accept,
    /// Answer the request; when `stop` is set (a code was accepted), record
    /// the code and stop listening.
    Answer(CallbackReply, bool),
    /// Sleep a moment, then look again.
    Wait,
    /// Stop listening.
    Stop,
}

/// One step of the loopback listener for the sign-in whose state is `state`:
/// it stops after 300 seconds, when the sign-in is no longer in progress,
/// when accepting fails, and once it has accepted a code.
pub fn listen_step(event: ListenEvent, state: &str) -> (r: ListenStep)
    ensures
        event matches ListenEvent::Poll(elapsed, pending) ==> (if elapsed > listen_limit_nanos() || !pending {
            r is Stop
        } else {
            r is Accept
        }),
        event matches ListenEvent::Request(bytes) ==> (r matches ListenStep::Answer(reply, stop) && reply@
            == reply_to(utf8_lossy(bytes@), state@) && stop == (reply is Accepted) && (valid_utf8(bytes@) ==> reply@
            == reply_to(decode_utf8(bytes@), state@))),
        event is NoConnection ==> r is Wait,
        event is AcceptFailed ==> r is Stop,
{
    match event {
        ListenEvent::Poll(elapsed, pending) => {
            if elapsed > 300_000_000_000 || !pending {
                ListenStep::Stop
            } else {
                ListenStep::Accept
            }
        },
        ListenEvent::Request(bytes) => {
            let reply = callback_reply(bytes.as_slice(), state);
            let stop = match &reply {
                CallbackReply::Accepted(_) => true,
                _ => false,
            };
            ListenStep::Answer(reply, stop)
        },
        ListenEvent::NoConnection => ListenStep::Wait,
        ListenEvent::AcceptFailed => ListenStep::Stop,
    }
}

fn copy_range_str(s: &str) -> (r: String)
    ensures
        r@ == s@,
{
    s.to_owned()
}

} // verus!
