//! Token usage from the local sessions database: the requests that its
//! messages record, and their totals overall, today, this week, and by model,
//! day and session.
use vstd::hash_map::StringHashMap;
use vstd::prelude::*;
use vstd::string::StringExecFns;
use vstd::wrapping::i64_specs;
use vstd::wrapping::u64_specs;

use crate::codec::{parse_rfc3339_millis, rfc3339_millis};
use crate::sort::{sort_ranked, stable_sorted, Ranked};

verus! {

/// One row of the `sessions` table.
pub struct SessionRow {
    pub id: String,
    pub title: Option<String>,
    pub model: Option<String>,
    pub dir: Option<String>,
    /// Seconds.
    pub created_at: i64,
}

/// What the report shows of a session.
pub struct SessionInfo {
    pub title: String,
    pub dir: String,
    pub model: String,
    /// Milliseconds.
    pub created_at: i64,
}

pub struct SessionInfoView {
    pub title: Seq<char>,
    pub dir: Seq<char>,
    pub model: Seq<char>,
    pub created_at: i64,
}

impl View for SessionInfo {
    type V = SessionInfoView;

    open spec fn view(&self) -> SessionInfoView {
        SessionInfoView { title: self.title@, dir: self.dir@, model: self.model@, created_at: self.created_at }
    }
}

/// A message that records token metrics, as read from `message_nodes`: its
/// session, the metadata strings when they are strings, and the token counts
/// (0 where a count is not an unsigned integer).
pub struct MessageRow {
    pub session_id: String,
    pub request_id: Option<String>,
    pub message_id: Option<String>,
    pub created_at: Option<String>,
    pub generation_model: Option<String>,
    pub input_tokens: u64,
    pub output_tokens: u64,
    pub cache_read_tokens: u64,
    pub cache_creation_tokens: u64,
}

/// One model request.
pub struct Req {
    pub session_id: String,
    /// Milliseconds.
    pub ts: i64,
    pub model: String,
    pub input: u64,
    pub output: u64,
    pub cache_read: u64,
    pub cache_create: u64,
}

pub struct ReqView {
    pub session_id: Seq<char>,
    pub ts: i64,
    pub model: Seq<char>,
    pub input: u64,
    pub output: u64,
    pub cache_read: u64,
    pub cache_create: u64,
}

impl View for Req {
    type V = ReqView;

    open spec fn view(&self) -> ReqView {
        ReqView {
            session_id: self.session_id@,
            ts: self.ts,
            model: self.model@,
            input: self.input,
            output: self.output,
            cache_read: self.cache_read,
            cache_create: self.cache_create,
        }
    }
}

pub open spec fn reqs_view(s: Seq<Req>) -> Seq<ReqView> {
    s.map_values(|q: Req| q@)
}

pub open spec fn text_or(t: Option<String>, d: Seq<char>) -> Seq<char> {
    match t {
        Some(s) => s@,
        None => d,
    }
}

pub open spec fn untitled() -> Seq<char> {
    "(untitled)"@
}

pub open spec fn unknown_model() -> Seq<char> {
    "unknown"@
}

/// What a session row contributes: its title (or `(untitled)`), directory and
/// model (or empty), and creation time in milliseconds.
pub open spec fn info_of(r: SessionRow) -> SessionInfoView {
    SessionInfoView {
        title: text_or(r.title, untitled()),
        dir: text_or(r.dir, Seq::empty()),
        model: text_or(r.model, Seq::empty()),
        created_at: i64_specs::wrapping_mul(r.created_at, 1000),
    }
}

/// The sessions by id; a later row with the same id replaces an earlier one.
pub open spec fn session_map(rows: Seq<SessionRow>) -> Map<Seq<char>, SessionInfoView>
    decreases rows.len(),
{
    if rows.len() == 0 {
        Map::empty()
    } else {
        session_map(rows.drop_last()).insert(rows.last().id@, info_of(rows.last()))
    }
}

/// A message's request id: its `request_id`, else `session:message_id`.
pub open spec fn rid_of(m: MessageRow) -> Seq<char> {
    match m.request_id {
        Some(r) => r@,
        None => m.session_id@ + ":"@ + text_or(m.message_id, Seq::empty()),
    }
}

/// The request that a message records. Its time is `created_at` when that
/// parses as RFC 3339, else its session's creation time, else 0; its model is
/// `generation_model` when present, else its session's model, and `unknown`
/// when that is missing or empty.
pub open spec fn req_of(sm: Map<Seq<char>, SessionInfoView>, m: MessageRow) -> ReqView {
    let sid = m.session_id@;
    let parsed = match m.created_at {
        Some(c) => rfc3339_millis(c@),
        None => None,
    };
    let cand = match m.generation_model {
        Some(g) => Some(g@),
        None => if sm.contains_key(sid) {
            Some(sm[sid].model)
        } else {
            None
        },
    };
    ReqView {
        session_id: sid,
        ts: match parsed {
            Some(t) => t,
            None => if sm.contains_key(sid) {
                sm[sid].created_at
            } else {
                0
            },
        },
        model: match cand {
            Some(x) => if x.len() > 0 {
                x
            } else {
                unknown_model()
            },
            None => unknown_model(),
        },
        input: m.input_tokens,
        output: m.output_tokens,
        cache_read: m.cache_read_tokens,
        cache_create: m.cache_creation_tokens,
    }
}

/// A request's model is its message's `generation_model` whenever that is
/// present and not empty, whatever its session holds; the session's model is
/// used only when `generation_model` is absent (and is not empty); otherwise
/// the model is `unknown`. The request keeps its message's session and token
/// counts, and its time is the message's parsed `created_at`, else its
/// session's creation time, else 0.
pub proof fn law_request_of_message(sm: Map<Seq<char>, SessionInfoView>, m: MessageRow)
    ensures
        m.generation_model matches Some(g) ==> (g@.len() > 0 ==> req_of(sm, m).model == g@),
        m.generation_model matches Some(g) ==> (g@.len() == 0 ==> req_of(sm, m).model == "unknown"@),
        m.generation_model is None && sm.contains_key(m.session_id@) && sm[m.session_id@].model.len() > 0
            ==> req_of(sm, m).model == sm[m.session_id@].model,
        m.generation_model is None && !(sm.contains_key(m.session_id@) && sm[m.session_id@].model.len() > 0)
            ==> req_of(sm, m).model == "unknown"@,
        req_of(sm, m).session_id == m.session_id@,
        req_of(sm, m).input == m.input_tokens,
        req_of(sm, m).output == m.output_tokens,
        req_of(sm, m).cache_read == m.cache_read_tokens,
        req_of(sm, m).cache_create == m.cache_creation_tokens,
        m.created_at matches Some(c) ==> (rfc3339_millis(c@) matches Some(t) ==> req_of(sm, m).ts == t),
        !(m.created_at matches Some(c) && rfc3339_millis(c@) is Some) ==> req_of(sm, m).ts == (if sm.contains_key(
            m.session_id@,
        ) {
            sm[m.session_id@].created_at
        } else {
            0
        }),
{
}

/// The requests of the first `n` messages, with their ids: a message whose
/// request id was already seen is left out.
pub open spec fn requests_upto(sm: Map<Seq<char>, SessionInfoView>, msgs: Seq<MessageRow>, n: int) -> Seq<(Seq<char>, ReqView)>
    decreases n,
{
    if n <= 0 {
        Seq::empty()
    } else {
        let prev = requests_upto(sm, msgs, n - 1);
        let rid = rid_of(msgs[n - 1]);
        if exists|j: int| 0 <= j < prev.len() && #[trigger] prev[j].0 == rid {
            prev
        } else {
            prev.push((rid, req_of(sm, msgs[n - 1])))
        }
    }
}

/// The requests that the messages record, first occurrence of each id, in order.
pub open spec fn requests_of(rows: Seq<SessionRow>, msgs: Seq<MessageRow>) -> Seq<ReqView> {
    requests_upto(session_map(rows), msgs, msgs.len() as int).map_values(|p: (Seq<char>, ReqView)| p.1)
}

fn text_or_exec(t: &Option<String>, d: String) -> (r: String)
    ensures
        r@ == text_or(*t, d@),
{
    match t {
        Some(s) => s.clone(),
        None => d,
    }
}

fn info_of_row(r: &SessionRow) -> (i: SessionInfo)
    ensures
        i@ == info_of(*r),
{
    SessionInfo {
        title: text_or_exec(&r.title, String::from_str("(untitled)")),
        dir: text_or_exec(&r.dir, String::new()),
        model: text_or_exec(&r.model, String::new()),
        created_at: r.created_at.wrapping_mul(1000),
    }
}

/// The sessions by id (a later row with the same id replaces an earlier one).
pub struct SessionIndex {
    map: StringHashMap<SessionInfo>,
}

impl View for SessionIndex {
    type V = Map<Seq<char>, SessionInfoView>;

    closed spec fn view(&self) -> Map<Seq<char>, SessionInfoView> {
        self.map@.map_values(|i: SessionInfo| i@)
    }
}

impl SessionIndex {
    /// Indexes the session rows.
    pub fn new(rows: &Vec<SessionRow>) -> (r: SessionIndex)
        ensures
            r@ == session_map(rows@),
    {
        let mut map: StringHashMap<SessionInfo> = StringHashMap::new();
        let mut i: usize = 0;
        proof {
            assert(map@.map_values(|x: SessionInfo| x@) =~= session_map(rows@.take(0)));
        }
        while i < rows.len()
            invariant
                i <= rows@.len(),
                map@.map_values(|x: SessionInfo| x@) == session_map(rows@.take(i as int)),
            decreases rows.len() - i,
        {
            let ghost before = map@;
            map.insert(rows[i].id.clone(), info_of_row(&rows[i]));
            proof {
                assert(rows@.take(i + 1).drop_last() =~= rows@.take(i as int));
                assert(map@.map_values(|x: SessionInfo| x@) =~= before.map_values(|x: SessionInfo| x@).insert(
                    rows@[i as int].id@,
                    info_of(rows@[i as int]),
                ));
            }
            i = i + 1;
        }
        proof {
            assert(rows@.take(rows@.len() as int) =~= rows@);
        }
        SessionIndex { map }
    }

    /// The number of distinct sessions.
    pub fn len(&self) -> (r: usize)
        ensures
            r == self@.len(),
    {
        proof {
            broadcast use vstd::hash_map::group_hash_map_axioms;
        }
        let n = self.map.len();
        assert(self.map@.map_values(|x: SessionInfo| x@).dom() =~= self.map@.dom());
        n
    }

    /// The session with this id.
    pub fn get(&self, id: &str) -> (r: Option<&SessionInfo>)
        ensures
            match r {
                Some(i) => self@.contains_key(id@) && i@ == self@[id@],
                None => !self@.contains_key(id@),
            },
    {
        self.map.get(id)
    }
}

/// The requests that the messages record (see [`requests_of`]), in order of
/// first appearance.
pub fn build_requests(sessions: &SessionIndex, msgs: &Vec<MessageRow>) -> (r: Vec<Req>)
    ensures
        reqs_view(r@) == requests_upto(sessions@, msgs@, msgs@.len() as int).map_values(
            |p: (Seq<char>, ReqView)| p.1,
        ),
{
    let mut out: Vec<Req> = Vec::new();
    let mut seen: StringHashMap<usize> = StringHashMap::new();
    let ghost mut rids: Seq<Seq<char>> = Seq::empty();
    let mut i: usize = 0;
    while i < msgs.len()
        invariant
            i <= msgs@.len(),
            rids.len() == out@.len(),
            requests_upto(sessions@, msgs@, i as int) == Seq::new(
                out@.len(),
                |j: int| (rids[j], out@[j]@),
            ),
            forall|k: Seq<char>| seen@.contains_key(k) <==> exists|j: int| 0 <= j < rids.len() && #[trigger] rids[j] == k,
        decreases msgs.len() - i,
    {
        let m = &msgs[i];
        let rid = match &m.request_id {
            Some(r) => r.clone(),
            None => {
                let mut s = m.session_id.clone();
                s.append(":");
                match &m.message_id {
                    Some(x) => s.append(x.as_str()),
                    None => {},
                }
                s
            },
        };
        proof {
            assert(rid@ =~= rid_of(msgs@[i as int]));
        }
        let ghost prev = requests_upto(sessions@, msgs@, i as int);
        if seen.contains_key(rid.as_str()) {
            proof {
                let j = choose|j: int| 0 <= j < rids.len() && #[trigger] rids[j] == rid@;
                assert(prev[j].0 == rid@);
            }
        } else {
            let parsed = match &m.created_at {
                Some(c) => parse_rfc3339_millis(c.as_str()),
                None => None,
            };
            let sess = sessions.get(m.session_id.as_str());
            let ts = match parsed {
                Some(t) => t,
                None => match sess {
                    Some(s) => s.created_at,
                    None => 0,
                },
            };
            let cand: Option<String> = match &m.generation_model {
                Some(g) => Some(g.clone()),
                None => match sess {
                    Some(s) => Some(s.model.clone()),
                    None => None,
                },
            };
            let model = match cand {
                Some(x) => {
                    if x.as_str().unicode_len() > 0 {
                        x
                    } else {
                        String::from_str("unknown")
                    }
                },
                None => String::from_str("unknown"),
            };
            let q = Req {
                session_id: m.session_id.clone(),
                ts,
                model,
                input: m.input_tokens,
                output: m.output_tokens,
                cache_read: m.cache_read_tokens,
                cache_create: m.cache_creation_tokens,
            };
            proof {
                assert(q@ == req_of(sessions@, msgs@[i as int]));
                assert forall|j: int| 0 <= j < prev.len() implies #[trigger] prev[j].0 != rid@ by {
                    assert(prev[j].0 == rids[j]);
                }
            }
            seen.insert(rid.clone(), out.len());
            out.push(q);
            proof {
                let old_rids = rids;
                rids = rids.push(rid@);
                assert(prev.push((rid@, q@)) =~= Seq::new(out@.len(), |j: int| (rids[j], out@[j]@)));
                assert forall|k: Seq<char>| seen@.contains_key(k) <==> exists|j: int| 0 <= j < rids.len() && #[trigger] rids[j] == k by {
                    if k == rid@ {
                        assert(rids[rids.len() - 1] == k);
                    } else if seen@.contains_key(k) {
                        let j = choose|j: int| 0 <= j < old_rids.len() && #[trigger] old_rids[j] == k;
                        assert(rids[j] == k);
                    } else if exists|j: int| 0 <= j < rids.len() && #[trigger] rids[j] == k {
                        let j = choose|j: int| 0 <= j < rids.len() && #[trigger] rids[j] == k;
                        assert(old_rids[j] == k);
                    }
                }
            }
        }
        i = i + 1;
    }
    proof {
        let final_reqs = requests_upto(sessions@, msgs@, msgs@.len() as int);
        assert(reqs_view(out@) =~= final_reqs.map_values(|p: (Seq<char>, ReqView)| p.1));
    }
    out
}

} // verus!

verus! {

/// Token totals.
#[derive(Clone, Copy)]
pub struct Acc {
    pub requests: u64,
    pub input: u64,
    pub output: u64,
    pub cache_read: u64,
    pub cache_create: u64,
}

pub open spec fn zero_acc() -> Acc {
    Acc { requests: 0, input: 0, output: 0, cache_read: 0, cache_create: 0 }
}

/// Counts one more request (each sum wraps around modulo 2^64).
pub open spec fn add_req(a: Acc, q: ReqView) -> Acc {
    Acc {
        requests: u64_specs::wrapping_add(a.requests, 1),
        input: u64_specs::wrapping_add(a.input, q.input),
        output: u64_specs::wrapping_add(a.output, q.output),
        cache_read: u64_specs::wrapping_add(a.cache_read, q.cache_read),
        cache_create: u64_specs::wrapping_add(a.cache_create, q.cache_create),
    }
}

/// All tokens: input, output, cache reads and cache writes.
pub open spec fn acc_total(a: Acc) -> u64 {
    u64_specs::wrapping_add(
        u64_specs::wrapping_add(u64_specs::wrapping_add(a.input, a.output), a.cache_read),
        a.cache_create,
    )
}

impl Acc {
    pub fn zero() -> (r: Acc)
        ensures
            r == zero_acc(),
    {
        Acc { requests: 0, input: 0, output: 0, cache_read: 0, cache_create: 0 }
    }

    /// All tokens (see [`acc_total`]).
    pub fn total(&self) -> (r: u64)
        ensures
            r == acc_total(*self),
    {
        self.input.wrapping_add(self.output).wrapping_add(self.cache_read).wrapping_add(self.cache_create)
    }
}

/// Adds one request to the totals.
pub fn acc_add(a: &mut Acc, q: &Req)
    ensures
        *final(a) == add_req(*old(a), q@),
{
    a.requests = a.requests.wrapping_add(1);
    a.input = a.input.wrapping_add(q.input);
    a.output = a.output.wrapping_add(q.output);
    a.cache_read = a.cache_read.wrapping_add(q.cache_read);
    a.cache_create = a.cache_create.wrapping_add(q.cache_create);
}

/// Whether a request counts toward totals that start at `from` (all count when `None`).
pub open spec fn counts(q: ReqView, from: Option<i64>) -> bool {
    match from {
        None => true,
        Some(t) => q.ts >= t,
    }
}

/// The totals of the first `n` requests that count from `from`.
pub open spec fn acc_upto(reqs: Seq<ReqView>, from: Option<i64>, n: int) -> Acc
    decreases n,
{
    if n <= 0 {
        zero_acc()
    } else if counts(reqs[n - 1], from) {
        add_req(acc_upto(reqs, from, n - 1), reqs[n - 1])
    } else {
        acc_upto(reqs, from, n - 1)
    }
}

pub open spec fn get_or_zero(m: Map<Seq<char>, Acc>, k: Seq<char>) -> Acc {
    if m.contains_key(k) {
        m[k]
    } else {
        zero_acc()
    }
}

/// The totals of the first `n` requests that count from `from`, grouped by
/// `keys` (the key of request `i` is `keys[i]`).
pub open spec fn group_upto(reqs: Seq<ReqView>, keys: Seq<Seq<char>>, from: Option<i64>, n: int) -> Map<Seq<char>, Acc>
    decreases n,
{
    if n <= 0 {
        Map::empty()
    } else {
        let m = group_upto(reqs, keys, from, n - 1);
        if counts(reqs[n - 1], from) {
            m.insert(keys[n - 1], add_req(get_or_zero(m, keys[n - 1]), reqs[n - 1]))
        } else {
            m
        }
    }
}

/// The totals of the first `n` requests that count from `from` and whose key is `k`.
pub open spec fn acc_where(reqs: Seq<ReqView>, keys: Seq<Seq<char>>, k: Seq<char>, from: Option<i64>, n: int) -> Acc
    decreases n,
{
    if n <= 0 {
        zero_acc()
    } else if counts(reqs[n - 1], from) && keys[n - 1] == k {
        add_req(acc_where(reqs, keys, k, from, n - 1), reqs[n - 1])
    } else {
        acc_where(reqs, keys, k, from, n - 1)
    }
}

/// A group's totals are the totals of exactly the requests with its key, and a
/// key has a group exactly when one of its requests counts: grouping by model,
/// by day or by session splits the totals and drops or adds nothing.
pub proof fn law_group_is_its_requests(reqs: Seq<ReqView>, keys: Seq<Seq<char>>, from: Option<i64>, n: int, k: Seq<char>)
    requires
        0 <= n <= reqs.len(),
        keys.len() == reqs.len(),
    ensures
        get_or_zero(group_upto(reqs, keys, from, n), k) == acc_where(reqs, keys, k, from, n),
        group_upto(reqs, keys, from, n).contains_key(k) <==> exists|i: int|
            0 <= i < n && keys[i] == k && #[trigger] counts(reqs[i], from),
    decreases n,
{
    if n > 0 {
        law_group_is_its_requests(reqs, keys, from, n - 1, k);
        if counts(reqs[n - 1], from) && keys[n - 1] == k {
            assert(counts(reqs[n - 1], from));
        }
        if group_upto(reqs, keys, from, n).contains_key(k) && !group_upto(reqs, keys, from, n - 1).contains_key(k) {
            assert(counts(reqs[n - 1], from) && keys[n - 1] == k);
        }
        if exists|i: int| 0 <= i < n && keys[i] == k && #[trigger] counts(reqs[i], from) {
            let i = choose|i: int| 0 <= i < n && keys[i] == k && #[trigger] counts(reqs[i], from);
            if i < n - 1 {
                assert(group_upto(reqs, keys, from, n - 1).contains_key(k));
            }
        }
    }
}

/// Today's requests are among the week's, and the week's among all of them,
/// when the week starts no later than today: the request counts grow from
/// today to the week to the whole, and none exceeds the number of requests.
pub proof fn law_today_within_week(reqs: Seq<ReqView>, day_start: i64, week_start: i64, n: int)
    requires
        0 <= n <= reqs.len(),
        n < u64::MAX,
        week_start <= day_start,
    ensures
        acc_upto(reqs, Some(day_start), n).requests <= acc_upto(reqs, Some(week_start), n).requests,
        acc_upto(reqs, Some(week_start), n).requests <= acc_upto(reqs, None, n).requests,
        acc_upto(reqs, None, n).requests <= n,
    decreases n,
{
    if n > 0 {
        law_today_within_week(reqs, day_start, week_start, n - 1);
    }
}

pub open spec fn entry_view(e: (String, Acc)) -> (Seq<char>, Acc) {
    (e.0@, e.1)
}

/// `list` holds each key of `m` once, with its totals.
pub open spec fn lists_map(list: Seq<(String, Acc)>, m: Map<Seq<char>, Acc>) -> bool {
    &&& forall|i: int, j: int| 0 <= i < j < list.len() ==> (#[trigger] list[i]).0@ != (#[trigger] list[j]).0@
    &&& forall|i: int| 0 <= i < list.len() ==> m.contains_key((#[trigger] list[i]).0@) && m[list[i].0@] == list[i].1
    &&& forall|k: Seq<char>| #[trigger] m.contains_key(k) ==> exists|i: int| 0 <= i < list.len() && (#[trigger] list[i]).0@ == k
}

/// The request counts of a list of groups, added up.
pub open spec fn sum_requests(list: Seq<(String, Acc)>) -> int
    decreases list.len(),
{
    if list.len() == 0 {
        0
    } else {
        sum_requests(list.drop_last()) + list.last().1.requests
    }
}

/// The request counts of the requests under each of the keys `ks`, added up.
pub open spec fn sum_where(reqs: Seq<ReqView>, keys: Seq<Seq<char>>, ks: Seq<Seq<char>>, from: Option<i64>, n: int) -> int
    decreases ks.len(),
{
    if ks.len() == 0 {
        0
    } else {
        sum_where(reqs, keys, ks.drop_last(), from, n) + acc_where(reqs, keys, ks.last(), from, n).requests
    }
}

/// How many of `ks` are `x`.
pub open spec fn occurrences(ks: Seq<Seq<char>>, x: Seq<char>) -> int
    decreases ks.len(),
{
    if ks.len() == 0 {
        0
    } else {
        occurrences(ks.drop_last(), x) + if ks.last() == x { 1int } else { 0int }
    }
}

proof fn lemma_where_step(reqs: Seq<ReqView>, keys: Seq<Seq<char>>, k: Seq<char>, from: Option<i64>, n: int)
    requires
        1 <= n < u64::MAX,
    ensures
        acc_where(reqs, keys, k, from, n).requests <= n,
        acc_where(reqs, keys, k, from, n).requests == acc_where(reqs, keys, k, from, n - 1).requests + if counts(
            reqs[n - 1],
            from,
        ) && keys[n - 1] == k {
            1int
        } else {
            0int
        },
{
    lemma_where_bound(reqs, keys, k, from, n - 1);
}

proof fn lemma_where_bound(reqs: Seq<ReqView>, keys: Seq<Seq<char>>, k: Seq<char>, from: Option<i64>, n: int)
    requires
        0 <= n < u64::MAX,
    ensures
        acc_where(reqs, keys, k, from, n).requests <= n,
    decreases n,
{
    if n > 0 {
        lemma_where_bound(reqs, keys, k, from, n - 1);
    }
}

proof fn lemma_sum_where_step(reqs: Seq<ReqView>, keys: Seq<Seq<char>>, ks: Seq<Seq<char>>, from: Option<i64>, n: int)
    requires
        1 <= n < u64::MAX,
    ensures
        sum_where(reqs, keys, ks, from, n) == sum_where(reqs, keys, ks, from, n - 1) + if counts(reqs[n - 1], from) {
            occurrences(ks, keys[n - 1])
        } else {
            0
        },
    decreases ks.len(),
{
    if ks.len() > 0 {
        lemma_sum_where_step(reqs, keys, ks.drop_last(), from, n);
        lemma_where_step(reqs, keys, ks.last(), from, n);
    }
}

proof fn lemma_occurs_once(ks: Seq<Seq<char>>, x: Seq<char>)
    requires
        forall|i: int, j: int| 0 <= i < j < ks.len() ==> ks[i] != ks[j],
    ensures
        ks.contains(x) ==> occurrences(ks, x) == 1,
        !ks.contains(x) ==> occurrences(ks, x) == 0,
    decreases ks.len(),
{
    if ks.len() > 0 {
        let r = ks.drop_last();
        assert forall|i: int, j: int| 0 <= i < j < r.len() implies r[i] != r[j] by {
            assert(r[i] == ks[i] && r[j] == ks[j]);
        }
        lemma_occurs_once(r, x);
        if ks.last() == x {
            assert(!r.contains(x)) by {
                if r.contains(x) {
                    let i = choose|i: int| 0 <= i < r.len() && r[i] == x;
                    assert(ks[i] == ks[ks.len() - 1]);
                }
            }
        } else {
            if ks.contains(x) {
                let i = choose|i: int| 0 <= i < ks.len() && ks[i] == x;
                assert(r[i] == x);
            }
            if r.contains(x) {
                let i = choose|i: int| 0 <= i < r.len() && r[i] == x;
                assert(ks[i] == x);
            }
        }
    }
}

proof fn lemma_sum_where_total(reqs: Seq<ReqView>, keys: Seq<Seq<char>>, ks: Seq<Seq<char>>, from: Option<i64>, n: int)
    requires
        0 <= n <= reqs.len(),
        n < u64::MAX,
        keys.len() == reqs.len(),
        forall|i: int, j: int| 0 <= i < j < ks.len() ==> ks[i] != ks[j],
        forall|i: int| 0 <= i < n && #[trigger] counts(reqs[i], from) ==> ks.contains(keys[i]),
    ensures
        sum_where(reqs, keys, ks, from, n) == acc_upto(reqs, from, n).requests,
    decreases n,
{
    if n == 0 {
        assert(sum_where(reqs, keys, ks, from, 0) == 0) by {
            lemma_sum_where_zero(reqs, keys, ks, from);
        }
    } else {
        lemma_sum_where_total(reqs, keys, ks, from, n - 1);
        lemma_sum_where_step(reqs, keys, ks, from, n);
        lemma_occurs_once(ks, keys[n - 1]);
        match from {
            Some(d) => law_today_within_week(reqs, d, d, n - 1),
            None => law_today_within_week(reqs, 0, 0, n - 1),
        }
    }
}

proof fn lemma_sum_where_zero(reqs: Seq<ReqView>, keys: Seq<Seq<char>>, ks: Seq<Seq<char>>, from: Option<i64>)
    ensures
        sum_where(reqs, keys, ks, from, 0) == 0,
    decreases ks.len(),
{
    if ks.len() > 0 {
        lemma_sum_where_zero(reqs, keys, ks.drop_last(), from);
    }
}

proof fn lemma_sum_list(
    reqs: Seq<ReqView>,
    keys: Seq<Seq<char>>,
    from: Option<i64>,
    n: int,
    list: Seq<(String, Acc)>,
)
    requires
        0 <= n <= reqs.len(),
        keys.len() == reqs.len(),
        forall|i: int| 0 <= i < list.len() ==> (#[trigger] list[i]).1 == acc_where(reqs, keys, list[i].0@, from, n),
    ensures
        sum_requests(list) == sum_where(reqs, keys, list.map_values(|e: (String, Acc)| e.0@), from, n),
    decreases list.len(),
{
    if list.len() > 0 {
        let r = list.drop_last();
        assert forall|i: int| 0 <= i < r.len() implies (#[trigger] r[i]).1 == acc_where(reqs, keys, r[i].0@, from, n) by {
            assert(r[i] == list[i]);
        }
        lemma_sum_list(reqs, keys, from, n, r);
        assert(list.map_values(|e: (String, Acc)| e.0@).drop_last() =~= r.map_values(|e: (String, Acc)| e.0@));
        assert(list.last() == list[list.len() - 1]);
    }
}

/// The groups split the requests: every request that counts is in exactly
/// one group, so the request counts of a list of groups (by model, by day or
/// by session) add up to the count of all requests that count.
pub proof fn law_groups_add_up(
    reqs: Seq<ReqView>,
    keys: Seq<Seq<char>>,
    from: Option<i64>,
    n: int,
    list: Seq<(String, Acc)>,
)
    requires
        0 <= n <= reqs.len(),
        n < u64::MAX,
        keys.len() == reqs.len(),
        lists_map(list, group_upto(reqs, keys, from, n)),
    ensures
        sum_requests(list) == acc_upto(reqs, from, n).requests,
{
    let m = group_upto(reqs, keys, from, n);
    let ks = list.map_values(|e: (String, Acc)| e.0@);
    assert forall|i: int| 0 <= i < list.len() implies (#[trigger] list[i]).1 == acc_where(reqs, keys, list[i].0@, from, n) by {
        law_group_is_its_requests(reqs, keys, from, n, list[i].0@);
    }
    lemma_sum_list(reqs, keys, from, n, list);
    assert forall|i: int, j: int| 0 <= i < j < ks.len() implies ks[i] != ks[j] by {
        assert(ks[i] == list[i].0@ && ks[j] == list[j].0@);
    }
    assert forall|i: int| 0 <= i < n && #[trigger] counts(reqs[i], from) implies ks.contains(keys[i]) by {
        law_group_is_its_requests(reqs, keys, from, n, keys[i]);
        assert(m.contains_key(keys[i]));
        let j = choose|j: int| 0 <= j < list.len() && (#[trigger] list[j]).0@ == keys[i];
        assert(ks[j] == keys[i]);
    }
    lemma_sum_where_total(reqs, keys, ks, from, n);
}

/// Totals grouped by key, in order of first appearance.
struct Grouper {
    entries: Vec<(String, Acc)>,
    index: StringHashMap<usize>,
}

impl Grouper {
    spec fn wf(&self) -> bool {
        &&& forall|k: Seq<char>| #[trigger] self.index@.contains_key(k) ==> self.index@[k] < self.entries@.len()
            && self.entries@[self.index@[k] as int].0@ == k
        &&& forall|i: int| 0 <= i < self.entries@.len() ==> self.index@.contains_key((#[trigger] self.entries@[i]).0@)
            && self.index@[self.entries@[i].0@] == i
    }

    spec fn totals(&self) -> Map<Seq<char>, Acc> {
        Map::new(|k: Seq<char>| self.index@.contains_key(k), |k: Seq<char>| self.entries@[self.index@[k] as int].1)
    }

    fn new() -> (r: Grouper)
        ensures
            r.wf(),
            r.totals() == Map::<Seq<char>, Acc>::empty(),
    {
        let r = Grouper { entries: Vec::new(), index: StringHashMap::new() };
        assert(r.totals() =~= Map::<Seq<char>, Acc>::empty());
        r
    }

    fn add(&mut self, key: &String, q: &Req)
        requires
            old(self).wf(),
        ensures
            final(self).wf(),
            final(self).totals() == old(self).totals().insert(key@, add_req(get_or_zero(old(self).totals(), key@), q@)),
    {
        let ghost old_t = self.totals();
        match self.index.get(key.as_str()) {
            Some(i) => {
                let i = *i;
                let mut a = self.entries[i].1;
                acc_add(&mut a, q);
                let k = self.entries[i].0.clone();
                self.entries.set(i, (k, a));
                assert(self.totals() =~= old_t.insert(key@, add_req(get_or_zero(old_t, key@), q@)));
            },
            None => {
                let mut a = Acc::zero();
                acc_add(&mut a, q);
                let n = self.entries.len();
                self.index.insert(key.clone(), n);
                self.entries.push((key.clone(), a));
                assert(self.totals() =~= old_t.insert(key@, add_req(get_or_zero(old_t, key@), q@)));
            },
        }
    }

    fn into_list(self) -> (r: Vec<(String, Acc)>)
        requires
            self.wf(),
        ensures
            lists_map(r@, self.totals()),
    {
        let ghost t = self.totals();
        assert forall|i: int, j: int| 0 <= i < j < self.entries@.len() implies (#[trigger] self.entries@[i]).0@
            != (#[trigger] self.entries@[j]).0@ by {}
        assert forall|k: Seq<char>| #[trigger] t.contains_key(k) implies exists|i: int|
            0 <= i < self.entries@.len() && (#[trigger] self.entries@[i]).0@ == k by {
            assert(self.entries@[self.index@[k] as int].0@ == k);
        }
        self.entries
    }
}

/// Whether some entry of `s` has this key and totals.
pub open spec fn in_list(x: (Seq<char>, Acc), s: Seq<(String, Acc)>) -> bool {
    exists|j: int| 0 <= j < s.len() && entry_view(#[trigger] s[j]) == x
}

/// Whether `a` goes strictly before `b`: by day ascending, or by total descending.
pub open spec fn goes_before(a: (Seq<char>, Acc), b: (Seq<char>, Acc), by_day: bool) -> bool {
    if by_day {
        !crate::text::lex_le(vstd::utf8::encode_utf8(b.0), vstd::utf8::encode_utf8(a.0))
    } else {
        acc_total(a.1) > acc_total(b.1)
    }
}

/// No entry goes strictly before an earlier one.
pub open spec fn sorted_by(list: Seq<(String, Acc)>, by_day: bool) -> bool {
    forall|i: int, j: int| 0 <= i < j < list.len() ==> !goes_before(entry_view(#[trigger] list[j]), entry_view(#[trigger] list[i]), by_day)
}

proof fn lemma_goes_before(a: (Seq<char>, Acc), b: (Seq<char>, Acc), c: (Seq<char>, Acc), by_day: bool)
    ensures
        !goes_before(a, a, by_day),
        goes_before(a, b, by_day) && goes_before(b, c, by_day) ==> goes_before(a, c, by_day),
{
    let ea = vstd::utf8::encode_utf8(a.0);
    let eb = vstd::utf8::encode_utf8(b.0);
    let ec = vstd::utf8::encode_utf8(c.0);
    crate::text::lemma_lex_le_refl(ea);
    if by_day && goes_before(a, b, by_day) && goes_before(b, c, by_day) {
        crate::text::lemma_lex_le_total(ea, eb);
        if crate::text::lex_le(ec, ea) {
            crate::text::lemma_lex_le_trans(ec, ea, eb);
        }
    }
}

/// An entry to sort: ranked by day or by total, as `by_day` says (entries of
/// the two kinds never meet in one sort; by-total ones would go first).
struct SortEntry {
    key: String,
    acc: Acc,
    by_day: bool,
}

impl Ranked for SortEntry {
    closed spec fn before(a: Self, b: Self) -> bool {
        (!a.by_day && b.by_day) || (a.by_day == b.by_day && goes_before((a.key@, a.acc), (b.key@, b.acc), a.by_day))
    }

    proof fn lemma_rank(a: Self, b: Self, c: Self) {
        let (ea, eb, ec) = ((a.key@, a.acc), (b.key@, b.acc), (c.key@, c.acc));
        lemma_goes_before(ea, eb, ec, a.by_day);
        lemma_goes_before(ec, ea, eb, a.by_day);
        let (ba, bb, bc) = (
            vstd::utf8::encode_utf8(a.key@),
            vstd::utf8::encode_utf8(b.key@),
            vstd::utf8::encode_utf8(c.key@),
        );
        if crate::text::lex_le(bc, ba) && crate::text::lex_le(bb, bc) {
            crate::text::lemma_lex_le_trans(bb, bc, ba);
        }
    }

    fn ranks_before(&self, other: &Self) -> (r: bool) {
        if self.by_day != other.by_day {
            !self.by_day
        } else if self.by_day {
            !crate::text::bytes_le(other.key.as_str().as_bytes(), self.key.as_str().as_bytes())
        } else {
            self.acc.total() > other.acc.total()
        }
    }
}

/// Sorts entries (stably) by day ascending or by total descending.
fn sort_entries(v: &Vec<(String, Acc)>, by_day: bool) -> (r: Vec<(String, Acc)>)
    requires
        forall|i: int, j: int| 0 <= i < j < v@.len() ==> (#[trigger] v@[i]).0@ != (#[trigger] v@[j]).0@,
    ensures
        r@.len() == v@.len(),
        sorted_by(r@, by_day),
        forall|i: int, j: int| 0 <= i < j < r@.len() ==> (#[trigger] r@[i]).0@ != (#[trigger] r@[j]).0@,
        forall|k: int| 0 <= k < r@.len() ==> in_list(entry_view(#[trigger] r@[k]), v@),
        forall|j: int| 0 <= j < v@.len() ==> in_list(entry_view(#[trigger] v@[j]), r@),
{
    let mut w: Vec<SortEntry> = Vec::new();
    let mut i: usize = 0;
    while i < v.len()
        invariant
            i <= v@.len(),
            w@.len() == i,
            forall|k: int| 0 <= k < i ==> (#[trigger] w@[k]).key@ == v@[k].0@ && w@[k].acc == v@[k].1 && w@[k].by_day
                == by_day,
        decreases v.len() - i,
    {
        w.push(SortEntry { key: v[i].0.clone(), acc: v[i].1, by_day });
        i = i + 1;
    }
    let ghost wv = w@;
    let sorted = sort_ranked(w);
    let ghost (perm, inv) = choose|perm: Seq<int>, inv: Seq<int>| stable_sorted(wv, sorted@, perm, inv);
    let mut out: Vec<(String, Acc)> = Vec::new();
    let mut k: usize = 0;
    while k < sorted.len()
        invariant
            k <= sorted@.len(),
            out@.len() == k,
            forall|j: int| 0 <= j < k ==> entry_view(#[trigger] out@[j]) == (sorted@[j].key@, sorted@[j].acc),
        decreases sorted.len() - k,
    {
        out.push((sorted[k].key.clone(), sorted[k].acc));
        k = k + 1;
    }
    proof {
        assert forall|j: int| 0 <= j < out@.len() implies entry_view(#[trigger] out@[j]) == entry_view(v@[perm[j]]) && 0
            <= perm[j] < v@.len() by {
            assert(sorted@[j] == wv[perm[j]]);
        }
        assert forall|a: int, b: int| 0 <= a < b < out@.len() implies !goes_before(
            entry_view(#[trigger] out@[b]),
            entry_view(#[trigger] out@[a]),
            by_day,
        ) by {
            assert(!SortEntry::before(sorted@[b], sorted@[a]));
            assert(sorted@[a] == wv[perm[a]]);
            assert(sorted@[b] == wv[perm[b]]);
        }
        assert forall|a: int, b: int| 0 <= a < b < out@.len() implies (#[trigger] out@[a]).0@ != (#[trigger] out@[b]).0@ by {
            assert(perm[a] != perm[b]) by {
                assert(inv[perm[a]] == a);
                assert(inv[perm[b]] == b);
            }
            assert(entry_view(out@[a]) == entry_view(v@[perm[a]]));
            assert(entry_view(out@[b]) == entry_view(v@[perm[b]]));
        }
        assert forall|j: int| 0 <= j < out@.len() implies in_list(entry_view(#[trigger] out@[j]), v@) by {
            assert(entry_view(out@[j]) == entry_view(v@[perm[j]]));
        }
        assert forall|j: int| 0 <= j < v@.len() implies in_list(entry_view(#[trigger] v@[j]), out@) by {
            let q = inv[j];
            assert(0 <= q < out@.len() && perm[q] == j);
            assert(entry_view(out@[q]) == entry_view(v@[perm[q]]));
        }
    }
    out
}

proof fn lemma_sorted_lists(v: Seq<(String, Acc)>, r: Seq<(String, Acc)>, m: Map<Seq<char>, Acc>)
    requires
        lists_map(v, m),
        r.len() == v.len(),
        forall|i: int, j: int| 0 <= i < j < r.len() ==> (#[trigger] r[i]).0@ != (#[trigger] r[j]).0@,
        forall|k: int| 0 <= k < r.len() ==> in_list(entry_view(#[trigger] r[k]), v),
        forall|j: int| 0 <= j < v.len() ==> in_list(entry_view(#[trigger] v[j]), r),
    ensures
        lists_map(r, m),
{
    assert forall|i: int| 0 <= i < r.len() implies m.contains_key((#[trigger] r[i]).0@) && m[r[i].0@] == r[i].1 by {
        assert(in_list(entry_view(r[i]), v));
        let j = choose|j: int| 0 <= j < v.len() && entry_view(v[j]) == entry_view(r[i]);
        assert(m.contains_key(v[j].0@));
    }
    assert forall|k: Seq<char>| #[trigger] m.contains_key(k) implies exists|i: int| 0 <= i < r.len() && (#[trigger] r[i]).0@ == k by {
        let j = choose|j: int| 0 <= j < v.len() && (#[trigger] v[j]).0@ == k;
        assert(in_list(entry_view(v[j]), r));
        let i = choose|i: int| 0 <= i < r.len() && entry_view(r[i]) == entry_view(v[j]);
        assert(r[i].0@ == k);
    }
}

/// The totals that the report shows.
pub struct UsageReport {
    pub all: Acc,
    pub today: Acc,
    pub week: Acc,
    /// By model, largest total first.
    pub by_model: Vec<(String, Acc)>,
    /// Today's requests by model, largest total first.
    pub today_by_model: Vec<(String, Acc)>,
    /// By day, earliest first.
    pub by_day: Vec<(String, Acc)>,
    /// The (at most) 100 sessions with the largest totals, largest first.
    pub by_session: Vec<(String, Acc)>,
}

pub open spec fn models_of(reqs: Seq<ReqView>) -> Seq<Seq<char>> {
    reqs.map_values(|q: ReqView| q.model)
}

pub open spec fn sessions_of(reqs: Seq<ReqView>) -> Seq<Seq<char>> {
    reqs.map_values(|q: ReqView| q.session_id)
}

pub open spec fn days_view(days: Seq<String>) -> Seq<Seq<char>> {
    days.map_values(|d: String| d@)
}

/// The start of the week: `days_from_monday` days before the start of today
/// (the product and difference wrap around as two's-complement `i64` values).
pub open spec fn week_start_of(day_start: i64, days_from_monday: i64) -> i64 {
    i64_specs::wrapping_sub(day_start, i64_specs::wrapping_mul(days_from_monday, 86_400_000))
}

/// Totals the requests: overall, since `day_start` (today), since the week's
/// start, and grouped by model, today's by model, by day (`days[i]` is the
/// local calendar day of request `i`) and by session (the top 100).
pub fn aggregate(reqs: &Vec<Req>, days: &Vec<String>, day_start: i64, days_from_monday: i64) -> (r: UsageReport)
    requires
        days@.len() == reqs@.len(),
    ensures
        ({
            let rv = reqs_view(reqs@);
            let n = rv.len() as int;
            let week_start = week_start_of(day_start, days_from_monday);
            let sessions = group_upto(rv, sessions_of(rv), None, n);
            &&& r.all == acc_upto(rv, None, n)
            &&& r.today == acc_upto(rv, Some(day_start), n)
            &&& r.week == acc_upto(rv, Some(week_start), n)
            &&& lists_map(r.by_model@, group_upto(rv, models_of(rv), None, n))
            &&& sorted_by(r.by_model@, false)
            &&& lists_map(r.today_by_model@, group_upto(rv, models_of(rv), Some(day_start), n))
            &&& sorted_by(r.today_by_model@, false)
            &&& lists_map(r.by_day@, group_upto(rv, days_view(days@), None, n))
            &&& sorted_by(r.by_day@, true)
            &&& sorted_by(r.by_session@, false)
            &&& r.by_session@.len() <= 100
            &&& forall|i: int, j: int| 0 <= i < j < r.by_session@.len() ==> (#[trigger] r.by_session@[i]).0@ != (#[trigger] r.by_session@[j]).0@
            &&& forall|i: int| 0 <= i < r.by_session@.len() ==> sessions.contains_key((#[trigger] r.by_session@[i]).0@)
                && sessions[r.by_session@[i].0@] == r.by_session@[i].1
            &&& r.by_session@.len() < 100 ==> forall|k: Seq<char>| #[trigger] sessions.contains_key(k) ==> exists|i: int|
                0 <= i < r.by_session@.len() && (#[trigger] r.by_session@[i]).0@ == k
            &&& forall|k: Seq<char>, i: int| #[trigger] sessions.contains_key(k) && 0 <= i < r.by_session@.len() && (forall|j: int|
                0 <= j < r.by_session@.len() ==> (#[trigger] r.by_session@[j]).0@ != k) ==> acc_total(sessions[k]) <= acc_total(
                #[trigger] r.by_session@[i].1,
            )
        }),
{
    let ghost rv = reqs_view(reqs@);
    let week_start = day_start.wrapping_sub(days_from_monday.wrapping_mul(86_400_000));
    let mut all = Acc::zero();
    let mut today = Acc::zero();
    let mut week = Acc::zero();
    let mut by_model = Grouper::new();
    let mut today_by_model = Grouper::new();
    let mut by_day = Grouper::new();
    let mut by_session = Grouper::new();
    let mut i: usize = 0;
    while i < reqs.len()
        invariant
            i <= reqs@.len(),
            days@.len() == reqs@.len(),
            rv == reqs_view(reqs@),
            week_start == week_start_of(day_start, days_from_monday),
            all == acc_upto(rv, None, i as int),
            today == acc_upto(rv, Some(day_start), i as int),
            week == acc_upto(rv, Some(week_start), i as int),
            by_model.wf(),
            today_by_model.wf(),
            by_day.wf(),
            by_session.wf(),
            by_model.totals() == group_upto(rv, models_of(rv), None, i as int),
            today_by_model.totals() == group_upto(rv, models_of(rv), Some(day_start), i as int),
            by_day.totals() == group_upto(rv, days_view(days@), None, i as int),
            by_session.totals() == group_upto(rv, sessions_of(rv), None, i as int),
        decreases reqs.len() - i,
    {
        let q = &reqs[i];
        assert(rv[i as int] == q@);
        acc_add(&mut all, q);
        by_model.add(&q.model, q);
        by_day.add(&days[i], q);
        by_session.add(&q.session_id, q);
        if q.ts >= day_start {
            acc_add(&mut today, q);
            today_by_model.add(&q.model, q);
        }
        if q.ts >= week_start {
            acc_add(&mut week, q);
        }
        i = i + 1;
    }
    let ghost m_model = by_model.totals();
    let ghost m_today = today_by_model.totals();
    let ghost m_day = by_day.totals();
    let ghost m_session = by_session.totals();
    let l_model = by_model.into_list();
    let l_today = today_by_model.into_list();
    let l_day = by_day.into_list();
    let l_session = by_session.into_list();
    let s_model = sort_entries(&l_model, false);
    let s_today = sort_entries(&l_today, false);
    let s_day = sort_entries(&l_day, true);
    let mut s_session = sort_entries(&l_session, false);
    proof {
        lemma_sorted_lists(l_model@, s_model@, m_model);
        lemma_sorted_lists(l_today@, s_today@, m_today);
        lemma_sorted_lists(l_day@, s_day@, m_day);
        lemma_sorted_lists(l_session@, s_session@, m_session);
    }
    let ghost full = s_session@;
    s_session.truncate(100);
    proof {
        assert forall|k: Seq<char>, i: int| #[trigger] m_session.contains_key(k) && 0 <= i < s_session@.len() && (forall|j: int|
            0 <= j < s_session@.len() ==> (#[trigger] s_session@[j]).0@ != k) implies acc_total(m_session[k]) <= acc_total(
            #[trigger] s_session@[i].1,
        ) by {
            let f = choose|f: int| 0 <= f < full.len() && (#[trigger] full[f]).0@ == k;
            if f < s_session@.len() {
                assert(s_session@[f] == full[f]);
            }
            assert(full[i] == s_session@[i]);
            assert(!goes_before(entry_view(full[f]), entry_view(full[i]), false));
        }
        assert forall|i: int| 0 <= i < s_session@.len() implies m_session.contains_key((#[trigger] s_session@[i]).0@)
            && m_session[s_session@[i].0@] == s_session@[i].1 by {
            assert(s_session@[i] == full[i]);
        }
        assert forall|i: int, j: int| 0 <= i < j < s_session@.len() implies (#[trigger] s_session@[i]).0@ != (
        #[trigger] s_session@[j]).0@ by {
            assert(s_session@[i] == full[i]);
            assert(s_session@[j] == full[j]);
        }
        assert(sorted_by(s_session@, false)) by {
            assert forall|i: int, j: int| 0 <= i < j < s_session@.len() implies !goes_before(
                entry_view(#[trigger] s_session@[j]),
                entry_view(#[trigger] s_session@[i]),
                false,
            ) by {
                assert(s_session@[i] == full[i]);
                assert(s_session@[j] == full[j]);
            }
        }
        if s_session@.len() < 100 {
            assert(s_session@ == full);
        }
    }
    UsageReport {
        all,
        today,
        week,
        by_model: s_model,
        today_by_model: s_today,
        by_day: s_day,
        by_session: s_session,
    }
}

} // verus!
