//! The online usage summary (the analytics the profile page shows): messages
//! and accepted lines over the last 30 days, by model, by day and by tool.
use vstd::hash_map::StringHashMap;
use vstd::prelude::*;
use vstd::string::StringExecFns;
use vstd::string::StringSliceAdditionalSpecFns;
use vstd::utf8::*;
use vstd::wrapping::u64_specs;

use crate::sort::{sort_ranked, stable_sorted, Ranked};
use crate::text::{lemma_lex_le_refl, lemma_lex_le_total, lemma_lex_le_trans, lex_le};

verus! {

/// One `cascadeRuns` row: its day, message count, model (`unknown` when
/// missing) and conversation id (empty when missing).
pub struct RunRow {
    pub day: String,
    pub messages: u64,
    pub model: String,
    pub cascade_id: String,
}

/// One `cascadeLines` row.
pub struct LineRow {
    pub day: String,
    pub lines_accepted: u64,
}

/// One `cascadeToolUsage` row (`OTHER` when the tool is missing).
pub struct ToolRow {
    pub tool: String,
    pub count: u64,
}

/// Messages per model, and on how many distinct days the model was used.
pub struct ModelUsage {
    pub model: String,
    pub messages: u64,
    pub days: usize,
}

/// Messages and accepted lines of one day; `label` is the day cut to its first
/// ten bytes when that is a character boundary.
pub struct DayUsage {
    pub day: String,
    pub label: String,
    pub messages: u64,
    pub lines: u64,
}

/// Uses of one tool, under its display label.
pub struct ToolUsage {
    pub label: String,
    pub key: String,
    pub count: u64,
}

/// The summary.
pub struct OnlineUsage {
    pub messages_sent: u64,
    pub conversations: usize,
    pub lines_accepted: u64,
    /// Most messages first.
    pub by_model: Vec<ModelUsage>,
    /// Earliest label first.
    pub by_day: Vec<DayUsage>,
    /// Most uses first; equal counts keep the order of the rows.
    pub tools: Vec<ToolUsage>,
}

impl Ranked for ModelUsage {
    open spec fn before(a: Self, b: Self) -> bool {
        a.messages > b.messages
    }

    proof fn lemma_rank(a: Self, b: Self, c: Self) {
    }

    fn ranks_before(&self, other: &Self) -> (r: bool) {
        self.messages > other.messages
    }
}

impl Ranked for ToolUsage {
    open spec fn before(a: Self, b: Self) -> bool {
        a.count > b.count
    }

    proof fn lemma_rank(a: Self, b: Self, c: Self) {
    }

    fn ranks_before(&self, other: &Self) -> (r: bool) {
        self.count > other.count
    }
}

impl Ranked for DayUsage {
    open spec fn before(a: Self, b: Self) -> bool {
        !lex_le(encode_utf8(b.label@), encode_utf8(a.label@))
    }

    proof fn lemma_rank(a: Self, b: Self, c: Self) {
        let ea = encode_utf8(a.label@);
        let eb = encode_utf8(b.label@);
        let ec = encode_utf8(c.label@);
        lemma_lex_le_refl(ea);
        lemma_lex_le_total(ea, eb);
        lemma_lex_le_total(eb, ec);
        lemma_lex_le_total(ea, ec);
        if lex_le(ec, ea) && lex_le(eb, ec) {
            lemma_lex_le_trans(eb, ec, ea);
        }
        if lex_le(ec, eb) && lex_le(eb, ea) {
            lemma_lex_le_trans(ec, eb, ea);
        }
    }

    fn ranks_before(&self, other: &Self) -> (r: bool) {
        !crate::text::bytes_le(other.label.as_str().as_bytes(), self.label.as_str().as_bytes())
    }
}

/// Messages of the first `n` runs (the sum wraps around modulo 2^64).
pub open spec fn messages_upto(runs: Seq<RunRow>, n: int) -> u64
    decreases n,
{
    if n <= 0 {
        0
    } else {
        u64_specs::wrapping_add(messages_upto(runs, n - 1), runs[n - 1].messages)
    }
}

/// Accepted lines of the first `n` line rows.
pub open spec fn lines_upto(lines: Seq<LineRow>, n: int) -> u64
    decreases n,
{
    if n <= 0 {
        0
    } else {
        u64_specs::wrapping_add(lines_upto(lines, n - 1), lines[n - 1].lines_accepted)
    }
}

/// Conversation ids of the first `n` runs.
pub open spec fn convs_upto(runs: Seq<RunRow>, n: int) -> Set<Seq<char>>
    decreases n,
{
    if n <= 0 {
        Set::empty()
    } else {
        convs_upto(runs, n - 1).insert(runs[n - 1].cascade_id@)
    }
}

/// The cascade ids of the first `n` runs, as a set.
pub open spec fn run_ids(runs: Seq<RunRow>, n: int) -> Set<Seq<char>> {
    Set::new(|c: Seq<char>| exists|i: int| 0 <= i < n && 0 <= i < runs.len() && #[trigger] runs[i].cascade_id@ == c)
}

/// The conversations are the distinct cascade ids of the runs: runs that
/// share an id count once, whatever their day, model or messages, and every
/// id counts; the set is finite and no larger than the number of runs.
pub proof fn law_conversations_are_distinct_ids(runs: Seq<RunRow>, n: int)
    requires
        0 <= n <= runs.len(),
    ensures
        convs_upto(runs, n) == run_ids(runs, n),
        convs_upto(runs, n).finite(),
        convs_upto(runs, n).len() <= n,
    decreases n,
{
    if n > 0 {
        law_conversations_are_distinct_ids(runs, n - 1);
        assert forall|c: Seq<char>| convs_upto(runs, n).contains(c) <==> run_ids(runs, n).contains(c) by {
            if run_ids(runs, n).contains(c) {
                let i = choose|i: int| 0 <= i < n && 0 <= i < runs.len() && #[trigger] runs[i].cascade_id@ == c;
                if i < n - 1 {
                    assert(run_ids(runs, n - 1).contains(c));
                }
            }
            if convs_upto(runs, n - 1).contains(c) {
                let i = choose|i: int| 0 <= i < n - 1 && 0 <= i < runs.len() && #[trigger] runs[i].cascade_id@ == c;
                assert(run_ids(runs, n).contains(c));
            }
            if c == runs[n - 1].cascade_id@ {
                assert(run_ids(runs, n).contains(c));
            }
        }
        assert(convs_upto(runs, n) =~= run_ids(runs, n));
    } else {
        assert(convs_upto(runs, n) =~= run_ids(runs, n));
    }
}

/// Per model, the messages and the set of days of the first `n` runs.
pub open spec fn models_upto(runs: Seq<RunRow>, n: int) -> Map<Seq<char>, (u64, Set<Seq<char>>)>
    decreases n,
{
    if n <= 0 {
        Map::empty()
    } else {
        let m = models_upto(runs, n - 1);
        let r = runs[n - 1];
        let old = if m.contains_key(r.model@) {
            m[r.model@]
        } else {
            (0u64, Set::empty())
        };
        m.insert(r.model@, (u64_specs::wrapping_add(old.0, r.messages), old.1.insert(r.day@)))
    }
}

/// Per day, the messages of the first `n` runs (lines still 0).
pub open spec fn days_after_runs(runs: Seq<RunRow>, n: int) -> Map<Seq<char>, (u64, u64)>
    decreases n,
{
    if n <= 0 {
        Map::empty()
    } else {
        let m = days_after_runs(runs, n - 1);
        let r = runs[n - 1];
        let old = if m.contains_key(r.day@) {
            m[r.day@]
        } else {
            (0u64, 0u64)
        };
        m.insert(r.day@, (u64_specs::wrapping_add(old.0, r.messages), old.1))
    }
}

/// Per day, the messages of all runs and the accepted lines of the first `n` line rows.
pub open spec fn days_upto(runs: Seq<RunRow>, lines: Seq<LineRow>, n: int) -> Map<Seq<char>, (u64, u64)>
    decreases n,
{
    if n <= 0 {
        days_after_runs(runs, runs.len() as int)
    } else {
        let m = days_upto(runs, lines, n - 1);
        let l = lines[n - 1];
        let old = if m.contains_key(l.day@) {
            m[l.day@]
        } else {
            (0u64, 0u64)
        };
        m.insert(l.day@, (old.0, u64_specs::wrapping_add(old.1, l.lines_accepted)))
    }
}

/// The label of a day: its UTF-8 cut to ten bytes when byte ten is a
/// character boundary, else the whole day.
pub open spec fn day_label_bytes(day: Seq<char>) -> Seq<u8> {
    let b = encode_utf8(day);
    if is_char_boundary(b, 10) {
        b.take(10)
    } else {
        b
    }
}

/// The display label of a tool key.
pub open spec fn tool_label(key: Seq<char>) -> Seq<char> {
    if key == "RUN_COMMAND"@ {
        "终端命令"@
    } else if key == "SEARCH_WEB"@ {
        "网页搜索"@
    } else if key == "VIEW_FILE"@ {
        "查看文件"@
    } else if key == "CODE_ACTION"@ {
        "代码编辑"@
    } else if key == "GREP_SEARCH"@ {
        "内容搜索"@
    } else if key == "ASK_USER_QUESTION"@ {
        "提问"@
    } else if key == "MCP_TOOL"@ {
        "MCP 调用"@
    } else if key == "PROXY_WEB_SERVER"@ {
        "浏览器预览"@
    } else if key == "DEEPWIKI"@ {
        "DeepWiki"@
    } else if key == "FIND"@ {
        "查找文件"@
    } else if key == "SKILL"@ {
        "技能"@
    } else if key == "OTHER"@ {
        "其他"@
    } else {
        key
    }
}

fn text_is(a: &String, lit: &str) -> (r: bool)
    ensures
        r == (a@ == lit@),
{
    let b = lit.to_owned();
    *a == b
}

/// The display label of a tool key (see [`tool_label`]).
pub fn tool_label_of(key: &String) -> (r: String)
    ensures
        r@ == tool_label(key@),
{
    if text_is(key, "RUN_COMMAND") {
        "终端命令".to_owned()
    } else if text_is(key, "SEARCH_WEB") {
        "网页搜索".to_owned()
    } else if text_is(key, "VIEW_FILE") {
        "查看文件".to_owned()
    } else if text_is(key, "CODE_ACTION") {
        "代码编辑".to_owned()
    } else if text_is(key, "GREP_SEARCH") {
        "内容搜索".to_owned()
    } else if text_is(key, "ASK_USER_QUESTION") {
        "提问".to_owned()
    } else if text_is(key, "MCP_TOOL") {
        "MCP 调用".to_owned()
    } else if text_is(key, "PROXY_WEB_SERVER") {
        "浏览器预览".to_owned()
    } else if text_is(key, "DEEPWIKI") {
        "DeepWiki".to_owned()
    } else if text_is(key, "FIND") {
        "查找文件".to_owned()
    } else if text_is(key, "SKILL") {
        "技能".to_owned()
    } else if text_is(key, "OTHER") {
        "其他".to_owned()
    } else {
        key.clone()
    }
}

/// The label of a day (see [`day_label_bytes`]).
pub fn day_label(day: &String) -> (r: String)
    ensures
        encode_utf8(r@) == day_label_bytes(day@),
{
    let s = day.as_str();
    proof {
        broadcast use vstd::utf8::encode_utf8_valid_utf8;
    }
    if s.is_char_boundary(10) {
        let (head, _) = s.split_at(10);
        proof {
            vstd::utf8::encode_utf8_decode_utf8(head@);
            assert(head.spec_bytes() == encode_utf8(head@));
        }
        head.to_owned()
    } else {
        day.clone()
    }
}

struct ModelGroups {
    entries: Vec<(String, u64, StringHashMap<bool>)>,
    index: StringHashMap<usize>,
}

impl ModelGroups {
    spec fn wf(&self) -> bool {
        &&& forall|k: Seq<char>| #[trigger] self.index@.contains_key(k) ==> self.index@[k] < self.entries@.len()
            && self.entries@[self.index@[k] as int].0@ == k
        &&& forall|i: int| 0 <= i < self.entries@.len() ==> self.index@.contains_key((#[trigger] self.entries@[i]).0@)
            && self.index@[self.entries@[i].0@] == i
    }

    spec fn totals(&self) -> Map<Seq<char>, (u64, Set<Seq<char>>)> {
        Map::new(
            |k: Seq<char>| self.index@.contains_key(k),
            |k: Seq<char>| (self.entries@[self.index@[k] as int].1, self.entries@[self.index@[k] as int].2@.dom()),
        )
    }

    fn add(&mut self, r: &RunRow)
        requires
            old(self).wf(),
        ensures
            final(self).wf(),
            final(self).totals() == ({
                let m = old(self).totals();
                let old_v = if m.contains_key(r.model@) {
                    m[r.model@]
                } else {
                    (0u64, Set::empty())
                };
                m.insert(r.model@, (u64_specs::wrapping_add(old_v.0, r.messages), old_v.1.insert(r.day@)))
            }),
    {
        let ghost m = self.totals();
        match self.index.get(r.model.as_str()) {
            Some(i) => {
                let i = *i;
                let (name, msgs, mut days) = self.entries.remove(i);
                days.insert(r.day.clone(), true);
                self.entries.insert(i, (name, msgs.wrapping_add(r.messages), days));
                proof {
                    assert forall|k: Seq<char>| #[trigger] self.index@.contains_key(k) implies self.index@[k] < self.entries@.len()
                        && self.entries@[self.index@[k] as int].0@ == k by {}
                }
                assert(self.totals() =~= m.insert(r.model@, (u64_specs::wrapping_add(m[r.model@].0, r.messages), m[r.model@].1.insert(r.day@))));
            },
            None => {
                let mut days: StringHashMap<bool> = StringHashMap::new();
                days.insert(r.day.clone(), true);
                let n = self.entries.len();
                self.index.insert(r.model.clone(), n);
                self.entries.push((r.model.clone(), 0u64.wrapping_add(r.messages), days));
                assert(Map::<Seq<char>, bool>::empty().insert(r.day@, true).dom() =~= Set::<Seq<char>>::empty().insert(r.day@));
                assert(self.totals() =~= m.insert(r.model@, (u64_specs::wrapping_add(0, r.messages), Set::<Seq<char>>::empty().insert(r.day@))));
            },
        }
    }
}

struct DayGroups {
    entries: Vec<(String, u64, u64)>,
    index: StringHashMap<usize>,
}

impl DayGroups {
    spec fn wf(&self) -> bool {
        &&& forall|k: Seq<char>| #[trigger] self.index@.contains_key(k) ==> self.index@[k] < self.entries@.len()
            && self.entries@[self.index@[k] as int].0@ == k
        &&& forall|i: int| 0 <= i < self.entries@.len() ==> self.index@.contains_key((#[trigger] self.entries@[i]).0@)
            && self.index@[self.entries@[i].0@] == i
    }

    spec fn totals(&self) -> Map<Seq<char>, (u64, u64)> {
        Map::new(
            |k: Seq<char>| self.index@.contains_key(k),
            |k: Seq<char>| (self.entries@[self.index@[k] as int].1, self.entries@[self.index@[k] as int].2),
        )
    }

    fn add(&mut self, day: &String, messages: u64, lines: u64)
        requires
            old(self).wf(),
        ensures
            final(self).wf(),
            final(self).totals() == ({
                let m = old(self).totals();
                let old_v = if m.contains_key(day@) {
                    m[day@]
                } else {
                    (0u64, 0u64)
                };
                m.insert(day@, (u64_specs::wrapping_add(old_v.0, messages), u64_specs::wrapping_add(old_v.1, lines)))
            }),
    {
        let ghost m = self.totals();
        match self.index.get(day.as_str()) {
            Some(i) => {
                let i = *i;
                let (k, a, b) = (self.entries[i].0.clone(), self.entries[i].1, self.entries[i].2);
                self.entries.set(i, (k, a.wrapping_add(messages), b.wrapping_add(lines)));
                assert(self.totals() =~= m.insert(day@, (u64_specs::wrapping_add(m[day@].0, messages), u64_specs::wrapping_add(m[day@].1, lines))));
            },
            None => {
                let n = self.entries.len();
                self.index.insert(day.clone(), n);
                self.entries.push((day.clone(), 0u64.wrapping_add(messages), 0u64.wrapping_add(lines)));
                assert(self.totals() =~= m.insert(day@, (u64_specs::wrapping_add(0, messages), u64_specs::wrapping_add(0, lines))));
            },
        }
    }
}

pub open spec fn tool_usage_of(t: ToolRow) -> (Seq<char>, Seq<char>, u64) {
    (tool_label(t.tool@), t.tool@, t.count)
}

/// The summary of the analytics rows (see the spec functions above): the
/// message and line totals, the number of distinct conversations, per-model
/// usage by messages, per-day usage by label, and tool usage by count.
pub fn online_usage(runs: &Vec<RunRow>, lines: &Vec<LineRow>, tools: &Vec<ToolRow>) -> (r: OnlineUsage)
    ensures
        r.messages_sent == messages_upto(runs@, runs@.len() as int),
        r.lines_accepted == lines_upto(lines@, lines@.len() as int),
        r.conversations == convs_upto(runs@, runs@.len() as int).len(),
        r.conversations == run_ids(runs@, runs@.len() as int).len(),
        exists|mapped: Seq<ModelUsage>, perm: Seq<int>, inv: Seq<int>|
            #![trigger stable_sorted(mapped, r.by_model@, perm, inv)]
            {
            let m = models_upto(runs@, runs@.len() as int);
            &&& stable_sorted(mapped, r.by_model@, perm, inv)
            &&& forall|i: int, j: int| 0 <= i < j < mapped.len() ==> (#[trigger] mapped[i]).model@ != (#[trigger] mapped[j]).model@
            &&& forall|i: int| 0 <= i < mapped.len() ==> m.contains_key((#[trigger] mapped[i]).model@)
                && mapped[i].messages == m[mapped[i].model@].0 && mapped[i].days == m[mapped[i].model@].1.len()
            &&& forall|k: Seq<char>| #[trigger] m.contains_key(k) ==> exists|i: int| 0 <= i < mapped.len() && (#[trigger] mapped[i]).model@ == k
        },
        exists|mapped: Seq<DayUsage>, perm: Seq<int>, inv: Seq<int>|
            #![trigger stable_sorted(mapped, r.by_day@, perm, inv)]
            {
            let m = days_upto(runs@, lines@, lines@.len() as int);
            &&& stable_sorted(mapped, r.by_day@, perm, inv)
            &&& forall|i: int, j: int| 0 <= i < j < mapped.len() ==> (#[trigger] mapped[i]).day@ != (#[trigger] mapped[j]).day@
            &&& forall|i: int| 0 <= i < mapped.len() ==> m.contains_key((#[trigger] mapped[i]).day@)
                && (mapped[i].messages, mapped[i].lines) == m[mapped[i].day@]
                && encode_utf8(mapped[i].label@) == day_label_bytes(mapped[i].day@)
            &&& forall|k: Seq<char>| #[trigger] m.contains_key(k) ==> exists|i: int| 0 <= i < mapped.len() && (#[trigger] mapped[i]).day@ == k
        },
        exists|mapped: Seq<ToolUsage>, perm: Seq<int>, inv: Seq<int>|
            #![trigger stable_sorted(mapped, r.tools@, perm, inv)]
            {
            &&& stable_sorted(mapped, r.tools@, perm, inv)
            &&& mapped.len() == tools@.len()
            &&& forall|i: int| 0 <= i < mapped.len() ==> ((#[trigger] mapped[i]).label@, mapped[i].key@, mapped[i].count) == tool_usage_of(tools@[i])
        },
{
    // totals and conversations
    let mut messages_sent: u64 = 0;
    let mut convs: StringHashMap<bool> = StringHashMap::new();
    let mut models = ModelGroups { entries: Vec::new(), index: StringHashMap::new() };
    let mut days = DayGroups { entries: Vec::new(), index: StringHashMap::new() };
    proof {
        assert(models.totals() =~= models_upto(runs@, 0));
        assert(days.totals() =~= days_after_runs(runs@, 0));
        assert(convs@.dom() =~= convs_upto(runs@, 0));
    }
    let mut i: usize = 0;
    while i < runs.len()
        invariant
            i <= runs@.len(),
            messages_sent == messages_upto(runs@, i as int),
            convs@.dom() == convs_upto(runs@, i as int),
            models.wf(),
            models.totals() == models_upto(runs@, i as int),
            days.wf(),
            days.totals() == days_after_runs(runs@, i as int),
        decreases runs.len() - i,
    {
        let r = &runs[i];
        messages_sent = messages_sent.wrapping_add(r.messages);
        convs.insert(r.cascade_id.clone(), true);
        models.add(r);
        days.add(&r.day, r.messages, 0);
        proof {
            let mm = days_after_runs(runs@, i as int);
            let old_v = if mm.contains_key(r.day@) { mm[r.day@] } else { (0u64, 0u64) };
            assert(u64_specs::wrapping_add(old_v.1, 0) == old_v.1);
        }
        i = i + 1;
    }
    let mut lines_accepted: u64 = 0;
    let mut j: usize = 0;
    while j < lines.len()
        invariant
            j <= lines@.len(),
            lines_accepted == lines_upto(lines@, j as int),
            days.wf(),
            days.totals() == days_upto(runs@, lines@, j as int),
        decreases lines.len() - j,
    {
        let l = &lines[j];
        lines_accepted = lines_accepted.wrapping_add(l.lines_accepted);
        days.add(&l.day, 0, l.lines_accepted);
        proof {
            let mm = days_upto(runs@, lines@, j as int);
            let old_v = if mm.contains_key(l.day@) { mm[l.day@] } else { (0u64, 0u64) };
            assert(u64_specs::wrapping_add(old_v.0, 0) == old_v.0);
        }
        j = j + 1;
    }
    let conversations = convs.len();
    proof {
        law_conversations_are_distinct_ids(runs@, runs@.len() as int);
    }
    proof {
        broadcast use vstd::hash_map::group_hash_map_axioms;
    }
    // per-model list
    let ghost mt = models.totals();
    let mut model_list: Vec<ModelUsage> = Vec::new();
    let mut k: usize = 0;
    while k < models.entries.len()
        invariant
            models.wf(),
            mt == models.totals(),
            k <= models.entries@.len(),
            model_list@.len() == k,
            forall|a: int| 0 <= a < k ==> (#[trigger] model_list@[a]).model@ == models.entries@[a].0@
                && model_list@[a].messages == models.entries@[a].1 && model_list@[a].days == models.entries@[a].2@.len(),
        decreases models.entries.len() - k,
    {
        let e = &models.entries[k];
        model_list.push(ModelUsage { model: e.0.clone(), messages: e.1, days: e.2.len() });
        k = k + 1;
    }
    let ghost mapped_models = model_list@;
    proof {
        assert forall|a: int, b: int| 0 <= a < b < mapped_models.len() implies (#[trigger] mapped_models[a]).model@
            != (#[trigger] mapped_models[b]).model@ by {
            assert(models.index@[models.entries@[a].0@] == a);
            assert(models.index@[models.entries@[b].0@] == b);
        }
        assert forall|a: int| 0 <= a < mapped_models.len() implies mt.contains_key((#[trigger] mapped_models[a]).model@)
            && mapped_models[a].messages == mt[mapped_models[a].model@].0 && mapped_models[a].days
            == mt[mapped_models[a].model@].1.len() by {
            assert(models.index@[models.entries@[a].0@] == a);
        }
        assert forall|key: Seq<char>| #[trigger] mt.contains_key(key) implies exists|a: int| 0 <= a < mapped_models.len()
            && (#[trigger] mapped_models[a]).model@ == key by {
            assert(mapped_models[models.index@[key] as int].model@ == key);
        }
    }
    let by_model = sort_ranked(model_list);
    // per-day list
    let ghost dt = days.totals();
    let mut day_list: Vec<DayUsage> = Vec::new();
    let mut d: usize = 0;
    while d < days.entries.len()
        invariant
            days.wf(),
            dt == days.totals(),
            d <= days.entries@.len(),
            day_list@.len() == d,
            forall|a: int| 0 <= a < d ==> (#[trigger] day_list@[a]).day@ == days.entries@[a].0@
                && day_list@[a].messages == days.entries@[a].1 && day_list@[a].lines == days.entries@[a].2
                && encode_utf8(day_list@[a].label@) == day_label_bytes(day_list@[a].day@),
        decreases days.entries.len() - d,
    {
        let e = &days.entries[d];
        day_list.push(DayUsage { day: e.0.clone(), label: day_label(&e.0), messages: e.1, lines: e.2 });
        d = d + 1;
    }
    let ghost mapped_days = day_list@;
    proof {
        assert forall|a: int, b: int| 0 <= a < b < mapped_days.len() implies (#[trigger] mapped_days[a]).day@
            != (#[trigger] mapped_days[b]).day@ by {
            assert(days.index@[days.entries@[a].0@] == a);
            assert(days.index@[days.entries@[b].0@] == b);
        }
        assert forall|a: int| 0 <= a < mapped_days.len() implies dt.contains_key((#[trigger] mapped_days[a]).day@)
            && (mapped_days[a].messages, mapped_days[a].lines) == dt[mapped_days[a].day@]
            && encode_utf8(mapped_days[a].label@) == day_label_bytes(mapped_days[a].day@) by {
            assert(days.index@[days.entries@[a].0@] == a);
        }
        assert forall|key: Seq<char>| #[trigger] dt.contains_key(key) implies exists|a: int| 0 <= a < mapped_days.len()
            && (#[trigger] mapped_days[a]).day@ == key by {
            assert(mapped_days[days.index@[key] as int].day@ == key);
        }
    }
    let by_day = sort_ranked(day_list);
    // tools
    let mut tool_list: Vec<ToolUsage> = Vec::new();
    let mut t: usize = 0;
    while t < tools.len()
        invariant
            t <= tools@.len(),
            tool_list@.len() == t,
            forall|a: int| 0 <= a < t ==> ((#[trigger] tool_list@[a]).label@, tool_list@[a].key@, tool_list@[a].count)
                == tool_usage_of(tools@[a]),
        decreases tools.len() - t,
    {
        let row = &tools[t];
        tool_list.push(ToolUsage { label: tool_label_of(&row.tool), key: row.tool.clone(), count: row.count });
        t = t + 1;
    }
    let ghost mapped_tools = tool_list@;
    let sorted_tools = sort_ranked(tool_list);
    let res = OnlineUsage {
        messages_sent,
        conversations,
        lines_accepted,
        by_model,
        by_day,
        tools: sorted_tools,
    };
    proof {
        let (p1, q1) = choose|p1: Seq<int>, q1: Seq<int>| stable_sorted(mapped_models, res.by_model@, p1, q1);
        assert(stable_sorted(mapped_models, res.by_model@, p1, q1));
        let (p2, q2) = choose|p2: Seq<int>, q2: Seq<int>| stable_sorted(mapped_days, res.by_day@, p2, q2);
        assert(stable_sorted(mapped_days, res.by_day@, p2, q2));
        let (p3, q3) = choose|p3: Seq<int>, q3: Seq<int>| stable_sorted(mapped_tools, res.tools@, p3, q3);
        assert(stable_sorted(mapped_tools, res.tools@, p3, q3));
    }
    res
}

} // verus!
