//! Which session token the monitor uses, and the caches that sit in front of
//! token resolution and the network.
use vstd::prelude::*;

use crate::store::{active_of, desktop_id, has_account, is_desktop, without_id, AccountView, Store, StoreView};

verus! {

/// Where a resolved token came from.
#[derive(PartialEq, Eq, Structural)]
pub enum TokenSource {
    /// A saved account's token.
    Account,
    /// The token that Devin Desktop itself holds.
    Desktop,
}

/// What the caller did last while resolving the token.
pub enum ResolveEvent {
    /// Resolution begins.
    Start,
    /// The active saved account's token, decrypted (`None` when that failed).
    AccountToken(Option<String>),
    /// Devin Desktop's own session token (`None` when there is none).
    DesktopToken(Option<String>),
}

/// What the caller must do next.
pub enum ResolveStep {
    /// Decrypt the token of the saved account at this position.
    DecryptAccount(usize),
    /// Read Devin Desktop's own session token.
    ReadDesktop,
    /// Resolution is over, with this result.
    Done(Option<(String, TokenSource)>),
}

/// The first saved account with this id.
pub open spec fn first_with_id(accounts: Seq<AccountView>, id: Seq<char>, k: int) -> bool {
    &&& 0 <= k < accounts.len()
    &&& accounts[k].id == Some(id)
    &&& forall|j: int| 0 <= j < k ==> #[trigger] accounts[j].id != Some(id)
}

/// The first step of token resolution: a saved account is used when the active
/// choice is not the desktop and names a saved account; otherwise the desktop.
pub open spec fn start_step(s: StoreView, step: ResolveStep) -> bool {
    if active_of(s) != desktop_id() && has_account(s.accounts, active_of(s)) {
        (step matches ResolveStep::DecryptAccount(k) && first_with_id(s.accounts, active_of(s), k as int))
    } else {
        step is ReadDesktop
    }
}

/// One step of token resolution. The active saved account's token is tried
/// first; when there is none, or it cannot be decrypted, Devin Desktop's own
/// session token is used.
pub fn resolve_token(store: &Store, event: ResolveEvent) -> (r: ResolveStep)
    ensures
        event is Start ==> start_step(store@, r),
        event matches ResolveEvent::AccountToken(t) ==> (match t {
            Some(tok) => (r matches ResolveStep::Done(Some((x, src))) && x@ == tok@ && src == TokenSource::Account),
            None => r is ReadDesktop,
        }),
        event matches ResolveEvent::DesktopToken(t) ==> (match t {
            Some(tok) => (r matches ResolveStep::Done(Some((x, src))) && x@ == tok@ && src == TokenSource::Desktop),
            None => r matches ResolveStep::Done(None),
        }),
{
    match event {
        ResolveEvent::Start => {
            let active = store.active();
            if !is_desktop(&active) {
                match store.find_account(&active) {
                    Some(k) => ResolveStep::DecryptAccount(k),
                    None => ResolveStep::ReadDesktop,
                }
            } else {
                ResolveStep::ReadDesktop
            }
        },
        ResolveEvent::AccountToken(Some(t)) => ResolveStep::Done(Some((t, TokenSource::Account))),
        ResolveEvent::AccountToken(None) => ResolveStep::ReadDesktop,
        ResolveEvent::DesktopToken(Some(t)) => ResolveStep::Done(Some((t, TokenSource::Desktop))),
        ResolveEvent::DesktopToken(None) => ResolveStep::Done(None),
    }
}

/// Removing the active saved account hands token resolution back to the desktop.
pub proof fn law_remove_active_falls_back(before: StoreView, after: StoreView, id: Seq<char>, step: ResolveStep)
    requires
        before.active_id == Some(id),
        after.accounts == without_id(before.accounts, id),
        after.active_id == Some(desktop_id()),
        start_step(after, step),
    ensures
        step is ReadDesktop,
{
}

/// Once a saved account is selected, token resolution starts from the first
/// saved account with that id.
pub proof fn law_selected_account_is_used(s: StoreView, id: Seq<char>, step: ResolveStep)
    requires
        s.active_id == Some(id),
        id != desktop_id(),
        has_account(s.accounts, id),
        start_step(s, step),
    ensures
        (step matches ResolveStep::DecryptAccount(k) && s.accounts[k as int].id == Some(id)),
{
}

/// The cached result of token resolution.
pub struct TokenCacheEntry {
    /// The account generation the result was resolved under.
    pub generation: u64,
    /// Seconds since it was resolved.
    pub age_secs: u64,
    /// Whether a token was found.
    pub resolved: bool,
}

/// Whether the cached token must be resolved again: there is none, the
/// accounts changed since (another generation), no token was found, or it is
/// more than 30 seconds old.
pub fn token_cache_stale(cached: &Option<TokenCacheEntry>, generation: u64) -> (r: bool)
    ensures
        r == (match cached {
            None => true,
            Some(e) => e.generation != generation || !e.resolved || e.age_secs > 30,
        }),
{
    match cached {
        None => true,
        Some(e) => e.generation != generation || !e.resolved || e.age_secs > 30,
    }
}

/// Whether a cached per-account quota snapshot may be served: it is less than
/// a minute old.
pub fn status_cache_fresh(age_secs: u64) -> (r: bool)
    ensures
        r == (age_secs < 60),
{
    age_secs < 60
}

/// State shared by the commands: the account generation, which every account
/// change bumps, the last online results, and the per-account snapshots.
pub struct SharedCaches<Q, S> {
    pub token_generation: u64,
    pub online: Option<Q>,
    pub account_status: Vec<(String, S)>,
}

impl<Q, S> SharedCaches<Q, S> {
    pub fn new() -> (r: Self)
        ensures
            r.token_generation == 0,
            r.online is None,
            r.account_status@.len() == 0,
    {
        SharedCaches { token_generation: 0, online: None, account_status: Vec::new() }
    }

    /// After any account change: a new generation (the counter wraps, as an
    /// atomic `fetch_add` does), and the online results and per-account
    /// snapshots are dropped.
    pub fn bump_token(&mut self)
        ensures
            final(self).token_generation == vstd::wrapping::u64_specs::wrapping_add(old(self).token_generation, 1),
            final(self).online is None,
            final(self).account_status@.len() == 0,
    {
        self.token_generation = self.token_generation.wrapping_add(1);
        self.online = None;
        self.account_status = Vec::new();
    }
}

/// The latest online results.
pub struct OnlineEntry<Q, U> {
    pub quota: Option<Q>,
    pub online: Option<U>,
    pub fetched_at: Option<i64>,
}

/// Records one round of online fetching: when either result arrived, the entry
/// (created empty when there was none) takes each result that arrived and, when
/// `now` is given, that time; a round where both failed changes nothing.
pub fn record_online<Q, U>(entry: &mut Option<OnlineEntry<Q, U>>, quota: Option<Q>, usage: Option<U>, now: Option<i64>)
    ensures
        (quota is None && usage is None) ==> *final(entry) == *old(entry),
        !(quota is None && usage is None) ==> (*final(entry) matches Some(e) && ({
            let prev = match *old(entry) {
                Some(p) => p,
                None => (OnlineEntry { quota: None, online: None, fetched_at: None }),
            };
            &&& e.quota == (if quota is Some { quota } else { prev.quota })
            &&& e.online == (if usage is Some { usage } else { prev.online })
            &&& e.fetched_at == (if now is Some { now } else { prev.fetched_at })
        })),
{
    if quota.is_none() && usage.is_none() {
        return;
    }
    let prev = match entry.take() {
        Some(p) => p,
        None => OnlineEntry { quota: None, online: None, fetched_at: None },
    };
    let q = match quota {
        Some(q) => Some(q),
        None => prev.quota,
    };
    let u = match usage {
        Some(u) => Some(u),
        None => prev.online,
    };
    let t = match now {
        Some(t) => Some(t),
        None => prev.fetched_at,
    };
    *entry = Some(OnlineEntry { quota: q, online: u, fetched_at: t });
}

} // verus!

verus! {

/// Whose token the accounts page uses to look up an entry's quota.
pub enum StatusToken {
    /// Devin Desktop's own token (the desktop entry).
    Desktop,
    /// The token of the saved account at this position.
    Account(usize),
    /// No saved account has that id.
    Missing,
}

/// The token source for the accounts-page entry `id`: the desktop for the
/// desktop id, else the first saved account with that id.
pub fn status_token_source(store: &Store, id: &String) -> (r: StatusToken)
    ensures
        id@ == desktop_id() ==> r is Desktop,
        id@ != desktop_id() && has_account(store@.accounts, id@) ==> (r matches StatusToken::Account(k)
            && first_with_id(store@.accounts, id@, k as int)),
        id@ != desktop_id() && !has_account(store@.accounts, id@) ==> r is Missing,
{
    if is_desktop(id) {
        StatusToken::Desktop
    } else {
        match store.find_account(id) {
            Some(k) => StatusToken::Account(k),
            None => StatusToken::Missing,
        }
    }
}

/// What the accounts page shows for one entry.
pub enum StatusOutcome<Q> {
    /// No token was found for the entry.
    NoSession,
    /// The quota request failed.
    RequestFailed,
    /// The quota that came back.
    Quota(Q),
}

/// The entry's outcome: no session without a token, else the quota, or a
/// failed request when none came back.
pub fn status_outcome<Q>(token_found: bool, quota: Option<Q>) -> (r: StatusOutcome<Q>)
    ensures
        !token_found ==> r is NoSession,
        token_found && quota is None ==> r is RequestFailed,
        token_found && quota is Some ==> r == StatusOutcome::Quota(quota.unwrap()),
{
    if !token_found {
        StatusOutcome::NoSession
    } else {
        match quota {
            None => StatusOutcome::RequestFailed,
            Some(q) => StatusOutcome::Quota(q),
        }
    }
}

/// The snapshots, those under `id` left out.
pub open spec fn without_snapshot<S>(list: Seq<(String, S)>, id: Seq<char>) -> Seq<(String, S)>
    decreases list.len(),
{
    if list.len() == 0 {
        Seq::empty()
    } else {
        let rest = without_snapshot(list.drop_last(), id);
        if list.last().0@ == id {
            rest
        } else {
            rest.push(list.last())
        }
    }
}

/// The position of the first snapshot under `id`.
pub open spec fn first_snapshot<S>(list: Seq<(String, S)>, id: Seq<char>, k: int) -> bool {
    &&& 0 <= k < list.len()
    &&& list[k].0@ == id
    &&& forall|j: int| 0 <= j < k ==> #[trigger] list[j].0@ != id
}

impl<Q, S> SharedCaches<Q, S> {
    /// Where the snapshot under `id` is, if there is one.
    pub fn find_snapshot(&self, id: &str) -> (r: Option<usize>)
        ensures
            r is None <==> forall|j: int| 0 <= j < self.account_status@.len() ==> #[trigger] self.account_status@[j].0@ != id@,
            r matches Some(k) ==> first_snapshot(self.account_status@, id@, k as int),
    {
        let want = id.to_owned();
        let mut i: usize = 0;
        while i < self.account_status.len()
            invariant
                i <= self.account_status@.len(),
                want@ == id@,
                forall|j: int| 0 <= j < i ==> #[trigger] self.account_status@[j].0@ != id@,
            decreases self.account_status.len() - i,
        {
            if self.account_status[i].0 == want {
                return Some(i);
            }
            i = i + 1;
        }
        None
    }

    /// Drops the snapshot under `id`; the others stay, in order.
    pub fn drop_snapshot(&mut self, id: &str)
        ensures
            final(self).account_status@ == without_snapshot(old(self).account_status@, id@),
            final(self).token_generation == old(self).token_generation,
            final(self).online == old(self).online,
    {
        let want = id.to_owned();
        let mut rest: Vec<(String, S)> = Vec::new();
        std::mem::swap(&mut rest, &mut self.account_status);
        let ghost orig = rest@;
        let mut kept: Vec<(String, S)> = Vec::new();
        let ghost mut c: int = 0;
        proof {
            assert(orig.take(0) =~= Seq::<(String, S)>::empty());
            assert(orig.skip(0) =~= orig);
        }
        while rest.len() > 0
            invariant
                0 <= c <= orig.len(),
                want@ == id@,
                rest@ == orig.skip(c),
                kept@ == without_snapshot(orig.take(c), id@),
            decreases rest.len(),
        {
            let e = rest.remove(0);
            proof {
                assert(e == orig[c]);
                assert(orig.take(c + 1).drop_last() =~= orig.take(c));
                assert(orig.take(c + 1).last() == orig[c]);
                assert(rest@ =~= orig.skip(c + 1));
                c = c + 1;
            }
            if e.0 != want {
                kept.push(e);
            }
        }
        proof {
            assert(orig.take(c) =~= orig);
        }
        self.account_status = kept;
    }

    /// Keeps `snapshot` as the one under `id`, in place of any earlier one.
    pub fn put_snapshot(&mut self, id: String, snapshot: S)
        ensures
            final(self).account_status@ == without_snapshot(old(self).account_status@, id@).push((id, snapshot)),
            final(self).token_generation == old(self).token_generation,
            final(self).online == old(self).online,
    {
        self.drop_snapshot(id.as_str());
        self.account_status.push((id, snapshot));
    }
}

/// After an account change the cached token is resolved again: its
/// generation is no longer the current one.
pub proof fn law_bump_invalidates_token(entry: TokenCacheEntry, generation: u64)
    requires
        entry.generation == generation,
    ensures
        entry.generation != vstd::wrapping::u64_specs::wrapping_add(generation, 1),
{
}

} // verus!
