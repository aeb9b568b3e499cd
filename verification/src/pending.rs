//! Sign-ins in progress, keyed by their state parameter: the PKCE verifier
//! of each, and the code once the browser has delivered it.
use vstd::hash_map::StringHashMap;
use vstd::prelude::*;

verus! {

/// A sign-in waiting for its code.
pub struct PendingAuth {
    pub verifier: String,
    pub code: Option<String>,
}

pub struct PendingView {
    pub verifier: Seq<char>,
    pub code: Option<Seq<char>>,
}

impl View for PendingAuth {
    type V = PendingView;

    open spec fn view(&self) -> PendingView {
        PendingView {
            verifier: self.verifier@,
            code: match self.code {
                Some(c) => Some(c@),
                None => None,
            },
        }
    }
}

/// The sign-ins in progress: a map from state to pending sign-in.
pub struct PendingAuths {
    map: StringHashMap<PendingAuth>,
}

/// What polling a sign-in finds.
pub enum PollOutcome {
    /// No sign-in with that state is in progress (it expired, was cancelled,
    /// or was already completed).
    Expired,
    /// The browser has not delivered the code yet.
    Waiting,
    /// The code arrived; the sign-in is taken out of the map.
    Ready(PendingAuth),
}

impl View for PendingAuths {
    type V = Map<Seq<char>, PendingView>;

    closed spec fn view(&self) -> Map<Seq<char>, PendingView> {
        self.map@.map_values(|p: PendingAuth| p@)
    }
}

fn clone_pending(p: &PendingAuth) -> (r: PendingAuth)
    ensures
        r@ == p@,
{
    PendingAuth {
        verifier: p.verifier.clone(),
        code: match &p.code {
            Some(c) => Some(c.clone()),
            None => None,
        },
    }
}

impl PendingAuths {
    pub fn new() -> (r: Self)
        ensures
            r@ == Map::<Seq<char>, PendingView>::empty(),
    {
        let r = PendingAuths { map: StringHashMap::new() };
        assert(r@ =~= Map::<Seq<char>, PendingView>::empty());
        r
    }

    /// Records a new sign-in under `state`, waiting for its code (a sign-in
    /// already under that state is replaced).
    pub fn begin(&mut self, state: String, verifier: String)
        ensures
            final(self)@ == old(self)@.insert(state@, PendingView { verifier: verifier@, code: None }),
    {
        self.put(state, PendingAuth { verifier, code: None });
    }

    fn put(&mut self, state: String, p: PendingAuth)
        ensures
            final(self)@ == old(self)@.insert(state@, p@),
    {
        let ghost old_map = self.map@;
        let ghost key = state@;
        let ghost pv = p@;
        self.map.insert(state, p);
        assert(self@ =~= old_map.map_values(|q: PendingAuth| q@).insert(key, pv));
    }

    /// Whether a sign-in under `state` is in progress.
    pub fn contains(&self, state: &String) -> (r: bool)
        ensures
            r == self@.contains_key(state@),
    {
        self.map.contains_key(state.as_str())
    }

    /// Takes the sign-in under `state` out of the map, if there is one.
    pub fn take(&mut self, state: &String) -> (r: Option<PendingAuth>)
        ensures
            final(self)@ == old(self)@.remove(state@),
            r is Some <==> old(self)@.contains_key(state@),
            r matches Some(p) ==> p@ == old(self)@[state@],
    {
        let ghost old_map = self.map@;
        let found = match self.map.get(state.as_str()) {
            Some(p) => Some(clone_pending(p)),
            None => None,
        };
        self.map.remove(state.as_str());
        assert(self@ =~= old_map.map_values(|q: PendingAuth| q@).remove(state@));
        found
    }

    /// Records the code that the browser delivered for `state`; nothing
    /// happens when no sign-in under `state` is in progress.
    pub fn deliver_code(&mut self, state: &String, code: String)
        ensures
            old(self)@.contains_key(state@) ==> final(self)@ == old(self)@.insert(
                state@,
                PendingView { verifier: old(self)@[state@].verifier, code: Some(code@) },
            ),
            !old(self)@.contains_key(state@) ==> final(self)@ == old(self)@,
    {
        let ghost old_self = self@;
        if let Some(p) = self.take(state) {
            let q = PendingAuth { verifier: p.verifier, code: Some(code) };
            self.put(state.clone(), q);
            proof {
                assert(self@ =~= old_self.insert(state@, q@));
            }
        }
    }

    /// Polls the sign-in under `state`: `Expired` when there is none,
    /// `Waiting` until its code arrives, then `Ready`, which takes it out.
    pub fn poll(&mut self, state: &String) -> (r: PollOutcome)
        ensures
            !old(self)@.contains_key(state@) ==> r is Expired && final(self)@ == old(self)@,
            old(self)@.contains_key(state@) && old(self)@[state@].code is None ==> r is Waiting && final(self)@
                == old(self)@,
            old(self)@.contains_key(state@) && old(self)@[state@].code is Some ==> (r matches PollOutcome::Ready(p)
                && p@ == old(self)@[state@] && final(self)@ == old(self)@.remove(state@)),
    {
        let waiting = match self.map.get(state.as_str()) {
            None => return PollOutcome::Expired,
            Some(p) => p.code.is_none(),
        };
        if waiting {
            PollOutcome::Waiting
        } else {
            match self.take(state) {
                Some(p) => PollOutcome::Ready(p),
                None => PollOutcome::Expired,
            }
        }
    }
}

} // verus!

verus! {

/// A sign-in that was just begun is in progress and waits for its code, with
/// the verifier it was begun with.
pub proof fn law_begin_waits(
    before: Map<Seq<char>, PendingView>,
    after: Map<Seq<char>, PendingView>,
    state: Seq<char>,
    verifier: Seq<char>,
)
    requires
        after == before.insert(state, PendingView { verifier: verifier, code: None }),
    ensures
        after.contains_key(state),
        after[state].code is None,
        after[state].verifier == verifier,
{
}

/// The code delivered for a sign-in in progress is what polling then hands
/// back, together with the verifier the sign-in began with.
pub proof fn law_delivered_code_is_ready(
    before: Map<Seq<char>, PendingView>,
    after: Map<Seq<char>, PendingView>,
    state: Seq<char>,
    code: Seq<char>,
)
    requires
        before.contains_key(state),
        after == before.insert(state, PendingView { verifier: before[state].verifier, code: Some(code) }),
    ensures
        after.contains_key(state),
        after[state].code == Some(code),
        after[state].verifier == before[state].verifier,
{
}

/// A sign-in taken out (completed, cancelled, or handed back by a poll) is no
/// longer in progress: polling it again finds it expired, and delivering a
/// code for it changes nothing.
pub proof fn law_taken_is_gone(before: Map<Seq<char>, PendingView>, after: Map<Seq<char>, PendingView>, state: Seq<char>)
    requires
        after == before.remove(state),
    ensures
        !after.contains_key(state),
        forall|k: Seq<char>| k != state ==> (#[trigger] after.contains_key(k) <==> before.contains_key(k)),
{
}

} // verus!
