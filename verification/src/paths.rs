//! Where the monitor's files are: each path is a base directory (from the
//! environment) and the components joined under it.
use vstd::prelude::*;
use vstd::string::StringExecFns;

verus! {

/// A base directory and the components joined under it, in order.
pub struct PathSpec {
    pub base: String,
    pub parts: Vec<String>,
}

pub struct PathView {
    pub base: Seq<char>,
    pub parts: Seq<Seq<char>>,
}

impl View for PathSpec {
    type V = PathView;

    open spec fn view(&self) -> PathView {
        PathView { base: self.base@, parts: self.parts@.map_values(|p: String| p@) }
    }
}

fn under(base: String, parts: &[&str]) -> (r: PathSpec)
    ensures
        r@.base == base@,
        r@.parts == parts@.map_values(|p: &str| p@),
{
    let mut v: Vec<String> = Vec::new();
    let mut i: usize = 0;
    while i < parts.len()
        invariant
            i <= parts@.len(),
            v@.len() == i,
            forall|j: int| 0 <= j < i ==> #[trigger] v@[j]@ == parts@[j]@,
        decreases parts.len() - i,
    {
        let part = String::from_str(parts[i]);
        v.push(part);
        i = i + 1;
    }
    let r = PathSpec { base, parts: v };
    assert(r@.parts =~= parts@.map_values(|p: &str| p@));
    r
}

/// The sessions database under the roaming application data directory.
pub open spec fn roaming_db(roaming: Seq<char>) -> PathView {
    PathView { base: roaming, parts: seq!["devin"@, "cli"@, "sessions.db"@] }
}

/// The sessions database under the home directory's `.config`.
pub open spec fn home_db(home: Seq<char>) -> PathView {
    PathView { base: home, parts: seq![".config"@, "devin"@, "cli"@, "sessions.db"@] }
}

/// The places where the sessions database may be: first under the roaming
/// application data directory, then under `~/.config`.
pub fn db_candidates(roaming: String, home: String) -> (r: Vec<PathSpec>)
    ensures
        r@.len() == 2,
        r@[0]@ == roaming_db(roaming@),
        r@[1]@ == home_db(home@),
{
    let a = under(roaming, ["devin", "cli", "sessions.db"].as_slice());
    let b = under(home, [".config", "devin", "cli", "sessions.db"].as_slice());
    proof {
        assert(a@.parts =~= seq!["devin"@, "cli"@, "sessions.db"@]);
        assert(b@.parts =~= seq![".config"@, "devin"@, "cli"@, "sessions.db"@]);
    }
    let mut v = Vec::new();
    v.push(a);
    v.push(b);
    v
}

/// Index of the first `true` in `present` at or after `i`, or 0 when there
/// is none.
pub open spec fn first_present_from(present: Seq<bool>, i: int) -> int
    decreases present.len() - i,
{
    if i < 0 || i >= present.len() {
        0
    } else if present[i] {
        i
    } else {
        first_present_from(present, i + 1)
    }
}

fn first_present(present: &Vec<bool>) -> (k: usize)
    ensures
        k == first_present_from(present@, 0),
        present@.len() >= 1 ==> k < present@.len(),
{
    let mut i: usize = 0;
    while i < present.len()
        invariant
            i <= present@.len(),
            first_present_from(present@, 0) == first_present_from(present@, i as int),
        decreases present.len() - i,
    {
        if present[i] {
            return i;
        }
        i = i + 1;
    }
    0
}

/// The sessions database: the first candidate that exists (`present[i]` tells
/// whether candidate `i` does), or the first candidate when none does.
pub fn db_path(candidates: Vec<PathSpec>, present: &Vec<bool>) -> (r: PathSpec)
    requires
        candidates@.len() >= 1,
        present@.len() == candidates@.len(),
    ensures
        r@ == candidates@[first_present_from(present@, 0)]@,
{
    let k = first_present(present);
    let mut cs = candidates;
    cs.swap_remove(k)
}

/// The account store: `devin-usage/accounts.json` under the roaming
/// application data directory.
pub fn store_path(roaming: String) -> (r: PathSpec)
    ensures
        r@ == (PathView { base: roaming@, parts: seq!["devin-usage"@, "accounts.json"@] }),
{
    let r = under(roaming, ["devin-usage", "accounts.json"].as_slice());
    assert(r@.parts =~= seq!["devin-usage"@, "accounts.json"@]);
    r
}

/// The directory where the Devin CLI caches user statuses.
pub fn status_dir(local_appdata: String) -> (r: PathSpec)
    ensures
        r@ == (PathView { base: local_appdata@, parts: seq!["devin"@, "cli"@] }),
{
    let r = under(local_appdata, ["devin", "cli"].as_slice());
    assert(r@.parts =~= seq!["devin"@, "cli"@]);
    r
}

/// Devin Desktop's `Local State` file, which holds the protected master key.
pub fn local_state_path(roaming: String) -> (r: PathSpec)
    ensures
        r@ == (PathView { base: roaming@, parts: seq!["devin"@, "Local State"@] }),
{
    let r = under(roaming, ["devin", "Local State"].as_slice());
    assert(r@.parts =~= seq!["devin"@, "Local State"@]);
    r
}

/// Devin Desktop's `state.vscdb`, which holds its stored sign-in.
pub fn state_db_path(roaming: String) -> (r: PathSpec)
    ensures
        r@ == (PathView { base: roaming@, parts: seq!["devin"@, "User"@, "globalStorage"@, "state.vscdb"@] }),
{
    let r = under(roaming, ["devin", "User", "globalStorage", "state.vscdb"].as_slice());
    assert(r@.parts =~= seq!["devin"@, "User"@, "globalStorage"@, "state.vscdb"@]);
    r
}

} // verus!
