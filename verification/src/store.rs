//! The account store (`accounts.json`): saved accounts, the active choice, and
//! the operations that the sign-in, switch and remove commands apply to it.
use vstd::prelude::*;
use vstd::utf8::*;

use crate::codec::{b64_standard_decode, b64_standard_decoded, b64_standard_encode, b64_standard_encoded};

verus! {

/// One saved account. Each text field holds the JSON value when that value is a
/// string; the token is the base64 of the DPAPI-protected session token.
pub struct Account {
    pub id: Option<String>,
    pub label: Option<String>,
    pub email: Option<String>,
    pub user_id: Option<String>,
    pub token: Option<String>,
    pub added_at: Option<i64>,
    /// The account's entry as it was read from the file, as JSON text, so that
    /// fields this record does not model are written back unchanged.
    pub json: Option<String>,
}

/// The store: saved accounts in file order, and `activeId` when it is a string.
pub struct Store {
    pub accounts: Vec<Account>,
    pub active_id: Option<String>,
}

pub struct AccountView {
    pub id: Option<Seq<char>>,
    pub label: Option<Seq<char>>,
    pub email: Option<Seq<char>>,
    pub user_id: Option<Seq<char>>,
    pub token: Option<Seq<char>>,
    pub added_at: Option<i64>,
    pub json: Option<Seq<char>>,
}

pub struct StoreView {
    pub accounts: Seq<AccountView>,
    pub active_id: Option<Seq<char>>,
}

pub open spec fn text_view(t: Option<String>) -> Option<Seq<char>> {
    match t {
        Some(s) => Some(s@),
        None => None,
    }
}

impl View for Account {
    type V = AccountView;

    open spec fn view(&self) -> AccountView {
        AccountView {
            id: text_view(self.id),
            label: text_view(self.label),
            email: text_view(self.email),
            user_id: text_view(self.user_id),
            token: text_view(self.token),
            added_at: self.added_at,
            json: text_view(self.json),
        }
    }
}

pub open spec fn accounts_view(s: Seq<Account>) -> Seq<AccountView> {
    s.map_values(|a: Account| a@)
}

impl View for Store {
    type V = StoreView;

    open spec fn view(&self) -> StoreView {
        StoreView { accounts: accounts_view(self.accounts@), active_id: text_view(self.active_id) }
    }
}

/// The id that stands for "follow the account Devin itself is signed in with".
pub open spec fn desktop_id() -> Seq<char> {
    seq!['d', 'e', 's', 'k', 't', 'o', 'p']
}

/// The active choice: `activeId`, or the desktop when it is missing.
pub open spec fn active_of(s: StoreView) -> Seq<char> {
    match s.active_id {
        Some(a) => a,
        None => desktop_id(),
    }
}

/// Whether any saved account has this id.
pub open spec fn has_account(accounts: Seq<AccountView>, id: Seq<char>) -> bool {
    exists|j: int| 0 <= j < accounts.len() && #[trigger] accounts[j].id == Some(id)
}

/// The accounts whose id is not `id`, in order.
pub open spec fn without_id(accounts: Seq<AccountView>, id: Seq<char>) -> Seq<AccountView>
    decreases accounts.len(),
{
    if accounts.len() == 0 {
        Seq::empty()
    } else {
        let rest = without_id(accounts.drop_last(), id);
        if accounts.last().id == Some(id) {
            rest
        } else {
            rest.push(accounts.last())
        }
    }
}

/// The accounts whose label is not `label`, in order.
pub open spec fn without_label(accounts: Seq<AccountView>, label: Seq<char>) -> Seq<AccountView>
    decreases accounts.len(),
{
    if accounts.len() == 0 {
        Seq::empty()
    } else {
        let rest = without_label(accounts.drop_last(), label);
        if accounts.last().label == Some(label) {
            rest
        } else {
            rest.push(accounts.last())
        }
    }
}

pub proof fn lemma_without_id(accounts: Seq<AccountView>, id: Seq<char>)
    ensures
        forall|j: int| 0 <= j < without_id(accounts, id).len() ==> #[trigger] without_id(accounts, id)[j].id != Some(id),
        forall|a: AccountView| without_id(accounts, id).contains(a) <==> (accounts.contains(a) && a.id != Some(id)),
    decreases accounts.len(),
{
    if accounts.len() > 0 {
        lemma_without_id(accounts.drop_last(), id);
        assert forall|a: AccountView| accounts.contains(a) <==> (accounts.drop_last().contains(a) || a == accounts.last()) by {
            if accounts.contains(a) {
                let k = choose|k: int| 0 <= k < accounts.len() && accounts[k] == a;
                if k < accounts.len() - 1 {
                    assert(accounts.drop_last()[k] == a);
                }
            }
            if accounts.drop_last().contains(a) {
                let k = choose|k: int| 0 <= k < accounts.drop_last().len() && accounts.drop_last()[k] == a;
                assert(accounts[k] == a);
            }
            if a == accounts.last() {
                assert(accounts[accounts.len() - 1] == a);
            }
        }
        let rest = without_id(accounts.drop_last(), id);
        assert forall|a: AccountView| rest.push(accounts.last()).contains(a) <==> (rest.contains(a) || a == accounts.last()) by {
            if rest.push(accounts.last()).contains(a) {
                let k = choose|k: int| 0 <= k < rest.len() + 1 && rest.push(accounts.last())[k] == a;
                if k < rest.len() {
                    assert(rest[k] == a);
                }
            }
            if rest.contains(a) {
                let k = choose|k: int| 0 <= k < rest.len() && rest[k] == a;
                assert(rest.push(accounts.last())[k] == a);
            }
            if a == accounts.last() {
                assert(rest.push(accounts.last())[rest.len() as int] == a);
            }
        }
    }
}

pub proof fn lemma_without_label(accounts: Seq<AccountView>, label: Seq<char>)
    ensures
        forall|j: int| 0 <= j < without_label(accounts, label).len() ==> #[trigger] without_label(accounts, label)[j].label != Some(label),
    decreases accounts.len(),
{
    if accounts.len() > 0 {
        lemma_without_label(accounts.drop_last(), label);
    }
}

/// Whether `s` is the desktop id.
pub fn is_desktop(s: &String) -> (r: bool)
    ensures
        r == (s@ == desktop_id()),
{
    let d = desktop_text();
    *s == d
}

/// The desktop id as a string.
pub fn desktop_text() -> (r: String)
    ensures
        r@ == desktop_id(),
{
    let mut d = String::new();
    crate::text::push_char(&mut d, 'd');
    crate::text::push_char(&mut d, 'e');
    crate::text::push_char(&mut d, 's');
    crate::text::push_char(&mut d, 'k');
    crate::text::push_char(&mut d, 't');
    crate::text::push_char(&mut d, 'o');
    crate::text::push_char(&mut d, 'p');
    assert(d@ =~= desktop_id());
    d
}

fn opt_eq(a: &Option<String>, b: &String) -> (r: bool)
    ensures
        r == (text_view(*a) == Some(b@)),
{
    match a {
        Some(x) => *x == *b,
        None => false,
    }
}

fn clone_text(t: &Option<String>) -> (r: Option<String>)
    ensures
        text_view(r) == text_view(*t),
{
    match t {
        Some(s) => Some(s.clone()),
        None => None,
    }
}

fn clone_account(a: &Account) -> (r: Account)
    ensures
        r@ == a@,
{
    Account {
        id: clone_text(&a.id),
        label: clone_text(&a.label),
        email: clone_text(&a.email),
        user_id: clone_text(&a.user_id),
        token: clone_text(&a.token),
        added_at: a.added_at,
        json: clone_text(&a.json),
    }
}

impl Store {
    /// The store that a missing or unreadable file stands for: no accounts,
    /// following the desktop.
    pub fn empty() -> (r: Store)
        ensures
            r@.accounts.len() == 0,
            r@.active_id == Some(desktop_id()),
    {
        let s = Store { accounts: Vec::new(), active_id: Some(desktop_text()) };
        assert(s@.accounts =~= Seq::<AccountView>::empty());
        s
    }

    /// The active choice (`activeId`, or the desktop when it is missing).
    pub fn active(&self) -> (r: String)
        ensures
            r@ == active_of(self@),
    {
        match &self.active_id {
            Some(a) => a.clone(),
            None => desktop_text(),
        }
    }

    /// Position of the first saved account with this id.
    pub fn find_account(&self, id: &String) -> (r: Option<usize>)
        ensures
            r is None <==> !has_account(self@.accounts, id@),
            r matches Some(k) ==> k < self@.accounts.len() && self@.accounts[k as int].id == Some(id@)
                && (forall|j: int| 0 <= j < k ==> #[trigger] self@.accounts[j].id != Some(id@)),
    {
        let mut i: usize = 0;
        while i < self.accounts.len()
            invariant
                i <= self.accounts.len(),
                forall|j: int| 0 <= j < i ==> #[trigger] self@.accounts[j].id != Some(id@),
            decreases self.accounts.len() - i,
        {
            if opt_eq(&self.accounts[i].id, id) {
                return Some(i);
            }
            i = i + 1;
        }
        None
    }

    /// Makes `id` the active choice (the desktop, or a saved account). Fails,
    /// leaving the store as it was, when no saved account has that id.
    pub fn select_account(&mut self, id: &String) -> (r: Result<(), AccountError>)
        ensures
            r is Ok <==> (id@ == desktop_id() || has_account(old(self)@.accounts, id@)),
            r is Ok ==> final(self)@ == (StoreView { accounts: old(self)@.accounts, active_id: Some(id@) }),
            r is Err ==> final(self)@ == old(self)@ && r == Err::<(), AccountError>(AccountError::NoSuchAccount),
    {
        if !is_desktop(id) && self.find_account(id).is_none() {
            return Err(AccountError::NoSuchAccount);
        }
        self.active_id = Some(id.clone());
        Ok(())
    }

    /// Removes every saved account with this id; when it was the active choice,
    /// the desktop becomes active.
    pub fn remove_account(&mut self, id: &String)
        ensures
            final(self)@.accounts == without_id(old(self)@.accounts, id@),
            final(self)@.active_id == (if old(self)@.active_id == Some(id@) {
                Some(desktop_id())
            } else {
                old(self)@.active_id
            }),
    {
        let mut kept: Vec<Account> = Vec::new();
        let mut i: usize = 0;
        while i < self.accounts.len()
            invariant
                i <= self.accounts.len(),
                self.accounts@ == old(self).accounts@,
                accounts_view(kept@) == without_id(accounts_view(self.accounts@).take(i as int), id@),
            decreases self.accounts.len() - i,
        {
            let ghost before = kept@;
            proof {
                assert(accounts_view(self.accounts@).take(i + 1).drop_last() =~= accounts_view(self.accounts@).take(i as int));
            }
            if !opt_eq(&self.accounts[i].id, id) {
                kept.push(clone_account(&self.accounts[i]));
                assert(accounts_view(kept@) =~= accounts_view(before).push(self.accounts@[i as int]@));
            }
            i = i + 1;
        }
        assert(accounts_view(self.accounts@).take(self.accounts.len() as int) =~= accounts_view(self.accounts@));
        self.accounts = kept;
        if opt_eq(&self.active_id, id) {
            self.active_id = Some(desktop_text());
        }
    }

    /// Saves a newly signed-in account: drops saved accounts with the same
    /// label, appends the new one, and makes it active.
    pub fn add_account(&mut self, acct: Account)
        requires
            acct.id is Some,
            acct.label is Some,
        ensures
            final(self)@.accounts == without_label(old(self)@.accounts, acct@.label.unwrap()).push(acct@),
            final(self)@.active_id == acct@.id,
    {
        let label = match &acct.label {
            Some(l) => l.clone(),
            None => String::new(),
        };
        let mut kept: Vec<Account> = Vec::new();
        let mut i: usize = 0;
        while i < self.accounts.len()
            invariant
                i <= self.accounts.len(),
                self.accounts@ == old(self).accounts@,
                label@ == acct@.label.unwrap(),
                accounts_view(kept@) == without_label(accounts_view(self.accounts@).take(i as int), label@),
            decreases self.accounts.len() - i,
        {
            let ghost before = kept@;
            proof {
                assert(accounts_view(self.accounts@).take(i + 1).drop_last() =~= accounts_view(self.accounts@).take(i as int));
            }
            if !opt_eq(&self.accounts[i].label, &label) {
                kept.push(clone_account(&self.accounts[i]));
                assert(accounts_view(kept@) =~= accounts_view(before).push(self.accounts@[i as int]@));
            }
            i = i + 1;
        }
        assert(accounts_view(self.accounts@).take(self.accounts.len() as int) =~= accounts_view(self.accounts@));
        self.active_id = clone_text(&acct.id);
        let ghost before = kept@;
        kept.push(acct);
        assert(accounts_view(kept@) =~= accounts_view(before).push(kept@.last()@));
        self.accounts = kept;
    }

    /// The list shown on the accounts page: the desktop entry first, then each
    /// saved account in order, each marked active when it is the active choice.
    pub fn account_list(&self) -> (r: Vec<AccountEntry>)
        ensures
            r@.len() == self@.accounts.len() + 1,
            r@[0]@ == desktop_entry(active_of(self@) == desktop_id()),
            forall|j: int| 0 <= j < self@.accounts.len() ==> #[trigger] r@[j + 1]@ == saved_entry(
                self@.accounts[j],
                active_of(self@),
            ),
            forall|j: int| 0 <= j < self@.accounts.len() ==> {
                let e = #[trigger] r@[j + 1]@;
                let a = self@.accounts[j];
                &&& e.id == a.id
                &&& e.label == a.label
                &&& e.email == a.email
                &&& !e.builtin
                &&& e.active == (a.id == Some(active_of(self@)))
            },
    {
        let active = self.active();
        let mut out: Vec<AccountEntry> = Vec::new();
        out.push(AccountEntry {
            id: Some(desktop_text()),
            label: Some(desktop_label()),
            email: None,
            builtin: true,
            active: is_desktop(&active),
        });
        let mut i: usize = 0;
        while i < self.accounts.len()
            invariant
                i <= self.accounts.len(),
                active@ == active_of(self@),
                out@.len() == i + 1,
                out@[0]@ == desktop_entry(active_of(self@) == desktop_id()),
                forall|j: int| 0 <= j < i ==> #[trigger] out@[j + 1]@ == saved_entry(self@.accounts[j], active_of(self@)),
            decreases self.accounts.len() - i,
        {
            let a = &self.accounts[i];
            out.push(AccountEntry {
                id: clone_text(&a.id),
                label: clone_text(&a.label),
                email: clone_text(&a.email),
                builtin: false,
                active: opt_eq(&a.id, &active),
            });
            i = i + 1;
        }
        proof {
            assert forall|j: int| 0 <= j < self@.accounts.len() implies {
                let e = #[trigger] out@[j + 1]@;
                let a = self@.accounts[j];
                &&& e.id == a.id
                &&& e.label == a.label
                &&& e.email == a.email
                &&& !e.builtin
                &&& e.active == (a.id == Some(active_of(self@)))
            } by {
                law_saved_entry_keeps_account(self@.accounts[j], active_of(self@), active_of(self@));
            }
        }
        out
    }
}

/// Why an account operation was refused.
pub enum AccountError {
    NoSuchAccount,
}

/// One line of the account list.
pub struct AccountEntry {
    pub id: Option<String>,
    pub label: Option<String>,
    pub email: Option<String>,
    /// The desktop entry, which stands for no saved account.
    pub builtin: bool,
    pub active: bool,
}

pub struct AccountEntryView {
    pub id: Option<Seq<char>>,
    pub label: Option<Seq<char>>,
    pub email: Option<Seq<char>>,
    pub builtin: bool,
    pub active: bool,
}

impl View for AccountEntry {
    type V = AccountEntryView;

    open spec fn view(&self) -> AccountEntryView {
        AccountEntryView {
            id: text_view(self.id),
            label: text_view(self.label),
            email: text_view(self.email),
            builtin: self.builtin,
            active: self.active,
        }
    }
}

/// The label of the desktop entry: "follow Devin's current sign-in".
pub open spec fn desktop_label_text() -> Seq<char> {
    seq!['跟', '随', ' ', 'D', 'e', 'v', 'i', 'n', ' ', '当', '前', '登', '录']
}

pub open spec fn desktop_entry(active: bool) -> AccountEntryView {
    AccountEntryView {
        id: Some(desktop_id()),
        label: Some(desktop_label_text()),
        email: None,
        builtin: true,
        active: active,
    }
}

pub open spec fn saved_entry(a: AccountView, active: Seq<char>) -> AccountEntryView {
    AccountEntryView { id: a.id, label: a.label, email: a.email, builtin: false, active: a.id == Some(active) }
}

/// A saved account's entry carries its id, label and email unchanged, is not
/// the built-in entry, and is marked active exactly when its id is the active
/// choice; which account is active changes nothing but that mark.
pub proof fn law_saved_entry_keeps_account(a: AccountView, active: Seq<char>, other: Seq<char>)
    ensures
        saved_entry(a, active).id == a.id,
        saved_entry(a, active).label == a.label,
        saved_entry(a, active).email == a.email,
        !saved_entry(a, active).builtin,
        saved_entry(a, active).active == (a.id == Some(active)),
        saved_entry(a, active).id == saved_entry(a, other).id,
        saved_entry(a, active).label == saved_entry(a, other).label,
        saved_entry(a, active).email == saved_entry(a, other).email,
{
}

fn desktop_label() -> (r: String)
    ensures
        r@ == desktop_label_text(),
{
    let mut s = String::new();
    crate::text::push_char(&mut s, '跟');
    crate::text::push_char(&mut s, '随');
    crate::text::push_char(&mut s, ' ');
    crate::text::push_char(&mut s, 'D');
    crate::text::push_char(&mut s, 'e');
    crate::text::push_char(&mut s, 'v');
    crate::text::push_char(&mut s, 'i');
    crate::text::push_char(&mut s, 'n');
    crate::text::push_char(&mut s, ' ');
    crate::text::push_char(&mut s, '当');
    crate::text::push_char(&mut s, '前');
    crate::text::push_char(&mut s, '登');
    crate::text::push_char(&mut s, '录');
    assert(s@ =~= desktop_label_text());
    s
}

/// A newly signed-in account; its token is the base64 of `protected_token`
/// (the DPAPI-protected session token).
pub fn new_account(
    id: String,
    label: String,
    email: String,
    user_id: String,
    protected_token: &[u8],
    added_at: i64,
) -> (r: Account)
    requires
        protected_token@.len() <= usize::MAX / 2,
    ensures
        r@ == (AccountView {
            id: Some(id@),
            label: Some(label@),
            email: Some(email@),
            user_id: Some(user_id@),
            token: Some(b64_standard_encoded(protected_token@)),
            added_at: Some(added_at),
            json: None,
        }),
        b64_standard_decoded(encode_utf8(b64_standard_encoded(protected_token@))) == Some(protected_token@),
{
    let token = b64_standard_encode(protected_token);
    Account {
        id: Some(id),
        label: Some(label),
        email: Some(email),
        user_id: Some(user_id),
        token: Some(token),
        added_at: Some(added_at),
        json: None,
    }
}

/// The DPAPI-protected token of a saved account: its token field decoded from
/// base64 (`None` when the field is missing or is not base64).
pub fn account_token_blob(acct: &Account) -> (r: Option<Vec<u8>>)
    ensures
        r is Some <==> (acct@.token matches Some(t) && b64_standard_decoded(encode_utf8(t)) is Some),
        r matches Some(b) ==> acct@.token matches Some(t) && b64_standard_decoded(encode_utf8(t)) == Some(b@),
{
    match &acct.token {
        Some(t) => b64_standard_decode(t.as_str().as_bytes()),
        None => None,
    }
}

} // verus!

verus! {

/// Removing an account by id leaves no saved account with that id, keeps every
/// other account, and a store that followed it falls back to the desktop.
pub proof fn law_remove_account(before: StoreView, after: StoreView, id: Seq<char>)
    requires
        after.accounts == without_id(before.accounts, id),
        after.active_id == (if before.active_id == Some(id) {
            Some(desktop_id())
        } else {
            before.active_id
        }),
    ensures
        !has_account(after.accounts, id),
        forall|a: AccountView| #[trigger] before.accounts.contains(a) && a.id != Some(id) ==> after.accounts.contains(a),
        active_of(after) != id || id == desktop_id(),
{
    lemma_without_id(before.accounts, id);
}

/// After a sign-in is saved, exactly one saved account carries its label (the
/// new one, last), and it is the active choice.
pub proof fn law_add_account(before: StoreView, after: StoreView, acct: AccountView)
    requires
        acct.id is Some,
        acct.label is Some,
        after.accounts == without_label(before.accounts, acct.label.unwrap()).push(acct),
        after.active_id == acct.id,
    ensures
        after.accounts.last() == acct,
        forall|j: int| 0 <= j < after.accounts.len() - 1 ==> (#[trigger] after.accounts[j]).label != acct.label,
        active_of(after) == acct.id.unwrap(),
{
    lemma_without_label(before.accounts, acct.label.unwrap());
    let rest = without_label(before.accounts, acct.label.unwrap());
    assert forall|j: int| 0 <= j < after.accounts.len() - 1 implies (#[trigger] after.accounts[j]).label != acct.label by {
        assert(after.accounts[j] == rest[j]);
    }
}

/// Selecting an account that exists (or the desktop) makes it the active choice.
pub proof fn law_select_account(before: StoreView, after: StoreView, id: Seq<char>)
    requires
        after == (StoreView { accounts: before.accounts, active_id: Some(id) }),
    ensures
        active_of(after) == id,
        after.accounts == before.accounts,
{
}

/// The token saved with a new account reads back as the protected bytes it
/// was saved from.
pub proof fn law_saved_token_reads_back(acct: AccountView, protected: Seq<u8>, blob: Option<Seq<u8>>)
    requires
        acct.token == Some(b64_standard_encoded(protected)),
        b64_standard_decoded(encode_utf8(b64_standard_encoded(protected))) == Some(protected),
        blob is Some <==> (acct.token matches Some(t) && b64_standard_decoded(encode_utf8(t)) is Some),
        blob matches Some(b) ==> acct.token matches Some(t) && b64_standard_decoded(encode_utf8(t)) == Some(b),
    ensures
        blob == Some(protected),
{
}

} // verus!
