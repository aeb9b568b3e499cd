use devin_usage::store::{account_token_blob, desktop_text, is_desktop, new_account, Account, AccountError, Store};

fn acct(id: &str, label: &str) -> Account {
    Account {
        id: Some(id.to_string()),
        label: Some(label.to_string()),
        email: Some(format!("{label}@x.io")),
        user_id: None,
        token: None,
        added_at: Some(1),
        json: None,
    }
}

fn ids(s: &Store) -> Vec<Option<String>> {
    s.accounts.iter().map(|a| a.id.clone()).collect()
}

#[test]
fn empty_store_follows_desktop() {
    let s = Store::empty();
    assert_eq!(s.accounts.len(), 0);
    assert_eq!(s.active_id.as_deref(), Some("desktop"));
    assert_eq!(s.active(), "desktop");
}

#[test]
fn desktop_id_text() {
    assert_eq!(desktop_text(), "desktop");
    assert!(is_desktop(&"desktop".to_string()));
    assert!(!is_desktop(&"acc-1".to_string()));
}

#[test]
fn active_defaults_to_desktop_when_missing() {
    let s = Store { accounts: vec![], active_id: None };
    assert_eq!(s.active(), "desktop");
}

#[test]
fn find_account_first_match() {
    let s = Store { accounts: vec![acct("a", "x"), acct("b", "y"), acct("b", "z")], active_id: None };
    assert_eq!(s.find_account(&"b".to_string()), Some(1));
    assert_eq!(s.find_account(&"c".to_string()), None);
}

#[test]
fn select_existing_account() {
    let mut s = Store { accounts: vec![acct("a", "x")], active_id: None };
    assert!(s.select_account(&"a".to_string()).is_ok());
    assert_eq!(s.active(), "a");
    assert!(s.select_account(&"desktop".to_string()).is_ok());
    assert_eq!(s.active(), "desktop");
}

#[test]
fn select_missing_account_fails_unchanged() {
    let mut s = Store { accounts: vec![acct("a", "x")], active_id: Some("a".to_string()) };
    let r = s.select_account(&"zz".to_string());
    assert!(matches!(r, Err(AccountError::NoSuchAccount)));
    assert_eq!(s.active(), "a");
    assert_eq!(s.accounts.len(), 1);
}

#[test]
fn remove_active_account_falls_back() {
    let mut s = Store { accounts: vec![acct("a", "x"), acct("b", "y"), acct("a", "z")], active_id: Some("a".to_string()) };
    s.remove_account(&"a".to_string());
    assert_eq!(ids(&s), vec![Some("b".to_string())]);
    assert_eq!(s.active(), "desktop");
}

#[test]
fn remove_other_account_keeps_active() {
    let mut s = Store { accounts: vec![acct("a", "x"), acct("b", "y")], active_id: Some("a".to_string()) };
    s.remove_account(&"b".to_string());
    assert_eq!(ids(&s), vec![Some("a".to_string())]);
    assert_eq!(s.active(), "a");
}

#[test]
fn add_account_replaces_same_label() {
    let mut s = Store { accounts: vec![acct("a", "x"), acct("b", "y")], active_id: None };
    s.add_account(acct("c", "x"));
    assert_eq!(ids(&s), vec![Some("b".to_string()), Some("c".to_string())]);
    assert_eq!(s.active(), "c");
}

#[test]
fn account_list_marks_active() {
    let s = Store { accounts: vec![acct("a", "x"), acct("b", "y")], active_id: Some("b".to_string()) };
    let l = s.account_list();
    assert_eq!(l.len(), 3);
    assert_eq!(l[0].id.as_deref(), Some("desktop"));
    assert_eq!(l[0].label.as_deref(), Some("跟随 Devin 当前登录"));
    assert!(l[0].builtin);
    assert!(!l[0].active);
    assert_eq!(l[1].id.as_deref(), Some("a"));
    assert!(!l[1].active);
    assert!(!l[1].builtin);
    assert_eq!(l[2].id.as_deref(), Some("b"));
    assert_eq!(l[2].label.as_deref(), Some("y"));
    assert_eq!(l[2].email.as_deref(), Some("y@x.io"));
    assert!(l[2].active);
}

#[test]
fn account_list_desktop_active() {
    let s = Store::empty();
    let l = s.account_list();
    assert_eq!(l.len(), 1);
    assert!(l[0].active);
    assert_eq!(l[0].email, None);
}

#[test]
fn new_account_token_is_base64() {
    let a = new_account(
        "acc-1".to_string(),
        "me".to_string(),
        "me@x.io".to_string(),
        "u1".to_string(),
        &[1, 2, 3, 250],
        99,
    );
    assert_eq!(a.id.as_deref(), Some("acc-1"));
    assert_eq!(a.label.as_deref(), Some("me"));
    assert_eq!(a.email.as_deref(), Some("me@x.io"));
    assert_eq!(a.user_id.as_deref(), Some("u1"));
    assert_eq!(a.token.as_deref(), Some("AQID+g=="));
    assert_eq!(a.added_at, Some(99));
    assert_eq!(a.json, None);
}

#[test]
fn saved_token_reads_back() {
    let a = new_account(String::new(), String::new(), String::new(), String::new(), b"secret bytes", 0);
    assert_eq!(account_token_blob(&a), Some(b"secret bytes".to_vec()));
}

#[test]
fn token_blob_missing_or_invalid() {
    let mut a = acct("a", "x");
    assert_eq!(account_token_blob(&a), None);
    a.token = Some("not base64!".to_string());
    assert_eq!(account_token_blob(&a), None);
    a.token = Some("AQID".to_string());
    assert_eq!(account_token_blob(&a), Some(vec![1, 2, 3]));
}

#[test]
fn kept_accounts_keep_their_entry_text() {
    let mut a = acct("a", "x");
    a.json = Some("{\"id\":\"a\",\"extra\":1}".to_string());
    let mut s = Store { accounts: vec![a, acct("b", "y")], active_id: None };
    s.remove_account(&"b".to_string());
    s.add_account(acct("c", "z"));
    assert_eq!(s.accounts[0].json.as_deref(), Some("{\"id\":\"a\",\"extra\":1}"));
    assert_eq!(s.accounts[1].json, None);
}
