use devin_usage::store::{Account, Store};
use devin_usage::tokens::{
    record_online, resolve_token, status_cache_fresh, status_outcome, status_token_source, token_cache_stale, OnlineEntry,
    ResolveEvent, ResolveStep, SharedCaches, StatusOutcome, StatusToken, TokenCacheEntry, TokenSource,
};

fn acct(id: &str) -> Account {
    Account {
        id: Some(id.to_string()),
        label: Some(id.to_string()),
        email: None,
        user_id: None,
        token: Some("AQID".to_string()),
        added_at: None,
        json: None,
    }
}

fn store(active: Option<&str>) -> Store {
    Store { accounts: vec![acct("a"), acct("b")], active_id: active.map(|s| s.to_string()) }
}

#[test]
fn start_with_saved_account_decrypts_it() {
    assert!(matches!(resolve_token(&store(Some("b")), ResolveEvent::Start), ResolveStep::DecryptAccount(1)));
}

#[test]
fn start_with_desktop_reads_desktop() {
    assert!(matches!(resolve_token(&store(Some("desktop")), ResolveEvent::Start), ResolveStep::ReadDesktop));
    assert!(matches!(resolve_token(&store(None), ResolveEvent::Start), ResolveStep::ReadDesktop));
}

#[test]
fn start_with_unknown_active_reads_desktop() {
    assert!(matches!(resolve_token(&store(Some("gone")), ResolveEvent::Start), ResolveStep::ReadDesktop));
}

#[test]
fn account_token_finishes() {
    match resolve_token(&store(Some("a")), ResolveEvent::AccountToken(Some("tok".to_string()))) {
        ResolveStep::Done(Some((t, src))) => {
            assert_eq!(t, "tok");
            assert!(src == TokenSource::Account);
        }
        _ => panic!("expected the account token"),
    }
}

#[test]
fn failed_account_token_falls_back_to_desktop() {
    assert!(matches!(resolve_token(&store(Some("a")), ResolveEvent::AccountToken(None)), ResolveStep::ReadDesktop));
}

#[test]
fn desktop_token_finishes() {
    match resolve_token(&store(None), ResolveEvent::DesktopToken(Some("d".to_string()))) {
        ResolveStep::Done(Some((t, src))) => {
            assert_eq!(t, "d");
            assert!(src == TokenSource::Desktop);
        }
        _ => panic!("expected the desktop token"),
    }
    assert!(matches!(resolve_token(&store(None), ResolveEvent::DesktopToken(None)), ResolveStep::Done(None)));
}

#[test]
fn removing_active_account_resolves_from_desktop() {
    let mut s = store(Some("a"));
    s.remove_account(&"a".to_string());
    assert!(matches!(resolve_token(&s, ResolveEvent::Start), ResolveStep::ReadDesktop));
}

#[test]
fn token_cache_staleness() {
    assert!(token_cache_stale(&None, 0));
    let fresh = Some(TokenCacheEntry { generation: 3, age_secs: 30, resolved: true });
    assert!(!token_cache_stale(&fresh, 3));
    assert!(token_cache_stale(&fresh, 4));
    let old = Some(TokenCacheEntry { generation: 3, age_secs: 31, resolved: true });
    assert!(token_cache_stale(&old, 3));
    let missing = Some(TokenCacheEntry { generation: 3, age_secs: 0, resolved: false });
    assert!(token_cache_stale(&missing, 3));
}

#[test]
fn status_cache_freshness() {
    assert!(status_cache_fresh(0));
    assert!(status_cache_fresh(59));
    assert!(!status_cache_fresh(60));
}

#[test]
fn bump_token_clears_caches() {
    let mut c: SharedCaches<u32, u32> = SharedCaches::new();
    assert_eq!(c.token_generation, 0);
    c.online = Some(5);
    c.account_status.push(("a".to_string(), 1));
    c.bump_token();
    assert_eq!(c.token_generation, 1);
    assert!(c.online.is_none());
    assert!(c.account_status.is_empty());
    let stale_before = Some(TokenCacheEntry { generation: 0, age_secs: 0, resolved: true });
    assert!(token_cache_stale(&stale_before, c.token_generation));
}

#[test]
fn bump_token_wraps() {
    let mut c: SharedCaches<u32, u32> = SharedCaches::new();
    c.token_generation = u64::MAX;
    c.bump_token();
    assert_eq!(c.token_generation, 0);
}

#[test]
fn record_online_keeps_previous_on_partial_round() {
    let mut e: Option<OnlineEntry<u32, u32>> = None;
    record_online(&mut e, Some(1), None, Some(10));
    let x = e.as_ref().unwrap();
    assert_eq!((x.quota, x.online, x.fetched_at), (Some(1), None, Some(10)));
    record_online(&mut e, None, Some(2), Some(20));
    let x = e.as_ref().unwrap();
    assert_eq!((x.quota, x.online, x.fetched_at), (Some(1), Some(2), Some(20)));
    record_online(&mut e, None, None, Some(30));
    let x = e.as_ref().unwrap();
    assert_eq!((x.quota, x.online, x.fetched_at), (Some(1), Some(2), Some(20)));
    record_online(&mut e, Some(3), None, None);
    let x = e.as_ref().unwrap();
    assert_eq!((x.quota, x.online, x.fetched_at), (Some(3), Some(2), Some(20)));
}

#[test]
fn record_online_failed_round_creates_nothing() {
    let mut e: Option<OnlineEntry<u32, u32>> = None;
    record_online(&mut e, None, None, Some(1));
    assert!(e.is_none());
}

#[test]
fn status_token_sources() {
    let s = store(None);
    assert!(matches!(status_token_source(&s, &"desktop".to_string()), StatusToken::Desktop));
    assert!(matches!(status_token_source(&s, &"b".to_string()), StatusToken::Account(1)));
    assert!(matches!(status_token_source(&s, &"zz".to_string()), StatusToken::Missing));
}

#[test]
fn status_outcomes() {
    assert!(matches!(status_outcome::<u32>(false, Some(1)), StatusOutcome::NoSession));
    assert!(matches!(status_outcome::<u32>(true, None), StatusOutcome::RequestFailed));
    assert!(matches!(status_outcome(true, Some(7u32)), StatusOutcome::Quota(7)));
}

#[test]
fn snapshots_replace_by_id() {
    let mut c: SharedCaches<u32, u32> = SharedCaches::new();
    c.put_snapshot("a".to_string(), 1);
    c.put_snapshot("b".to_string(), 2);
    c.put_snapshot("a".to_string(), 3);
    let ids: Vec<(&str, u32)> = c.account_status.iter().map(|(k, v)| (k.as_str(), *v)).collect();
    assert_eq!(ids, vec![("b", 2), ("a", 3)]);
    assert_eq!(c.find_snapshot("a"), Some(1));
    assert_eq!(c.find_snapshot("z"), None);
    c.drop_snapshot("b");
    assert_eq!(c.account_status.len(), 1);
    assert_eq!(c.find_snapshot("a"), Some(0));
}
