use base64::Engine;
use devin_usage::quota::{
    decode_quota, json_count, live_quota, parse_u64, pick_status_file, quota_from_payload, status_file_name,
    JsonCount, PlanStatusJson, QuotaPayload,
};

fn field_bytes(n: u8, body: &[u8]) -> Vec<u8> {
    let mut v = vec![(n << 3) | 2, body.len() as u8];
    v.extend_from_slice(body);
    v
}

fn plan_status() -> Vec<u8> {
    let mut ps = Vec::new();
    ps.extend(field_bytes(1, &field_bytes(2, b"Pro")));
    ps.extend(field_bytes(2, &[0x08, 0x64])); // start: 100 s
    ps.extend(field_bytes(3, &[0x08, 0xc8, 0x01])); // end: 200 s
    ps.extend([0x70, 80]); // 14: daily 80 %
    ps.extend([0x78, 60]); // 15: weekly 60 %
    ps.extend([0x88, 0x01, 0xe8, 0x07]); // 17: daily reset 1000 s
    ps.extend([0x90, 0x01, 0xd0, 0x0f]); // 18: weekly reset 2000 s
    ps
}

fn payload(with_status: bool) -> Vec<u8> {
    let mut top = Vec::new();
    top.extend(field_bytes(3, b"alice"));
    top.extend(field_bytes(7, b"a@x.io"));
    if with_status {
        top.extend(field_bytes(13, &plan_status()));
    }
    top
}

fn b64(b: &[u8]) -> String {
    base64::engine::general_purpose::STANDARD.encode(b)
}

#[test]
fn decode_full_status() {
    match decode_quota(Some(5), &b64(&payload(true))) {
        QuotaPayload::Decoded(q) => {
            assert_eq!(q.fetched_at, 5000);
            assert_eq!(q.user, "alice");
            assert_eq!(q.email, "a@x.io");
            assert_eq!(q.plan, "Pro");
            assert_eq!(q.plan_start, 100_000);
            assert_eq!(q.plan_end, 200_000);
            assert_eq!(q.daily_remaining_pct, 80);
            assert_eq!(q.weekly_remaining_pct, 60);
            assert_eq!(q.daily_reset_at, 1_000_000);
            assert_eq!(q.weekly_reset_at, 2_000_000);
        }
        _ => panic!("expected a decoded quota"),
    }
}

#[test]
fn decode_missing_fields_use_defaults() {
    let top = field_bytes(13, &[]);
    match decode_quota(None, &b64(&top)) {
        QuotaPayload::Decoded(q) => {
            assert_eq!(q.fetched_at, 0);
            assert_eq!(q.user, "");
            assert_eq!(q.email, "");
            assert_eq!(q.plan, "");
            assert_eq!(q.plan_start, 0);
            assert_eq!(q.plan_end, 0);
            assert_eq!(q.daily_remaining_pct, -1);
            assert_eq!(q.weekly_remaining_pct, -1);
            assert_eq!(q.daily_reset_at, 0);
            assert_eq!(q.weekly_reset_at, 0);
        }
        _ => panic!("expected a decoded quota"),
    }
}

#[test]
fn decode_without_plan_status_is_unreadable() {
    assert!(matches!(decode_quota(Some(1), &b64(&payload(false))), QuotaPayload::Unreadable));
}

#[test]
fn decode_not_base64_is_unreadable() {
    assert!(matches!(decode_quota(Some(1), "***"), QuotaPayload::Unreadable));
}

#[test]
fn payload_decodes_without_base64_step() {
    match quota_from_payload(Some(2), &payload(true)) {
        QuotaPayload::Decoded(q) => {
            assert_eq!(q.fetched_at, 2000);
            assert_eq!(q.plan, "Pro");
        }
        _ => panic!("expected a decoded quota"),
    }
}

#[test]
fn payload_huge_length_overflows() {
    // field 13 declaring a length of u64::MAX: its end is past usize::MAX
    let mut top = vec![0x6a];
    top.extend([0xff, 0xff, 0xff, 0xff, 0xff, 0xff, 0xff, 0xff, 0xff, 0x01]);
    top.push(0);
    assert!(matches!(quota_from_payload(Some(2), &top), QuotaPayload::LengthOverflow));
}

#[test]
fn status_file_names() {
    assert!(status_file_name(&b"user_status.abc.bin".to_vec()));
    assert!(status_file_name(&b"user_status..bin".to_vec()));
    assert!(!status_file_name(&b"user_status.abc.txt".to_vec()));
    assert!(!status_file_name(&b"status.abc.bin".to_vec()));
}

#[test]
fn pick_greatest_status_file() {
    let names = vec![
        b"user_status.a.bin".to_vec(),
        b"other.bin".to_vec(),
        b"user_status.c.bin".to_vec(),
        b"user_status.b.bin".to_vec(),
    ];
    assert_eq!(pick_status_file(&names), Some(b"user_status.c.bin".to_vec()));
}

#[test]
fn pick_none_without_status_files() {
    let names = vec![b"sessions.db".to_vec()];
    assert_eq!(pick_status_file(&names), None);
    assert_eq!(pick_status_file(&Vec::new()), None);
}

#[test]
fn parse_u64_cases() {
    assert_eq!(parse_u64("42"), Some(42));
    assert_eq!(parse_u64("+7"), Some(7));
    assert_eq!(parse_u64("18446744073709551615"), Some(u64::MAX));
    assert_eq!(parse_u64("18446744073709551616"), None);
    assert_eq!(parse_u64(""), None);
    assert_eq!(parse_u64("+"), None);
    assert_eq!(parse_u64("-1"), None);
    assert_eq!(parse_u64("12a"), None);
    assert_eq!(parse_u64("007"), Some(7));
}

#[test]
fn json_count_prefers_number() {
    assert_eq!(json_count(&JsonCount { number: Some(3), text: None }), 3);
    assert_eq!(json_count(&JsonCount { number: None, text: Some("1700000000".to_string()) }), 1_700_000_000);
    assert_eq!(json_count(&JsonCount { number: None, text: Some("x".to_string()) }), 0);
    assert_eq!(json_count(&JsonCount { number: None, text: None }), 0);
}

#[test]
fn live_quota_fields() {
    let ps = PlanStatusJson {
        plan_name: Some("Teams".to_string()),
        plan_start: Some("2024-01-01T00:00:00Z".to_string()),
        plan_end: Some("not a time".to_string()),
        daily_remaining_pct: JsonCount { number: Some(55), text: None },
        weekly_remaining_pct: JsonCount { number: None, text: Some("40".to_string()) },
        daily_reset_at: JsonCount { number: None, text: Some("1700000000".to_string()) },
        weekly_reset_at: JsonCount { number: None, text: None },
    };
    let q = live_quota(&ps, &Some("bob".to_string()), &None, 123);
    assert_eq!(q.fetched_at, 123);
    assert_eq!(q.user, "bob");
    assert_eq!(q.email, "");
    assert_eq!(q.plan, "Teams");
    assert_eq!(q.plan_start, 1_704_067_200_000);
    assert_eq!(q.plan_end, 0);
    assert_eq!(q.daily_remaining_pct, 55);
    assert_eq!(q.weekly_remaining_pct, 40);
    assert_eq!(q.daily_reset_at, 1_700_000_000_000);
    assert_eq!(q.weekly_reset_at, 0);
}

#[test]
fn live_quota_missing_plan_time_is_zero() {
    let ps = PlanStatusJson {
        plan_name: None,
        plan_start: None,
        plan_end: Some("2024-01-01T00:00:01.500+01:00".to_string()),
        daily_remaining_pct: JsonCount { number: None, text: None },
        weekly_remaining_pct: JsonCount { number: None, text: None },
        daily_reset_at: JsonCount { number: None, text: None },
        weekly_reset_at: JsonCount { number: None, text: None },
    };
    let q = live_quota(&ps, &None, &Some("e@x".to_string()), 0);
    assert_eq!(q.plan, "");
    assert_eq!(q.plan_start, 0);
    assert_eq!(q.plan_end, 1_704_063_601_500);
    assert_eq!(q.email, "e@x");
    assert_eq!(q.daily_remaining_pct, 0);
}
