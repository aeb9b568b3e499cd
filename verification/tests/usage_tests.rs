use devin_usage::usage::{acc_add, aggregate, build_requests, Acc, MessageRow, Req, SessionIndex, SessionRow};

fn row(id: &str, title: Option<&str>, model: Option<&str>, created_at: i64) -> SessionRow {
    SessionRow {
        id: id.to_string(),
        title: title.map(String::from),
        model: model.map(String::from),
        dir: Some("/work".to_string()),
        created_at,
    }
}

fn msg(sid: &str, rid: Option<&str>, mid: Option<&str>, created: Option<&str>, model: Option<&str>, input: u64) -> MessageRow {
    MessageRow {
        session_id: sid.to_string(),
        request_id: rid.map(String::from),
        message_id: mid.map(String::from),
        created_at: created.map(String::from),
        generation_model: model.map(String::from),
        input_tokens: input,
        output_tokens: 1,
        cache_read_tokens: 2,
        cache_creation_tokens: 3,
    }
}

fn req(sid: &str, ts: i64, model: &str, input: u64, output: u64) -> Req {
    Req {
        session_id: sid.to_string(),
        ts,
        model: model.to_string(),
        input,
        output,
        cache_read: 0,
        cache_create: 0,
    }
}

fn keys(list: &[(String, Acc)]) -> Vec<String> {
    list.iter().map(|e| e.0.clone()).collect()
}

#[test]
fn session_index_later_row_wins() {
    let rows = vec![row("s1", None, None, 2), row("s2", Some("B"), Some("m"), 3), row("s1", Some("A"), None, 4)];
    let idx = SessionIndex::new(&rows);
    assert_eq!(idx.len(), 2);
    let s1 = idx.get("s1").unwrap();
    assert_eq!(s1.title, "A");
    assert_eq!(s1.model, "");
    assert_eq!(s1.dir, "/work");
    assert_eq!(s1.created_at, 4000);
    assert!(idx.get("s3").is_none());
}

#[test]
fn session_untitled_default() {
    let idx = SessionIndex::new(&vec![row("s", None, None, 1)]);
    assert_eq!(idx.get("s").unwrap().title, "(untitled)");
}

#[test]
fn requests_from_messages() {
    let idx = SessionIndex::new(&vec![row("s1", Some("T"), Some("m-sess"), 100)]);
    let msgs = vec![
        msg("s1", Some("r1"), None, Some("1970-01-01T00:00:01Z"), None, 10),
        msg("s1", Some("r1"), None, None, Some("other"), 99),
        msg("s2", None, Some("m3"), None, None, 20),
        msg("s1", None, None, Some("bad time"), Some(""), 30),
        msg("s1", None, None, None, Some("x"), 40),
    ];
    let r = build_requests(&idx, &msgs);
    assert_eq!(r.len(), 3);
    assert_eq!(r[0].session_id, "s1");
    assert_eq!(r[0].ts, 1000);
    assert_eq!(r[0].model, "m-sess");
    assert_eq!((r[0].input, r[0].output, r[0].cache_read, r[0].cache_create), (10, 1, 2, 3));
    assert_eq!(r[1].session_id, "s2");
    assert_eq!(r[1].ts, 0);
    assert_eq!(r[1].model, "unknown");
    assert_eq!(r[1].input, 20);
    assert_eq!(r[2].ts, 100_000);
    assert_eq!(r[2].model, "unknown");
    assert_eq!(r[2].input, 30);
}

#[test]
fn acc_add_and_total() {
    let mut a = Acc::zero();
    acc_add(&mut a, &Req { cache_read: 4, cache_create: 8, ..req("s", 0, "m", 1, 2) });
    acc_add(&mut a, &req("s", 0, "m", 10, 20));
    assert_eq!(a.requests, 2);
    assert_eq!((a.input, a.output, a.cache_read, a.cache_create), (11, 22, 4, 8));
    assert_eq!(a.total(), 45);
}

#[test]
fn acc_total_wraps() {
    let a = Acc { requests: 1, input: u64::MAX, output: 2, cache_read: 0, cache_create: 0 };
    assert_eq!(a.total(), 1);
}

#[test]
fn aggregate_report() {
    let reqs = vec![req("s1", 1000, "A", 10, 0), req("s2", 5000, "B", 30, 0), req("s1", 9000, "A", 5, 5)];
    let days = vec!["2024-01-02".to_string(), "2024-01-01".to_string(), "2024-01-02".to_string()];
    let r = aggregate(&reqs, &days, 5000, 0);
    assert_eq!(r.all.requests, 3);
    assert_eq!((r.all.input, r.all.output), (45, 5));
    assert_eq!(r.all.total(), 50);
    assert_eq!(r.today.requests, 2);
    assert_eq!(r.today.total(), 40);
    assert_eq!(r.week.requests, 2);
    assert_eq!(keys(&r.by_model), vec!["B", "A"]);
    assert_eq!(r.by_model[1].1.total(), 20);
    assert_eq!(r.by_model[1].1.requests, 2);
    assert_eq!(keys(&r.today_by_model), vec!["B", "A"]);
    assert_eq!(r.today_by_model[1].1.total(), 10);
    assert_eq!(keys(&r.by_day), vec!["2024-01-01", "2024-01-02"]);
    assert_eq!(r.by_day[1].1.total(), 20);
    assert_eq!(keys(&r.by_session), vec!["s2", "s1"]);
}

#[test]
fn aggregate_week_starts_before_today() {
    let reqs = vec![req("s", 0, "A", 1, 0), req("s", 100, "A", 2, 0), req("s", 86_400_100, "A", 4, 0)];
    let days = vec!["d".to_string(); 3];
    let r = aggregate(&reqs, &days, 86_400_050, 1);
    assert_eq!(r.today.total(), 4);
    assert_eq!(r.week.total(), 6);
    assert_eq!(r.all.total(), 7);
    assert!(r.today_by_model.len() == 1);
}

#[test]
fn aggregate_empty() {
    let r = aggregate(&vec![], &vec![], 0, 0);
    assert_eq!(r.all.requests, 0);
    assert!(r.by_model.is_empty());
    assert!(r.by_day.is_empty());
    assert!(r.by_session.is_empty());
}

#[test]
fn aggregate_keeps_top_hundred_sessions() {
    let mut reqs = Vec::new();
    for i in 0..150u64 {
        reqs.push(req(&format!("s{i}"), 0, "A", i + 1, 0));
    }
    let days = vec!["d".to_string(); 150];
    let r = aggregate(&reqs, &days, 0, 0);
    assert_eq!(r.by_session.len(), 100);
    assert_eq!(r.by_session[0].0, "s149");
    assert_eq!(r.by_session[99].0, "s50");
    assert_eq!(r.by_model.len(), 1);
    assert_eq!(r.by_model[0].1.requests, 150);
}

#[test]
fn grouped_totals_split_the_whole() {
    let reqs = vec![req("a", 0, "X", 1, 1), req("b", 0, "Y", 2, 2), req("a", 0, "X", 3, 3), req("c", 0, "Z", 4, 4)];
    let days = vec!["d1".to_string(), "d2".to_string(), "d1".to_string(), "d2".to_string()];
    let r = aggregate(&reqs, &days, 0, 0);
    let sum = |l: &[(String, Acc)]| l.iter().map(|e| e.1.total()).sum::<u64>();
    assert_eq!(sum(&r.by_model), r.all.total());
    assert_eq!(sum(&r.by_day), r.all.total());
    assert_eq!(sum(&r.by_session), r.all.total());
}

#[test]
fn grouped_request_counts_add_up() {
    let reqs = vec![req("a", 0, "X", 1, 1), req("b", 5, "Y", 2, 2), req("a", 9, "X", 3, 3)];
    let days = vec!["d1".to_string(), "d2".to_string(), "d1".to_string()];
    let r = aggregate(&reqs, &days, 5, 0);
    let count = |l: &[(String, Acc)]| l.iter().map(|e| e.1.requests).sum::<u64>();
    assert_eq!(count(&r.by_model), r.all.requests);
    assert_eq!(count(&r.by_day), r.all.requests);
    assert_eq!(count(&r.by_session), r.all.requests);
    assert_eq!(count(&r.today_by_model), r.today.requests);
}
