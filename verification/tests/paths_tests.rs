use devin_usage::paths::{db_candidates, db_path, local_state_path, state_db_path, status_dir, store_path};

fn parts(p: &devin_usage::paths::PathSpec) -> Vec<&str> {
    p.parts.iter().map(|s| s.as_str()).collect()
}

#[test]
fn database_candidates() {
    let c = db_candidates("R".to_string(), "H".to_string());
    assert_eq!(c.len(), 2);
    assert_eq!(c[0].base, "R");
    assert_eq!(parts(&c[0]), vec!["devin", "cli", "sessions.db"]);
    assert_eq!(c[1].base, "H");
    assert_eq!(parts(&c[1]), vec![".config", "devin", "cli", "sessions.db"]);
}

#[test]
fn database_first_present() {
    let c = db_candidates("R".to_string(), "H".to_string());
    assert_eq!(db_path(c, &vec![false, true]).base, "H");
    let c = db_candidates("R".to_string(), "H".to_string());
    assert_eq!(db_path(c, &vec![true, true]).base, "R");
}

#[test]
fn database_defaults_to_first() {
    let c = db_candidates("R".to_string(), "H".to_string());
    assert_eq!(db_path(c, &vec![false, false]).base, "R");
}

#[test]
fn other_paths() {
    let s = store_path("R".to_string());
    assert_eq!((s.base.as_str(), parts(&s)), ("R", vec!["devin-usage", "accounts.json"]));
    let d = status_dir("L".to_string());
    assert_eq!((d.base.as_str(), parts(&d)), ("L", vec!["devin", "cli"]));
    let l = local_state_path("R".to_string());
    assert_eq!(parts(&l), vec!["devin", "Local State"]);
    let v = state_db_path("R".to_string());
    assert_eq!(parts(&v), vec!["devin", "User", "globalStorage", "state.vscdb"]);
}
