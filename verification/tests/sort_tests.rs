use devin_usage::online::ToolUsage;
use devin_usage::sort::sort_ranked;

fn t(key: &str, count: u64) -> ToolUsage {
    ToolUsage { label: key.to_string(), key: key.to_string(), count }
}

#[test]
fn sort_by_count_is_stable() {
    let v = vec![t("a", 1), t("b", 5), t("c", 1), t("d", 5), t("e", 3)];
    let r = sort_ranked(v);
    let keys: Vec<&str> = r.iter().map(|x| x.key.as_str()).collect();
    assert_eq!(keys, vec!["b", "d", "e", "a", "c"]);
}

#[test]
fn sort_empty_and_single() {
    assert!(sort_ranked(Vec::<ToolUsage>::new()).is_empty());
    assert_eq!(sort_ranked(vec![t("x", 0)])[0].key, "x");
}
