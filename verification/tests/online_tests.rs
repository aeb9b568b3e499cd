use devin_usage::online::{day_label, online_usage, tool_label_of, LineRow, RunRow, ToolRow};

fn run(day: &str, messages: u64, model: &str, conv: &str) -> RunRow {
    RunRow { day: day.to_string(), messages, model: model.to_string(), cascade_id: conv.to_string() }
}

fn line(day: &str, n: u64) -> LineRow {
    LineRow { day: day.to_string(), lines_accepted: n }
}

fn tool(t: &str, count: u64) -> ToolRow {
    ToolRow { tool: t.to_string(), count }
}

#[test]
fn online_summary() {
    let runs = vec![
        run("2024-05-02T00:00:00Z", 3, "swe-1", "c1"),
        run("2024-05-01T00:00:00Z", 10, "sonnet-4", "c2"),
        run("2024-05-02T00:00:00Z", 4, "sonnet-4", "c1"),
    ];
    let lines = vec![line("2024-05-01T00:00:00Z", 7), line("2024-05-03T00:00:00Z", 2)];
    let tools = vec![tool("VIEW_FILE", 2), tool("RUN_COMMAND", 9), tool("CUSTOM", 2)];
    let u = online_usage(&runs, &lines, &tools);
    assert_eq!(u.messages_sent, 17);
    assert_eq!(u.conversations, 2);
    assert_eq!(u.lines_accepted, 9);

    assert_eq!(u.by_model.len(), 2);
    assert_eq!(u.by_model[0].model, "sonnet-4");
    assert_eq!(u.by_model[0].messages, 14);
    assert_eq!(u.by_model[0].days, 2);
    assert_eq!(u.by_model[1].model, "swe-1");
    assert_eq!(u.by_model[1].days, 1);

    let labels: Vec<&str> = u.by_day.iter().map(|d| d.label.as_str()).collect();
    assert_eq!(labels, vec!["2024-05-01", "2024-05-02", "2024-05-03"]);
    assert_eq!((u.by_day[0].messages, u.by_day[0].lines), (10, 7));
    assert_eq!((u.by_day[1].messages, u.by_day[1].lines), (7, 0));
    assert_eq!((u.by_day[2].messages, u.by_day[2].lines), (0, 2));

    let t: Vec<(&str, &str, u64)> = u.tools.iter().map(|x| (x.label.as_str(), x.key.as_str(), x.count)).collect();
    assert_eq!(t, vec![("终端命令", "RUN_COMMAND", 9), ("查看文件", "VIEW_FILE", 2), ("CUSTOM", "CUSTOM", 2)]);
}

#[test]
fn online_summary_empty() {
    let u = online_usage(&vec![], &vec![], &vec![]);
    assert_eq!(u.messages_sent, 0);
    assert_eq!(u.conversations, 0);
    assert_eq!(u.lines_accepted, 0);
    assert!(u.by_model.is_empty() && u.by_day.is_empty() && u.tools.is_empty());
}

#[test]
fn missing_conversation_ids_count_once() {
    let runs = vec![run("d", 1, "unknown", ""), run("d", 1, "unknown", "")];
    let u = online_usage(&runs, &vec![], &vec![]);
    assert_eq!(u.conversations, 1);
    assert_eq!(u.by_model[0].days, 1);
}

#[test]
fn tool_labels() {
    assert_eq!(tool_label_of(&"SEARCH_WEB".to_string()), "网页搜索");
    assert_eq!(tool_label_of(&"MCP_TOOL".to_string()), "MCP 调用");
    assert_eq!(tool_label_of(&"DEEPWIKI".to_string()), "DeepWiki");
    assert_eq!(tool_label_of(&"OTHER".to_string()), "其他");
    assert_eq!(tool_label_of(&"NEW_TOOL".to_string()), "NEW_TOOL");
}

#[test]
fn day_labels() {
    assert_eq!(day_label(&"2024-05-01T00:00:00Z".to_string()), "2024-05-01");
    assert_eq!(day_label(&"2024-05-01".to_string()), "2024-05-01");
    assert_eq!(day_label(&"short".to_string()), "short");
    // byte ten falls inside a character: the day is kept whole
    assert_eq!(day_label(&"日日日日".to_string()), "日日日日");
}
