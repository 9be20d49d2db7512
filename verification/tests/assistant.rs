use lyys_panel::aimemory::{
    bool_setting, bool_text, extraction_prompt, fact_lines, keyword_recall, reply_facts, keyword_hits, memory_block, memory_exists, memory_text, tokens, MemoryError,
};
use lyys_panel::aitools::{definitions, log_lines, log_tail, process_limit, summary, tool_note, ToolArgs};
use lyys_panel::emotion::{class_label, labels_from_config, labels_from_pairs, pairs_of_members, valence_sign, model_dir, model_files, neutral_label, ready};

fn no_args() -> ToolArgs {
    ToolArgs {
        limit: None,
        filter: None,
        unit: None,
        file: None,
        container: None,
        action: None,
        query: None,
        url: None,
    }
}

fn sorted_tokens(text: &str) -> Vec<String> {
    let mut t = tokens(text);
    t.sort();
    t
}

#[test]
fn memory_block_text() {
    assert_eq!(memory_block(&vec![]), "");
    let block = memory_block(&vec!["  面板在 192.168.1.253 ".to_string(), "喜欢简洁".to_string()]);
    assert_eq!(
        block,
        "[记忆] 以下是此前记下的、与这次对话可能相关的事（不是他刚说的话）：\n- 面板在 192.168.1.253\n- 喜欢简洁\n用得上的话自然地用，不要复述这份列表，也不要说明它从哪来。"
    );
}

#[test]
fn extracted_facts() {
    let text = "1. 面板部署在 192.168.1.253\n- 用户喜欢 Debian\n\n无\n* \n2. a\n3. b\n4. c\n5. d\n";
    assert_eq!(
        fact_lines(text),
        vec!["面板部署在 192.168.1.253", "用户喜欢 Debian", "a", "b", "c"]
    );
    assert!(fact_lines("无").is_empty());
    let long = "字".repeat(67);
    assert!(fact_lines(&long).is_empty());
    let fits = "字".repeat(66);
    assert_eq!(fact_lines(&fits), vec![fits.clone()]);
}

#[test]
fn memories_checked_before_storing() {
    assert_eq!(memory_text("  note  "), Ok("note".to_string()));
    assert_eq!(memory_text("   "), Err(MemoryError::Empty));
    assert_eq!(memory_text(&"x".repeat(501)), Err(MemoryError::TooLong));
    assert_eq!(memory_text(&"字".repeat(500)), Ok("字".repeat(500)));
    let stored = vec![" a ".to_string(), "b".to_string()];
    assert!(memory_exists(&stored, "a"));
    assert!(memory_exists(&stored, "  b"));
    assert!(!memory_exists(&stored, "c"));
}

#[test]
fn switch_settings() {
    assert!(bool_setting(Some("1"), false));
    assert!(bool_setting(Some("TRUE"), false));
    assert!(bool_setting(Some("true"), false));
    assert!(!bool_setting(Some("yes"), true));
    assert!(!bool_setting(Some("0"), true));
    assert!(bool_setting(None, true));
    assert!(!bool_setting(None, false));
    assert_eq!(bool_text(true), "1");
    assert_eq!(bool_text(false), "0");
}

#[test]
fn keyword_tokens() {
    assert_eq!(sorted_tokens("重启 nginx 服务"), vec![" 服", "nginx", "启 ", "服务", "重启"]);
    assert_eq!(sorted_tokens("Hello, World"), vec!["hello", "world"]);
    assert_eq!(sorted_tokens("a b"), Vec::<String>::new());
    assert_eq!(sorted_tokens("x1 X1"), vec!["x1"]);
    assert!(tokens("").is_empty());
}

#[test]
fn keyword_overlap() {
    assert_eq!(keyword_hits("重启服务", "服务已重启"), (2, 3));
    assert_eq!(keyword_hits("nginx", "NGINX logs"), (1, 1));
    assert_eq!(keyword_hits("", "anything"), (0, 0));
}

#[test]
fn tool_definitions() {
    let defs = definitions();
    let names: Vec<&str> = defs.iter().map(|d| d.name.as_str()).collect();
    assert_eq!(
        names,
        ["system_overview", "list_processes", "list_services", "read_logs", "docker", "list_crontab", "web_search", "fetch_url"]
    );
    assert!(defs[0].required.is_empty());
    assert_eq!(defs[6].required, vec!["query".to_string()]);
    assert_eq!(defs[7].required, vec!["url".to_string()]);
}

#[test]
fn tool_summaries() {
    assert_eq!(summary("system_overview", &no_args()), "查询系统概览");
    assert_eq!(summary("list_processes", &no_args()), "查看进程列表（前 10 条）");
    let mut a = no_args();
    a.limit = Some(-3);
    assert_eq!(summary("list_processes", &a), "查看进程列表（前 -3 条）");
    let mut a = no_args();
    a.filter = Some("ssh".to_string());
    assert_eq!(summary("list_services", &a), "查询服务：ssh");
    assert_eq!(summary("list_services", &no_args()), "查看运行中的服务");
    let mut a = no_args();
    a.file = Some("/var/log/syslog".to_string());
    assert_eq!(summary("read_logs", &a), "读取日志文件：/var/log/syslog");
    assert_eq!(summary("read_logs", &no_args()), "列出日志文件");
    assert_eq!(summary("docker", &no_args()), "查询 Docker：containers");
    let mut a = no_args();
    a.container = Some("web".to_string());
    assert_eq!(summary("docker", &a), "查看容器日志：web");
    assert_eq!(summary("list_crontab", &no_args()), "查看计划任务");
    let mut a = no_args();
    a.query = Some("天气".to_string());
    assert_eq!(summary("web_search", &a), "联网搜索：天气");
    assert_eq!(summary("fetch_url", &no_args()), "抓取网页：");
    assert_eq!(summary("other", &no_args()), "调用 other");
}

#[test]
fn tool_counts() {
    assert_eq!(process_limit(None), 10);
    assert_eq!(process_limit(Some(0)), 1);
    assert_eq!(process_limit(Some(100)), 40);
    assert_eq!(log_lines(None), 50);
    assert_eq!(log_lines(Some(500)), 200);
    assert_eq!(log_lines(Some(7)), 7);
}

#[test]
fn log_cut_for_the_model() {
    assert_eq!(log_tail("short"), "short");
    let long = format!("{}{}", "a".repeat(100), "b".repeat(8000));
    assert_eq!(log_tail(&long), format!("（已截断，仅保留末尾部分）\n{}", "b".repeat(8000)));
}

#[test]
fn emotion_model_paths() {
    assert_eq!(model_dir("/opt/panel"), "/opt/panel/models/emotion");
    assert_eq!(
        model_files("/opt/panel/"),
        (
            "/opt/panel/models/emotion/model_quantized.onnx".to_string(),
            "/opt/panel/models/emotion/tokenizer.json".to_string()
        )
    );
    assert!(ready(true, true));
    assert!(!ready(true, false));
    assert!(!ready(false, true));
    assert_eq!(neutral_label(), "neutral");
}

#[test]
fn emotion_labels() {
    assert_eq!(labels_from_pairs(vec![]), vec!["positive", "neutral", "negative"]);
    let pairs = vec![(2, "neg".to_string()), (0, "pos".to_string()), (1, "neu".to_string())];
    assert_eq!(labels_from_pairs(pairs), vec!["pos", "neu", "neg"]);
    let ties = vec![(1, "b".to_string()), (0, "a".to_string()), (1, "c".to_string())];
    assert_eq!(labels_from_pairs(ties), vec!["a", "b", "c"]);
}

#[test]
fn tool_parameters() {
    let defs = definitions();
    let params = |i: usize| -> Vec<(String, String)> {
        defs[i].params.iter().map(|p| (p.name.clone(), p.kind.clone())).collect()
    };
    let pair = |a: &str, b: &str| (a.to_string(), b.to_string());
    assert!(params(0).is_empty());
    assert_eq!(params(1), vec![pair("limit", "integer")]);
    assert_eq!(params(2), vec![pair("filter", "string")]);
    assert_eq!(params(3), vec![pair("unit", "string"), pair("file", "string"), pair("lines", "integer")]);
    assert_eq!(params(4), vec![pair("action", "string"), pair("container", "string")]);
    assert!(params(5).is_empty());
    assert_eq!(params(6), vec![pair("query", "string"), pair("count", "integer")]);
    assert_eq!(params(7), vec![pair("url", "string")]);
    assert_eq!(defs[1].params[0].description, "返回条数，默认 10，最多 40");
    assert_eq!(defs[5].description, "列出当前用户的计划任务（crontab）");
}

#[test]
fn facts_from_a_reply_body() {
    let body = r#"{"choices":[{"message":{"role":"assistant","content":"1. 面板在 192.168.1.253\n- 喜欢 Debian\n无"}}]}"#;
    assert_eq!(reply_facts("我的面板在 192.168.1.253", body), vec!["面板在 192.168.1.253", "喜欢 Debian"]);
    assert!(reply_facts("   ", body).is_empty());
    assert!(reply_facts("hi", "not json").is_empty());
    assert!(reply_facts("hi", r#"{"choices":[]}"#).is_empty());
    assert!(reply_facts("hi", r#"{"choices":[{"message":{"content":7}}]}"#).is_empty());
}

#[test]
fn extraction_prompt_holds_the_turn() {
    let p = extraction_prompt("你好", "在的");
    assert!(p.starts_with("从下面这轮对话里挑出"));
    assert!(p.ends_with("他说：你好\n我回：在的"));
}

#[test]
fn tool_notes_read_the_arguments() {
    assert_eq!(tool_note("list_processes", "{\"limit\": 3}"), "查看进程列表（前 3 条）");
    assert_eq!(tool_note("list_processes", "{\"limit\": \"3\"}"), "查看进程列表（前 10 条）");
    assert_eq!(tool_note("docker", "not json"), "查询 Docker：containers");
    assert_eq!(tool_note("docker", "{\"container\":\"web\"}"), "查看容器日志：web");
    assert_eq!(tool_note("read_logs", "{\"unit\":\"nginx\"}"), "读取日志：nginx");
    assert_eq!(tool_note("web_search", "[1,2]"), "联网搜索：");
}

#[test]
fn keyword_recall_ranks_by_hits() {
    let docs = vec![
        "面板在 192.168.1.253".to_string(),
        "喜欢 Debian".to_string(),
        "部署面板的机器".to_string(),
    ];
    assert_eq!(keyword_recall("面板部署", &docs), vec!["部署面板的机器", "面板在 192.168.1.253"]);
    assert!(keyword_recall("", &docs).is_empty());
    assert!(keyword_recall("!!", &docs).is_empty());
    let many: Vec<String> = (0..7).map(|i| format!("面板{i}")).collect();
    assert_eq!(keyword_recall("面板", &many), vec!["面板0", "面板1", "面板2", "面板3", "面板4"]);
    let words = vec!["abcd".to_string()];
    assert!(keyword_recall("abcd efgh ijkl mnop qrst uvwx yzab cdef ghij", &words).is_empty());
    assert_eq!(keyword_recall("abcd efgh ijkl mnop qrst uvwx yzab cdef", &words), vec!["abcd"]);
}

#[test]
fn emotion_labels_and_signs() {
    let labels = vec!["positive".to_string(), "neutral".to_string(), "negative".to_string()];
    assert_eq!(class_label(&labels, 0, true), "positive");
    assert_eq!(class_label(&labels, 2, true), "negative");
    assert_eq!(class_label(&labels, 0, false), "neutral");
    assert_eq!(class_label(&labels, 5, true), "neutral");
    assert_eq!(valence_sign("positive"), 1);
    assert_eq!(valence_sign("negative"), -1);
    assert_eq!(valence_sign("neutral"), 0);
    assert_eq!(valence_sign("Positive"), 0);
}

#[test]
fn labels_from_model_config() {
    let cfg = r#"{"id2label":{"0":"negative","1":"neutral","2":"positive"},"model_type":"distilbert"}"#;
    assert_eq!(labels_from_config(cfg), vec!["negative", "neutral", "positive"]);
    assert_eq!(labels_from_config(r#"{"id2label":{"10":"b","2":"a"}}"#), vec!["a", "b"]);
    assert_eq!(labels_from_config(r#"{"id2label":{"x":"a","-1":"b","+3":"c","1":5}}"#), vec!["b", "c"]);
    assert_eq!(labels_from_config("not json"), vec!["positive", "neutral", "negative"]);
    assert_eq!(labels_from_config(""), vec!["positive", "neutral", "negative"]);
    assert_eq!(labels_from_config(r#"{"id2label":[]}"#), vec!["positive", "neutral", "negative"]);
    let pairs = pairs_of_members(vec![
        ("-9223372036854775808".to_string(), Some("min".to_string())),
        ("9223372036854775808".to_string(), Some("too big".to_string())),
        ("-+1".to_string(), Some("bad".to_string())),
        ("".to_string(), Some("empty".to_string())),
        ("0".to_string(), None),
    ]);
    assert_eq!(pairs, vec![(i64::MIN, "min".to_string())]);
}
