use lyys_panel::ai::MAX_TOOL_ROUNDS;
use lyys_panel::stream::{apply_delta, stream_start, CallPiece, Delta, stream_step, StreamAction, StreamEvent, StreamState, LIMIT_NOTE};

fn show(a: &StreamAction) -> String {
    match a {
        StreamAction::Delta(s) => format!("delta:{s}"),
        StreamAction::Error(s) => format!("error:{s}"),
        StreamAction::Note(s) => format!("note:{s}"),
        StreamAction::Assistant(t, cs) => {
            let calls: Vec<String> =
                cs.iter().map(|c| format!("{}/{}/{}/{}", c.index, c.id, c.name, c.arguments)).collect();
            format!("assistant:{}:{}", t.clone().unwrap_or_default(), calls.join(","))
        }
        StreamAction::RunTool(c) => format!("run:{}/{}/{}", c.id, c.name, c.arguments),
        StreamAction::Request => "request".to_string(),
        StreamAction::Done => "done".to_string(),
    }
}

fn step(s: StreamState, ev: StreamEvent) -> (StreamState, Vec<String>) {
    let (t, acts) = stream_step(s, ev);
    (t, acts.iter().map(show).collect())
}

fn line(s: &str) -> StreamEvent {
    StreamEvent::Line(s.to_string())
}

const TOOL_LINE: &str = r#"data: {"choices":[{"delta":{"tool_calls":[{"index":0,"id":"c1","function":{"name":"list_processes","arguments":"{\"limit\":"}}]}}]}"#;
const TOOL_LINE_END: &str = r#"data: {"choices":[{"delta":{"tool_calls":[{"index":0,"function":{"arguments":"5}"}}]}}]}"#;

#[test]
fn text_then_done() {
    let s = stream_start(false);
    let (s, a) = step(s, line("data: {\"choices\":[{\"delta\":{\"content\":\"你好\"}}]}"));
    assert_eq!(a, vec!["delta:你好"]);
    let (s, a) = step(s, line(": keep-alive"));
    assert!(a.is_empty());
    let (s, a) = step(s, line("data: not json"));
    assert!(a.is_empty());
    let (s, a) = step(s, line("data: {\"choices\":[{\"delta\":{\"content\":\"\"}}]}"));
    assert!(a.is_empty());
    let (s, a) = step(s, line("  data: [DONE]  "));
    assert_eq!(a, vec!["done"]);
    assert_eq!(s.reply.as_deref(), Some("你好"));
    let (s, a) = step(s, line("data: {\"choices\":[{\"delta\":{\"content\":\"x\"}}]}"));
    assert!(a.is_empty());
    assert_eq!(s.reply.as_deref(), Some("你好"));
}

#[test]
fn tool_calls_run_in_index_order() {
    let s = stream_start(true);
    let second = r#"data: {"choices":[{"delta":{"tool_calls":[{"index":1,"id":"c2","function":{"name":"system_overview","arguments":"{}"}}]}}]}"#;
    let (s, a) = step(s, line(second));
    assert!(a.is_empty());
    let (s, _) = step(s, line(TOOL_LINE));
    let (s, _) = step(s, line(TOOL_LINE_END));
    let (s, a) = step(s, StreamEvent::BodyEnd);
    assert_eq!(
        a,
        vec![
            "assistant::0/c1/list_processes/{\"limit\":5},1/c2/system_overview/{}",
            "note:查看进程列表（前 5 条）",
            "run:c1/list_processes/{\"limit\":5}",
            "note:查询系统概览",
            "run:c2/system_overview/{}",
            "request",
        ]
    );
    assert_eq!(s.round, 2);
    assert!(s.reply.is_none());
    assert_eq!(s.calls.len(), 0);
    assert_eq!(s.text, "");
}

#[test]
fn tools_off_ignores_calls() {
    let s = stream_start(false);
    let (s, _) = step(s, line(TOOL_LINE));
    let (s, a) = step(s, line("data: [DONE]"));
    assert_eq!(a, vec!["done"]);
    assert_eq!(s.reply.as_deref(), Some(""));
}

#[test]
fn round_limit_ends_the_turn() {
    let mut s = stream_start(true);
    let mut requests = 1;
    loop {
        let (t, _) = step(s, line(TOOL_LINE));
        let (t, _) = step(t, line(TOOL_LINE_END));
        let (t, a) = step(t, line("data: [DONE]"));
        s = t;
        if a.last().map(String::as_str) == Some("request") {
            requests += 1;
            continue;
        }
        assert_eq!(
            a,
            vec![
                "assistant::0/c1/list_processes/{\"limit\":5}".to_string(),
                format!("note:{LIMIT_NOTE}"),
                "done".to_string(),
            ]
        );
        break;
    }
    assert_eq!(requests, MAX_TOOL_ROUNDS);
    assert_eq!(requests, 5);
    assert_eq!(s.reply.as_deref(), Some(""));
}

#[test]
fn errors_end_the_turn() {
    let s = stream_start(true);
    let (s, _) = step(s, line("data: {\"choices\":[{\"delta\":{\"content\":\"半句\"}}]}"));
    let (s, a) = step(s, line("data: {\"error\":\"上游出错\"}"));
    assert_eq!(a, vec!["error:上游出错"]);
    assert_eq!(s.reply.as_deref(), Some("半句"));

    let s = stream_start(false);
    let (s, a) = step(s, StreamEvent::ReadFailed("connection reset".to_string()));
    assert_eq!(a, vec!["error:读取模型响应中断：connection reset"]);
    assert_eq!(s.reply.as_deref(), Some(""));

    let s = stream_start(false);
    let (s, a) = step(s, line("data: {\"error\":{\"message\":\"not a string\"}}"));
    assert!(a.is_empty());
    assert!(s.reply.is_none());
}

#[test]
fn failed_request_replies_with_the_last_round() {
    let s = stream_start(true);
    let (s, _) = step(s, line("data: {\"choices\":[{\"delta\":{\"content\":\"先查一下\"}}]}"));
    let (s, _) = step(s, line(TOOL_LINE));
    let (s, a) = step(s, line("data: [DONE]"));
    assert_eq!(a[0], "assistant:先查一下:0/c1/list_processes/{\"limit\":");
    assert_eq!(a[1], "note:查看进程列表（前 10 条）");
    let (s, a) = step(s, StreamEvent::RequestFailed("timeout".to_string()));
    assert_eq!(a, vec!["error:timeout"]);
    assert_eq!(s.reply.as_deref(), Some("先查一下"));
}

#[test]
fn undelivered_text_ends_the_turn() {
    let s = stream_start(false);
    let (s, a) = step(s, line("data: {\"choices\":[{\"delta\":{\"content\":\"hi\"}}]}"));
    assert_eq!(a, vec!["delta:hi"]);
    let (s, a) = step(s, StreamEvent::Undelivered);
    assert!(a.is_empty());
    assert_eq!(s.reply.as_deref(), Some("hi"));
}

#[test]
fn deltas_as_read() {
    let s = stream_start(true);
    let d = Delta {
        parsed: true,
        error: None,
        content: Some("ok".to_string()),
        pieces: vec![
            CallPiece { index: None, id: Some("a".to_string()), name: Some("list_crontab".to_string()), arguments: None },
            CallPiece { index: Some(0), id: None, name: None, arguments: Some("{}".to_string()) },
        ],
    };
    let (s, acts) = apply_delta(s, d);
    assert_eq!(acts.iter().map(show).collect::<Vec<_>>(), vec!["delta:ok"]);
    assert_eq!(s.text, "ok");
    assert_eq!(s.calls.len(), 1);
    let (s, acts) = apply_delta(s, Delta { parsed: false, error: Some("x".to_string()), content: None, pieces: vec![] });
    assert!(acts.is_empty());
    assert!(s.reply.is_none());
    let (s, acts) = apply_delta(s, Delta { parsed: true, error: Some("坏了".to_string()), content: None, pieces: vec![] });
    assert_eq!(acts.iter().map(show).collect::<Vec<_>>(), vec!["error:坏了"]);
    assert_eq!(s.reply.as_deref(), Some("ok"));
}
