use lyys_panel::ai::{
    after_round, ai_error_text, brief, chat_reply, check_chat, model_list, model_list_from, models_url, reply_text, config_to_save, config_view, role_of, speech_request, sse_line, system_text,
    timeout_setting, AiConfig, AiError, Message, RoundStep, SseLine, ToolCalls, MAX_TOOL_ROUNDS, SYSTEM_PROMPT,
};

fn cfg(url: &str, key: &str, model: &str, timeout: u64) -> AiConfig {
    AiConfig { base_url: url.to_string(), api_key: key.to_string(), model: model.to_string(), timeout_secs: timeout }
}

#[test]
fn saving_a_configuration() {
    let s = config_to_save(&cfg(" http://127.0.0.1:11434/v1// ", "  sk-1 ", " qwen ", 0)).ok().unwrap();
    assert_eq!(s.base_url, "http://127.0.0.1:11434/v1");
    assert_eq!(s.model, "qwen");
    assert_eq!(s.timeout_secs, 600);
    assert_eq!(s.api_key.as_deref(), Some("sk-1"));
    let s = config_to_save(&cfg("https://api.x", "  ", "m", 5)).ok().unwrap();
    assert_eq!(s.timeout_secs, 10);
    assert_eq!(s.api_key, None);
    let s = config_to_save(&cfg("https://api.x", "", "m", 99999)).ok().unwrap();
    assert_eq!(s.timeout_secs, 3600);
    let s = config_to_save(&cfg("https://api.x", "", "m", 120)).ok().unwrap();
    assert_eq!(s.timeout_secs, 120);
    assert_eq!(config_to_save(&cfg("", "", "m", 0)).err(), Some(AiError::MissingUrlOrModel));
    assert_eq!(config_to_save(&cfg("///", "", "m", 0)).err(), Some(AiError::MissingUrlOrModel));
    assert_eq!(config_to_save(&cfg("http://x", "", "  ", 0)).err(), Some(AiError::MissingUrlOrModel));
    assert_eq!(config_to_save(&cfg("ftp://x", "", "m", 0)).err(), Some(AiError::BadScheme));
}

#[test]
fn stored_timeout() {
    assert_eq!(timeout_setting(None), 600);
    assert_eq!(timeout_setting(Some(" 120 ")), 120);
    assert_eq!(timeout_setting(Some("abc")), 600);
    assert_eq!(timeout_setting(Some("")), 600);
    assert_eq!(timeout_setting(Some("99999999999999999999")), 600);
}

#[test]
fn configuration_shown_to_the_front_end() {
    let v = config_view(&cfg("http://x", "secret", "m", 30), "bge".to_string(), true, false, "http://tts".to_string(), true);
    assert_eq!(v.base_url, "http://x");
    assert_eq!(v.model, "m");
    assert!(v.has_key);
    assert_eq!(v.timeout_secs, 30);
    assert_eq!(v.embed_model, "bge");
    assert!(v.auto_remember && !v.tools_enabled && v.tts_auto);
    assert_eq!(v.tts_url, "http://tts");
    assert!(!config_view(&cfg("", "", "", 0), String::new(), false, false, String::new(), false).has_key);
}

#[test]
fn roles_and_system_text() {
    assert_eq!(role_of("assistant"), "assistant");
    assert_eq!(role_of("system"), "system");
    assert_eq!(role_of("user"), "user");
    assert_eq!(role_of("tool"), "user");
    assert_eq!(system_text(None), SYSTEM_PROMPT);
    assert_eq!(system_text(Some("   ")), SYSTEM_PROMPT);
    assert_eq!(system_text(Some("[记忆] x")), format!("{SYSTEM_PROMPT}\n\n[记忆] x"));
    assert!(SYSTEM_PROMPT.starts_with("你是陆壹肆"));
}

#[test]
fn chat_preconditions() {
    let msgs = vec![Message { role: "user".to_string(), content: "hi".to_string() }];
    assert_eq!(check_chat(&cfg("", "", "m", 0), &msgs), Err(AiError::NotConfigured));
    assert_eq!(check_chat(&cfg("http://x", "", "", 0), &msgs), Err(AiError::NotConfigured));
    assert_eq!(check_chat(&cfg("http://x", "", "m", 0), &vec![]), Err(AiError::NoMessages));
    assert_eq!(check_chat(&cfg("http://x", "", "m", 0), &msgs), Ok(()));
}

#[test]
fn error_bodies_shortened() {
    assert_eq!(brief("  oops  "), "oops");
    let long = "e".repeat(301);
    assert_eq!(brief(&long), format!("{}…", "e".repeat(300)));
    assert_eq!(brief(&"e".repeat(300)), "e".repeat(300));
}

#[test]
fn stream_lines() {
    assert!(matches!(sse_line(": keep-alive"), SseLine::Skip));
    assert!(matches!(sse_line(""), SseLine::Skip));
    assert!(matches!(sse_line("data: [DONE]"), SseLine::Done));
    match sse_line("  data:{\"a\":1}  ") {
        SseLine::Data(d) => assert_eq!(d, "{\"a\":1}"),
        _ => panic!("a data line"),
    }
}

#[test]
fn tool_rounds() {
    assert_eq!(after_round(false, 3, 1), RoundStep::Finish);
    assert_eq!(after_round(true, 0, 1), RoundStep::Finish);
    assert_eq!(after_round(true, 2, 1), RoundStep::RunTools);
    assert_eq!(after_round(true, 2, MAX_TOOL_ROUNDS), RoundStep::Limit);
    assert_eq!(MAX_TOOL_ROUNDS, 5);
    assert_eq!(after_round(true, 2, 5), RoundStep::Limit);
    assert_eq!(after_round(true, 2, 4), RoundStep::RunTools);
}

#[test]
fn streamed_tool_calls() {
    let mut calls = ToolCalls::new();
    assert_eq!(calls.len(), 0);
    calls.apply(1, Some("call_b".to_string()), Some("read_logs".to_string()), Some("{\"un".to_string()));
    calls.apply(0, Some("call_a".to_string()), Some("system_overview".to_string()), None);
    calls.apply(1, None, None, Some("it\":\"ssh\"}".to_string()));
    calls.apply(0, None, None, Some("{}".to_string()));
    assert_eq!(calls.len(), 2);
    let v = calls.into_calls();
    assert_eq!(v[0].index, 0);
    assert_eq!(v[0].id, "call_a");
    assert_eq!(v[0].name, "system_overview");
    assert_eq!(v[0].arguments, "{}");
    assert_eq!(v[1].index, 1);
    assert_eq!(v[1].id, "call_b");
    assert_eq!(v[1].name, "read_logs");
    assert_eq!(v[1].arguments, "{\"unit\":\"ssh\"}");
}

#[test]
fn speech_requests() {
    let q = speech_request(" http://tts:5000/ ", "  你好  ").ok().unwrap();
    assert_eq!(q.url, "http://tts:5000/tts/json");
    assert_eq!(q.text, "你好");
    let q = speech_request("http://t", &"字".repeat(900)).ok().unwrap();
    assert_eq!(q.text, "字".repeat(800));
    assert_eq!(speech_request("  ", "hi").err(), Some(AiError::NoSpeechService));
    assert_eq!(speech_request("http://t", "  ").err(), Some(AiError::NothingToSay));
}

#[test]
fn model_lists() {
    assert_eq!(models_url(&cfg("", "", "m", 0)).err(), Some(AiError::NoAddress));
    assert_eq!(models_url(&cfg("http://h:1/v1", "", "", 0)).ok(), Some("http://h:1/v1/models".to_string()));
    let body = r#"{"object":"list","data":[{"id":"qwen2.5"},{"name":"no id"},{"id":7},{"id":"llama3"}]}"#;
    assert_eq!(model_list(body).ok(), Some(vec!["qwen2.5".to_string(), "llama3".to_string()]));
    assert_eq!(model_list(r#"{"data":[]}"#).err(), Some(AiError::NoModels));
    assert_eq!(model_list(r#"{"models":["a"]}"#).err(), Some(AiError::NoModels));
    assert_eq!(model_list(r#"{"data":{"id":"a"}}"#).err(), Some(AiError::NoModels));
    assert_eq!(model_list("<html>").err(), Some(AiError::BadModelList));
    assert_eq!(model_list_from(vec![None, Some("a".to_string())]).ok(), Some(vec!["a".to_string()]));
    assert_eq!(model_list_from(vec![None]).err(), Some(AiError::NoModels));
    assert_eq!(ai_error_text(AiError::NoModels), "接口没有返回任何模型");
    assert_eq!(ai_error_text(AiError::NoAddress), "先在顶部填好接口地址");
    assert_eq!(ai_error_text(AiError::NotConfigured), "还没有配置 AI 服务，先在页面顶部填好地址与模型");
}

#[test]
fn complete_replies() {
    let body = r#"{"choices":[{"message":{"role":"assistant","content":"  你好！ \n"}}]}"#;
    assert_eq!(chat_reply(body).ok(), Some("你好！".to_string()));
    assert_eq!(chat_reply(r#"{"choices":[{"message":{"content":"   "}}]}"#).err(), Some(AiError::EmptyReply));
    assert_eq!(chat_reply(r#"{"choices":[]}"#).err(), Some(AiError::EmptyReply));
    assert_eq!(chat_reply(r#"{"choices":[{"message":{"content":null}}]}"#).err(), Some(AiError::EmptyReply));
    assert_eq!(chat_reply("Bad Gateway").err(), Some(AiError::BadReply));
    assert_eq!(reply_text(" x ").ok(), Some("x".to_string()));
    assert_eq!(reply_text("\t").err(), Some(AiError::EmptyReply));
}
