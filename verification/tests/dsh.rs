use dshpet::connectors::dsh::{
    apply_history_events, fetch_sessions, handle_host_frame, handle_mux_frame, history_targets, history_wait,
    is_healthy, poll_history, poll_wait, read_todos, session_history_body, session_list_body, split_json, write_values,
    FetchError, HistoryState, StreamCtx,
};
use dshpet::event::{SessionItem, StateEvent, TurnEndReason};
use dshpet::json::{Json, JsonNum};
use serde_json::Value;

fn of(v: &Value) -> Json {
    match v {
        Value::Null => Json::Null,
        Value::Bool(b) => Json::Bool(*b),
        Value::Number(n) => Json::Num(JsonNum {
            unsigned: n.as_u64(),
            signed: n.as_i64(),
            truncated: n.as_u64().unwrap_or(n.as_f64().unwrap_or(0.0) as u64),
            text: n.to_string(),
        }),
        Value::String(s) => Json::Str(s.clone()),
        Value::Array(a) => Json::Arr(a.iter().map(of).collect()),
        Value::Object(m) => Json::Obj(m.iter().map(|(k, v)| (k.clone(), of(v))).collect()),
    }
}

fn js(s: &str) -> Json {
    of(&serde_json::from_str(s).unwrap())
}

#[test]
fn split_multiple_envelopes() {
    let s = br#"{"type":"a","payload":{"type":"x"}}{"type":"b","payload":{"type":"y"}}"#;
    let parts = split_json(s);
    assert_eq!(parts.len(), 2);
    assert!(parts[0].contains("\"type\":\"a\""));
    assert!(parts[1].contains("\"type\":\"b\""));
}

#[test]
fn mux_approval_question_jobs() {
    let mut ctx = StreamCtx::default();
    let env = r#"{
        "type":"server-request","rpcId":"r","method":"approval/requested",
        "payload":{"type":"approval/requested","sessionId":"s1","approvalId":"a1","toolName":"bash"}
    }"#;
    let evs = handle_mux_frame(&mut ctx, env).unwrap();
    assert!(matches!(&evs[0], StateEvent::ApprovalRequested { id, tool, .. } if id=="a1" && tool=="bash"));

    let env = r#"{
        "type":"server-request","rpcId":"r-q1","method":"question/requested",
        "payload":{"type":"question/requested","sessionId":"s1","questions":[{"id":"q1","question":"继续吗?"}]}
    }"#;
    let evs = handle_mux_frame(&mut ctx, env).unwrap();
    // the pending key is the id of the envelope and that of the item
    assert!(matches!(&evs[0], StateEvent::QuestionRequested { id, text, .. } if id=="r-q1\u{0}q1" && text=="继续吗?"));

    let env = r#"{
        "type":"server-request","rpcId":"x","method":"question/resolved",
        "payload":{"type":"question/resolved","sessionId":"s1","questionRpcId":"r-q1","outcome":"answered"}
    }"#;
    let evs = handle_mux_frame(&mut ctx, env).unwrap();
    assert!(matches!(&evs[0], StateEvent::QuestionResolved { id, .. } if id=="r-q1"));

    let job = |status: &str| {
        format!(
            r#"{{"type":"server-request","rpcId":"r","method":"session/jobs",
            "payload":{{"type":"session/jobs","sessionId":"s1","jobs":[{{"id":"bash-1","kind":"bash","status":"{status}"}}]}}}}"#
        )
    };
    let evs = handle_mux_frame(&mut ctx, &job("running")).unwrap();
    assert!(matches!(&evs[0], StateEvent::ToolStarted { name, .. } if name=="job:bash-1"));
    let evs = handle_mux_frame(&mut ctx, &job("completed")).unwrap();
    assert!(matches!(&evs[0], StateEvent::ToolEnded { name, error, .. } if name=="job:bash-1" && !error));
}

#[test]
fn host_status_frame() {
    let env = r#"{
        "type":"server-request","rpcId":"r","method":"host/session-status",
        "payload":{"type":"host/session-status","sessionId":"s1","running":true}
    }"#;
    let evs = handle_host_frame(env).unwrap();
    assert!(matches!(&evs[0], StateEvent::SessionStatus { running: true, .. }));
}

fn entry(seq: u64, kind: &str, data: &str) -> Json {
    js(&format!(r#"{{"event":{{"seq":{seq},"type":"{kind}","data":{data}}}}}"#))
}

fn chunk(seq: u64, ctype: &str, text: &str) -> Json {
    entry(
        seq,
        "assistant/chunk",
        &format!(r#"{{"turn":1,"step":1,"chunk":{{"type":"{ctype}","text":"{text}"}}}}"#),
    )
}

fn parse_events(session_id: &str, entries: Vec<Json>, st: &mut HistoryState) -> (Vec<StateEvent>, u64) {
    let evs = apply_history_events(session_id, &entries, st);
    let last = st.last_seq.get(&session_id.to_string()).copied().unwrap_or(0);
    (evs, last)
}

#[test]
fn history_seeds_then_streams_chunks() {
    let mut st = HistoryState::new();
    // the first look replays no text, but finds the open turn
    let (evs, _) = parse_events(
        "s1",
        vec![chunk(100, "reasoning-delta", "旧内容"), chunk(101, "text-delta", "old")],
        &mut st,
    );
    assert_eq!(evs.len(), 1);
    assert!(matches!(&evs[0], StateEvent::TurnStarted { turn: 1, .. }));
    // a turn that starts and ends in the window is not replayed
    let mut st2 = HistoryState::new();
    let (evs, _) = parse_events(
        "s1",
        vec![
            entry(1, "turn/start", r#"{"turn":3}"#),
            entry(2, "tool/call", r#"{"turn":3,"callId":"c9","name":"bash"}"#),
            entry(3, "turn/end", r#"{"turn":3,"reason":{"kind":"completed"}}"#),
        ],
        &mut st2,
    );
    assert_eq!(evs.len(), 1);
    assert!(matches!(&evs[0], StateEvent::ToolStarted { name, .. } if name == "bash"));
    // then new text streams in
    let (evs, _) = parse_events(
        "s1",
        vec![
            chunk(100, "reasoning-delta", "旧内容"),
            chunk(102, "reasoning-delta", "思考"),
            chunk(103, "text-delta", "hi"),
        ],
        &mut st,
    );
    assert!(matches!(&evs[0], StateEvent::LiveText { reasoning, text, .. }
        if reasoning.as_deref() == Some("思考") && text.as_deref() == Some("hi")));
    assert_eq!(evs.len(), 1);
    let (evs, _) =
        parse_events("s1", vec![chunk(102, "reasoning-delta", "思考"), chunk(104, "text-delta", " more")], &mut st);
    assert!(matches!(&evs[0], StateEvent::LiveText { text, .. } if text.as_deref() == Some(" more")));
}

#[test]
fn baseline_recovers_midrun_session() {
    let mut st = HistoryState::new();
    let (evs, last) = parse_events(
        "s1",
        vec![
            entry(
                5000,
                "assistant/chunk",
                r#"{"turn":5,"step":9,"chunk":{"type":"text-delta","text":"正在生成"}}"#,
            ),
            entry(5001, "tool/call", r#"{"turn":5,"step":9,"callId":"c9","name":"bash","arguments":"{}"}"#),
        ],
        &mut st,
    );
    assert_eq!(last, 5001);
    assert!(matches!(&evs[0], StateEvent::ToolStarted { name, .. } if name == "bash"));
    assert!(matches!(&evs[1], StateEvent::TurnStarted { turn: 5, .. }));
    assert!(!evs.iter().any(|e| matches!(e, StateEvent::LiveText { .. })));
    let (evs, _) = parse_events("s1", vec![chunk(5002, "text-delta", "新内容")], &mut st);
    assert!(matches!(&evs[0], StateEvent::LiveText { text, .. } if text.as_deref() == Some("新内容")));
}

#[test]
fn baseline_skips_turn_that_ended_in_window() {
    let mut st = HistoryState::new();
    let (evs, _) = parse_events(
        "s1",
        vec![
            entry(10, "assistant/chunk", r#"{"turn":5,"step":1,"chunk":{"type":"text-delta","text":"x"}}"#),
            entry(11, "turn/end", r#"{"turn":5,"reason":{"kind":"completed"}}"#),
        ],
        &mut st,
    );
    assert!(evs.is_empty());
}

#[test]
fn baseline_net_closes_tools_completed_in_window() {
    let mut st = HistoryState::new();
    let (evs, _) = parse_events(
        "s1",
        vec![
            entry(1, "tool/call", r#"{"turn":7,"step":1,"callId":"c1","name":"bash"}"#),
            entry(2, "tool/result", r#"{"turn":7,"step":1,"message":{"source":{"callId":"c1"}}}"#),
        ],
        &mut st,
    );
    assert!(matches!(&evs[0], StateEvent::ToolStarted { name, .. } if name == "bash"));
    assert!(matches!(&evs[1], StateEvent::ToolEnded { name, .. } if name == "bash"));
    assert!(matches!(&evs[2], StateEvent::TurnStarted { turn: 7, .. }));
    assert_eq!(evs.len(), 3);
}

#[test]
fn history_turn_and_tool_events() {
    let mut st = HistoryState::new();
    let _ = parse_events("s1", vec![entry(1, "turn/start", r#"{"turn":1}"#)], &mut st);
    let (evs, _) = parse_events(
        "s1",
        vec![
            entry(2, "turn/start", r#"{"turn":2}"#),
            entry(3, "tool/call", r#"{"turn":2,"step":1,"callId":"c1","name":"bash","arguments":"{}"}"#),
            entry(4, "tool/result", r#"{"turn":2,"step":1,"message":{"source":{"callId":"c1"}}}"#),
            entry(5, "turn/end", r#"{"turn":2,"reason":{"kind":"completed"}}"#),
        ],
        &mut st,
    );
    assert!(matches!(&evs[0], StateEvent::TurnStarted { turn: 2, .. }));
    assert!(matches!(&evs[1], StateEvent::ToolStarted { name, .. } if name == "bash"));
    assert!(matches!(&evs[2], StateEvent::ToolEnded { name, error, .. } if name == "bash" && !error));
    assert!(matches!(&evs[3], StateEvent::TurnEnded { reason: TurnEndReason::Completed, .. }));
}

#[test]
fn history_tool_result_error_flag() {
    let mut st = HistoryState::new();
    let _ = parse_events("s1", vec![entry(1, "tool/call", r#"{"callId":"c1","name":"bash"}"#)], &mut st);
    let (evs, _) = parse_events(
        "s1",
        vec![entry(2, "tool/result", r#"{"message":{"source":{"callId":"c1"}},"error":{"code":"x"}}"#)],
        &mut st,
    );
    assert!(matches!(&evs[0], StateEvent::ToolEnded { error: true, .. }));
}

#[test]
fn a_frame_that_is_no_json_gives_nothing() {
    let mut ctx = StreamCtx::default();
    assert!(handle_mux_frame(&mut ctx, "not json").is_none());
    assert!(handle_host_frame("not json").is_none());
}

#[test]
fn requests_are_written_as_json() {
    let list: Value = serde_json::from_str(&session_list_body(7)).unwrap();
    assert_eq!(list["method"], "session.list");
    let st = HistoryState::new();
    let first: Value = serde_json::from_str(&session_history_body(&st, "s1", 8)).unwrap();
    assert_eq!(first["method"], "session.history");
    assert_eq!(first["payload"]["sessionId"], "s1");
    assert_eq!(first["payload"]["maxMessages"], 200);
}

#[test]
fn answers_of_the_session_list() {
    assert!(matches!(fetch_sessions(500, b"{}"), Err(FetchError::Status(500))));
    let text = |body: &[u8]| fetch_sessions(200, body).unwrap_err().message("session.list");
    let fault = serde_json::from_slice::<Value>(b"<").unwrap_err();
    assert_eq!(text(b"<"), format!("session.list json: {fault}"));
    assert_eq!(text(br#"{"result":{"ok":false,"why":1}}"#), r#"session.list ok=false: {"ok":false,"why":1}"#);
    assert_eq!(text(b"{}"), "session.list ok=false: null");
    assert_eq!(text(br#"{"result":{"ok":true}}"#), "session.list: no items");
    assert_eq!(fetch_sessions(500, b"{}").unwrap_err().message("session.list"), "session.list status 500");
    let mut st = HistoryState::new();
    assert_eq!(poll_history(404, b"{}", "s1", &mut st).unwrap_err().message(""), "status 404");
    assert_eq!(poll_history(200, b"{}", "s1", &mut st).unwrap_err().message(""), "ok=false: null");
}

#[test]
fn a_failed_history_changes_nothing() {
    let mut st = HistoryState::new();
    assert!(poll_history(404, b"{}", "s1", &mut st).is_err());
    assert!(st.last_seq.is_empty());
}

#[test]
fn stopped_sessions_are_looked_at_a_little_longer() {
    let mut st = HistoryState::new();
    let item = |running: bool| SessionItem { session_id: "s1".into(), running, title: None, todos: None };
    assert_eq!(history_targets(&vec![item(true)], &mut st), vec!["s1"]);
    assert_eq!(history_targets(&vec![item(false)], &mut st), vec!["s1"]);
    for _ in 0..5 {
        history_targets(&vec![item(false)], &mut st);
    }
    assert!(history_targets(&vec![item(false)], &mut st).is_empty());
}

#[test]
fn todos_without_content() {
    let v = match js(r#"[{"content":"a","status":"done"},{"status":"x"}]"#) {
        Json::Arr(v) => v,
        _ => unreachable!(),
    };
    let t = read_todos(&v);
    assert_eq!(t[0].content, "a");
    assert_eq!(t[0].status, "done");
}

#[test]
fn waiting_times() {
    assert!(is_healthy(false, 9_999));
    assert!(!is_healthy(false, 10_000));
    assert!(is_healthy(true, 1_000_000));
    assert_eq!(poll_wait(2000, 500), 1500);
    assert_eq!(poll_wait(2000, 1950), 100);
    assert!(history_wait(100, 0) >= 100);
}

#[test]
fn envelopes_end_at_the_first_that_is_not_json() {
    assert_eq!(split_json(br#"{"b":1, "a":[true, null]} 7 oops {"c":2}"#), vec![r#"{"a":[true,null],"b":1}"#, "7"]);
    assert_eq!(split_json(b"oops {}"), Vec::<String>::new());
    assert_eq!(split_json(b""), Vec::<String>::new());
    let values = vec![Some(Json::Bool(true)), Some(Json::Null), None, Some(Json::Bool(false))];
    assert_eq!(write_values(&values), vec!["true", "null"]);
    assert_eq!(write_values(&vec![Some(Json::Str("x".into()))]), vec!["\"x\""]);
}

#[test]
fn a_session_without_calls_has_no_list_of_them() {
    let key = "s1".to_string();
    let mut st = HistoryState::new();
    parse_events("s1", vec![entry(1, "turn/start", r#"{"turn":1}"#)], &mut st);
    assert!(!st.open_calls.contains(&key));
    // a result of an unknown call does not make one either
    let result = r#"{"message":{"source":{"callId":"c1"}}}"#;
    let (evs, _) = parse_events("s1", vec![entry(2, "tool/result", result)], &mut st);
    assert!(matches!(&evs[0], StateEvent::ToolEnded { name, .. } if name == "tool"));
    assert!(!st.open_calls.contains(&key));
    parse_events("s1", vec![entry(3, "tool/call", r#"{"callId":"c1","name":"bash"}"#)], &mut st);
    assert_eq!(st.open_calls.get(&key).unwrap().list.len(), 1);
    // an empty list stays
    let (evs, _) = parse_events("s1", vec![entry(4, "tool/result", result)], &mut st);
    assert!(matches!(&evs[0], StateEvent::ToolEnded { name, .. } if name == "bash"));
    assert_eq!(st.open_calls.get(&key).unwrap().list.len(), 0);
}

#[test]
fn a_turn_that_ended_does_not_come_back() {
    let end = || entry(1, "turn/end", r#"{"turn":5}"#);
    let mut st = HistoryState::new();
    let (evs, _) = parse_events("s1", vec![end(), entry(2, "todo/write", r#"{"turn":5,"todos":[]}"#)], &mut st);
    assert_eq!(evs.len(), 1);
    assert!(matches!(&evs[0], StateEvent::TodoSnapshot { .. }));
    // nor does a late call of it start a tool
    let mut st = HistoryState::new();
    let call = r#"{"turn":5,"callId":"c1","name":"bash"}"#;
    let (evs, _) = parse_events("s1", vec![end(), entry(2, "tool/call", call)], &mut st);
    assert!(evs.is_empty());
    assert!(!st.open_calls.contains(&"s1".to_string()));
    // another turn is still found, and so is one that starts again
    let mut st = HistoryState::new();
    let (evs, _) = parse_events("s1", vec![end(), entry(2, "step/end", r#"{"turn":6}"#)], &mut st);
    assert!(matches!(&evs[..], [StateEvent::TurnStarted { turn: 6, .. }]));
    let mut st = HistoryState::new();
    let (evs, _) = parse_events(
        "s1",
        vec![end(), entry(2, "turn/start", r#"{"turn":5}"#), entry(3, "tool/call", call)],
        &mut st,
    );
    assert!(matches!(&evs[..], [StateEvent::ToolStarted { .. }, StateEvent::TurnStarted { turn: 5, .. }]));
}

#[test]
fn a_call_before_the_end_of_its_turn_is_open_until_it_returns() {
    let mut st = HistoryState::new();
    let (evs, _) = parse_events(
        "s1",
        vec![
            entry(1, "tool/call", r#"{"turn":5,"callId":"c1","name":"bash"}"#),
            entry(2, "turn/end", r#"{"turn":5}"#),
        ],
        &mut st,
    );
    assert!(matches!(&evs[..], [StateEvent::ToolStarted { name, .. }] if name == "bash"));
    let result = r#"{"turn":5,"message":{"source":{"callId":"c1"}}}"#;
    let (evs, _) = parse_events("s1", vec![entry(3, "tool/result", result)], &mut st);
    assert!(matches!(&evs[..], [StateEvent::ToolEnded { name, .. }] if name == "bash"));
}
