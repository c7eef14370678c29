use dshpet::connectors::lua::{
    allowed, column_text, compile_script, deliver, ev_summary, log_line, on_stage, plan_call, removed_globals,
    reply_of, script_event, script_label, sql_param, CallError, Cell, Delivery, ItemCells, LogGate, Reach, ScriptCall,
    SqlParam, Stage, TodoCells,
};
use dshpet::event::{Labels, Source, StateEvent, TurnEndReason};
use dshpet::json::Json;
use dshpet::http::{Response, WsError, WsFrame, WS_OP_CLOSE, WS_OP_TEXT};

fn run(id: u16, calls: Vec<ScriptCall>) -> Vec<StateEvent> {
    calls.into_iter().map(|c| script_event(id, c).unwrap()).collect()
}

fn text(s: &str) -> Cell {
    Cell::Text(s.to_string())
}

#[test]
fn pet_api_emits_prefixed_events() {
    let evs = run(
        0,
        vec![
            ScriptCall::Health { ok: true },
            ScriptCall::SessionStarted { id: "s1".into(), turn: 1 },
            ScriptCall::ToolStarted { id: "s1".into(), name: "bash".into(), args: Some("ls -la".into()) },
            ScriptCall::LiveText {
                id: "s1".into(),
                reasoning: Some("想".into()),
                text: Some("hello".into()),
                tool_name: None,
            },
            ScriptCall::SessionEnded { id: "s1".into(), turn: 1, reason: "completed".into() },
        ],
    );
    let get = |f: &dyn Fn(&StateEvent) -> bool| evs.iter().any(|e| f(e));
    assert!(get(&|e| matches!(e, StateEvent::SourceHealth { source: Source::Script(0), healthy: true })));
    assert!(get(&|e| matches!(e, StateEvent::TurnStarted { session_id, turn: 1, .. } if session_id == "script-0-s1")));
    assert!(get(&|e| matches!(e, StateEvent::ToolStarted { name, arguments, session_id, .. } if name == "bash" && arguments.as_deref() == Some("ls -la") && session_id == "script-0-s1")));
    assert!(get(&|e| matches!(e, StateEvent::LiveText { text, reasoning, .. } if text.as_deref() == Some("hello") && reasoning.as_deref() == Some("想"))));
    assert!(get(&|e| matches!(e, StateEvent::TurnEnded { reason: TurnEndReason::Completed, .. })));
}

#[test]
fn poll_and_todo_convert_tables() {
    let evs = run(
        1,
        vec![
            ScriptCall::Poll {
                rows: vec![
                    Some(ItemCells {
                        session_id: text("a"),
                        running: Cell::Bool(true),
                        title: text("任务A"),
                        todos: Some(vec![Some(TodoCells { content: text("干活"), status: text("in_progress") })]),
                    }),
                    Some(ItemCells {
                        session_id: text("b"),
                        running: Cell::Bool(false),
                        title: Cell::Absent,
                        todos: None,
                    }),
                ],
            },
            ScriptCall::Todo {
                id: "a".into(),
                rows: vec![Some(TodoCells { content: text("做完了"), status: text("completed") })],
            },
        ],
    );
    let poll = evs.iter().find_map(|e| match e {
        StateEvent::Poll { items, ok, .. } if *ok => Some(items.clone()),
        _ => None,
    });
    let items = poll.expect("poll event");
    assert_eq!(items.len(), 2);
    assert_eq!(items[0].session_id, "script-1-a");
    assert_eq!(items[0].title.as_deref(), Some("任务A"));
    assert_eq!(items[0].todos.as_ref().unwrap()[0].content, "干活");
    assert_eq!(items[1].running, false);
    assert!(evs.iter().any(|e| matches!(e, StateEvent::TodoSnapshot { session_id, todos, .. }
        if session_id == "script-1-a" && todos[0].status == "completed")));
}

#[test]
fn question_answer_and_user_message() {
    let evs = run(
        2,
        vec![
            ScriptCall::Question { qid: "q1".into(), id: "s1".into(), text: "继续吗?".into() },
            ScriptCall::Answer { qid: "q1".into() },
            ScriptCall::UserMessage { id: "s1".into(), text: "帮我查一下".into() },
            ScriptCall::Queue { n: 3 },
        ],
    );
    assert!(evs.iter().any(|e| matches!(e, StateEvent::QuestionRequested { id, text, session_id, .. }
        if id == "script-2-q1" && text == "继续吗?" && session_id == "script-2-s1")));
    assert!(evs.iter().any(|e| matches!(e, StateEvent::QuestionResolved { id, .. } if id == "script-2-q1")));
    assert!(evs.iter().any(|e| matches!(e, StateEvent::UserMessage { text, .. } if text == "帮我查一下")));
    assert!(evs.iter().any(|e| matches!(e, StateEvent::QueueChanged { pending: 3, .. })));
}

#[test]
fn session_status_approval_and_pending_sync() {
    let evs = run(
        20,
        vec![
            ScriptCall::SessionStatus { id: "s1".into(), running: true },
            ScriptCall::ApprovalRequested { aid: "a1".into(), id: "s1".into(), tool: "bash".into() },
            ScriptCall::ApprovalResolved { aid: "a1".into() },
            ScriptCall::PendingSync,
        ],
    );
    assert!(evs.iter().any(|e| matches!(e, StateEvent::SessionStatus { session_id, running, .. }
        if session_id == "script-20-s1" && *running)));
    assert!(evs.iter().any(|e| matches!(e, StateEvent::ApprovalRequested { id, session_id, tool, .. }
        if id == "script-20-a1" && session_id == "script-20-s1" && tool == "bash")));
    assert!(evs.iter().any(|e| matches!(e, StateEvent::ApprovalResolved { id, .. } if id == "script-20-a1")));
    assert!(evs.iter().any(|e| matches!(e, StateEvent::PendingSync { source: Source::Script(20) })));
}

#[test]
fn runtime_error_marks_unhealthy_and_does_not_panic() {
    let mut evs = run(3, vec![ScriptCall::Health { ok: true }]);
    evs.extend(on_stage(3, &Stage::Failed("boom".into())).1);
    assert!(evs.iter().any(|e| matches!(e, StateEvent::SourceHealth { healthy: true, .. })));
    assert!(evs.iter().any(|e| matches!(e, StateEvent::SourceHealth { healthy: false, .. })));
    // a script that dies leaves no pending request behind
    assert!(evs.iter().any(|e| matches!(e, StateEvent::PendingSync { source: Source::Script(3) })));
}

#[test]
fn poll_and_todo_tolerate_missing_fields() {
    let absent = || Cell::Absent;
    let evs = run(
        21,
        vec![
            ScriptCall::Poll {
                rows: vec![
                    Some(ItemCells {
                        session_id: text("a"),
                        running: Cell::Bool(true),
                        title: absent(),
                        todos: Some(vec![
                            Some(TodoCells { content: text("c1"), status: absent() }),
                            Some(TodoCells { content: text("c2"), status: text("done") }),
                            None,
                        ]),
                    }),
                    Some(ItemCells { session_id: absent(), running: Cell::Bool(true), title: absent(), todos: None }),
                    Some(ItemCells { session_id: Cell::Int(42), running: absent(), title: absent(), todos: None }),
                ],
            },
            ScriptCall::Todo {
                id: "a".into(),
                rows: vec![
                    Some(TodoCells { content: text("t1"), status: absent() }),
                    Some(TodoCells { content: text("t2"), status: text("completed") }),
                    None,
                ],
            },
        ],
    );
    let poll = evs.iter().find_map(|e| match e {
        StateEvent::Poll { items, ok, .. } if *ok => Some(items.clone()),
        _ => None,
    });
    let items = poll.expect("poll event");
    assert_eq!(items.len(), 2);
    assert_eq!(items[0].session_id, "script-21-a");
    assert!(items[0].running);
    let todos = items[0].todos.as_ref().unwrap();
    assert_eq!(todos.len(), 2);
    assert_eq!(todos[0].status, "pending");
    assert_eq!(todos[1].status, "done");
    assert_eq!(items[1].session_id, "script-21-42");
    assert!(!items[1].running);
    let todo = evs.iter().find_map(|e| match e {
        StateEvent::TodoSnapshot { todos, .. } => Some(todos.clone()),
        _ => None,
    });
    let todos = todo.expect("todo event");
    assert_eq!(todos.len(), 2);
    assert_eq!(todos[0].status, "pending");
}

#[test]
fn compile_error_marks_unhealthy() {
    let src = "this is not lua at all !!!\n";
    let stage = compile_script(src, "bad.lua", src.len(), None);
    assert!(matches!(stage, Stage::CompileFailed(_)));
    let (_, evs) = on_stage(4, &stage);
    assert!(!evs.iter().any(|e| matches!(e, StateEvent::SourceHealth { healthy: true, .. })));
    assert!(evs.iter().any(|e| matches!(e, StateEvent::SourceHealth { healthy: false, .. })));
}

#[test]
fn a_script_that_compiles_is_up() {
    let src = "local a = 1\nerror('only when it runs')\n";
    let stage = compile_script(src, "good.lua", src.len(), None);
    assert!(matches!(stage, Stage::Started { .. }));
    let (_, evs) = on_stage(4, &stage);
    assert!(evs.iter().any(|e| matches!(e, StateEvent::SourceHealth { healthy: true, .. })));
}

#[test]
fn missing_file_marks_unhealthy() {
    let (line, evs) = on_stage(5, &Stage::LoadFailed("not found".into()));
    assert_eq!(line, "script load failed: not found");
    assert!(evs.iter().any(|e| matches!(e, StateEvent::SourceHealth { healthy: false, .. })));
}

#[test]
fn sandbox_removes_dangerous_libs() {
    let gone = removed_globals(true);
    for name in ["os", "io", "require", "loadfile"] {
        assert!(gone.contains(&name));
    }
    assert!(removed_globals(false).is_empty());
}

#[test]
fn unknown_end_reason_is_a_lua_error() {
    let r = script_event(9, ScriptCall::SessionEnded { id: "s1".into(), turn: 1, reason: "weird".into() });
    match r {
        Err(e) => assert_eq!(
            e.message(),
            "unknown reason 'weird' (completed|error|max_tokens|aborted|interrupted|blocked)"
        ),
        Ok(_) => panic!("an unknown reason was taken"),
    }
}

#[test]
fn a_text_that_is_no_utf8_is_refused() {
    let rows = vec![
        Some(TodoCells { content: Cell::Int(1), status: Cell::BadText("passed over".into()) }),
        Some(TodoCells { content: Cell::Text("a".into()), status: Cell::BadText("first".into()) }),
        Some(TodoCells { content: Cell::BadText("second".into()), status: Cell::Absent }),
    ];
    match script_event(9, ScriptCall::Todo { id: "s1".into(), rows }) {
        Err(e) => {
            assert!(matches!(&e, CallError::Encoding(t) if t == "first"));
            assert_eq!(e.message(), "first");
        }
        Ok(_) => panic!("a bad text was taken"),
    }
    let rows = vec![Some(ItemCells {
        session_id: Cell::Text("s1".into()),
        running: Cell::Absent,
        title: Cell::BadText("title".into()),
        todos: None,
    })];
    assert!(matches!(script_event(9, ScriptCall::Poll { rows }), Err(CallError::Encoding(t)) if t == "title"));
}

#[test]
fn source_label_registry() {
    let mut labels = Labels::default();
    labels.register_script_label(10, script_label(10, "我的程序"));
    assert_eq!(Source::Script(10).label(&labels), "我的程序");
    assert_eq!(Source::Script(65535).label(&labels), "Script 65535");
    assert_eq!(Source::Script(60000).label(&labels), "Script 60000");
    assert_eq!(script_label(4, "  "), "Script 5");
}

#[test]
fn sandbox_blocks_network_and_sqlite() {
    for call in [Reach::Http, Reach::HttpPost, Reach::Ws, Reach::Sqlite] {
        assert!(allowed(call, true).is_err());
        assert!(allowed(call, false).is_ok());
    }
    assert!(plan_call(Reach::Http, true, "http://127.0.0.1:1/x", Some(300)).is_err());
}

#[test]
fn a_call_goes_to_its_target_for_its_time() {
    let (url, ms) = plan_call(Reach::Http, false, "http://127.0.0.1:1/x", Some(300)).unwrap();
    assert_eq!((url.host.as_str(), url.port, url.path.as_str()), ("127.0.0.1", 1, "/x"));
    assert_eq!(ms, 300);
    assert!(plan_call(Reach::Http, false, "https://x", None).is_err());
}

#[test]
fn what_comes_over_a_websocket() {
    let hi = WsFrame { opcode: WS_OP_TEXT, payload: b"hi".to_vec() };
    assert!(matches!(deliver(Ok(hi)), Delivery::Data(d) if d == b"hi"));
    let bye = WsFrame { opcode: WS_OP_CLOSE, payload: Vec::new() };
    assert!(matches!(deliver(Ok(bye)), Delivery::Gone));
    assert!(matches!(deliver(Err(WsError::Timeout)), Delivery::Quiet));
    assert!(matches!(deliver(Err(WsError::Closed)), Delivery::Gone));
}

#[test]
fn replies_and_columns_as_text() {
    let r = Response { status: 201, headers: Vec::new(), body: vec![b'o', b'k', 0xff] };
    assert_eq!(reply_of(&r), (201, "ok\u{fffd}".to_string()));
    assert_eq!(column_text(&[1, 0xab], true), "01ab");
    assert_eq!(column_text("你".as_bytes(), false), "你");
}

#[test]
fn parameters_of_a_query() {
    assert!(matches!(sql_param(Cell::Absent), Ok(SqlParam::Null)));
    assert!(matches!(sql_param(Cell::Bool(true)), Ok(SqlParam::Int(1))));
    assert!(matches!(sql_param(Cell::Num("2.0".into(), Some(2))), Ok(SqlParam::Int(2))));
    assert!(matches!(sql_param(Cell::Num("2.5".into(), None)), Ok(SqlParam::Real)));
    assert!(matches!(sql_param(Cell::BadText("bad".into())), Err(CallError::Encoding(t)) if t == "bad"));
}

#[test]
fn a_line_is_not_repeated_at_once() {
    let mut g = LogGate::new();
    assert!(g.passes("x", 0));
    assert!(!g.passes("x", 29_999));
    assert!(g.passes("x", 30_000));
    assert!(g.passes("y", 30_001));
    assert_eq!(log_line("MAA", "up"), "[lua:MAA] up");
}

#[test]
fn events_in_one_line() {
    let e = script_event(7, ScriptCall::Queue { n: 3 }).unwrap();
    assert_eq!(ev_summary(&e), "queue 3");
    assert_eq!(ev_summary(&StateEvent::Tick), "tick");
}

#[test]
fn arguments_are_echoed_up_to_a_length() {
    let echo = |args: Option<Json>| on_stage(1, &Stage::Started { bytes: 7, args }).0;
    assert_eq!(echo(None), "started (7 bytes) args=");
    assert_eq!(echo(Some(Json::Str("x".repeat(298)))), format!("started (7 bytes) args=\"{}\"", "x".repeat(298)));
    assert_eq!(echo(Some(Json::Str("字".repeat(400)))), format!("started (7 bytes) args=\"{}", "字".repeat(299)));
}
