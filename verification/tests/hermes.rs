use dshpet::connectors::hermes::{
    pending_clarify, poll_wait, tool_content_preview, HermesPoll, MessageRow, SessionRow, LOOKBACK_SECS,
};
use dshpet::event::{StateEvent, TurnEndReason};

const NOW_S: i64 = 1_750_000_000;

fn tmp_db() -> rusqlite::Connection {
    let conn = rusqlite::Connection::open_in_memory().unwrap();
    conn.execute_batch(
        "CREATE TABLE sessions (id TEXT PRIMARY KEY, title TEXT, source TEXT, agent TEXT,
            started_at INTEGER, ended_at INTEGER, end_reason TEXT, last_active INTEGER);
         CREATE TABLE messages (id INTEGER PRIMARY KEY AUTOINCREMENT, session_id TEXT, role TEXT,
            content TEXT, display_content TEXT, tool_name TEXT, timestamp INTEGER,
            reasoning TEXT, reasoning_content TEXT,
            tool_calls TEXT, finish_reason TEXT, tool_call_id TEXT);",
    )
    .unwrap();
    conn
}

fn poll_once(conn: &rusqlite::Connection, p: &mut HermesPoll) -> (Vec<StateEvent>, bool) {
    p.begin_poll();
    let mut stmt = conn
        .prepare(
            "SELECT id, title, ended_at, end_reason, last_active FROM sessions \
             WHERE ended_at IS NULL OR last_active > ?1 ORDER BY last_active DESC",
        )
        .unwrap();
    let rows: Vec<SessionRow> = stmt
        .query_map([NOW_S - LOOKBACK_SECS], |r| {
            Ok(SessionRow {
                id: r.get(0)?,
                title: r.get(1)?,
                ended_at: r.get(2)?,
                end_reason: r.get(3)?,
                last_active: r.get(4)?,
            })
        })
        .unwrap()
        .map(|r| r.unwrap())
        .collect();
    for row in &rows {
        assert!(p.has_room(&row.id));
        if p.read_session(NOW_S as u64 * 1000, row) {
            let message = conn.query_row(
                "SELECT id, role, tool_name, content, display_content, reasoning_content, reasoning, \
                 tool_calls, finish_reason, tool_call_id \
                 FROM messages WHERE session_id = ?1 ORDER BY id DESC LIMIT 1",
                [row.id.as_str()],
                |r| {
                    Ok(MessageRow {
                        id: r.get(0)?,
                        role: r.get(1)?,
                        tool_name: r.get(2)?,
                        content: r.get(3)?,
                        display_content: r.get(4)?,
                        reasoning_content: r.get(5)?,
                        reasoning: r.get(6)?,
                        tool_calls: r.get(7)?,
                        finish_reason: r.get(8)?,
                        tool_call_id: r.get(9)?,
                    })
                },
            );
            if let Ok(m) = message {
                p.poll_messages(&row.id, &m);
            }
        }
    }
    p.end_poll();
    (p.evs.clone(), p.any_running)
}

#[test]
fn reasoning_streaming_delta_on_same_message() {
    let conn = tmp_db();
    conn.execute(
        "INSERT INTO sessions (id, title, source, started_at, last_active) VALUES ('h1','t','cli',?1,?1)",
        [NOW_S],
    )
    .unwrap();
    let mut c = HermesPoll::new();
    let _ = poll_once(&conn, &mut c);

    // first snapshot: reasoning empty, only a little text
    conn.execute(
        "INSERT INTO messages (session_id, role, content, reasoning_content, timestamp) VALUES ('h1','assistant','开头','',?1)",
        [NOW_S],
    )
    .unwrap();
    let (evs1, _) = poll_once(&conn, &mut c);
    assert!(evs1
        .iter()
        .any(|e| matches!(e, StateEvent::LiveText { reasoning: None, text: Some(t), .. } if t == "开头")));

    // same row grows: reasoning appears + text extends -> delta emitted
    conn.execute("UPDATE messages SET reasoning_content='思考中', content='开头后续' WHERE session_id='h1'", [])
        .unwrap();
    let (evs2, _) = poll_once(&conn, &mut c);
    assert!(evs2.iter().any(|e| matches!(e, StateEvent::LiveText { reasoning: Some(r), text: Some(t), .. }
        if r == "思考中" && t == "后续")));

    // unchanged -> no event
    let (evs3, _) = poll_once(&conn, &mut c);
    assert!(!evs3.iter().any(|e| matches!(e, StateEvent::LiveText { .. })));
}

#[test]
fn session_edges_and_messages() {
    let conn = tmp_db();
    conn.execute(
        "INSERT INTO sessions (id, title, source, started_at, last_active) VALUES ('h1','测试会话','cli',?1,?1)",
        [NOW_S],
    )
    .unwrap();
    let mut c = HermesPoll::new();
    let (evs, any) = poll_once(&conn, &mut c);
    assert!(any);
    assert!(evs.iter().any(|e| matches!(e, StateEvent::TurnStarted { session_id, .. } if session_id == "h1")));
    assert!(evs.iter().any(|e| matches!(e, StateEvent::Poll { items, .. } if items.len() == 1 && items[0].running)));

    conn.execute(
        "INSERT INTO messages (session_id, role, content, reasoning_content, timestamp) VALUES ('h1','assistant','你好','思考中',?1)",
        [NOW_S],
    )
    .unwrap();
    let (evs, _) = poll_once(&conn, &mut c);
    assert!(evs.iter().any(|e| matches!(e, StateEvent::LiveText { reasoning, text, .. }
        if reasoning.as_deref() == Some("思考中") && text.as_deref() == Some("你好"))));

    conn.execute("UPDATE sessions SET ended_at = ?1, end_reason = 'complete' WHERE id='h1'", [NOW_S + 1]).unwrap();
    let (evs, any) = poll_once(&conn, &mut c);
    assert!(evs.iter().any(|e| matches!(e, StateEvent::TurnEnded { reason: TurnEndReason::Completed, .. })));
    assert!(evs.iter().any(|e| matches!(e, StateEvent::SessionStatus { running: false, .. })));
    assert!(!any);
}

#[test]
fn stale_session_not_running() {
    let conn = tmp_db();
    conn.execute(
        "INSERT INTO sessions (id, title, source, started_at, last_active) VALUES ('h2','旧会话','cli',?1,?1)",
        [NOW_S - 3600],
    )
    .unwrap();
    let mut c = HermesPoll::new();
    let (evs, any) = poll_once(&conn, &mut c);
    assert!(!any);
    let poll = evs.iter().find_map(|e| match e {
        StateEvent::Poll { items, .. } => Some(items.clone()),
        _ => None,
    });
    assert_eq!(poll.unwrap()[0].running, false);
}

#[test]
fn tool_content_preview_extracts_output() {
    assert_eq!(
        tool_content_preview(r#"{"output": "ls done\nexit 0", "exit_code": 0}"#).as_deref(),
        Some("ls done\nexit 0")
    );
    let long = "x".repeat(500);
    let p = tool_content_preview(&long).unwrap();
    assert!(p.chars().count() <= 160);
    assert!(tool_content_preview("").is_none());
}

#[test]
fn pending_clarify_parses_question_and_choices() {
    let tc = r#"[{"id":"call_00_abc","type":"function","function":{"name":"clarify","arguments":"{\"question\":\"继续吗?\",\"choices\":[\"继续\",\"停下\"],\"multi_select\":false}"}}]"#;
    let q = pending_clarify(Some(tc), Some("tool_calls")).unwrap();
    assert_eq!(q.call_id, "call_00_abc");
    assert!(q.text.contains("继续吗?"));
    assert!(q.text.contains("继续 / 停下"));
    let tc2 = r#"[{"id":"c2","type":"function","function":{"name":"bash","arguments":"{}"}}]"#;
    assert!(pending_clarify(Some(tc2), Some("tool_calls")).is_none());
    assert!(pending_clarify(None, Some("stop")).is_none());
    assert!(pending_clarify(None, None).is_none());
}

#[test]
fn clarify_emits_question_requested_then_resolved() {
    let conn = tmp_db();
    conn.execute(
        "INSERT INTO sessions (id, title, source, started_at, last_active) VALUES ('h1','测试会话','cli',?1,?1)",
        [NOW_S],
    )
    .unwrap();
    let mut c = HermesPoll::new();
    let _ = poll_once(&conn, &mut c);

    let tc = r#"[{"id":"call_00_q1","type":"function","function":{"name":"clarify","arguments":"{\"question\":\"如何处理?\",\"choices\":[\"重启\",\"放弃\"]}"}}]"#;
    conn.execute(
        "INSERT INTO messages (session_id, role, content, tool_calls, finish_reason, timestamp) VALUES ('h1','assistant','',?1,'tool_calls',?2)",
        (tc, NOW_S),
    )
    .unwrap();
    let (evs, _) = poll_once(&conn, &mut c);
    assert!(evs.iter().any(|e| matches!(e, StateEvent::QuestionRequested { id, session_id, text, .. }
        if id == "call_00_q1" && session_id == "h1" && text.contains("如何处理?") && text.contains("重启 / 放弃"))));

    // the answer is a tool result row with the id of the call
    conn.execute(
        "INSERT INTO messages (session_id, role, tool_name, content, tool_call_id, timestamp) VALUES ('h1','tool','clarify','{\"output\":\"重启\"}','call_00_q1',?1)",
        [NOW_S],
    )
    .unwrap();
    let (evs, _) = poll_once(&conn, &mut c);
    assert!(evs.iter().any(|e| matches!(e, StateEvent::QuestionResolved { id, .. } if id == "call_00_q1")));
    assert!(!evs.iter().any(|e| matches!(e, StateEvent::ToolStarted { name, .. } if name == "clarify")));
    assert!(!evs.iter().any(|e| matches!(e, StateEvent::QuestionRequested { .. })));
}

#[test]
fn clarify_resolved_when_session_ends() {
    let conn = tmp_db();
    conn.execute(
        "INSERT INTO sessions (id, title, source, started_at, last_active) VALUES ('h2','等待中','cli',?1,?1)",
        [NOW_S],
    )
    .unwrap();
    let mut c = HermesPoll::new();
    let _ = poll_once(&conn, &mut c);

    let tc = r#"[{"id":"call_00_q2","type":"function","function":{"name":"clarify","arguments":"{\"question\":\"继续吗?\"}"}}]"#;
    conn.execute(
        "INSERT INTO messages (session_id, role, content, tool_calls, finish_reason, timestamp) VALUES ('h2','assistant','',?1,'tool_calls',?2)",
        (tc, NOW_S),
    )
    .unwrap();
    let _ = poll_once(&conn, &mut c);

    conn.execute("UPDATE sessions SET ended_at = ?1, end_reason = 'abort' WHERE id='h2'", [NOW_S + 1]).unwrap();
    let (evs, _) = poll_once(&conn, &mut c);
    assert!(evs.iter().any(|e| matches!(e, StateEvent::QuestionResolved { id, .. } if id == "call_00_q2")));
}

#[test]
fn ordinary_tool_calls_do_not_raise_questions() {
    let conn = tmp_db();
    conn.execute(
        "INSERT INTO sessions (id, title, source, started_at, last_active) VALUES ('h3','干活','cli',?1,?1)",
        [NOW_S],
    )
    .unwrap();
    let mut c = HermesPoll::new();
    let _ = poll_once(&conn, &mut c);

    let tc = r#"[{"id":"call_00_t1","type":"function","function":{"name":"write_file","arguments":"{\"path\":\"/tmp/x\"}"}}]"#;
    conn.execute(
        "INSERT INTO messages (session_id, role, content, tool_calls, finish_reason, timestamp) VALUES ('h3','assistant','',?1,'tool_calls',?2)",
        (tc, NOW_S),
    )
    .unwrap();
    let (evs, _) = poll_once(&conn, &mut c);
    assert!(!evs.iter().any(|e| matches!(e, StateEvent::QuestionRequested { .. })));
}

#[test]
fn polls_come_faster_while_something_runs() {
    assert_eq!(poll_wait(true, 1000, 2000), 1000);
    assert_eq!(poll_wait(false, 1000, 2000), 2000);
}

#[test]
fn a_session_that_vanishes_is_closed() {
    let conn = tmp_db();
    conn.execute("INSERT INTO sessions (id, title, started_at, last_active) VALUES ('h9','t',?1,?1)", [NOW_S]).unwrap();
    let mut c = HermesPoll::new();
    let (_, any) = poll_once(&conn, &mut c);
    assert!(any);
    conn.execute("DELETE FROM sessions", []).unwrap();
    let (evs, any) = poll_once(&conn, &mut c);
    assert!(!any);
    assert!(evs.iter().any(|e| matches!(e, StateEvent::TurnEnded { session_id, reason: TurnEndReason::Aborted, .. }
        if session_id == "h9")));
    assert!(evs.iter().any(|e| matches!(e, StateEvent::SessionStatus { running: false, .. })));
    let (evs, _) = poll_once(&conn, &mut c);
    assert_eq!(evs.len(), 1);
}
