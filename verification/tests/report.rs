use dshpet::event::{Labels, LiveText, Mode, SessionItem, Source, StateEvent, TurnEndReason};
use dshpet::report::{snapshot_lines, trace_line, truncate};
use dshpet::state::{SessionInfo, Snapshot};

#[test]
fn long_text_is_cut() {
    assert_eq!(truncate("abc", 3), "abc");
    assert_eq!(truncate("abcd", 3), "abc…");
}

#[test]
fn a_state_in_lines() {
    let mut s = Snapshot { mode: Mode::Working, ..Default::default() };
    s.sources.insert(Source::Dsh, true);
    s.sources.insert(Source::Script(0), true);
    s.queue_len = 2;
    s.working.push(SessionInfo {
        session_id: "s1".into(),
        source: Source::Dsh,
        title: "任务".into(),
        tool: Some("ba\"sh".into()),
        tool_args: None,
        task: None,
        todos: vec![],
        live: LiveText { reasoning: String::new(), text: "hi".into(), tool_name: None },
    });
    s.pending_questions.push(("s1".into(), "继续吗?".into(), "DSH".into()));
    assert_eq!(
        snapshot_lines(&s),
        vec![
            "=== MODE Working (scripts=1) ===",
            "  queue: 2 pending",
            "  working: [DSH] 任务 tool=Some(\"ba\\\"sh\")",
            "    text: hi",
            "  question: session s1: 继续吗?",
        ]
    );
}

#[test]
fn events_in_the_trace() {
    let names = Labels::default();
    let ended = StateEvent::TurnEnded {
        source: Source::Dsh,
        session_id: "0123456789abcdef".into(),
        turn: 1,
        reason: TurnEndReason::MaxTokens,
    };
    assert_eq!(trace_line(&ended, &names).as_deref(), Some("[debug] TurnEnded MaxTokens 0123456789ab"));
    let item = |running: bool| SessionItem { session_id: "s".into(), running, title: None, todos: None };
    let poll = StateEvent::Poll { source: Source::Hermes, items: vec![item(true), item(false)], ok: true, error: None };
    assert_eq!(trace_line(&poll, &names).as_deref(), Some("[debug] Hermes poll running=1 total=2"));
    // a name is cut between characters
    let wide = StateEvent::TurnStarted { source: Source::Dsh, session_id: "会话会话会".into(), turn: 1 };
    assert_eq!(trace_line(&wide, &names).as_deref(), Some("[debug] TurnStarted 会话会话"));
    assert_eq!(trace_line(&StateEvent::Tick, &names), None);
}
