use dshpet::event::{Mode, SessionItem, Source, StateEvent, TodoItem, TurnEndReason};
use dshpet::state::{PetState, DEFAULT_CELEBRATE_MS, DEFAULT_DONE_MS, DEFAULT_FAIL_MS, TTL_APPROVAL_MS};


fn base() -> PetState {
    let mut p = PetState::new(DEFAULT_DONE_MS, DEFAULT_FAIL_MS);
    p.apply(StateEvent::SourceHealth { source: Source::Dsh, healthy: true });
    p.apply(StateEvent::SourceHealth { source: Source::Hermes, healthy: true });
    p
}

fn poll_item(id: &str, running: bool) -> SessionItem {
    SessionItem {
        session_id: id.into(),
        running,
        title: None,
        todos: None,
    }
}

#[test]
fn offline_when_all_sources_down() {
    let mut p = base();
    p.apply(StateEvent::SourceHealth { source: Source::Dsh, healthy: false });
    p.apply(StateEvent::SourceHealth { source: Source::Hermes, healthy: false });
    assert_eq!(p.mode(), Mode::Offline);
}

#[test]
fn one_source_up_keeps_pet_alive() {
    let mut p = base();
    p.apply(StateEvent::SourceHealth { source: Source::Dsh, healthy: false });
    assert_eq!(p.mode(), Mode::Idle);
}

#[test]
fn priority_attention_over_working() {
    let mut p = base();
    p.apply(StateEvent::Poll {
        source: Source::Dsh,
        items: vec![poll_item("s1", true)],
        ok: true,
        error: None,
    });
    p.apply(StateEvent::TurnStarted { source: Source::Dsh, session_id: "s1".into(), turn: 1 });
    p.apply(StateEvent::ToolStarted { source: Source::Dsh, session_id: "s1".into(), name: "bash".into(), arguments: None });
    assert_eq!(p.mode(), Mode::Working);
    p.apply(StateEvent::ApprovalRequested {
        source: Source::Dsh,
        id: "ap1".into(),
        session_id: "s1".into(),
        tool: "bash".into(),
    });
    assert_eq!(p.mode(), Mode::Attention);
    p.apply(StateEvent::ApprovalResolved { source: Source::Dsh, id: "ap1".into() });
    assert_eq!(p.mode(), Mode::Working);
}

#[test]
fn question_resolved_clears_whole_request() {
    let mut p = base();
    p.apply(StateEvent::TurnStarted { source: Source::Dsh, session_id: "s1".into(), turn: 1 });
    // one ask() request with two question items, keyed as the DSH
    // connector does: `<rpcId>\u{0}<itemId>`
    p.apply(StateEvent::QuestionRequested {
        source: Source::Dsh,
        id: "r1\u{0}q1".into(),
        session_id: "s1".into(),
        text: "继续吗?".into(),
    });
    p.apply(StateEvent::QuestionRequested {
        source: Source::Dsh,
        id: "r1\u{0}q2".into(),
        session_id: "s1".into(),
        text: "选哪个?".into(),
    });
    assert_eq!(p.mode(), Mode::Attention);
    // user answers -> question/resolved carries only the request rpcId
    p.apply(StateEvent::QuestionResolved { source: Source::Dsh, id: "r1".into() });
    assert_eq!(p.snapshot().pending_questions.len(), 0);
    assert_eq!(p.mode(), Mode::Thinking); // the running turn is back on top
}

#[test]
fn working_then_thinking_on_tool_end() {
    let mut p = base();
    p.apply(StateEvent::TurnStarted { source: Source::Dsh, session_id: "s1".into(), turn: 1 });
    p.apply(StateEvent::ToolStarted { source: Source::Dsh, session_id: "s1".into(), name: "web".into(), arguments: None });
    assert_eq!(p.mode(), Mode::Working);
    p.apply(StateEvent::ToolEnded { source: Source::Dsh, session_id: "s1".into(), name: "web".into(), error: false });
    assert_eq!(p.mode(), Mode::Thinking);
}

#[test]
fn failed_window_expires() {
    let mut p = base();
    p.apply(StateEvent::TurnStarted { source: Source::Dsh, session_id: "s1".into(), turn: 1 });
    p.apply(StateEvent::TurnEnded {
        source: Source::Dsh,
        session_id: "s1".into(),
        turn: 1,
        reason: TurnEndReason::Error,
    });
    assert_eq!(p.mode(), Mode::Failed);
    p.now_ms = DEFAULT_FAIL_MS + 1;
    assert_eq!(p.mode(), Mode::Idle);
}

#[test]
fn done_window_expires() {
    let mut p = base();
    p.apply(StateEvent::TurnStarted { source: Source::Dsh, session_id: "s1".into(), turn: 1 });
    p.apply(StateEvent::TurnEnded {
        source: Source::Dsh,
        session_id: "s1".into(),
        turn: 1,
        reason: TurnEndReason::Completed,
    });
    assert_eq!(p.mode(), Mode::Done);
    p.now_ms = DEFAULT_DONE_MS + 1;
    assert_eq!(p.mode(), Mode::Idle);
}

#[test]
fn celebrate_done_shows_even_when_next_turn_starts() {
    let mut p = base();
    p.apply(StateEvent::TurnStarted { source: Source::Dsh, session_id: "s1".into(), turn: 1 });
    p.apply(StateEvent::TurnEnded {
        source: Source::Dsh,
        session_id: "s1".into(),
        turn: 1,
        reason: TurnEndReason::Completed,
    });
    // next turn starts immediately - normally thinking would mask done
    p.apply(StateEvent::TurnStarted { source: Source::Dsh, session_id: "s1".into(), turn: 2 });
    assert_eq!(p.mode(), Mode::Done); // celebration window wins
    p.now_ms = DEFAULT_CELEBRATE_MS + 1;
    assert_eq!(p.mode(), Mode::Thinking); // after celebration, priority resumes
}

#[test]
fn celebrate_fail_beats_working() {
    let mut p = base();
    p.apply(StateEvent::TurnStarted { source: Source::Dsh, session_id: "s1".into(), turn: 1 });
    p.apply(StateEvent::TurnEnded {
        source: Source::Dsh,
        session_id: "s1".into(),
        turn: 1,
        reason: TurnEndReason::Error,
    });
    // another session keeps working
    p.apply(StateEvent::TurnStarted { source: Source::Dsh, session_id: "s2".into(), turn: 1 });
    p.apply(StateEvent::ToolStarted { source: Source::Dsh, session_id: "s2".into(), name: "bash".into(), arguments: None });
    assert_eq!(p.mode(), Mode::Failed);
    // celebration expired but the regular fail window (fail_ms) still
    // outranks working
    p.now_ms = DEFAULT_CELEBRATE_MS + 1;
    assert_eq!(p.mode(), Mode::Failed);
    // once the fail window itself expires, working takes over
    p.now_ms = DEFAULT_FAIL_MS + 1;
    assert_eq!(p.mode(), Mode::Working);
}

#[test]
fn aborted_is_neutral() {
    let mut p = base();
    p.apply(StateEvent::TurnStarted { source: Source::Dsh, session_id: "s1".into(), turn: 1 });
    p.apply(StateEvent::TurnEnded {
        source: Source::Dsh,
        session_id: "s1".into(),
        turn: 1,
        reason: TurnEndReason::Aborted,
    });
    assert_eq!(p.mode(), Mode::Idle);
}

#[test]
fn blocked_counts_as_attention_candidate() {
    let mut p = base();
    p.apply(StateEvent::TurnStarted { source: Source::Dsh, session_id: "s1".into(), turn: 1 });
    p.apply(StateEvent::TurnEnded {
        source: Source::Dsh,
        session_id: "s1".into(),
        turn: 1,
        reason: TurnEndReason::Blocked,
    });
    // blocked marks waiting_user; derive still needs the pending list to be
    // attention — synthetic pending question covers it in practice (mux).
    assert_eq!(p.mode(), Mode::Idle);
    let s = p.sessions.get(&"s1".to_string()).unwrap();
    assert!(s.waiting_user);
    // and a poll saying running=false must NOT turn this into "done"
    p.apply(StateEvent::Poll {
        source: Source::Dsh,
        items: vec![poll_item("s1", false)],
        ok: true,
        error: None,
    });
    let s = p.sessions.get(&"s1".to_string()).unwrap();
    assert!(!s.last_end.is_some_and(|(r, _)| r == TurnEndReason::Completed));
}

#[test]
fn poll_running_false_is_done_fallback() {
    let mut p = base();
    p.apply(StateEvent::TurnStarted { source: Source::Dsh, session_id: "s1".into(), turn: 1 });
    p.apply(StateEvent::ToolStarted { source: Source::Dsh, session_id: "s1".into(), name: "bash".into(), arguments: None });
    assert_eq!(p.mode(), Mode::Working);
    // push gap: no turn/end event, poll flips to stopped
    p.apply(StateEvent::Poll {
        source: Source::Dsh,
        items: vec![poll_item("s1", false)],
        ok: true,
        error: None,
    });
    assert_eq!(p.mode(), Mode::Done);
}

#[test]
fn ttl_cleans_old_approvals() {
    let mut p = base();
    p.apply(StateEvent::ApprovalRequested {
        source: Source::Dsh,
        id: "ap1".into(),
        session_id: "s1".into(),
        tool: "bash".into(),
    });
    assert_eq!(p.mode(), Mode::Attention);
    p.now_ms = TTL_APPROVAL_MS + 1;
    p.apply(StateEvent::Tick);
    assert_eq!(p.mode(), Mode::Idle);
}

#[test]
fn live_text_accumulates_and_clears_on_turn_end() {
    let mut p = base();
    p.apply(StateEvent::TurnStarted { source: Source::Dsh, session_id: "s1".into(), turn: 1 });
    p.apply(StateEvent::LiveText {
        source: Source::Dsh,
        session_id: "s1".into(),
        reasoning: Some("思考中…".into()),
        text: Some("hello".into()),
        tool_name: None,
    });
    let snap = p.snapshot();
    assert_eq!(snap.thinking[0].live.reasoning, "思考中…");
    p.apply(StateEvent::TurnStarted { source: Source::Dsh, session_id: "s1".into(), turn: 1 });
    p.apply(StateEvent::TurnEnded {
        source: Source::Dsh,
        session_id: "s1".into(),
        turn: 1,
        reason: TurnEndReason::Completed,
    });
    let snap = p.snapshot();
    assert!(snap.thinking.is_empty());
}

#[test]
fn bubble_source_prefers_active_then_dsh() {
    let mut p = base();
    // both idle -> DSH
    assert_eq!(p.select_bubble_source(), Some(Source::Dsh));
    // hermes active, dsh idle -> hermes
    p.apply(StateEvent::TurnStarted { source: Source::Hermes, session_id: "h1".into(), turn: 1 });
    assert_eq!(p.select_bubble_source(), Some(Source::Hermes));
    // both active -> dsh
    p.apply(StateEvent::TurnStarted { source: Source::Dsh, session_id: "d1".into(), turn: 1 });
    assert_eq!(p.select_bubble_source(), Some(Source::Dsh));
    // dsh offline -> hermes
    p.apply(StateEvent::SourceHealth { source: Source::Dsh, healthy: false });
    assert_eq!(p.select_bubble_source(), Some(Source::Hermes));
}

#[test]
fn sessions_reaped_when_inactive_and_gone() {
    let mut p = base();
    p.apply(StateEvent::Poll {
        source: Source::Dsh,
        items: vec![poll_item("gone", false)],
        ok: true,
        error: None,
    });
    p.now_ms = DEFAULT_DONE_MS + 1;
    p.apply(StateEvent::Poll { source: Source::Dsh, items: vec![], ok: true, error: None });
    assert!(p.sessions.is_empty());
}

#[test]
fn task_label_falls_back_to_user_message_and_todo() {
    let mut p = base();
    // no title: task = last user message
    p.apply(StateEvent::UserMessage { source: Source::Dsh, session_id: "s1".into(), text: "修复webp闪烁".into() });
    let snap = p.snapshot();
    assert_eq!(snap.done.len(), 0);
    // make it a completed session and inspect the task through snapshot
    p.apply(StateEvent::TurnStarted { source: Source::Dsh, session_id: "s1".into(), turn: 1 });
    p.apply(StateEvent::TurnEnded { source: Source::Dsh, session_id: "s1".into(), turn: 1, reason: TurnEndReason::Completed });
    let snap = p.snapshot();
    assert_eq!(snap.done[0].task.as_deref(), Some("修复webp闪烁"));
    // todo fallback when no user message
    let mut p2 = base();
    p2.apply(StateEvent::TodoSnapshot {
        source: Source::Dsh,
        session_id: "s2".into(),
        todos: vec![TodoItem { content: "部署服务".into(), status: "in_progress".into() }],
    });
    p2.apply(StateEvent::TurnStarted { source: Source::Dsh, session_id: "s2".into(), turn: 1 });
    p2.apply(StateEvent::TurnEnded { source: Source::Dsh, session_id: "s2".into(), turn: 1, reason: TurnEndReason::Completed });
    let snap = p2.snapshot();
    assert_eq!(snap.done[0].task.as_deref(), Some("部署服务"));
}

#[test]
fn mode_priority_table_is_stable() {
    let order = [
        Mode::Offline,
        Mode::Attention,
        Mode::Failed,
        Mode::Working,
        Mode::Thinking,
        Mode::Done,
        Mode::Idle,
    ];
    for w in order.windows(2) {
        assert!(w[0].priority() > w[1].priority(), "{:?} > {:?}", w[0], w[1]);
    }
}

#[test]
fn comfyui_run_maps_to_modes() {
    let mut p = base();
    p.apply(StateEvent::SourceHealth { source: Source::ComfyUi, healthy: true });
    // poll sets the running prompt + its bubble title (as the connector does)
    p.apply(StateEvent::Poll {
        source: Source::ComfyUi,
        items: vec![SessionItem {
            session_id: "p1".into(),
            running: true,
            title: Some("出图任务 #1".into()),
            todos: None,
        }],
        ok: true,
        error: None,
    });
    p.apply(StateEvent::TurnStarted { source: Source::ComfyUi, session_id: "p1".into(), turn: 1 });
    assert_eq!(p.mode(), Mode::Thinking);
    p.apply(StateEvent::ToolStarted {
        source: Source::ComfyUi,
        session_id: "p1".into(),
        name: "KSampler".into(),
        arguments: None,
    });
    assert_eq!(p.mode(), Mode::Working);
    p.apply(StateEvent::ToolEnded {
        source: Source::ComfyUi,
        session_id: "p1".into(),
        name: "KSampler".into(),
        error: false,
    });
    p.apply(StateEvent::TurnEnded {
        source: Source::ComfyUi,
        session_id: "p1".into(),
        turn: 1,
        reason: TurnEndReason::Completed,
    });
    assert_eq!(p.mode(), Mode::Done);
    // snapshot bucket lands the finished prompt in done
    let snap = p.snapshot();
    assert_eq!(snap.done.len(), 1);
    assert_eq!(snap.done[0].source, Source::ComfyUi);
    assert_eq!(snap.done[0].title, "出图任务 #1");
}

#[test]
fn comfyui_failure_and_interrupt() {
    let mut p = base();
    p.apply(StateEvent::SourceHealth { source: Source::ComfyUi, healthy: true });
    p.apply(StateEvent::TurnStarted { source: Source::ComfyUi, session_id: "p1".into(), turn: 1 });
    p.apply(StateEvent::TurnEnded {
        source: Source::ComfyUi,
        session_id: "p1".into(),
        turn: 1,
        reason: TurnEndReason::Error,
    });
    assert_eq!(p.mode(), Mode::Failed);
    // interrupted is neutral (like aborted): no celebration
    p.now_ms = DEFAULT_FAIL_MS + 1;
    p.apply(StateEvent::TurnStarted { source: Source::ComfyUi, session_id: "p2".into(), turn: 1 });
    p.apply(StateEvent::TurnEnded {
        source: Source::ComfyUi,
        session_id: "p2".into(),
        turn: 1,
        reason: TurnEndReason::Interrupted,
    });
    assert_eq!(p.mode(), Mode::Idle);
}

#[test]
fn queue_depth_aggregates_across_sources() {
    let mut p = base();
    p.apply(StateEvent::QueueChanged { source: Source::ComfyUi, pending: 3 });
    p.apply(StateEvent::QueueChanged { source: Source::Dsh, pending: 2 });
    assert_eq!(p.snapshot().queue_len, 5);
    p.apply(StateEvent::QueueChanged { source: Source::ComfyUi, pending: 0 });
    assert_eq!(p.snapshot().queue_len, 2);
}

#[test]
fn comfyui_offline_only_when_everything_down() {
    let mut p = base();
    p.apply(StateEvent::SourceHealth { source: Source::ComfyUi, healthy: true });
    assert_eq!(p.mode(), Mode::Idle);
    p.apply(StateEvent::SourceHealth { source: Source::ComfyUi, healthy: false });
    p.apply(StateEvent::SourceHealth { source: Source::Dsh, healthy: false });
    p.apply(StateEvent::SourceHealth { source: Source::Hermes, healthy: false });
    assert_eq!(p.mode(), Mode::Offline);
}
