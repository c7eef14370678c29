use dshpet::bubble_text::{bubble_text_pinned, live_stream_pinned, rotate_pick, BubbleText, MAX_LINE};
use dshpet::event::{LiveText, Mode, Source};
use dshpet::state::{SessionInfo, Snapshot};
fn snap(mode: Mode) -> Snapshot {
    Snapshot { mode, ..Default::default() }
}

fn sess(id: &str, src: Source) -> SessionInfo {
    SessionInfo {
        session_id: id.into(),
        source: src,
        title: "t".into(),
        tool: None,
        tool_args: None,
        task: None,
        todos: vec![],
        live: LiveText::default(),
    }
}

fn bt(s: &Snapshot, source: Option<Source>) -> BubbleText {
    bubble_text_pinned(s, source, None, None, MAX_LINE)
}

#[test]
fn attention_question_shows_session_title() {
    let mut s = snap(Mode::Attention);
    s.thinking.push(SessionInfo {
        title: "继续中断的对话".into(),
        ..sess("mswfow6bou90rb", Source::Hermes)
    });
    s.pending_questions.push(("mswfow6bou90rb".into(), "如何处理?（重启 / 放弃）".into(), String::new()));
    let b = bt(&s, Some(Source::Hermes));
    assert!(b.title.contains("需要你确认 · 1 项"));
    assert!(b.lines.iter().any(|x| x.contains("继续中断的对话")));
    assert!(!b.lines.iter().any(|x| x.contains("mswfow6bou90rb")));
    s.pending_questions.push(("unknown-id".into(), "继续吗?".into(), String::new()));
    let b = bt(&s, Some(Source::Hermes));
    assert!(b.lines.iter().any(|x| x.contains("unknown-id")));
}

#[test]
fn offline_text() {
    let b = bt(&snap(Mode::Offline), None);
    assert!(b.title.contains("连不上"));
    assert_eq!(b.from, None);
}

#[test]
fn working_shows_backend_and_tool() {
    let mut s = snap(Mode::Working);
    s.working.push(SessionInfo { tool: Some("bash".into()), ..sess("s1", Source::Dsh) });
    let b = bt(&s, Some(Source::Dsh));
    assert_eq!(b.title, "正在干活…");
    assert_eq!(b.from.as_deref(), Some("DSH"));
    assert_eq!(b.lines.len(), 1);
    assert!(b.lines[0].contains("bash"));
}

#[test]
fn working_pick_prefers_earliest_started_session() {
    let mut s = snap(Mode::Working);
    s.working.push(SessionInfo { tool: Some("read".into()), ..sess("zz-new", Source::Dsh) });
    s.working.push(SessionInfo { tool: Some("bash".into()), ..sess("aa-old", Source::Dsh) });
    s.working_since.insert("zz-new".into(), 2000);
    s.working_since.insert("aa-old".into(), 1000);
    let b = bt(&s, Some(Source::Dsh));
    assert!(b.lines[0].contains("bash"), "expected earliest-started tool, got: {}", b.lines[0]);
    s.working[0].live.text = "新流出的内容".into();
    let b = bt(&s, Some(Source::Dsh));
    assert!(b.lines[0].contains("新流出的内容"));
}

#[test]
fn rotate_pick_keeps_fresh_and_moves_stale() {
    let mut s = snap(Mode::Working);
    s.working.push(SessionInfo { tool: Some("bash".into()), ..sess("a", Source::Dsh) });
    s.working.push(SessionInfo { tool: Some("read".into()), ..sess("b", Source::Dsh) });
    s.working_since.insert("a".into(), 1000);
    s.working_since.insert("b".into(), 2000);
    assert_eq!(rotate_pick(&s, Some(Source::Dsh), Mode::Working, Some("a"), false), Some("a".into()));
    assert_eq!(rotate_pick(&s, Some(Source::Dsh), Mode::Working, Some("a"), true), Some("b".into()));
    let mut s1 = snap(Mode::Working);
    s1.working.push(SessionInfo { tool: Some("bash".into()), ..sess("a", Source::Dsh) });
    assert_eq!(rotate_pick(&s1, Some(Source::Dsh), Mode::Working, Some("a"), true), Some("a".into()));
    assert_eq!(rotate_pick(&s, Some(Source::Dsh), Mode::Working, None, false), Some("a".into()));
    s.thinking.push(SessionInfo {
        live: LiveText { reasoning: "在想事情…".into(), ..LiveText::default() },
        ..sess("c", Source::Dsh)
    });
    assert_eq!(rotate_pick(&s, Some(Source::Dsh), Mode::Working, Some("a"), true), Some("c".into()));
    let b = bubble_text_pinned(&s, Some(Source::Dsh), Some("c"), None, MAX_LINE);
    assert!(b.lines[0].contains("在想事情"));
}

#[test]
fn working_prefers_live_stream_over_running_tool() {
    let mut s = snap(Mode::Working);
    s.working.push(SessionInfo {
        tool: Some("bash".into()),
        live: LiveText { reasoning: String::new(), text: "正在输出的正文".into(), tool_name: None },
        ..sess("s1", Source::Dsh)
    });
    let b = bt(&s, Some(Source::Dsh));
    assert_eq!(b.lines.len(), 1);
    assert!(b.lines[0].contains("正在输出的正文"));
    assert!(!b.lines[0].contains("bash"));
}

#[test]
fn working_shows_tool_arguments() {
    let mut s = snap(Mode::Working);
    s.working.push(SessionInfo {
        tool: Some("bash".into()),
        tool_args: Some("ls -la /tmp".into()),
        ..sess("s1", Source::Dsh)
    });
    let b = bt(&s, Some(Source::Dsh));
    assert!(b.lines[0].contains("bash"));
    assert!(b.lines[0].contains("ls -la /tmp"));
}

#[test]
fn stream_shows_tail_not_frozen_head() {
    let mut s = snap(Mode::Thinking);
    let long = "开头".repeat(200);
    s.thinking.push(SessionInfo {
        live: LiveText { reasoning: long.clone(), text: String::new(), tool_name: None },
        ..sess("s1", Source::Dsh)
    });
    let l1 = bt(&s, Some(Source::Dsh)).lines;
    let mut s2 = snap(Mode::Thinking);
    s2.thinking.push(SessionInfo {
        live: LiveText { reasoning: format!("{long}新增内容"), text: String::new(), tool_name: None },
        ..sess("s1", Source::Dsh)
    });
    let l2 = bt(&s2, Some(Source::Dsh)).lines;
    assert_ne!(l1[0], l2[0]);
    assert!(l2[0].contains("新增内容"));
    assert!(l2[0].starts_with("🧠 …"));
}

#[test]
fn done_bubble_shows_task_name() {
    let mut s = snap(Mode::Done);
    s.done.push(SessionInfo {
        task: Some("修复webp闪烁像素".into()),
        ..sess("s1", Source::Dsh)
    });
    let b = bt(&s, Some(Source::Dsh));
    assert!(b.title.contains("任务完成"));
    assert!(b.lines.iter().any(|x| x.contains("修复webp闪烁像素")));
}

#[test]
fn idle_shows_pending_queue() {
    let mut s = snap(Mode::Idle);
    s.labels.register_script_label(0, "ComfyUI".to_string());
    s.queue_len = 3;
    let b = bt(&s, Some(Source::Script(0)));
    assert_eq!(b.title, "休息中 💤");
    assert_eq!(b.from.as_deref(), Some("ComfyUI"));
    assert!(b.lines[0].contains("3"));
    let s2 = snap(Mode::Idle);
    let b2 = bt(&s2, Some(Source::Dsh));
    assert!(b2.lines[0].contains("没有运行中的任务"));
}

#[test]
fn thinking_prefers_reasoning_stream() {
    let mut s = snap(Mode::Thinking);
    s.thinking.push(SessionInfo {
        live: LiveText { reasoning: "思考中文字流…".into(), text: String::new(), tool_name: None },
        ..sess("s1", Source::Hermes)
    });
    let b = bt(&s, Some(Source::Hermes));
    assert_eq!(b.lines.len(), 1);
    assert!(b.lines[0].contains("思考中文字流"));
}

#[test]
fn working_filters_other_source_when_selected() {
    let mut s = snap(Mode::Working);
    s.working.push(SessionInfo { tool: Some("t1".into()), ..sess("d1", Source::Dsh) });
    s.working.push(SessionInfo { tool: Some("t2".into()), ..sess("h1", Source::Hermes) });
    let b = bt(&s, Some(Source::Hermes));
    assert!(b.lines[0].contains("t2"));
    assert!(!b.lines[0].contains("t1"));
}

#[test]
fn long_text_truncated() {
    let mut s = snap(Mode::Thinking);
    s.thinking.push(SessionInfo {
        live: LiveText { reasoning: "x".repeat(500), text: String::new(), tool_name: None },
        ..sess("s1", Source::Dsh)
    });
    let b = bt(&s, Some(Source::Dsh));
    assert!(b.lines[0].contains('…'));
}

#[test]
fn reveal_types_out_char_by_char() {
    let mut s = snap(Mode::Thinking);
    s.thinking.push(SessionInfo {
        live: LiveText { reasoning: "正在推导方案".into(), text: String::new(), tool_name: None },
        ..sess("s1", Source::Hermes)
    });
    let b0 = bubble_text_pinned(&s, Some(Source::Hermes), None, Some(0), MAX_LINE);
    assert_eq!(b0.lines[0], "🧠 ");
    let b2 = bubble_text_pinned(&s, Some(Source::Hermes), None, Some(2), MAX_LINE);
    assert!(b2.lines[0].ends_with("正在"));
    assert!(!b2.lines[0].contains("推导"));
    let full = bt(&s, Some(Source::Hermes));
    let lfull = bubble_text_pinned(&s, Some(Source::Hermes), None, Some(100), MAX_LINE);
    assert_eq!(lfull, full);
    assert!(full.lines[0].ends_with("正在推导方案"));
}

#[test]
fn reveal_scrolls_after_cap() {
    let mut s = snap(Mode::Thinking);
    let long: String = "字".repeat(200);
    s.thinking.push(SessionInfo {
        live: LiveText { reasoning: long.clone(), text: String::new(), tool_name: None },
        ..sess("s1", Source::Dsh)
    });
    let b = bubble_text_pinned(&s, Some(Source::Dsh), None, Some(150), MAX_LINE);
    assert!(b.lines[0].starts_with("🧠 …"));
    assert!(b.lines[0].contains('字'));
    assert!(b.lines[0].chars().count() < 200);
}

#[test]
fn max_chars_window_keeps_more_than_bubble() {
    let mut s = snap(Mode::Thinking);
    let long: String = "字".repeat(300);
    s.thinking.push(SessionInfo {
        live: LiveText { reasoning: long.clone(), text: String::new(), tool_name: None },
        ..sess("s1", Source::Dsh)
    });
    let b = bubble_text_pinned(&s, Some(Source::Dsh), None, None, 120);
    let w = bubble_text_pinned(&s, Some(Source::Dsh), None, None, 300);
    assert_eq!(w.lines[0].chars().count() - "🧠 ".chars().count(), 300);
    assert!(w.lines[0].chars().count() > b.lines[0].chars().count());
    assert!(!w.lines[0].contains('…'));
}

#[test]
fn bubble_text_header_title_from_and_stream() {
    let mut s = snap(Mode::Thinking);
    s.thinking.push(SessionInfo {
        live: LiveText { reasoning: "正在推导…".into(), text: String::new(), tool_name: None },
        ..sess("s1", Source::Hermes)
    });
    let b = bubble_text_pinned(&s, Some(Source::Hermes), None, None, MAX_LINE);
    assert_eq!(b.title, "思考中…");
    assert_eq!(b.from.as_deref(), Some("Hermes"));
    assert_eq!(b.lines, vec!["🧠 正在推导…"]);
    let s2 = snap(Mode::Thinking);
    let b = bubble_text_pinned(&s2, Some(Source::Dsh), None, None, MAX_LINE);
    assert_eq!(b.title, "思考中…");
    assert_eq!(b.from.as_deref(), Some("DSH"));
    assert!(b.lines.is_empty());
}

#[test]
fn bubble_text_working_tool_below_header() {
    let mut s = snap(Mode::Working);
    s.working.push(SessionInfo {
        tool: Some("bash".into()),
        tool_args: Some("ls -la /tmp".into()),
        ..sess("s1", Source::Dsh)
    });
    let b = bubble_text_pinned(&s, Some(Source::Dsh), None, None, MAX_LINE);
    assert_eq!(b.title, "正在干活…");
    assert_eq!(b.from.as_deref(), Some("DSH"));
    assert!(b.lines[0].contains("bash"));
    assert!(b.lines[0].contains("ls -la /tmp"));
}

#[test]
fn bubble_text_done_shows_title_and_items() {
    let mut s = snap(Mode::Done);
    s.done.push(SessionInfo {
        task: Some("修复webp闪烁像素".into()),
        ..sess("s1", Source::Dsh)
    });
    let b = bubble_text_pinned(&s, Some(Source::Dsh), None, None, MAX_LINE);
    assert_eq!(b.title, "任务完成啦 🎉");
    assert_eq!(b.from, None);
    assert!(b.lines[0].contains("修复webp闪烁像素"));
    assert!(b.lines[0].contains("[DSH]"));
}

#[test]
fn bubble_text_idle_has_from() {
    let mut s = snap(Mode::Idle);
    s.labels.register_script_label(0, "ComfyUI".to_string());
    s.queue_len = 3;
    let b = bubble_text_pinned(&s, Some(Source::Script(0)), None, None, MAX_LINE);
    assert_eq!(b.title, "休息中 💤");
    assert_eq!(b.from.as_deref(), Some("ComfyUI"));
    assert!(b.lines[0].contains("3"));
}

#[test]
fn live_stream_kind_matches_displayed_stream() {
    let mut s = snap(Mode::Thinking);
    s.thinking.push(SessionInfo {
        live: LiveText { reasoning: "推导".into(), text: "正文".into(), tool_name: None },
        ..sess("s1", Source::Dsh)
    });
    let st = live_stream_pinned(&s, Some(Source::Dsh), Mode::Thinking, None).unwrap();
    assert_eq!(st.kind, 0);
    assert_eq!(st.len, 2);
    assert_eq!(st.session_id, "s1");
    let mut w = snap(Mode::Working);
    w.working.push(SessionInfo {
        live: LiveText { reasoning: "推导".into(), text: "正文".into(), tool_name: None },
        ..sess("s1", Source::Dsh)
    });
    let st = live_stream_pinned(&w, Some(Source::Dsh), Mode::Working, None).unwrap();
    assert_eq!(st.kind, 1);
}

#[test]
fn live_stream_follows_live_content_even_with_tool() {
    let mut s = snap(Mode::Working);
    s.working.push(SessionInfo {
        tool: Some("bash".into()),
        live: LiveText { reasoning: "推导".into(), text: String::new(), tool_name: None },
        ..sess("s1", Source::Dsh)
    });
    let st = live_stream_pinned(&s, Some(Source::Dsh), Mode::Working, None).unwrap();
    assert_eq!(st.kind, 0);
    assert_eq!(st.len, 2);
    s.working[0].live = LiveText::default();
    assert!(live_stream_pinned(&s, Some(Source::Dsh), Mode::Working, None).is_none());
    let mut t = snap(Mode::Thinking);
    t.thinking.push(sess("s1", Source::Dsh));
    assert!(live_stream_pinned(&t, Some(Source::Dsh), Mode::Thinking, None).is_none());
}
