use dshpet::connectors::comfyui::{
    default_node_label, fetch_queue, history_terminal, prompt_classes, queue_item, read_ending, read_queue, QueueItem,
    RunState,
};
use dshpet::connectors::dsh::FetchError;
use dshpet::event::{StateEvent, TurnEndReason};
use dshpet::json::{Json, JsonNum};
use dshpet::ordmap::OrdMap;
use serde_json::Value;

fn of(v: &Value) -> Json {
    match v {
        Value::Null => Json::Null,
        Value::Bool(b) => Json::Bool(*b),
        Value::Number(n) => Json::Num(JsonNum {
            unsigned: n.as_u64(),
            signed: n.as_i64(),
            truncated: n.as_u64().unwrap_or(n.as_f64().unwrap_or(0.0) as u64),
            text: n.to_string(),
        }),
        Value::String(s) => Json::Str(s.clone()),
        Value::Array(a) => Json::Arr(a.iter().map(of).collect()),
        Value::Object(m) => Json::Obj(m.iter().map(|(k, v)| (k.clone(), of(v))).collect()),
    }
}

fn js(s: &str) -> Json {
    of(&serde_json::from_str(s).unwrap())
}

#[test]
fn queue_item_parses_array_format() {
    let v: Value = serde_json::from_str(
        r#"[0, "p1", {"3": {"class_type": "KSampler", "inputs": {}}}, {}, []]"#,
    )
    .unwrap();
    let QueueItem { pid, number, classes } = queue_item(&of(&v)).unwrap();
    assert_eq!(pid, "p1");
    assert_eq!(number, 0);
    assert_eq!(classes.get(&"3".to_string()).map(String::as_str), Some("KSampler"));
    let v2: Value = serde_json::from_str(
        r#"{"prompt_id":"p2","number":1,"prompt":{"5":{"class_type":"VAEDecode"}}}"#,
    )
    .unwrap();
    let QueueItem { pid, number, classes } = queue_item(&of(&v2)).unwrap();
    assert_eq!(pid, "p2");
    assert_eq!(number, 1);
    assert_eq!(classes.get(&"5".to_string()).map(String::as_str), Some("VAEDecode"));
}

#[test]
fn queue_json_shape_counts_pending() {
    let v: Value = serde_json::from_str(
        r#"{"queue_running":[[0,"p1",{"3":{"class_type":"KSampler"}},{},[]]],
            "queue_pending":[[1,"p2",{} ,{},[]],[2,"p3",{},{},[]]]}"#,
    )
    .unwrap();
    let running = v["queue_running"].as_array().unwrap();
    let pending = v["queue_pending"].as_array().map(|a| a.len()).unwrap_or(0);
    assert_eq!(running.len(), 1);
    assert_eq!(pending, 2);
    let (running, pending) = read_queue(of(&v));
    assert_eq!(running.len(), 1);
    assert_eq!(pending, 2);
}

#[test]
fn history_terminal_status_parses() {
    let v: Value = serde_json::from_str(
        r#"{"p1":{"status":{"status_str":"error","completed":true,
             "messages":[{"type":"execution_error","data":{"exception_type":"CUDA OOM"}}]}}}"#,
    )
    .unwrap();
    assert_eq!(v["p1"]["status"]["status_str"], "error");
    let v2: Value = serde_json::from_str(r#"{"p2":{"status":{"status_str":"success"}}}"#).unwrap();
    assert_eq!(v2["p2"]["status"]["status_str"], "success");
    let v3: Value = serde_json::from_str(
        r#"{"p3":{"status":{"status_str":"success","completed":true,
             "messages":[{"type":"execution_interrupted"}]}}}"#,
    )
    .unwrap();
    let msgs = v3["p3"]["status"]["messages"].as_array().unwrap();
    assert!(msgs.iter().any(|m| m["type"].as_str() == Some("execution_interrupted")));
    assert_eq!(read_ending(&of(&v), "p1"), TurnEndReason::Error);
    assert_eq!(read_ending(&of(&v2), "p2"), TurnEndReason::Completed);
    assert_eq!(read_ending(&of(&v3), "p3"), TurnEndReason::Interrupted);
}

#[test]
fn execution_start_opens_turn_once() {
    let mut st = RunState::default();
    st.handle_ws_message(&js(r#"{"type":"execution_start","data":{"prompt_id":"p1"}}"#), 0);
    st.handle_ws_message(&js(r#"{"type":"execution_start","data":{"prompt_id":"p1"}}"#), 0);
    let evs = st.drain();
    assert_eq!(evs.len(), 2);
    assert!(matches!(&evs[0], StateEvent::TurnStarted { session_id, turn, .. }
        if session_id == "p1" && *turn == 1));
    assert!(matches!(&evs[1], StateEvent::ToolStarted { name, .. } if name == "执行中"));
}

#[test]
fn executing_switches_nodes_and_progress_refreshes_args() {
    let mut st = RunState::default();
    st.node_classes.insert("p1".to_string(), prompt_classes(Some(&js(r#"{"10": {"class_type": "KSampler"}, "11": {"class_type": "VAEDecode"}}"#))));
    st.handle_ws_message(&js(r#"{"type":"executing","data":{"prompt_id":"p1","node":10}}"#), 0);
    let evs = st.drain();
    assert!(matches!(&evs[0], StateEvent::TurnStarted { session_id, .. } if session_id == "p1"));
    assert!(matches!(&evs[1], StateEvent::ToolStarted { name, arguments, .. }
        if name == "KSampler" && arguments.is_none()));
    st.handle_ws_message(&js(r#"{"type":"progress","data":{"prompt_id":"p1","value":6,"max":20}}"#), 0);
    let evs = st.drain();
    assert!(matches!(&evs[0], StateEvent::ToolStarted { name, arguments, .. }
        if name == "KSampler" && arguments.as_deref() == Some("6/20")));
    st.handle_ws_message(&js(r#"{"type":"progress","data":{"prompt_id":"p1","value":7,"max":20}}"#), 0);
    assert!(st.drain().is_empty());
    st.handle_ws_message(&js(r#"{"type":"executing","data":{"prompt_id":"p1","node":11}}"#), 0);
    let evs = st.drain();
    assert!(matches!(&evs[0], StateEvent::ToolEnded { name, .. } if name == "KSampler"));
    assert!(matches!(&evs[1], StateEvent::ToolStarted { name, .. } if name == "VAEDecode"));
    st.handle_ws_message(&js(r#"{"type":"executing","data":{"prompt_id":"p1","node":null}}"#), 0);
    let evs = st.drain();
    assert!(matches!(&evs[0], StateEvent::ToolEnded { name, error, .. } if name == "VAEDecode" && !error));
}

#[test]
fn executing_falls_back_to_node_id_without_graph() {
    let mut st = RunState::default();
    st.handle_ws_message(&js(r#"{"type":"executing","data":{"prompt_id":"p1","node":3}}"#), 0);
    let evs = st.drain();
    assert!(matches!(&evs[1], StateEvent::ToolStarted { name, .. } if name == "#3"));
}

#[test]
fn success_finishes_with_tool_cleanup_once() {
    let mut st = RunState::default();
    st.node_classes.insert("p1".to_string(), prompt_classes(Some(&js(r#"{"1": {"class_type": "KSampler"}}"#))));
    st.handle_ws_message(&js(r#"{"type":"executing","data":{"prompt_id":"p1","node":1}}"#), 0);
    st.drain();
    st.handle_ws_message(&js(r#"{"type":"execution_success","data":{"prompt_id":"p1"}}"#), 100);
    st.handle_ws_message(&js(r#"{"type":"execution_success","data":{"prompt_id":"p1"}}"#), 100);
    let evs = st.drain();
    assert_eq!(evs.len(), 2);
    assert!(matches!(&evs[0], StateEvent::ToolEnded { name, .. } if name == "KSampler"));
    assert!(matches!(&evs[1], StateEvent::TurnEnded { reason: TurnEndReason::Completed, .. }));
    assert!(st.node_classes.is_empty());
}

#[test]
fn error_and_interrupted_map_to_reasons() {
    let mut st = RunState::default();
    st.handle_ws_message(&js(r#"{"type":"execution_error","data":{"prompt_id":"p1"}}"#), 0);
    let evs = st.drain();
    assert!(matches!(&evs[0], StateEvent::TurnEnded { reason: TurnEndReason::Error, .. }));

    let mut st2 = RunState::default();
    st2.handle_ws_message(&js(r#"{"type":"execution_interrupted","data":{"prompt_id":"p2"}}"#), 0);
    let evs = st2.drain();
    assert!(matches!(&evs[0], StateEvent::TurnEnded { reason: TurnEndReason::Interrupted, .. }));
}

#[test]
fn status_frame_updates_queue() {
    let mut st = RunState::default();
    st.handle_ws_message(&js(r#"{"type":"status","data":{"status":{"exec_info":{"queue_remaining":3}}}}"#),
        0,
    );
    let evs = st.drain();
    assert!(matches!(&evs[0], StateEvent::QueueChanged { pending: 3, .. }));
}

#[test]
fn ignores_high_frequency_frames() {
    let mut st = RunState::default();
    st.handle_ws_message(&js(r#"{"type":"b_preview","data":{"preview":"x"}}"#), 0);
    st.handle_ws_message(&js(r#"{"type":"execution_cached","data":{"nodes":[1]}}"#), 0);
    st.handle_ws_message(&js(r#"{"type":"executed","data":{"node":1}}"#), 0);
    assert!(st.drain().is_empty());
}

#[test]
fn no_turn_restart_after_finish_even_if_still_listed() {
    let mut st = RunState::default();
    st.start_turn(&"p1".to_string());
    st.finish_prompt(&"p1".to_string(), TurnEndReason::Completed, 0);
    st.drain();
    st.start_turn(&"p1".to_string());
    st.ensure_placeholder(&"p1".to_string());
    assert!(st.drain().is_empty());
    assert!(!st.running.contains(&"p1".to_string()));
    assert!(st.node.get(&"p1".to_string()).is_none());
}

#[test]
fn fallback_name_upgraded_when_graph_arrives() {
    let mut st = RunState::default();
    st.handle_ws_message(&js(r#"{"type":"executing","data":{"prompt_id":"p1","node":3}}"#), 0);
    st.drain();
    st.node_classes.insert("p1".to_string(), prompt_classes(Some(&js(r#"{"3": {"class_type": "KSampler"}}"#))));
    st.resolve_node_names(&"p1".to_string());
    let evs = st.drain();
    assert!(matches!(&evs[0], StateEvent::ToolEnded { name, .. } if name == "#3"));
    assert!(matches!(&evs[1], StateEvent::ToolStarted { name, .. } if name == "KSampler"));
}

#[test]
fn default_node_label_prefers_sampler() {
    let mut classes = OrdMap::new();
    classes.insert("2".to_string(), "LoadImage".to_string());
    classes.insert("3".to_string(), "KSampler".to_string());
    classes.insert("5".to_string(), "VAEDecode".to_string());
    assert_eq!(default_node_label(&classes).as_deref(), Some("KSampler"));
    let mut classes2 = OrdMap::new();
    classes2.insert("2".to_string(), "LoadImage".to_string());
    classes2.insert("5".to_string(), "VAEDecode".to_string());
    assert_eq!(default_node_label(&classes2).as_deref(), Some("VAEDecode"));
    assert_eq!(default_node_label(&OrdMap::new()), None);
}

#[test]
fn poll_placeholder_gives_working_baseline() {
    let mut st = RunState::default();
    st.node_classes.insert(
        "p1".to_string(),
        prompt_classes(Some(&js(r#"{"3": {"class_type": "KSampler"}}"#))),
    );
    st.start_turn(&"p1".to_string());
    st.ensure_placeholder(&"p1".to_string());
    st.resolve_node_names(&"p1".to_string());
    let evs = st.drain();
    assert!(matches!(&evs[0], StateEvent::TurnStarted { .. }));
    assert!(matches!(&evs[1], StateEvent::ToolStarted { name, .. } if name == "KSampler"));
    st.finish_prompt(&"p1".to_string(), TurnEndReason::Completed, 0);
    let evs = st.drain();
    assert!(matches!(&evs[0], StateEvent::ToolEnded { name, .. } if name == "KSampler"));
    assert!(matches!(&evs[1], StateEvent::TurnEnded { reason: TurnEndReason::Completed, .. }));
}

#[test]
fn placeholder_upgraded_when_graph_arrives() {
    let mut st = RunState::default();
    st.start_turn(&"p1".to_string());
    st.ensure_placeholder(&"p1".to_string());
    let evs = st.drain();
    assert!(matches!(&evs[1], StateEvent::ToolStarted { name, .. } if name == "执行中"));
    st.node_classes
        .insert("p1".to_string(), prompt_classes(Some(&js(r#"{"3": {"class_type": "KSampler"}}"#))));
    st.resolve_node_names(&"p1".to_string());
    let evs = st.drain();
    assert!(matches!(&evs[0], StateEvent::ToolEnded { name, .. } if name == "执行中"));
    assert!(matches!(&evs[1], StateEvent::ToolStarted { name, .. } if name == "KSampler"));
}

#[test]
fn execution_start_adds_placeholder_before_graph() {
    let mut st = RunState::default();
    st.handle_ws_message(&js(r#"{"type":"execution_start","data":{"prompt_id":"p1"}}"#), 0);
    let evs = st.drain();
    assert!(matches!(&evs[0], StateEvent::TurnStarted { .. }));
    assert!(matches!(&evs[1], StateEvent::ToolStarted { name, .. } if name == "执行中"));
    st.node_classes
        .insert("p1".to_string(), prompt_classes(Some(&js(r#"{"3": {"class_type": "KSampler"}}"#))));
    st.resolve_node_names(&"p1".to_string());
    let evs = st.drain();
    assert!(matches!(&evs[1], StateEvent::ToolStarted { name, .. } if name == "KSampler"));
}

#[test]
fn float_progress_values_parse() {
    let mut st = RunState::default();
    st.node_classes.insert("p1".to_string(), prompt_classes(Some(&js(r#"{"1": {"class_type": "KSampler"}}"#))));
    st.handle_ws_message(&js(r#"{"type":"executing","data":{"prompt_id":"p1","node":1}}"#), 0);
    st.drain();
    st.handle_ws_message(&js(r#"{"type":"progress","data":{"prompt_id":"p1","value":5.0,"max":20.0}}"#), 0);
    let evs = st.drain();
    assert!(matches!(&evs[0], StateEvent::ToolStarted { arguments: Some(a), .. } if a == "5/20"));
}

#[test]
fn answers_over_http() {
    let body = br#"{"queue_running":[],"queue_pending":[[1,"p2",{},{},[]]]}"#;
    match fetch_queue(200, body) {
        Ok((running, pending)) => assert_eq!((running.len(), pending), (0, 1)),
        Err(_) => panic!("no queue"),
    }
    assert!(matches!(fetch_queue(503, body), Err(FetchError::Status(503))));
    assert!(matches!(fetch_queue(200, b"<html>"), Err(FetchError::NotJson(_))));
    let history = br#"{"p2":{"status":{"status_str":"success"}}}"#;
    assert_eq!(history_terminal(200, history, "p2"), Some(TurnEndReason::Completed));
    assert_eq!(history_terminal(404, history, "p2"), None);
}

#[test]
fn a_frame_comes_as_bytes() {
    let mut st = RunState::default();
    st.handle_ws_payload(br#"{"type":"execution_start","data":{"prompt_id":"p1"}}"#, 0);
    assert_eq!(st.drain().len(), 2);
    st.handle_ws_payload(b"\xff\xfe not json", 0);
    assert!(st.drain().is_empty());
}
