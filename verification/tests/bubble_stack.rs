use dshpet::bubble_stack::{card_title, fix_card_title, stack_cards, StackCard, StackState, MAX_CARDS};
use dshpet::bubble_text::bubble_text_pinned;
use dshpet::event::{LiveText, Mode, Source};
use dshpet::ordmap::OrdMap;
use dshpet::state::{SessionInfo, Snapshot};
fn snap(mode: Mode) -> Snapshot {
    Snapshot { mode, ..Default::default() }
}

fn sess(id: &str, src: Source) -> SessionInfo {
    SessionInfo {
        session_id: id.into(),
        source: src,
        title: "t".into(),
        tool: None,
        tool_args: None,
        task: None,
        todos: vec![],
        live: LiveText::default(),
    }
}

fn working(s: &mut Snapshot, id: &str, src: Source) {
    s.working.push(sess(id, src));
}

fn thinking(s: &mut Snapshot, id: &str, src: Source) {
    s.thinking.push(sess(id, src));
}

fn ids(cards: &[StackCard]) -> Vec<u16> {
    cards.iter().map(|c| c.id).collect()
}

fn warm(s: &Snapshot, front: Option<&str>, st: &mut OrdMap<u16, StackState>) {
    stack_cards(s, front, 0, st);
}

#[test]
fn card_appears_only_after_appear_lag() {
    let mut s = snap(Mode::Working);
    working(&mut s, "d1", Source::Script(0));
    let mut st = OrdMap::new();
    assert!(stack_cards(&s, Some("d1"), 0, &mut st).is_empty());
    assert!(stack_cards(&s, Some("d1"), 1499, &mut st).is_empty());
    let cards = stack_cards(&s, Some("d1"), 1500, &mut st);
    assert_eq!(ids(&cards), vec![0]);
    assert!(cards[0].front, "唯一一张卡即前排(单源退化为现状)");
}

#[test]
fn card_stays_through_gone_lag_then_removed() {
    let mut s = snap(Mode::Working);
    working(&mut s, "d1", Source::Script(0));
    let mut st = OrdMap::new();
    stack_cards(&s, Some("d1"), 0, &mut st);
    assert_eq!(ids(&stack_cards(&s, Some("d1"), 1500, &mut st)), vec![0]);
    s.working.clear();
    assert_eq!(ids(&stack_cards(&s, None, 2500, &mut st)), vec![0]);
    assert_eq!(ids(&stack_cards(&s, None, 3999, &mut st)), vec![0]);
    assert!(stack_cards(&s, None, 4000, &mut st).is_empty());
    let mut st2 = OrdMap::new();
    working(&mut s, "d2", Source::Script(1));
    stack_cards(&s, None, 5000, &mut st2);
    s.working.clear();
    assert!(stack_cards(&s, None, 5100, &mut st2).is_empty());
    assert!(st2.is_empty());
}

#[test]
fn reactivation_within_gone_lag_keeps_card_seamless() {
    let mut s = snap(Mode::Working);
    working(&mut s, "d1", Source::Script(0));
    let mut st = OrdMap::new();
    stack_cards(&s, Some("d1"), 0, &mut st);
    stack_cards(&s, Some("d1"), 1500, &mut st);
    s.working.clear();
    stack_cards(&s, None, 2500, &mut st);
    working(&mut s, "d2", Source::Script(0));
    assert_eq!(ids(&stack_cards(&s, Some("d2"), 2600, &mut st)), vec![0]);
}

#[test]
fn order_is_registration_index_front_pinned_last() {
    let mut s = snap(Mode::Working);
    working(&mut s, "h1", Source::Script(2));
    working(&mut s, "d1", Source::Script(0));
    working(&mut s, "m1", Source::Script(1));
    let mut st = OrdMap::new();
    warm(&s, Some("d1"), &mut st);
    let cards = stack_cards(&s, Some("d1"), 9000, &mut st);
    assert_eq!(ids(&cards), vec![1, 2, 0]);
    assert!(!cards[0].front && !cards[1].front && cards[2].front);
    let cards = stack_cards(&s, Some("h1"), 9100, &mut st);
    assert_eq!(ids(&cards), vec![0, 1, 2]);
    assert!(cards[2].front);
    let cards = stack_cards(&s, None, 9200, &mut st);
    assert_eq!(ids(&cards), vec![0, 1, 2]);
    assert!(cards.iter().all(|c| !c.front));
}

#[test]
fn front_follows_rotate_pick_session() {
    let mut s = snap(Mode::Working);
    working(&mut s, "d1", Source::Script(0));
    thinking(&mut s, "h1", Source::Script(1));
    let mut st = OrdMap::new();
    warm(&s, Some("h1"), &mut st);
    let cards = stack_cards(&s, Some("h1"), 9000, &mut st);
    assert_eq!(ids(&cards), vec![0, 1]);
    assert!(cards[1].front);
    assert_eq!(card_title(&s, Source::Script(1)), "思考中…");
    assert_eq!(card_title(&s, Source::Script(0)), "正在干活…");
}

#[test]
fn single_source_degenerates_to_one_front_card() {
    let mut s = snap(Mode::Thinking);
    thinking(&mut s, "h1", Source::Script(0));
    let mut st = OrdMap::new();
    warm(&s, Some("h1"), &mut st);
    let cards = stack_cards(&s, Some("h1"), 9000, &mut st);
    assert_eq!(cards.len(), 1);
    assert!(cards[0].front);
    assert!(!cards[0].working, "thinking 源 working=false(标题/着色用)");
}

#[test]
fn more_than_max_cards_truncated_keeping_front() {
    let mut s = snap(Mode::Working);
    for i in 0..6u16 {
        working(&mut s, &format!("s{i}"), Source::Script(i));
    }
    let mut st = OrdMap::new();
    warm(&s, Some("s4"), &mut st);
    let cards = stack_cards(&s, Some("s4"), 9000, &mut st);
    assert_eq!(cards.len(), MAX_CARDS);
    assert_eq!(ids(&cards), vec![0, 1, 2, 4]);
    assert!(cards[3].front);
    let cards = stack_cards(&s, None, 9000, &mut st);
    assert_eq!(ids(&cards), vec![0, 1, 2, 3]);
}

#[test]
fn state_rank_orders_done_above_working_but_keeps_stable() {
    let mut s = snap(Mode::Working);
    working(&mut s, "d1", Source::Script(2));
    working(&mut s, "m1", Source::Script(1));
    s.done.push(sess("fin1", Source::Script(1)));
    let mut st = OrdMap::new();
    warm(&s, None, &mut st);
    let cards = stack_cards(&s, None, 9000, &mut st);
    assert_eq!(ids(&cards), vec![1, 2]);
    let mut s2 = snap(Mode::Working);
    working(&mut s2, "d1", Source::Script(1));
    thinking(&mut s2, "h1", Source::Script(0));
    let mut st2 = OrdMap::new();
    warm(&s2, None, &mut st2);
    assert_eq!(ids(&stack_cards(&s2, None, 9000, &mut st2)), vec![0, 1]);
}

#[test]
fn fix_card_title_rewrites_global_mode_title() {
    let mut s = snap(Mode::Working);
    thinking(&mut s, "h1", Source::Script(1));
    working(&mut s, "d1", Source::Script(0));
    let mut t = bubble_text_pinned(&s, Some(Source::Script(1)), None, None, 120);
    assert_eq!(t.title, "正在干活…");
    fix_card_title(&mut t, &s, Source::Script(1));
    assert_eq!(t.title, "思考中…");
    let mut t = bubble_text_pinned(&s, Some(Source::Script(0)), None, None, 120);
    fix_card_title(&mut t, &s, Source::Script(0));
    assert_eq!(t.title, "正在干活…");
}

#[test]
fn modes_of_cards_and_rest() {
    let card = |working: bool| StackCard { id: 1, front: true, working };
    assert_eq!((card(true).mode(), card(false).mode()), (Mode::Working, Mode::Thinking));
    assert!(Mode::Idle.rests() && Mode::Offline.rests());
    assert!(!Mode::Move.rests() && !Mode::Done.rests() && !Mode::Thinking.rests());
}
