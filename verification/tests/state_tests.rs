use std::collections::VecDeque;
use std::time::Duration;

use input_overlay::history::{overlap_ranges, HistoryState, LogEntry};
use input_overlay::profiler::Profiler;
use input_overlay::render::{
    element_active, element_kinds, scroll_def_for, set_active, ActiveKeys, ElementKind, PadMode,
};
use input_overlay::scroller::{first_nonempty, ScrollDisplayDef, ScrollState};

fn s(v: &str) -> String {
    v.to_string()
}

fn entry(key: &str, start: u64, end: Option<u64>) -> LogEntry {
    LogEntry { key: s(key), start, end }
}

#[test]
fn scroll_display_defaults() {
    let sc = ScrollDisplayDef::scroller(&[]);
    assert_eq!(sc.all_labels(), ["M3", "▲", "▼"]);
    let sc = ScrollDisplayDef::scroller(&[s("mid"), s(""), s("dn")]);
    assert_eq!(sc.all_labels(), ["mid", "▲", "dn"]);
    let ud = ScrollDisplayDef::scroll_updown(&[s("U")]);
    assert_eq!(ud.all_labels(), ["", "U", "▼"]);
    let up = ScrollDisplayDef::scroll_up(Some(""));
    assert_eq!(up.all_labels(), ["▲", "▲", ""]);
    let down = ScrollDisplayDef::scroll_down(Some("D"));
    assert_eq!(down.all_labels(), ["D", "", "D"]);
    assert_eq!(first_nonempty(&[s("a")], 3, "z"), "z");
}

#[test]
fn arrow_label_follows_direction() {
    let sc = ScrollDisplayDef::scroller(&[]);
    assert_eq!(sc.arrow_label(-1), "▲");
    assert_eq!(sc.arrow_label(1), "▼");
    assert_eq!(sc.arrow_label(0), "M3");
    let up = ScrollDisplayDef::scroll_up(None);
    assert_eq!(up.arrow_label(1), "▲");
}

#[test]
fn scroll_counts_and_reversal() {
    let def = ScrollDisplayDef::scroll_updown(&[]);
    let mut st = ScrollState::new();
    assert!(!st.is_live());
    assert!(!st.is_active(&def, false));
    st.handle_scroll_at(-3, 250_000_000, 1_000);
    st.handle_scroll_at(-1, 250_000_000, 2_000);
    assert_eq!(st.display_state(&def), (true, 2, -1));
    st.handle_scroll_at(2, 250_000_000, 3_000);
    assert_eq!(st.display_state(&def), (true, 1, 1));
    assert_eq!(st.last_direction(), 1);
    let up_only = ScrollDisplayDef::scroll_up(None);
    assert_eq!(st.display_state(&up_only), (true, 2, -1));
    let down_only = ScrollDisplayDef::scroll_down(None);
    assert_eq!(st.display_state(&down_only), (true, 1, 1));
}

#[test]
fn scroll_expires_at_deadline() {
    let mut st = ScrollState::new();
    st.handle_scroll_at(1, 100, 1_000);
    st.prune_expired_at(1_099);
    assert!(st.is_live());
    st.prune_expired_at(1_100);
    assert!(!st.is_live());
    assert_eq!(st.last_direction(), 0);
}

#[test]
fn scroller_active_while_middle_held() {
    let sc = ScrollDisplayDef::scroller(&[]);
    let st = ScrollState::new();
    assert!(st.is_active(&sc, true));
    let ud = ScrollDisplayDef::scroll_updown(&[]);
    assert!(!st.is_active(&ud, true));
}

#[test]
fn scroll_with_clock_is_live_for_long_hold() {
    let mut st = ScrollState::new();
    st.handle_scroll(-1, Duration::from_secs(3600));
    st.prune_expired();
    assert!(st.is_live());
}

#[test]
fn profiler_keeps_marks_in_order() {
    let mut p = Profiler::start();
    p.mark("POLL");
    p.record("KEYS", Duration::from_millis(3));
    p.mark("DONE");
    let labels: Vec<&str> = p.marks().iter().map(|(l, _)| *l).collect();
    assert_eq!(labels, vec!["POLL", "KEYS", "DONE"]);
    assert_eq!(p.marks()[1].1, Duration::from_millis(3));
    assert!(p.total() >= p.marks()[0].1);
}

#[test]
fn history_press_release() {
    let mut h = HistoryState::new(vec![s("key_a"), s("key_b")], false, true, false);
    assert!(h.tracks("key_a"));
    assert!(!h.tracks("key_c"));
    assert!(!h.is_live());
    h.record_edge_at("key_a", true, 10);
    h.record_edge_at("key_b", true, 20);
    h.record_edge_at("key_a", false, 30);
    h.record_edge_at("key_c", false, 40);
    let log: Vec<(String, u64, Option<u64>)> =
        h.log().iter().map(|e| (e.key.clone(), e.start, e.end)).collect();
    assert_eq!(log, vec![(s("key_a"), 10, Some(30)), (s("key_b"), 20, None)]);
    assert!(h.is_live());
}

#[test]
fn history_release_closes_latest_open_press() {
    let mut h = HistoryState::new(vec![s("k")], true, false, true);
    h.record_edge_at("k", true, 1);
    h.record_edge_at("k", true, 2);
    h.record_edge_at("k", false, 3);
    h.record_edge_at("k", false, 4);
    let ends: Vec<Option<u64>> = h.log().iter().map(|e| e.end).collect();
    assert_eq!(ends, vec![Some(4), Some(3)]);
}

#[test]
fn history_drops_old_presses() {
    let mut h = HistoryState::new(vec![s("k")], false, false, false);
    h.record_edge_at("k", true, 0);
    h.record_edge_at("k", false, 100);
    h.record_edge_at("k", true, 500);
    h.retain_recent_at(1_000, 600);
    let starts: Vec<u64> = h.log().iter().map(|e| e.start).collect();
    assert_eq!(starts, vec![500]);
    h.retain_recent_at(10_000, 0);
    assert_eq!(h.log().len(), 1);
}

#[test]
fn overlaps_of_two_presses() {
    let log: VecDeque<LogEntry> =
        vec![entry("a", 10, Some(50)), entry("b", 30, Some(70))].into_iter().collect();
    assert_eq!(overlap_ranges(&log, 100), vec![(30, 50)]);
}

#[test]
fn overlaps_with_held_press_and_empty_presses() {
    let log: VecDeque<LogEntry> = vec![
        entry("a", 0, None),
        entry("b", 20, Some(40)),
        entry("c", 60, Some(60)),
        entry("d", 80, None),
    ]
    .into_iter()
    .collect();
    assert_eq!(overlap_ranges(&log, 100), vec![(20, 40), (80, 100)]);
}

#[test]
fn overlaps_split_where_one_ends_as_another_starts() {
    let log: VecDeque<LogEntry> = vec![
        entry("a", 0, Some(100)),
        entry("b", 10, Some(50)),
        entry("c", 50, Some(90)),
    ]
    .into_iter()
    .collect();
    assert_eq!(overlap_ranges(&log, 200), vec![(10, 50), (50, 90)]);
}

#[test]
fn no_overlap_for_disjoint_presses() {
    let log: VecDeque<LogEntry> =
        vec![entry("a", 0, Some(10)), entry("b", 10, Some(20))].into_iter().collect();
    assert!(overlap_ranges(&log, 30).is_empty());
    assert!(overlap_ranges(&VecDeque::new(), 30).is_empty());
}

#[test]
fn triple_overlap_is_one_range() {
    let log: VecDeque<LogEntry> = vec![
        entry("a", 0, Some(30)),
        entry("b", 5, Some(25)),
        entry("c", 10, Some(40)),
    ]
    .into_iter()
    .collect();
    assert_eq!(overlap_ranges(&log, 100), vec![(5, 30)]);
}

#[test]
fn pad_mode_setting() {
    assert_eq!(PadMode::from_setting("pan"), PadMode::Pan);
    assert_eq!(PadMode::from_setting("wrap"), PadMode::Wrap);
    assert_eq!(PadMode::from_setting("Pan"), PadMode::Wrap);
}

#[test]
fn element_kinds_in_layout_order() {
    let types = vec![
        s("key_w"),
        s("mouse_pad"),
        s("input_history"),
        s("scroller"),
        s("mouse_pad"),
        s("scroll_up|x"),
        s("input_history"),
        s("spacer"),
    ];
    let labelled = vec![true, false, false, false, false, true, false, false];
    assert_eq!(
        element_kinds(&types, &labelled),
        vec![
            ElementKind::Key,
            ElementKind::MousePad,
            ElementKind::History(0),
            ElementKind::Scroll(0),
            ElementKind::Skip,
            ElementKind::Scroll(1),
            ElementKind::History(1),
            ElementKind::Skip,
        ]
    );
}

#[test]
fn active_keys_set_semantics() {
    let mut a = ActiveKeys::new();
    assert!(a.insert("key_a"));
    assert!(!a.insert("key_a"));
    assert!(a.contains("key_a"));
    assert!(a.remove("key_a"));
    assert!(!a.remove("key_a"));
    assert!(!a.contains("key_a"));
}

#[test]
fn element_pressed_by_type_or_keys() {
    let mut a = ActiveKeys::new();
    a.insert("key_b");
    assert!(element_active(&a, "key_b", &vec![]));
    assert!(!element_active(&a, "key_a", &vec![]));
    assert!(element_active(&a, "key_a|key_b", &vec![s("key_a"), s("key_b")]));
    assert!(!element_active(&a, "key_b", &vec![s("key_c")]));
}

#[test]
fn set_active_records_in_tracking_histories() {
    let mut active = ActiveKeys::new();
    let mut hs = vec![
        HistoryState::new(vec![s("key_a")], false, false, false),
        HistoryState::new(vec![s("key_b")], false, false, false),
    ];
    assert!(set_active(&mut active, &mut hs, Some("key_a"), true));
    assert!(!set_active(&mut active, &mut hs, Some("key_a"), true));
    assert_eq!(hs[0].log().len(), 2);
    assert_eq!(hs[1].log().len(), 0);
    assert!(set_active(&mut active, &mut hs, Some("key_a"), false));
    assert!(!active.contains("key_a"));
    assert!(hs[0].log().iter().any(|e| e.end.is_some()));
    assert!(!set_active(&mut active, &mut hs, None, true));
}

#[test]
fn scroll_defs_by_type() {
    let d = scroll_def_for("scroller|mouse_middle", &[s("mid")], None).unwrap();
    assert_eq!(d.all_labels(), ["mid", "▲", "▼"]);
    let d = scroll_def_for("scroll_down", &[], Some("v")).unwrap();
    assert_eq!(d.all_labels(), ["v", "", "v"]);
    assert!(scroll_def_for("key_a", &[], Some("A")).is_none());
}

#[test]
fn history_clock_counts_from_its_origin() {
    let h = HistoryState::new(vec!["key_a".to_string()], false, false, false);
    let a = h.now_nanos();
    let mut spin = 0u64;
    for i in 0..200_000u64 {
        spin = spin.wrapping_add(i * i);
    }
    let b = h.now_nanos();
    assert!(spin > 0);
    assert!(b >= a);
    assert!(a < 10_000_000_000);
}
