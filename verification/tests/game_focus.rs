use storm_almanac::game_focus::{
    apply_lookup, focus_decision, FocusDecision,
    is_game_focused_blocking, is_hots_foreground, parse_tasklist_pid,
    pid_from_tasklist_output, FocusFlag, FocusPoller, FocusProbe,
};

#[test]
fn focus_flag_stores_and_loads() {
    let flag = FocusFlag::default();
    assert!(!flag.load());
    flag.store(true);
    assert!(flag.load());
    flag.store(false);
    assert!(!flag.load());
}

#[test]
fn poller_notifies_only_on_change() {
    let mut p = FocusPoller::new();
    let u = p.tick(Some(false));
    assert!(!u.focused && !u.notify);
    let u = p.tick(Some(true));
    assert!(u.focused && u.notify);
    let u = p.tick(Some(true));
    assert!(u.focused && !u.notify);
    let u = p.tick(None);
    assert!(!u.focused && u.notify);
    assert!(!p.published);
}

#[test]
fn no_foreground_window_is_not_focused() {
    let mut cache = Some(42);
    let f = is_hots_foreground(None, &mut cache, || panic!("no lookup expected"));
    assert!(!f);
    assert_eq!(cache, Some(42));
    let f = is_hots_foreground(Some(0), &mut cache, || panic!("no lookup expected"));
    assert!(!f);
    assert_eq!(cache, Some(42));
}

#[test]
fn cached_pid_answers_without_lookup() {
    let mut cache = Some(42);
    assert!(is_hots_foreground(Some(42), &mut cache, || panic!("no lookup expected")));
    assert_eq!(cache, Some(42));
}

#[test]
fn lookup_refreshes_cache() {
    let mut cache = Some(7);
    assert!(is_hots_foreground(Some(42), &mut cache, || Some(42)));
    assert_eq!(cache, Some(42));
    let mut cache = None;
    assert!(!is_hots_foreground(Some(9), &mut cache, || Some(42)));
    assert_eq!(cache, Some(42));
    let mut cache = Some(42);
    assert!(!is_hots_foreground(Some(9), &mut cache, || None));
    assert_eq!(cache, None);
}

#[test]
fn focus_on_other_systems_is_game_running() {
    let mut cache = None;
    assert!(is_game_focused_blocking(FocusProbe::GameRunning(true), &mut cache, || panic!("no lookup expected")));
    assert!(!is_game_focused_blocking(FocusProbe::GameRunning(false), &mut cache, || panic!("no lookup expected")));
    assert!(is_game_focused_blocking(FocusProbe::Foreground(Some(5)), &mut cache, || Some(5)));
    assert_eq!(cache, Some(5));
}

#[test]
fn tasklist_csv_line() {
    let out = "\"HeroesOfTheStorm_x64.exe\",\"12345\",\"Console\",\"1\",\"1,234,567 K\"\r\n";
    assert_eq!(parse_tasklist_pid(out), Some(12345));
}

#[test]
fn tasklist_no_match_message() {
    let out = "INFO: No tasks are running which match the specified criteria.\r\n";
    assert_eq!(parse_tasklist_pid(out), None);
    assert_eq!(parse_tasklist_pid(""), None);
}

#[test]
fn tasklist_first_parsable_line_wins() {
    let out = "a,b,c\nx, \"77\" ,y\n\"p\",\"88\"";
    assert_eq!(parse_tasklist_pid(out), Some(77));
    assert_eq!(parse_tasklist_pid("a,+5\n"), Some(5));
    assert_eq!(parse_tasklist_pid("a,-5\n"), None);
    assert_eq!(parse_tasklist_pid("a,4294967295"), Some(u32::MAX));
    assert_eq!(parse_tasklist_pid("a,4294967296\nb,3"), Some(3));
    assert_eq!(parse_tasklist_pid("a,\"\"\nb,+"), None);
}

#[test]
fn tasklist_field_trimming() {
    assert_eq!(parse_tasklist_pid("a,\u{a0}\"\"12\"\"\t,z"), Some(12));
    assert_eq!(parse_tasklist_pid("a,1 2"), None);
    assert_eq!(parse_tasklist_pid("a,12\r"), Some(12));
    assert_eq!(parse_tasklist_pid("a,12\r\n"), Some(12));
}

#[test]
fn tasklist_bytes_decode_lossily() {
    assert_eq!(pid_from_tasklist_output(b"\"x\",\"31\"\r\n"), Some(31));
    assert_eq!(pid_from_tasklist_output(b"\xff,\"31\"\r\n"), Some(31));
    assert_eq!(pid_from_tasklist_output(b"a,3\xff1\r\n"), None);
}

#[test]
fn decision_needs_lookup_only_on_cache_miss() {
    assert_eq!(focus_decision(None, Some(4)), FocusDecision::Known(false));
    assert_eq!(focus_decision(Some(0), None), FocusDecision::Known(false));
    assert_eq!(focus_decision(Some(4), Some(4)), FocusDecision::Known(true));
    assert_eq!(focus_decision(Some(4), Some(5)), FocusDecision::NeedLookup(4));
    assert_eq!(focus_decision(Some(4), None), FocusDecision::NeedLookup(4));
}

#[test]
fn lookup_result_replaces_cache() {
    let mut cache = Some(1);
    assert!(apply_lookup(7, Some(7), &mut cache));
    assert_eq!(cache, Some(7));
    assert!(!apply_lookup(7, Some(8), &mut cache));
    assert_eq!(cache, Some(8));
    assert!(!apply_lookup(7, None, &mut cache));
    assert_eq!(cache, None);
}

#[test]
fn law_watchers_hold_last_observation() {
    let mut p = FocusPoller::new();
    assert!(!p.published);
    for probe in [Some(true), None, Some(true), Some(true), Some(false), Some(true)] {
        let u = p.tick(probe);
        assert_eq!(u.focused, probe.unwrap_or(false));
        assert_eq!(p.published, probe.unwrap_or(false));
    }
}
