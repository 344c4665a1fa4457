use storm_almanac::battle_lobby_probe::{
    dump_file_name, dump_file_name_at, extract_printable_strings, format_offset,
    is_lobby_file_event, probe_log_lines, WatchEventKind, MAX_LOGGED_STRINGS,
    PRINTABLE_MIN_LEN,
};

fn entries(v: &[(usize, &str)]) -> Vec<(usize, String)> {
    v.iter().map(|(o, s)| (*o, s.to_string())).collect()
}

#[test]
fn extracts_runs_with_offsets() {
    let bytes = b"\x00\x01Cursed Hollow\xff\x02ab\x00Sky Temple";
    let found = extract_printable_strings(bytes, PRINTABLE_MIN_LEN);
    assert_eq!(found, entries(&[(2, "Cursed Hollow"), (20, "Sky Temple")]));
}

#[test]
fn short_runs_are_skipped() {
    let bytes = b"abc\x00abcd\x00ab";
    assert_eq!(extract_printable_strings(bytes, 4), entries(&[(4, "abcd")]));
    assert_eq!(
        extract_printable_strings(bytes, 2),
        entries(&[(0, "abc"), (4, "abcd"), (9, "ab")])
    );
}

#[test]
fn run_at_the_end_is_reported() {
    let bytes = b"\x10hello";
    assert_eq!(extract_printable_strings(bytes, 4), entries(&[(1, "hello")]));
}

#[test]
fn whole_input_printable() {
    assert_eq!(extract_printable_strings(b"map name", 4), entries(&[(0, "map name")]));
}

#[test]
fn empty_and_unprintable_inputs() {
    assert!(extract_printable_strings(b"", 4).is_empty());
    assert!(extract_printable_strings(b"\x00\x7f\x80\x1f\n\t", 1).is_empty());
}

#[test]
fn space_and_tilde_are_printable_but_del_is_not() {
    assert_eq!(extract_printable_strings(b" ~~ \x7f", 4), entries(&[(0, " ~~ ")]));
}

#[test]
fn zero_minimum_reports_every_run() {
    assert_eq!(
        extract_printable_strings(b"a\x00b", 0),
        entries(&[(0, "a"), (2, "b")])
    );
}

#[test]
fn law_entries_are_maximal_runs_in_order() {
    let bytes = b"xx\x00yyyy\x01\x02zzzzz\x03";
    let found = extract_printable_strings(bytes, 2);
    let mut prev_end: Option<usize> = None;
    for (o, t) in &found {
        let end = o + t.len();
        assert_eq!(&bytes[*o..end], t.as_bytes());
        assert!(*o == 0 || !(0x20..=0x7e).contains(&bytes[o - 1]));
        assert!(end == bytes.len() || !(0x20..=0x7e).contains(&bytes[end]));
        if let Some(p) = prev_end {
            assert!(p < *o);
        }
        prev_end = Some(end);
    }
    assert_eq!(found.len(), 3);
}

#[test]
fn lobby_events_need_create_or_modify_and_extension() {
    assert!(is_lobby_file_event(WatchEventKind::Create, Some("replay.battlelobby")));
    assert!(is_lobby_file_event(WatchEventKind::Modify, Some("x.y.battlelobby")));
    assert!(!is_lobby_file_event(WatchEventKind::Other, Some("replay.battlelobby")));
    assert!(!is_lobby_file_event(WatchEventKind::Create, Some("replay.battlelobby.tmp")));
    assert!(!is_lobby_file_event(WatchEventKind::Create, Some(".battlelobby")));
    assert!(!is_lobby_file_event(WatchEventKind::Create, Some("battlelobby")));
    assert!(!is_lobby_file_event(WatchEventKind::Create, None));
}

#[test]
fn dump_names() {
    assert_eq!(
        dump_file_name("20240101-120000", Some("a.battlelobby")),
        "20240101-120000-a.battlelobby.bin"
    );
    assert_eq!(dump_file_name("S", None), "S-unknown.bin");
}

#[test]
fn dump_name_uses_utc_stamp() {
    assert_eq!(
        dump_file_name_at(0, 0, Some("x.battlelobby")).unwrap(),
        "19700101-000000-x.battlelobby.bin"
    );
    assert_eq!(
        dump_file_name_at(1_700_000_000, 5, None).unwrap(),
        "20231114-221320-unknown.bin"
    );
    assert_eq!(dump_file_name_at(i64::MAX, 0, None), None);
}

#[test]
fn offsets_are_padded_hex() {
    assert_eq!(format_offset(0), "0x00000000");
    assert_eq!(format_offset(0x1a2b), "0x00001a2b");
    assert_eq!(format_offset(0xdeadbeef), "0xdeadbeef");
    assert_eq!(format_offset(0x1_0000_0000), "0x100000000");
}

#[test]
fn log_lines_are_capped() {
    let strings: Vec<(usize, String)> =
        (0..MAX_LOGGED_STRINGS + 5).map(|i| (i * 16, format!("s{}", i))).collect();
    let lines = probe_log_lines(&strings);
    assert_eq!(lines.len(), MAX_LOGGED_STRINGS);
    assert_eq!(lines[0], "  @0x00000000: s0");
    assert_eq!(lines[1], "  @0x00000010: s1");
    let few = probe_log_lines(&entries(&[(255, "Braxis")]));
    assert_eq!(few, vec!["  @0x000000ff: Braxis".to_string()]);
}

#[test]
fn law_joined_inputs() {
    let a = b"Cursed Hollow\x01ab";
    let c = b"\x02Sky Temple";
    let mut joined = a.to_vec();
    joined.push(0);
    joined.extend_from_slice(c);
    let mut expected = extract_printable_strings(a, 2);
    for (o, t) in extract_printable_strings(c, 2) {
        expected.push((o + a.len() + 1, t));
    }
    assert_eq!(extract_printable_strings(&joined, 2), expected);
    assert_eq!(expected.len(), 3);
}
