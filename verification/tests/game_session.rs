use storm_almanac::game_session::{
    new_session, pending_session_uuid, session_file_name, session_timestamps,
    session_upload_url, timestamp_span, SessionAction, SessionPoller, SessionUpload,
    UploadAction, UploadEvent, UploadOutcome,
};

#[test]
fn poller_starts_and_stops_with_the_game() {
    let mut p = SessionPoller::new();
    assert_eq!(p.step(true, Some(false)), SessionAction::Nothing);
    assert_eq!(p.step(true, Some(true)), SessionAction::StartRecording);
    assert!(p.was_running);
    assert_eq!(p.step(true, Some(true)), SessionAction::Nothing);
    assert_eq!(p.step(true, Some(false)), SessionAction::StopAndUpload);
    assert!(!p.was_running);
}

#[test]
fn failed_check_counts_as_not_running() {
    let mut p = SessionPoller::new();
    assert_eq!(p.step(true, Some(true)), SessionAction::StartRecording);
    assert_eq!(p.step(true, None), SessionAction::StopAndUpload);
    assert_eq!(p.step(true, None), SessionAction::Nothing);
}

#[test]
fn disabling_recording_stops_a_session() {
    let mut p = SessionPoller::new();
    assert_eq!(p.step(false, Some(true)), SessionAction::Nothing);
    assert_eq!(p.step(true, Some(true)), SessionAction::StartRecording);
    assert_eq!(p.step(false, Some(true)), SessionAction::StopAndUpload);
    assert_eq!(p.step(false, Some(true)), SessionAction::Nothing);
    assert_eq!(p.step(true, Some(true)), SessionAction::StartRecording);
}

#[test]
fn session_names_and_url() {
    assert_eq!(session_file_name("abc"), "abc_inputs.jsonl");
    assert_eq!(
        session_upload_url("https://example.org"),
        "https://example.org/api/input-sessions/upload"
    );
}

#[test]
fn new_session_ids_come_from_the_bytes() {
    let s = new_session([0u8; 16]);
    assert_eq!(s.uuid, "00000000-0000-4000-8000-000000000000");
    assert_eq!(s.file_name, "00000000-0000-4000-8000-000000000000_inputs.jsonl");
    let s = new_session([0xffu8; 16]);
    assert_eq!(s.uuid, "ffffffff-ffff-4fff-bfff-ffffffffffff");
    let bytes: [u8; 16] = [
        0x67, 0xe5, 0x50, 0x44, 0x10, 0xb1, 0x42, 0x6f, 0x92, 0x47, 0xbb, 0x68, 0x0e, 0x5f,
        0xe0, 0xc8,
    ];
    assert_eq!(new_session(bytes).uuid, "67e55044-10b1-426f-9247-bb680e5fe0c8");
}

#[test]
fn law_session_ids_are_v4_uuids() {
    for seed in 0u8..=255 {
        let mut bytes = [0u8; 16];
        for (i, b) in bytes.iter_mut().enumerate() {
            *b = seed.wrapping_mul(31).wrapping_add(i as u8 * 17);
        }
        let u: Vec<char> = new_session(bytes).uuid.chars().collect();
        assert_eq!(u.len(), 36);
        for (i, c) in u.iter().enumerate() {
            if [8, 13, 18, 23].contains(&i) {
                assert_eq!(*c, '-');
            } else {
                assert!(c.is_ascii_hexdigit() && !c.is_ascii_uppercase());
            }
        }
        assert_eq!(u[14], '4');
        assert!("89ab".contains(u[19]));
    }
}

fn lines(v: &[&str]) -> Vec<String> {
    v.iter().map(|s| s.to_string()).collect()
}

#[test]
fn timestamps_first_and_last() {
    let l = lines(&[
        "{\"t\": 100, \"k\": \"a\"}",
        "",
        "not json",
        "{\"x\": 1}",
        "{\"t\": 150}",
        "{\"t\": -3}",
        "{\"t\": 200}",
        "{\"t\": 1.5}",
    ]);
    assert_eq!(session_timestamps(&l), Some((100, 200)));
    assert_eq!(session_timestamps(&lines(&["{\"t\": 7}"])), Some((7, 7)));
    assert_eq!(session_timestamps(&lines(&["{}", ""])), None);
    assert_eq!(session_timestamps(&Vec::new()), None);
}

#[test]
fn span_of_observed_stamps() {
    assert_eq!(timestamp_span(&vec![None, Some(3), None, Some(1), None]), Some((3, 1)));
    assert_eq!(timestamp_span(&vec![None, None]), None);
}

#[test]
fn pending_uploads_are_found_by_name() {
    assert_eq!(pending_session_uuid("abc_inputs.jsonl.gz").as_deref(), Some("abc"));
    assert_eq!(pending_session_uuid("abc_inputs.gz").as_deref(), Some("abc"));
    assert_eq!(pending_session_uuid("abc.gz").as_deref(), Some("abc"));
    assert_eq!(pending_session_uuid("abc_inputs.jsonl"), None);
    assert_eq!(pending_session_uuid("_inputs.jsonl.gz"), None);
    assert_eq!(pending_session_uuid(".gz"), None);
    assert_eq!(pending_session_uuid("gz"), None);
}

#[test]
fn law_pending_upload_roundtrip() {
    let s = new_session([7u8; 16]);
    let gz = format!("{}.gz", s.file_name);
    assert_eq!(pending_session_uuid(&gz), Some(s.uuid));
}

fn finish(outcome: UploadOutcome, remove_jsonl: bool, remove_gz: bool) -> UploadAction {
    UploadAction::Finish { outcome, remove_jsonl, remove_gz }
}

#[test]
fn fresh_upload_happy_path() {
    let mut u = SessionUpload::fresh();
    assert_eq!(u.step(UploadEvent::FileSize(Some(10))), UploadAction::ReadTimestamps);
    assert_eq!(u.step(UploadEvent::Timestamps(Some((1, 2)))), UploadAction::Compress);
    assert_eq!(
        u.step(UploadEvent::Compressed(true)),
        UploadAction::Send { started_at: 1, ended_at: 2 }
    );
    assert_eq!(u.step(UploadEvent::Sent(true)), finish(UploadOutcome::Uploaded, true, true));
    assert_eq!(u.step(UploadEvent::Sent(true)), UploadAction::Ignore);
}

#[test]
fn fresh_upload_failures() {
    let mut u = SessionUpload::fresh();
    assert_eq!(u.step(UploadEvent::FileSize(None)), finish(UploadOutcome::MissingFile, false, false));
    let mut u = SessionUpload::fresh();
    assert_eq!(u.step(UploadEvent::FileSize(Some(0))), finish(UploadOutcome::EmptyFile, true, false));
    let mut u = SessionUpload::fresh();
    u.step(UploadEvent::FileSize(Some(3)));
    assert_eq!(u.step(UploadEvent::Timestamps(None)), finish(UploadOutcome::NoTimestamps, false, false));
    let mut u = SessionUpload::fresh();
    u.step(UploadEvent::FileSize(Some(3)));
    u.step(UploadEvent::Timestamps(Some((5, 9))));
    assert_eq!(u.step(UploadEvent::Compressed(false)), finish(UploadOutcome::CompressFailed, false, false));
    let mut u = SessionUpload::fresh();
    u.step(UploadEvent::FileSize(Some(3)));
    u.step(UploadEvent::Timestamps(Some((5, 9))));
    u.step(UploadEvent::Compressed(true));
    assert_eq!(u.step(UploadEvent::Sent(false)), finish(UploadOutcome::UploadFailed, true, false));
}

#[test]
fn out_of_order_events_are_ignored() {
    let mut u = SessionUpload::fresh();
    assert_eq!(u.step(UploadEvent::Sent(true)), UploadAction::Ignore);
    assert_eq!(u.step(UploadEvent::FileSize(Some(1))), UploadAction::ReadTimestamps);
    assert_eq!(u.step(UploadEvent::Compressed(true)), UploadAction::Ignore);
}

#[test]
fn retry_upload_paths() {
    let mut u = SessionUpload::retry();
    assert_eq!(u.step(UploadEvent::FileSize(None)), finish(UploadOutcome::MissingFile, false, false));
    let mut u = SessionUpload::retry();
    assert_eq!(u.step(UploadEvent::FileSize(Some(0))), UploadAction::ReadTimestamps);
    assert_eq!(
        u.step(UploadEvent::Timestamps(Some((3, 4)))),
        UploadAction::Send { started_at: 3, ended_at: 4 }
    );
    assert_eq!(u.step(UploadEvent::Sent(false)), finish(UploadOutcome::UploadFailed, false, false));
    let mut u = SessionUpload::retry();
    u.step(UploadEvent::FileSize(Some(9)));
    u.step(UploadEvent::Timestamps(Some((3, 4))));
    assert_eq!(u.step(UploadEvent::Sent(true)), finish(UploadOutcome::Uploaded, true, true));
}
