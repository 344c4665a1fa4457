//! Input-recording sessions: when to start and stop recording as the game
//! starts and exits, how session files are named and found again, the time
//! span a session covers, and the steps of uploading a session.

use vstd::prelude::*;
use crate::battle_lobby_probe::hex_digit;
use crate::text::{last_index_before, chars_of, file_extension, file_stem, find_extension_dot, range_equals, string_from_range};

verus! {

/// Seconds between two looks at whether the game runs.
pub const SESSION_POLL_SECS: u64 = 5;

/// What the session poller asks the app to do after one look.
#[derive(Clone, Copy, Debug, PartialEq, Eq, Structural)]
pub enum SessionAction {
    /// Nothing changes.
    Nothing,
    /// The game has just started: start recording a session.
    StartRecording,
    /// The game has exited, or recording was switched off: stop recording
    /// and upload the session.
    StopAndUpload,
}

/// The session poller's memory: whether the game was running (and so a
/// session was being recorded) at the last look.
pub struct SessionPoller {
    pub was_running: bool,
}

/// The next `was_running` and the action after one look. When recording is
/// switched off the game is not looked at; a failed look counts as "not
/// running".
pub open spec fn session_step(was_running: bool, recording_enabled: bool, game_running: Option<bool>) -> (bool, SessionAction) {
    if !recording_enabled {
        if was_running {
            (false, SessionAction::StopAndUpload)
        } else {
            (false, SessionAction::Nothing)
        }
    } else {
        let running = match game_running {
            Some(r) => r,
            None => false,
        };
        if running && !was_running {
            (true, SessionAction::StartRecording)
        } else if !running && was_running {
            (false, SessionAction::StopAndUpload)
        } else {
            (was_running, SessionAction::Nothing)
        }
    }
}

impl SessionPoller {
    /// A poller that has not yet seen the game running.
    pub fn new() -> (p: SessionPoller)
        ensures
            !p.was_running,
    {
        SessionPoller { was_running: false }
    }

    /// One look: whether recording is switched on in the settings, and,
    /// when it is, whether the game runs (`None` when the check failed).
    pub fn step(&mut self, recording_enabled: bool, game_running: Option<bool>) -> (action: SessionAction)
        ensures
            (final(self).was_running, action) == session_step(
                old(self).was_running,
                recording_enabled,
                game_running,
            ),
    {
        if !recording_enabled {
            if self.was_running {
                self.was_running = false;
                return SessionAction::StopAndUpload;
            }
            return SessionAction::Nothing;
        }
        let running = match game_running {
            Some(r) => r,
            None => false,
        };
        if running && !self.was_running {
            self.was_running = true;
            SessionAction::StartRecording
        } else if !running && self.was_running {
            self.was_running = false;
            SessionAction::StopAndUpload
        } else {
            SessionAction::Nothing
        }
    }
}

/// Law: starts and stops alternate. A session is started only when none is
/// being recorded, stopped only when one is, and `was_running` changes only
/// together with a start or a stop.
pub proof fn law_start_and_stop_alternate(was_running: bool, recording_enabled: bool, game_running: Option<bool>)
    ensures
        ({
            let (next, action) = session_step(was_running, recording_enabled, game_running);
            &&& action == SessionAction::StartRecording ==> !was_running && next
            &&& action == SessionAction::StopAndUpload ==> was_running && !next
            &&& action == SessionAction::Nothing ==> next == was_running
        }),
{
}

/// The name of a session's input file.
pub open spec fn session_name(uuid: Seq<char>) -> Seq<char> {
    uuid + "_inputs.jsonl"@
}

/// Names the input file of the session `uuid`.
pub fn session_file_name(uuid: &str) -> (name: String)
    ensures
        name@ == session_name(uuid@),
{
    let mut name = uuid.to_owned();
    name.append("_inputs.jsonl");
    name
}

/// The upload endpoint for input sessions on the server at `api_base`.
pub fn session_upload_url(api_base: &str) -> (url: String)
    ensures
        url@ == api_base@ + "/api/input-sessions/upload"@,
{
    let mut url = api_base.to_owned();
    url.append("/api/input-sessions/upload");
    url
}

/// A lower-case hexadecimal digit.
pub open spec fn is_lower_hex(c: char) -> bool {
    ('0' <= c && c <= '9') || ('a' <= c && c <= 'f')
}

/// The text of a random (version 4, RFC 4122 variant) UUID in hyphenated
/// lower-case form, such as `67e55044-10b1-426f-9247-bb680e5fe0c8`.
pub open spec fn is_v4_uuid_text(s: Seq<char>) -> bool {
    &&& s.len() == 36
    &&& forall|j: int|
        0 <= j < 36 ==> if j == 8 || j == 13 || j == 18 || j == 23 {
            #[trigger] s[j] == '-'
        } else {
            is_lower_hex(s[j])
        }
    &&& s[14] == '4'
    &&& (s[19] == '8' || s[19] == '9' || s[19] == 'a' || s[19] == 'b')
}

/// The 16 bytes of a random UUID made from `random`: the version digit set
/// to 4 (byte 6) and the variant to RFC 4122 (byte 8).
pub open spec fn v4_bytes(random: Seq<u8>) -> Seq<u8> {
    random.update(6, ((random[6] % 16) + 64) as u8).update(8, ((random[8] % 64) + 128) as u8)
}

/// Two lower-case hexadecimal digits per byte.
pub open spec fn hex_text(b: Seq<u8>) -> Seq<char> {
    Seq::new(
        (2 * b.len()) as nat,
        |i: int|
            if i % 2 == 0 {
                hex_digit((b[i / 2] / 16) as nat)
            } else {
                hex_digit((b[i / 2] % 16) as nat)
            },
    )
}

/// The hyphenated lower-case text of the random UUID made from `random`,
/// such as `67e55044-10b1-426f-9247-bb680e5fe0c8`.
pub open spec fn uuid_text(random: Seq<u8>) -> Seq<char> {
    let b = v4_bytes(random);
    hex_text(b.subrange(0, 4)) + seq!['-'] + hex_text(b.subrange(4, 6)) + seq!['-'] + hex_text(
        b.subrange(6, 8),
    ) + seq!['-'] + hex_text(b.subrange(8, 10)) + seq!['-'] + hex_text(b.subrange(10, 16))
}

/// The text of the random UUID made from 16 random bytes
/// (`uuid::Builder::from_random_bytes(..).into_uuid().to_string()`): the
/// uuid crate sets byte 6 to `(b & 0x0f) | 0x40` and byte 8 to
/// `(b & 0x3f) | 0x80`, and writes all 16 bytes as lower-case hexadecimal
/// digits with hyphens after bytes 4, 6, 8 and 10.
#[verifier::external_body]
fn uuid_text_from_random_bytes(random: [u8; 16]) -> (s: String)
    ensures
        s@ == uuid_text(random@),
{
    uuid::Builder::from_random_bytes(random).into_uuid().to_string()
}

proof fn lemma_hex_text_lower(b: Seq<u8>)
    ensures
        forall|i: int| 0 <= i < hex_text(b).len() ==> is_lower_hex(#[trigger] hex_text(b)[i]),
{
    assert forall|i: int| 0 <= i < hex_text(b).len() implies is_lower_hex(#[trigger] hex_text(b)[i]) by {
        let x = b[i / 2];
        assert(x / 16 < 16 && x % 16 < 16);
    }
}

/// Law: every session id made from random bytes is the text of a version 4,
/// RFC 4122 variant UUID in hyphenated lower-case form.
pub proof fn law_session_ids_are_v4_uuids(random: Seq<u8>)
    requires
        random.len() == 16,
    ensures
        is_v4_uuid_text(uuid_text(random)),
{
    let b = v4_bytes(random);
    let t = uuid_text(random);
    let h0 = hex_text(b.subrange(0, 4));
    let h1 = hex_text(b.subrange(4, 6));
    let h2 = hex_text(b.subrange(6, 8));
    let h3 = hex_text(b.subrange(8, 10));
    let h4 = hex_text(b.subrange(10, 16));
    lemma_hex_text_lower(b.subrange(0, 4));
    lemma_hex_text_lower(b.subrange(4, 6));
    lemma_hex_text_lower(b.subrange(6, 8));
    lemma_hex_text_lower(b.subrange(8, 10));
    lemma_hex_text_lower(b.subrange(10, 16));
    assert(t.len() == 36);
    assert forall|j: int|
        0 <= j < 36 implies if j == 8 || j == 13 || j == 18 || j == 23 {
        #[trigger] t[j] == '-'
    } else {
        is_lower_hex(t[j])
    } by {
        if j < 8 {
            assert(t[j] == h0[j]);
        } else if j == 8 {
        } else if j < 13 {
            assert(t[j] == h1[j - 9]);
        } else if j == 13 {
        } else if j < 18 {
            assert(t[j] == h2[j - 14]);
        } else if j == 18 {
        } else if j < 23 {
            assert(t[j] == h3[j - 19]);
        } else if j == 23 {
        } else {
            assert(t[j] == h4[j - 24]);
        }
    }
    assert(t[14] == h2[0]);
    assert(b[6] == (random[6] % 16) + 64);
    assert(b.subrange(6, 8)[0] == b[6]);
    assert(b[6] / 16 == 4);
    assert(t[19] == h3[0]);
    assert(b[8] == (random[8] % 64) + 128);
    assert(b.subrange(8, 10)[0] == b[8]);
    assert(8 <= b[8] / 16 <= 11);
}

/// A new session: its random id and the name of its input file.
pub struct NewSession {
    pub uuid: String,
    pub file_name: String,
}

/// Names a new session from 16 random bytes: its id is the random UUID made
/// from them, and its input file is named after the id.
pub fn new_session(random: [u8; 16]) -> (s: NewSession)
    ensures
        s.uuid@ == uuid_text(random@),
        is_v4_uuid_text(s.uuid@),
        s.file_name@ == session_name(s.uuid@),
{
    proof {
        law_session_ids_are_v4_uuids(random@);
    }
    let uuid = uuid_text_from_random_bytes(random);
    let file_name = session_file_name(uuid.as_str());
    NewSession { uuid, file_name }
}


/// What serde_json finds in a line of text: the line parsed as a JSON
/// value, its field `key`, read as a `u64`.
pub uninterp spec fn json_u64_field(line: Seq<char>, key: Seq<char>) -> Option<u64>;

/// Reads an unsigned integer field of a JSON line with serde_json
/// (`from_str::<Value>`, then `get(key)`, then `as_u64`). The result is the
/// name `json_u64_field` of the line and the key; `None` when the line is
/// not JSON, has no field `key`, or that field is not an unsigned integer.
#[verifier::external_body]
fn json_u64_field_of(line: &str, key: &str) -> (v: Option<u64>)
    ensures
        v == json_u64_field(line@, key@),
{
    match serde_json::from_str::<serde_json::Value>(line) {
        Ok(value) => match value.get(key) {
            Some(field) => field.as_u64(),
            None => None,
        },
        Err(_) => None,
    }
}

/// The field of a session-file line that holds its timestamp.
pub const TIMESTAMP_FIELD: &'static str = "t";

/// The timestamp of a line of a session file (its JSON field `t`); empty
/// lines have none.
pub open spec fn line_stamp(line: Seq<char>) -> Option<u64> {
    if line.len() == 0 {
        None
    } else {
        json_u64_field(line, TIMESTAMP_FIELD@)
    }
}

/// The first timestamp in `ts`.
pub open spec fn first_stamp(ts: Seq<Option<u64>>) -> Option<u64>
    decreases ts.len(),
{
    if ts.len() == 0 {
        None
    } else {
        match ts[0] {
            Some(t) => Some(t),
            None => first_stamp(ts.drop_first()),
        }
    }
}

/// The last timestamp in `ts`.
pub open spec fn last_stamp(ts: Seq<Option<u64>>) -> Option<u64>
    decreases ts.len(),
{
    if ts.len() == 0 {
        None
    } else {
        match ts.last() {
            Some(t) => Some(t),
            None => last_stamp(ts.drop_last()),
        }
    }
}

/// The first and the last timestamp, when there is one.
pub open spec fn stamp_span(ts: Seq<Option<u64>>) -> Option<(u64, u64)> {
    match (first_stamp(ts), last_stamp(ts)) {
        (Some(f), Some(l)) => Some((f, l)),
        _ => None,
    }
}

proof fn lemma_first_stamp_push(ts: Seq<Option<u64>>, x: Option<u64>)
    ensures
        first_stamp(ts.push(x)) == match first_stamp(ts) {
            Some(f) => Some(f),
            None => x,
        },
    decreases ts.len(),
{
    if ts.len() > 0 {
        assert(ts.push(x).drop_first() =~= ts.drop_first().push(x));
        assert(ts.push(x)[0] == ts[0]);
        lemma_first_stamp_push(ts.drop_first(), x);
    } else {
        assert(ts.push(x).drop_first() =~= Seq::<Option<u64>>::empty());
        assert(first_stamp(Seq::<Option<u64>>::empty()) == None::<u64>);
        assert(ts.push(x)[0] == x);
    }
}

/// The first and the last of the timestamps that the lines of a session
/// carry, in order; `None` when no line carries one.
pub fn timestamp_span(ts: &Vec<Option<u64>>) -> (span: Option<(u64, u64)>)
    ensures
        span == stamp_span(ts@),
{
    let mut first: Option<u64> = None;
    let mut last: Option<u64> = None;
    let mut i: usize = 0;
    while i < ts.len()
        invariant
            i <= ts@.len(),
            first == first_stamp(ts@.subrange(0, i as int)),
            last == last_stamp(ts@.subrange(0, i as int)),
        decreases ts.len() - i,
    {
        let ghost pre = ts@.subrange(0, i as int);
        assert(ts@.subrange(0, i + 1) =~= pre.push(ts@[i as int]));
        assert(pre.push(ts@[i as int]).drop_last() =~= pre);
        proof {
            lemma_first_stamp_push(pre, ts@[i as int]);
        }
        match ts[i] {
            Some(t) => {
                if first.is_none() {
                    first = Some(t);
                }
                last = Some(t);
            },
            None => {},
        }
        i = i + 1;
    }
    assert(ts@.subrange(0, i as int) =~= ts@);
    match (first, last) {
        (Some(f), Some(l)) => Some((f, l)),
        _ => None,
    }
}

proof fn lemma_first_stamp_prepend(x: Option<u64>, ts: Seq<Option<u64>>)
    ensures
        first_stamp(seq![x] + ts) == match x {
            Some(t) => Some(t),
            None => first_stamp(ts),
        },
{
    assert((seq![x] + ts)[0] == x);
    assert((seq![x] + ts).drop_first() =~= ts);
}

proof fn lemma_last_stamp_prepend(x: Option<u64>, ts: Seq<Option<u64>>)
    ensures
        last_stamp(seq![x] + ts) == match last_stamp(ts) {
            Some(l) => Some(l),
            None => x,
        },
    decreases ts.len(),
{
    let s = seq![x] + ts;
    if ts.len() == 0 {
        assert(s.drop_last() =~= Seq::<Option<u64>>::empty());
        assert(last_stamp(Seq::<Option<u64>>::empty()) is None);
        assert(s.last() == x);
    } else {
        assert(s.last() == ts.last());
        assert(s.drop_last() =~= seq![x] + ts.drop_last());
        lemma_last_stamp_prepend(x, ts.drop_last());
    }
}

proof fn lemma_first_stamp_push_none(ts: Seq<Option<u64>>)
    ensures
        first_stamp(ts.push(None)) == first_stamp(ts),
{
    lemma_first_stamp_push(ts, None);
}

/// Law: a session without timestamped lines has no span; the span ends at
/// the timestamp of the last line that has one and starts at that of the
/// first. Appending a timestamped line moves the end to it and keeps the
/// start (or starts the span there); lines without one change nothing.
pub proof fn law_span_first_and_last(ts: Seq<Option<u64>>, t: u64)
    ensures
        stamp_span(Seq::<Option<u64>>::empty()) is None,
        stamp_span(ts.push(Some(t))) == Some(
            (
                match stamp_span(ts) {
                    Some((f, _)) => f,
                    None => t,
                },
                t,
            ),
        ),
        stamp_span(ts.push(None)) == stamp_span(ts),
        stamp_span(seq![Some(t)] + ts) == Some(
            (
                t,
                match stamp_span(ts) {
                    Some((_, l)) => l,
                    None => t,
                },
            ),
        ),
        stamp_span(seq![None] + ts) == stamp_span(ts),
{
    lemma_first_stamp_push(ts, Some(t));
    lemma_first_stamp_push_none(ts);
    assert(ts.push(Some(t)).drop_last() =~= ts);
    assert(ts.push(None).drop_last() =~= ts);
    lemma_first_stamp_prepend(Some(t), ts);
    lemma_first_stamp_prepend(None, ts);
    lemma_last_stamp_prepend(Some(t), ts);
    lemma_last_stamp_prepend(None, ts);
    lemma_stamps_together(ts);
}

proof fn lemma_stamps_together(ts: Seq<Option<u64>>)
    ensures
        first_stamp(ts) is Some <==> last_stamp(ts) is Some,
    decreases ts.len(),
{
    if ts.len() > 0 {
        lemma_stamps_together(ts.drop_last());
        lemma_first_stamp_push(ts.drop_last(), ts.last());
        assert(ts.drop_last().push(ts.last()) =~= ts);
    }
}

/// The time span of a session: the first and last timestamps among the
/// lines of its file, read with serde_json; empty lines are skipped.
pub fn session_timestamps(lines: &Vec<String>) -> (span: Option<(u64, u64)>)
    ensures
        span == stamp_span(lines@.map_values(|l: String| line_stamp(l@))),
{
    let mut ts: Vec<Option<u64>> = Vec::new();
    let mut i: usize = 0;
    while i < lines.len()
        invariant
            i <= lines@.len(),
            ts@ == lines@.subrange(0, i as int).map_values(|l: String| line_stamp(l@)),
        decreases lines.len() - i,
    {
        let line = lines[i].as_str();
        let t = if line.is_empty() {
            None
        } else {
            json_u64_field_of(line, TIMESTAMP_FIELD)
        };
        ts.push(t);
        assert(lines@.subrange(0, i + 1).map_values(|l: String| line_stamp(l@)) =~= lines@.subrange(
            0,
            i as int,
        ).map_values(|l: String| line_stamp(l@)).push(line_stamp(lines@[i as int]@)));
        i = i + 1;
    }
    assert(lines@.subrange(0, i as int) =~= lines@);
    timestamp_span(&ts)
}


/// `s` without the suffix `suffix`, when it ends with it.
pub open spec fn strip_suffix(s: Seq<char>, suffix: Seq<char>) -> Option<Seq<char>> {
    if s.len() >= suffix.len() && s.subrange(s.len() - suffix.len(), s.len() as int) == suffix {
        Some(s.subrange(0, s.len() - suffix.len()))
    } else {
        None
    }
}

/// The session that a file left in the session directory belongs to, when
/// it is a compressed session (extension `gz`) still waiting for upload: its
/// stem without `_inputs.jsonl`, or else without `_inputs`; never empty.
pub open spec fn pending_session(name: Seq<char>) -> Option<Seq<char>> {
    if file_extension(name) != Some("gz"@) {
        None
    } else {
        let stem = file_stem(name);
        let id = match strip_suffix(stem, "_inputs.jsonl"@) {
            Some(x) => x,
            None => match strip_suffix(stem, "_inputs"@) {
                Some(x) => x,
                None => stem,
            },
        };
        if id.len() == 0 {
            None
        } else {
            Some(id)
        }
    }
}

/// Whether `chars[0..end]` ends with `suffix`; if so, where the suffix starts.
fn strip_suffix_at(chars: &Vec<char>, end: usize, suffix: &Vec<char>) -> (r: Option<usize>)
    requires
        end <= chars@.len(),
    ensures
        match r {
            Some(k) => strip_suffix(chars@.subrange(0, end as int), suffix@) == Some(
                chars@.subrange(0, k as int),
            ) && k <= end,
            None => strip_suffix(chars@.subrange(0, end as int), suffix@) is None,
        },
{
    if end < suffix.len() {
        return None;
    }
    let k = end - suffix.len();
    let matches = range_equals(chars, k, end, suffix);
    proof {
        let s = chars@.subrange(0, end as int);
        assert(s.subrange(k as int, end as int) =~= chars@.subrange(k as int, end as int));
        assert(s.subrange(0, k as int) =~= chars@.subrange(0, k as int));
    }
    if matches {
        Some(k)
    } else {
        None
    }
}

/// The id of the session whose compressed file is named `file_name`, when
/// that file is one waiting for upload.
pub fn pending_session_uuid(file_name: &str) -> (uuid: Option<String>)
    ensures
        match uuid {
            Some(u) => pending_session(file_name@) == Some(u@),
            None => pending_session(file_name@) is None,
        },
{
    let chars = chars_of(file_name);
    let dot = match find_extension_dot(&chars) {
        Some(k) => k,
        None => {
            return None;
        },
    };
    let n = chars.len();
    let gz = chars_of("gz");
    if !range_equals(&chars, dot + 1, n, &gz) {
        return None;
    }
    assert(file_stem(chars@) =~= chars@.subrange(0, dot as int));
    let long_suffix = chars_of("_inputs.jsonl");
    let short_suffix = chars_of("_inputs");
    let end = match strip_suffix_at(&chars, dot, &long_suffix) {
        Some(k) => k,
        None => match strip_suffix_at(&chars, dot, &short_suffix) {
            Some(k) => k,
            None => dot,
        },
    };
    if end == 0 {
        return None;
    }
    Some(string_from_range(&chars, 0, end))
}

proof fn lemma_last_index_before(s: Seq<char>, c: char, k: int)
    ensures
        last_index_before(s, c, k) matches Some(i) ==> 0 <= i < k && s[i] == c,
    decreases k,
{
    if k > 0 && s[k - 1] != c {
        lemma_last_index_before(s, c, k - 1);
    }
}

/// Law: only compressed files are taken for pending uploads: a file name
/// that does not end in `.gz` never is, and the session id found is a
/// non-empty leading part of the name, before that `.gz`.
pub proof fn law_only_gz_files_are_pending(name: Seq<char>)
    ensures
        pending_session(name) is Some ==> name.len() >= 3 && name.subrange(
            name.len() - 3,
            name.len() as int,
        ) == seq!['.', 'g', 'z'],
        pending_session(name) matches Some(id) ==> 0 < id.len() <= name.len() - 3 && id
            == name.subrange(0, id.len() as int),
{
    reveal_strlit("gz");
    reveal_strlit("_inputs.jsonl");
    reveal_strlit("_inputs");
    if pending_session(name) is Some {
        let k = crate::text::extension_dot(name)->0;
        lemma_last_index_before(name, '.', name.len() as int);
        assert(name.subrange(k + 1, name.len() as int) == "gz"@);
        assert(name.len() == k + 3);
        assert(name[k] == '.');
        assert(name[k + 1] == name.subrange(k + 1, name.len() as int)[0]);
        assert(name[k + 2] == name.subrange(k + 1, name.len() as int)[1]);
        assert(name.subrange(name.len() - 3, name.len() as int) =~= seq!['.', 'g', 'z']);
        let stem = name.subrange(0, k);
        assert(crate::text::file_stem(name) == stem);
        let id = pending_session(name)->0;
        assert(id =~= name.subrange(0, id.len() as int));
    }
}

/// Law: the retry of pending uploads finds every session again. The
/// compressed input file of a session with a non-empty id `uuid` (its input
/// file's name with `.gz` added) is taken for pending upload of `uuid`.
pub proof fn law_pending_upload_finds_its_session(uuid: Seq<char>)
    requires
        uuid.len() > 0,
    ensures
        pending_session(session_name(uuid) + ".gz"@) == Some(uuid),
{
    reveal_strlit("_inputs.jsonl");
    reveal_strlit(".gz");
    reveal_strlit("gz");
    reveal_strlit("_inputs");
    let stem = session_name(uuid);
    let name = stem + ".gz"@;
    let n = name.len() as int;
    assert(stem.len() == uuid.len() + 13);
    assert(name[n - 1] == 'z');
    assert(name[n - 2] == 'g');
    assert(name[n - 3] == '.');
    assert(crate::text::last_index_before(name, '.', n - 2) == Some(n - 3));
    assert(crate::text::last_index_before(name, '.', n - 1) == Some(n - 3));
    assert(crate::text::last_index_before(name, '.', n) == Some(n - 3));
    assert(name != seq!['.', '.']) by {
        if name == seq!['.', '.'] {
            assert(name.len() == 2);
        }
    }
    assert(name.subrange(0, n - 3) =~= stem);
    assert(name.subrange(n - 2, n) =~= "gz"@);
    assert(stem.subrange(stem.len() - 13, stem.len() as int) =~= "_inputs.jsonl"@);
    assert(stem.subrange(0, stem.len() - 13) =~= uuid);
}


/// How uploading one session ended.
#[derive(Clone, Copy, Debug, PartialEq, Eq, Structural)]
pub enum UploadOutcome {
    /// The session's input file could not be found.
    MissingFile,
    /// The input file was empty; there was nothing to upload.
    EmptyFile,
    /// No line of the input file carried a timestamp.
    NoTimestamps,
    /// Compressing the input file failed.
    CompressFailed,
    /// The server accepted the session.
    Uploaded,
    /// Sending the session failed.
    UploadFailed,
}

/// Where uploading one session stands.
#[derive(Clone, Copy, Debug, PartialEq, Eq, Structural)]
pub enum UploadStage {
    /// Waiting to learn whether the input file exists, and its size.
    CheckFile,
    /// Waiting for the session's time span.
    ReadTimestamps,
    /// Waiting for the compressed file.
    Compress { started_at: u64, ended_at: u64 },
    /// Waiting for the server's answer.
    Send { started_at: u64, ended_at: u64 },
    /// Finished.
    Done(UploadOutcome),
}

/// What the app reports back after doing what the upload asked for.
#[derive(Clone, Copy, Debug, PartialEq, Eq)]
pub enum UploadEvent {
    /// The input file's size, or `None` when it cannot be found.
    FileSize(Option<u64>),
    /// The session's first and last timestamps, when it has any.
    Timestamps(Option<(u64, u64)>),
    /// Whether compressing the input file succeeded.
    Compressed(bool),
    /// Whether the server accepted the session.
    Sent(bool),
}

/// What the upload asks the app to do next.
#[derive(Clone, Copy, Debug, PartialEq, Eq, Structural)]
pub enum UploadAction {
    /// Read the session's time span from its input file.
    ReadTimestamps,
    /// Compress the input file.
    Compress,
    /// Send the compressed file with the session's id and time span.
    Send { started_at: u64, ended_at: u64 },
    /// Stop; remove the input file and the compressed file where asked.
    Finish { outcome: UploadOutcome, remove_jsonl: bool, remove_gz: bool },
    /// The event did not fit the stage (or the upload was finished): nothing.
    Ignore,
}

/// One session's upload: a fresh one, right after recording, or a retry of
/// one whose compressed file was left behind.
pub struct SessionUpload {
    pub retry: bool,
    pub stage: UploadStage,
}

/// The next stage and the action for an event. A fresh upload checks the
/// input file, reads the time span, compresses, sends; an empty input file
/// is removed unsent; once sent, the input file goes, and the compressed
/// file goes only if the server accepted it. A retry checks that the input
/// file exists, reads the time span, and sends the compressed file it
/// already has; it removes both files only if the server accepted them.
pub open spec fn upload_step(retry: bool, stage: UploadStage, event: UploadEvent) -> (UploadStage, UploadAction) {
    match (stage, event) {
        (UploadStage::CheckFile, UploadEvent::FileSize(size)) => match size {
            None => (
                UploadStage::Done(UploadOutcome::MissingFile),
                UploadAction::Finish {
                    outcome: UploadOutcome::MissingFile,
                    remove_jsonl: false,
                    remove_gz: false,
                },
            ),
            Some(len) => if len == 0 && !retry {
                (
                    UploadStage::Done(UploadOutcome::EmptyFile),
                    UploadAction::Finish {
                        outcome: UploadOutcome::EmptyFile,
                        remove_jsonl: true,
                        remove_gz: false,
                    },
                )
            } else {
                (UploadStage::ReadTimestamps, UploadAction::ReadTimestamps)
            },
        },
        (UploadStage::ReadTimestamps, UploadEvent::Timestamps(span)) => match span {
            None => (
                UploadStage::Done(UploadOutcome::NoTimestamps),
                UploadAction::Finish {
                    outcome: UploadOutcome::NoTimestamps,
                    remove_jsonl: false,
                    remove_gz: false,
                },
            ),
            Some((started_at, ended_at)) => if retry {
                (
                    UploadStage::Send { started_at, ended_at },
                    UploadAction::Send { started_at, ended_at },
                )
            } else {
                (UploadStage::Compress { started_at, ended_at }, UploadAction::Compress)
            },
        },
        (UploadStage::Compress { started_at, ended_at }, UploadEvent::Compressed(ok)) => if ok {
            (
                UploadStage::Send { started_at, ended_at },
                UploadAction::Send { started_at, ended_at },
            )
        } else {
            (
                UploadStage::Done(UploadOutcome::CompressFailed),
                UploadAction::Finish {
                    outcome: UploadOutcome::CompressFailed,
                    remove_jsonl: false,
                    remove_gz: false,
                },
            )
        },
        (UploadStage::Send { .. }, UploadEvent::Sent(ok)) => if ok {
            (
                UploadStage::Done(UploadOutcome::Uploaded),
                UploadAction::Finish {
                    outcome: UploadOutcome::Uploaded,
                    remove_jsonl: true,
                    remove_gz: true,
                },
            )
        } else {
            (
                UploadStage::Done(UploadOutcome::UploadFailed),
                UploadAction::Finish {
                    outcome: UploadOutcome::UploadFailed,
                    remove_jsonl: !retry,
                    remove_gz: false,
                },
            )
        },
        _ => (stage, UploadAction::Ignore),
    }
}

impl SessionUpload {
    /// The upload of a session that has just been recorded.
    pub fn fresh() -> (u: SessionUpload)
        ensures
            !u.retry,
            u.stage == UploadStage::CheckFile,
    {
        SessionUpload { retry: false, stage: UploadStage::CheckFile }
    }

    /// Another try at a session whose compressed file was left behind.
    pub fn retry() -> (u: SessionUpload)
        ensures
            u.retry,
            u.stage == UploadStage::CheckFile,
    {
        SessionUpload { retry: true, stage: UploadStage::CheckFile }
    }

    /// Takes what the app found out and says what to do next.
    pub fn step(&mut self, event: UploadEvent) -> (action: UploadAction)
        ensures
            final(self).retry == old(self).retry,
            (final(self).stage, action) == upload_step(old(self).retry, old(self).stage, event),
    {
        let retry = self.retry;
        match (self.stage, event) {
            (UploadStage::CheckFile, UploadEvent::FileSize(size)) => match size {
                None => {
                    self.stage = UploadStage::Done(UploadOutcome::MissingFile);
                    UploadAction::Finish {
                        outcome: UploadOutcome::MissingFile,
                        remove_jsonl: false,
                        remove_gz: false,
                    }
                },
                Some(len) => {
                    if len == 0 && !retry {
                        self.stage = UploadStage::Done(UploadOutcome::EmptyFile);
                        UploadAction::Finish {
                            outcome: UploadOutcome::EmptyFile,
                            remove_jsonl: true,
                            remove_gz: false,
                        }
                    } else {
                        self.stage = UploadStage::ReadTimestamps;
                        UploadAction::ReadTimestamps
                    }
                },
            },
            (UploadStage::ReadTimestamps, UploadEvent::Timestamps(span)) => match span {
                None => {
                    self.stage = UploadStage::Done(UploadOutcome::NoTimestamps);
                    UploadAction::Finish {
                        outcome: UploadOutcome::NoTimestamps,
                        remove_jsonl: false,
                        remove_gz: false,
                    }
                },
                Some((started_at, ended_at)) => {
                    if retry {
                        self.stage = UploadStage::Send { started_at, ended_at };
                        UploadAction::Send { started_at, ended_at }
                    } else {
                        self.stage = UploadStage::Compress { started_at, ended_at };
                        UploadAction::Compress
                    }
                },
            },
            (UploadStage::Compress { started_at, ended_at }, UploadEvent::Compressed(ok)) => {
                if ok {
                    self.stage = UploadStage::Send { started_at, ended_at };
                    UploadAction::Send { started_at, ended_at }
                } else {
                    self.stage = UploadStage::Done(UploadOutcome::CompressFailed);
                    UploadAction::Finish {
                        outcome: UploadOutcome::CompressFailed,
                        remove_jsonl: false,
                        remove_gz: false,
                    }
                }
            },
            (UploadStage::Send { .. }, UploadEvent::Sent(ok)) => {
                if ok {
                    self.stage = UploadStage::Done(UploadOutcome::Uploaded);
                    UploadAction::Finish {
                        outcome: UploadOutcome::Uploaded,
                        remove_jsonl: true,
                        remove_gz: true,
                    }
                } else {
                    self.stage = UploadStage::Done(UploadOutcome::UploadFailed);
                    UploadAction::Finish {
                        outcome: UploadOutcome::UploadFailed,
                        remove_jsonl: !retry,
                        remove_gz: false,
                    }
                }
            },
            _ => UploadAction::Ignore,
        }
    }
}

/// Law: a compressed session file is removed only once the server has
/// accepted it; a failed upload leaves it in place.
pub proof fn law_gz_removed_only_after_acceptance(retry: bool, stage: UploadStage, event: UploadEvent)
    ensures
        upload_step(retry, stage, event).1 matches UploadAction::Finish { remove_gz, .. } && remove_gz
            ==> stage is Send && event == UploadEvent::Sent(true),
        (stage is Send && event == UploadEvent::Sent(false)) ==> (upload_step(
            retry,
            stage,
            event,
        ).1 matches UploadAction::Finish { remove_gz, .. } && !remove_gz),
{
}

/// Law: a retry never removes the input file unless the server accepted the
/// session, and never compresses anew.
pub proof fn law_retry_keeps_input_until_accepted(stage: UploadStage, event: UploadEvent)
    ensures
        upload_step(true, stage, event).1 matches UploadAction::Finish { remove_jsonl, .. }
            && remove_jsonl ==> stage is Send && event == UploadEvent::Sent(true),
        upload_step(true, stage, event).1 != UploadAction::Compress,
{
}

/// Law: an upload that has finished stays finished, whatever comes next.
pub proof fn law_finished_upload_is_final(retry: bool, outcome: UploadOutcome, event: UploadEvent)
    ensures
        upload_step(retry, UploadStage::Done(outcome), event) == (
            UploadStage::Done(outcome),
            UploadAction::Ignore,
        ),
{
}

/// Law: the upload of a fresh session removes its input file whenever the
/// session reached the server, accepted or not, and also when it was empty;
/// in no other case.
pub proof fn law_fresh_upload_removes_input_after_send(stage: UploadStage, event: UploadEvent)
    ensures
        upload_step(false, stage, event).1 matches UploadAction::Finish { remove_jsonl, .. }
            && remove_jsonl ==> (stage is Send && event is Sent) || (stage == UploadStage::CheckFile
            && event == UploadEvent::FileSize(Some(0))),
        (stage is Send && event is Sent) ==> (upload_step(false, stage, event).1 matches
            UploadAction::Finish { remove_jsonl, .. } && remove_jsonl),
{
}


/// Law: a session file that exists goes on to be read, whatever its size:
/// a fresh upload of a non-empty file, and a retry of a file of any size,
/// read the time span next; a file is given up as missing only when it
/// could not be found.
pub proof fn law_existing_files_are_read(retry: bool, len: u64, stage: UploadStage, event: UploadEvent)
    ensures
        (len > 0 || retry) ==> upload_step(retry, UploadStage::CheckFile, UploadEvent::FileSize(Some(len)))
            == (UploadStage::ReadTimestamps, UploadAction::ReadTimestamps),
        upload_step(retry, UploadStage::CheckFile, UploadEvent::FileSize(None)).0 == UploadStage::Done(
            UploadOutcome::MissingFile,
        ),
        (upload_step(retry, stage, event).1 matches UploadAction::Finish { outcome, .. }
            && outcome == UploadOutcome::MissingFile) ==> stage == UploadStage::CheckFile && event
            == UploadEvent::FileSize(None),
{
}

/// Law: a fresh upload of a session with a time span goes on to compress
/// it, and a compressed session is sent with exactly that span.
pub proof fn law_span_is_sent(started_at: u64, ended_at: u64)
    ensures
        upload_step(false, UploadStage::ReadTimestamps, UploadEvent::Timestamps(Some((started_at, ended_at))))
            == (UploadStage::Compress { started_at, ended_at }, UploadAction::Compress),
        upload_step(false, UploadStage::Compress { started_at, ended_at }, UploadEvent::Compressed(true))
            == (UploadStage::Send { started_at, ended_at }, UploadAction::Send { started_at, ended_at }),
        upload_step(true, UploadStage::ReadTimestamps, UploadEvent::Timestamps(Some((started_at, ended_at))))
            == (UploadStage::Send { started_at, ended_at }, UploadAction::Send { started_at, ended_at }),
{
}

} // verus!
