//! The battle-lobby probe: pulling printable ASCII strings out of a
//! `.battlelobby` file so that a person can see where map names live.

use vstd::prelude::*;
use crate::text::{chars_of, file_extension, find_extension_dot, push_char, range_equals};

verus! {

/// Shortest run of printable bytes that the probe reports.
pub const PRINTABLE_MIN_LEN: usize = 4;

/// Most strings that the probe writes to the log for one file.
pub const MAX_LOGGED_STRINGS: usize = 400;

/// A byte is printable when it is an ASCII graphic character or a space.
pub open spec fn is_printable(b: u8) -> bool {
    0x20 <= b && b <= 0x7e
}

/// Number of consecutive printable bytes of `bytes` from position `i` on.
pub open spec fn run_len(bytes: Seq<u8>, i: int) -> nat
    decreases bytes.len() - i,
{
    if 0 <= i < bytes.len() && is_printable(bytes[i]) {
        1 + run_len(bytes, i + 1)
    } else {
        0
    }
}

/// A maximal run of printable bytes starts at `i`.
pub open spec fn starts_run(bytes: Seq<u8>, i: int) -> bool {
    &&& 0 <= i < bytes.len()
    &&& is_printable(bytes[i])
    &&& (i == 0 || !is_printable(bytes[i - 1]))
}

/// The characters that the bytes stand for, one per byte.
pub open spec fn bytes_as_chars(s: Seq<u8>) -> Seq<char> {
    s.map_values(|b: u8| b as char)
}

/// The entry reported for the run that starts at `i`: its offset and its text.
pub open spec fn run_at(bytes: Seq<u8>, i: int) -> (int, Seq<char>) {
    (i, bytes_as_chars(bytes.subrange(i, i + run_len(bytes, i))))
}

/// The maximal printable runs of at least `min_len` bytes that start before
/// position `k`, in the order of their offsets.
pub open spec fn runs_before(bytes: Seq<u8>, min_len: nat, k: int) -> Seq<(int, Seq<char>)>
    decreases k,
{
    if k <= 0 {
        seq![]
    } else {
        let prev = runs_before(bytes, min_len, k - 1);
        if starts_run(bytes, k - 1) && run_len(bytes, k - 1) >= min_len {
            prev.push(run_at(bytes, k - 1))
        } else {
            prev
        }
    }
}

/// Every maximal run of printable bytes that is at least `min_len` long,
/// with its offset, in the order in which the runs occur.
pub open spec fn printable_strings(bytes: Seq<u8>, min_len: nat) -> Seq<(int, Seq<char>)> {
    runs_before(bytes, min_len, bytes.len() as int)
}

/// The entries of a result, as offsets and texts.
pub open spec fn entries_view(v: Seq<(usize, String)>) -> Seq<(int, Seq<char>)> {
    v.map_values(|e: (usize, String)| (e.0 as int, e.1@))
}

/// A run that holds printable bytes from `s` up to `e`, and ends there, is `e - s` long.
proof fn lemma_run_len(bytes: Seq<u8>, s: int, e: int)
    requires
        0 <= s <= e <= bytes.len(),
        forall|j: int| s <= j < e ==> is_printable(#[trigger] bytes[j]),
        e == bytes.len() || !is_printable(bytes[e]),
    ensures
        run_len(bytes, s) == e - s,
    decreases e - s,
{
    if s < e {
        lemma_run_len(bytes, s + 1, e);
    }
}

/// Positions where no run starts add no entry.
proof fn lemma_no_starts(bytes: Seq<u8>, min_len: nat, lo: int, hi: int)
    requires
        0 <= lo <= hi,
        forall|j: int| lo <= j < hi ==> !starts_run(bytes, j),
    ensures
        runs_before(bytes, min_len, hi) == runs_before(bytes, min_len, lo),
    decreases hi - lo,
{
    if lo < hi {
        lemma_no_starts(bytes, min_len, lo, hi - 1);
    }
}

/// The run from `i` stays inside the bytes, holds only printable bytes, and
/// ends at the end of the bytes or at a byte that is not printable.
proof fn lemma_run_len_facts(bytes: Seq<u8>, i: int)
    requires
        0 <= i <= bytes.len(),
    ensures
        i + run_len(bytes, i) <= bytes.len(),
        forall|j: int| i <= j < i + run_len(bytes, i) ==> is_printable(#[trigger] bytes[j]),
        i + run_len(bytes, i) == bytes.len() || !is_printable(bytes[i + run_len(bytes, i)]),
    decreases bytes.len() - i,
{
    if i < bytes.len() && is_printable(bytes[i]) {
        lemma_run_len_facts(bytes, i + 1);
    }
}

/// Each entry of `runs_before(k)` is the run at its own offset, which is a
/// run start before `k` long enough to report; offsets strictly increase, and
/// every reportable run that starts before `k` is there.
proof fn lemma_runs_before(bytes: Seq<u8>, m: nat, k: int)
    requires
        0 <= k,
    ensures
        forall|e: int|
            0 <= e < runs_before(bytes, m, k).len() ==> {
                let o = #[trigger] runs_before(bytes, m, k)[e].0;
                &&& 0 <= o < k
                &&& starts_run(bytes, o)
                &&& run_len(bytes, o) >= m
                &&& runs_before(bytes, m, k)[e] == run_at(bytes, o)
            },
        forall|a: int, c: int|
            0 <= a < c < runs_before(bytes, m, k).len() ==> #[trigger] runs_before(bytes, m, k)[a].0
                < #[trigger] runs_before(bytes, m, k)[c].0,
        forall|i: int|
            0 <= i < k && starts_run(bytes, i) && run_len(bytes, i) >= m ==> runs_before(
                bytes,
                m,
                k,
            ).contains(#[trigger] run_at(bytes, i)),
    decreases k,
{
    if k > 0 {
        lemma_runs_before(bytes, m, k - 1);
        let prev = runs_before(bytes, m, k - 1);
        let cur = runs_before(bytes, m, k);
        if starts_run(bytes, k - 1) && run_len(bytes, k - 1) >= m {
            assert(cur == prev.push(run_at(bytes, k - 1)));
            assert forall|i: int|
                0 <= i < k && starts_run(bytes, i) && run_len(bytes, i) >= m implies cur.contains(
                #[trigger] run_at(bytes, i),
            ) by {
                if i == k - 1 {
                    assert(cur[prev.len() as int] == run_at(bytes, i));
                } else {
                    let w = choose|w: int| 0 <= w < prev.len() && prev[w] == run_at(bytes, i);
                    assert(cur[w] == prev[w]);
                }
            }
        }
    }
}

/// Law: every entry is a whole run of printable bytes, at least `min_len` and
/// at least one byte long, whose text is the bytes at its offset, and the run
/// can be extended on neither side.
pub proof fn law_entries_are_maximal_printable_runs(bytes: Seq<u8>, min_len: nat, k: int)
    requires
        0 <= k < printable_strings(bytes, min_len).len(),
    ensures
        ({
            let (o, t) = printable_strings(bytes, min_len)[k];
            &&& 0 <= o
            &&& o + t.len() <= bytes.len()
            &&& t.len() >= min_len
            &&& t.len() >= 1
            &&& forall|j: int|
                0 <= j < t.len() ==> is_printable(bytes[o + j]) && #[trigger] t[j] == (bytes[o
                    + j] as char)
            &&& (o == 0 || !is_printable(bytes[o - 1]))
            &&& (o + t.len() == bytes.len() || !is_printable(bytes[o + t.len()]))
        }),
{
    lemma_runs_before(bytes, min_len, bytes.len() as int);
    let (o, t) = printable_strings(bytes, min_len)[k];
    lemma_run_len_facts(bytes, o);
    assert forall|j: int| 0 <= j < t.len() implies is_printable(bytes[o + j]) && #[trigger] t[j]
        == (bytes[o + j] as char) by {
        assert(is_printable(bytes[o + j]));
    }
}

/// Law: the entries come in the order of their offsets, and two entries
/// never touch: at least one unprintable byte stands between them.
pub proof fn law_entries_ordered_and_disjoint(bytes: Seq<u8>, min_len: nat, a: int, c: int)
    requires
        0 <= a < c < printable_strings(bytes, min_len).len(),
    ensures
        printable_strings(bytes, min_len)[a].0 + printable_strings(bytes, min_len)[a].1.len()
            < printable_strings(bytes, min_len)[c].0,
{
    let r = printable_strings(bytes, min_len);
    lemma_runs_before(bytes, min_len, bytes.len() as int);
    let oa = r[a].0;
    let oc = r[c].0;
    assert(oa < oc);
    lemma_run_len_facts(bytes, oa);
    assert(starts_run(bytes, oc));
    if oa + run_len(bytes, oa) >= oc {
        assert(is_printable(bytes[oc - 1]));
    }
}

/// Law: every maximal printable run of at least `min_len` bytes is reported.
pub proof fn law_every_long_run_reported(bytes: Seq<u8>, min_len: nat, i: int)
    requires
        starts_run(bytes, i),
        run_len(bytes, i) >= min_len,
    ensures
        printable_strings(bytes, min_len).contains(run_at(bytes, i)),
{
    lemma_runs_before(bytes, min_len, bytes.len() as int);
}

/// The kinds of file-system event that the probe tells apart: a file was
/// created, a file was modified, or anything else.
#[derive(Clone, Copy, Debug, PartialEq, Eq, Structural)]
pub enum WatchEventKind {
    Create,
    Modify,
    Other,
}

/// The characters of an optional string.
pub open spec fn opt_view(s: Option<&str>) -> Option<Seq<char>> {
    match s {
        Some(t) => Some(t@),
        None => None,
    }
}

/// An event names a lobby file when it creates or modifies a file whose
/// extension is `battlelobby`.
pub open spec fn spec_is_lobby_file_event(kind: WatchEventKind, file_name: Option<Seq<char>>) -> bool {
    &&& (kind == WatchEventKind::Create || kind == WatchEventKind::Modify)
    &&& match file_name {
        Some(name) => file_extension(name) == Some("battlelobby"@),
        None => false,
    }
}

/// Whether the probe handles an event of `kind` on the file named
/// `file_name` (`None` when the path has no file name).
pub fn is_lobby_file_event(kind: WatchEventKind, file_name: Option<&str>) -> (handle: bool)
    ensures
        handle == spec_is_lobby_file_event(kind, opt_view(file_name)),
{
    match kind {
        WatchEventKind::Other => {
            return false;
        },
        _ => {},
    }
    match file_name {
        None => {
            false
        },
        Some(name) => {
            let chars = chars_of(name);
            match find_extension_dot(&chars) {
                None => false,
                Some(k) => {
                    let n = chars.len();
                    let wanted = chars_of("battlelobby");
                    range_equals(&chars, k + 1, n, &wanted)
                },
            }
        },
    }
}

/// The file name that a lobby file's dump gets: the time stamp, a hyphen,
/// the lobby file's name (`unknown` when it has none), and `.bin`.
pub open spec fn dump_name(stamp: Seq<char>, original_name: Option<Seq<char>>) -> Seq<char> {
    stamp + "-"@ + match original_name {
        Some(n) => n,
        None => "unknown"@,
    } + ".bin"@
}

/// Builds the dump file name for a lobby file from a time stamp.
pub fn dump_file_name(stamp: &str, original_name: Option<&str>) -> (name: String)
    ensures
        name@ == dump_name(stamp@, opt_view(original_name)),
{
    let mut name = stamp.to_owned();
    name.append("-");
    match original_name {
        Some(n) => name.append(n),
        None => name.append("unknown"),
    }
    name.append(".bin");
    name
}

/// The `strftime` pattern of the time stamp in dump names.
pub const DUMP_STAMP_FORMAT: &'static str = "%Y%m%d-%H%M%S";

/// What chrono's `DateTime::<Utc>::from_timestamp(secs, nanos)` followed by
/// `format(pattern).to_string()` gives: `None` where the instant is out of
/// chrono's range.
pub uninterp spec fn utc_format(secs: i64, nanos: u32, pattern: Seq<char>) -> Option<Seq<char>>;

/// Formats the UTC instant `secs` seconds and `nanos` nanoseconds after the
/// Unix epoch with chrono (`DateTime::<Utc>::from_timestamp`, then
/// `format(..).to_string()`). The result is the name `utc_format` applied to
/// the arguments; nothing is claimed of its characters. Only the dump stamp
/// pattern is accepted, which chrono's formatter renders without error.
#[verifier::external_body]
fn format_utc(secs: i64, nanos: u32, pattern: &str) -> (text: Option<String>)
    requires
        pattern@ == DUMP_STAMP_FORMAT@,
    ensures
        match text {
            Some(t) => utc_format(secs, nanos, pattern@) == Some(t@),
            None => utc_format(secs, nanos, pattern@) is None,
        },
{
    match chrono::DateTime::from_timestamp(secs, nanos) {
        Some(t) => Some(t.format(pattern).to_string()),
        None => None,
    }
}

/// The dump file name for a lobby file saved at the given UTC instant;
/// `None` where chrono cannot represent the instant.
pub fn dump_file_name_at(secs: i64, nanos: u32, original_name: Option<&str>) -> (name: Option<String>)
    ensures
        match utc_format(secs, nanos, DUMP_STAMP_FORMAT@) {
            Some(stamp) => name matches Some(n) && n@ == dump_name(stamp, opt_view(original_name)),
            None => name is None,
        },
{
    match format_utc(secs, nanos, DUMP_STAMP_FORMAT) {
        Some(stamp) => Some(dump_file_name(stamp.as_str(), original_name)),
        None => None,
    }
}

/// The lower-case hexadecimal digit for `d` (below 16).
pub open spec fn hex_digit(d: nat) -> char {
    if d < 10 {
        (d + 48) as char
    } else {
        (d + 87) as char
    }
}

/// The lower-case hexadecimal digits of `n`, without leading zeros.
pub open spec fn hex_digits(n: nat) -> Seq<char>
    decreases n,
{
    if n < 16 {
        seq![hex_digit(n)]
    } else {
        hex_digits(n / 16).push(hex_digit(n % 16))
    }
}

/// `s` with zeros in front, up to `width` characters.
pub open spec fn zero_padded(s: Seq<char>, width: nat) -> Seq<char> {
    if s.len() >= width {
        s
    } else {
        Seq::new((width - s.len()) as nat, |_i: int| '0') + s
    }
}

/// An offset as the log shows it: `0x` and at least eight hexadecimal digits.
pub open spec fn offset_text(n: nat) -> Seq<char> {
    seq!['0', 'x'] + zero_padded(hex_digits(n), 8)
}

/// The log line for a string found at `offset`.
pub open spec fn string_line(offset: nat, text: Seq<char>) -> Seq<char> {
    seq![' ', ' ', '@'] + offset_text(offset) + seq![':', ' '] + text
}

proof fn lemma_hex_digits_len(n: nat)
    ensures
        1 <= hex_digits(n).len() <= n + 1,
    decreases n,
{
    if n >= 16 {
        lemma_hex_digits_len(n / 16);
    }
}

fn hex_char(d: usize) -> (c: char)
    requires
        d < 16,
    ensures
        c == hex_digit(d as nat),
{
    if d < 10 {
        let b: u8 = d as u8 + 48;
        b as char
    } else {
        let b: u8 = d as u8 + 87;
        b as char
    }
}

fn push_hex(out: &mut String, n: usize)
    ensures
        final(out)@ == old(out)@ + hex_digits(n as nat),
    decreases n,
{
    if n >= 16 {
        push_hex(out, n / 16);
    }
    push_char(out, hex_char(n % 16));
}

fn hex_len(n: usize) -> (len: usize)
    ensures
        len == hex_digits(n as nat).len(),
    decreases n,
{
    proof {
        lemma_hex_digits_len(n as nat);
    }
    if n < 16 {
        1
    } else {
        proof {
            lemma_hex_digits_len((n / 16) as nat);
        }
        hex_len(n / 16) + 1
    }
}

/// Writes an offset the way the probe logs it (`{:#010x}`).
pub fn format_offset(n: usize) -> (text: String)
    ensures
        text@ == offset_text(n as nat),
{
    let mut text = "0x".to_owned();
    let digits = hex_len(n);
    let mut pad: usize = 0;
    proof {
        reveal_strlit("0x");
        assert(text@ =~= seq!['0', 'x'] + Seq::new(0nat, |_i: int| '0'));
    }
    while digits + pad < 8
        invariant
            digits == hex_digits(n as nat).len(),
            digits + pad <= 8 || pad == 0,
            text@ == seq!['0', 'x'] + Seq::new(pad as nat, |_i: int| '0'),
        decreases 8 - digits - pad,
    {
        push_char(&mut text, '0');
        assert(Seq::new((pad + 1) as nat, |_i: int| '0') =~= Seq::new(pad as nat, |_i: int| '0').push('0'));
        pad = pad + 1;
    }
    push_hex(&mut text, n);
    proof {
        let h = hex_digits(n as nat);
        if h.len() >= 8 {
            assert(pad == 0);
            assert(text@ =~= seq!['0', 'x'] + h);
        } else {
            assert(pad == 8 - h.len());
            assert(text@ =~= seq!['0', 'x'] + (Seq::new(pad as nat, |_i: int| '0') + h));
        }
    }
    text
}

/// The log lines for the strings found in one lobby file: one line per
/// string, for at most `MAX_LOGGED_STRINGS` of them, in order.
pub fn probe_log_lines(strings: &Vec<(usize, String)>) -> (lines: Vec<String>)
    ensures
        lines@.len() == if strings@.len() < MAX_LOGGED_STRINGS {
            strings@.len()
        } else {
            MAX_LOGGED_STRINGS as nat
        },
        forall|k: int|
            0 <= k < lines@.len() ==> #[trigger] lines@[k]@ == string_line(
                strings@[k].0 as nat,
                strings@[k].1@,
            ),
{
    let count = if strings.len() < MAX_LOGGED_STRINGS {
        strings.len()
    } else {
        MAX_LOGGED_STRINGS
    };
    let mut lines: Vec<String> = Vec::new();
    let mut k: usize = 0;
    while k < count
        invariant
            count <= strings@.len(),
            k <= count,
            lines@.len() == k,
            forall|j: int|
                0 <= j < k ==> #[trigger] lines@[j]@ == string_line(
                    strings@[j].0 as nat,
                    strings@[j].1@,
                ),
        decreases count - k,
    {
        let mut line = "  @".to_owned();
        let offset = format_offset(strings[k].0);
        line.append(offset.as_str());
        line.append(": ");
        line.append(strings[k].1.as_str());
        proof {
            reveal_strlit("  @");
            reveal_strlit(": ");
            assert(line@ =~= string_line(strings@[k as int].0 as nat, strings@[k as int].1@));
        }
        lines.push(line);
        k = k + 1;
    }
    lines
}

/// The entries of `entries` with every offset moved by `d`.
pub open spec fn shifted(entries: Seq<(int, Seq<char>)>, d: int) -> Seq<(int, Seq<char>)> {
    entries.map_values(|e: (int, Seq<char>)| (e.0 + d, e.1))
}

/// Before the separator, runs in `a + [sep] + c` are those of `a`.
proof fn lemma_run_len_joined_prefix(a: Seq<u8>, sep: u8, c: Seq<u8>, i: int)
    requires
        !is_printable(sep),
        0 <= i <= a.len(),
    ensures
        run_len(a + seq![sep] + c, i) == run_len(a, i),
    decreases a.len() - i,
{
    let b = a + seq![sep] + c;
    if i < a.len() {
        assert(b[i] == a[i]);
        if is_printable(a[i]) {
            lemma_run_len_joined_prefix(a, sep, c, i + 1);
        }
    } else {
        assert(b[i] == sep);
    }
}

/// After the separator, runs in `a + [sep] + c` are those of `c`, moved.
proof fn lemma_run_len_joined_suffix(a: Seq<u8>, sep: u8, c: Seq<u8>, j: int)
    requires
        0 <= j <= c.len(),
    ensures
        run_len(a + seq![sep] + c, a.len() + 1 + j) == run_len(c, j),
    decreases c.len() - j,
{
    let b = a + seq![sep] + c;
    if j < c.len() {
        assert(b[a.len() + 1 + j] == c[j]);
        if is_printable(c[j]) {
            lemma_run_len_joined_suffix(a, sep, c, j + 1);
        }
    }
}

proof fn lemma_runs_joined_prefix(a: Seq<u8>, sep: u8, c: Seq<u8>, m: nat, k: int)
    requires
        !is_printable(sep),
        0 <= k <= a.len(),
    ensures
        runs_before(a + seq![sep] + c, m, k) == runs_before(a, m, k),
    decreases k,
{
    let b = a + seq![sep] + c;
    if k > 0 {
        lemma_runs_joined_prefix(a, sep, c, m, k - 1);
        let i = k - 1;
        assert(b[i] == a[i]);
        if i > 0 {
            assert(b[i - 1] == a[i - 1]);
        }
        assert(starts_run(b, i) == starts_run(a, i));
        lemma_run_len_joined_prefix(a, sep, c, i);
        lemma_run_len_facts(a, i);
        assert(b.subrange(i, i + run_len(a, i)) =~= a.subrange(i, i + run_len(a, i)));
        assert(run_at(b, i) == run_at(a, i));
    }
}

proof fn lemma_runs_joined_suffix(a: Seq<u8>, sep: u8, c: Seq<u8>, m: nat, j: int)
    requires
        !is_printable(sep),
        0 <= j <= c.len(),
    ensures
        runs_before(a + seq![sep] + c, m, a.len() + 1 + j) == runs_before(a, m, a.len() as int)
            + shifted(runs_before(c, m, j), a.len() + 1int),
    decreases j,
{
    let b = a + seq![sep] + c;
    let n = a.len() as int;
    if j == 0 {
        lemma_runs_joined_prefix(a, sep, c, m, n);
        assert(b[n] == sep);
        assert(!starts_run(b, n));
        assert(runs_before(b, m, n + 1) == runs_before(b, m, n));
        assert(runs_before(c, m, 0) =~= Seq::<(int, Seq<char>)>::empty());
        assert(runs_before(a, m, n) + shifted(runs_before(c, m, 0), n + 1) =~= runs_before(
            a,
            m,
            n,
        ));
    } else {
        lemma_runs_joined_suffix(a, sep, c, m, j - 1);
        let p = n + j;
        let q = j - 1;
        assert(b[p] == c[q]);
        if q > 0 {
            assert(b[p - 1] == c[q - 1]);
        } else {
            assert(b[p - 1] == sep);
        }
        assert(starts_run(b, p) == starts_run(c, q));
        lemma_run_len_joined_suffix(a, sep, c, q);
        lemma_run_len_facts(c, q);
        assert(b.subrange(p, p + run_len(c, q)) =~= c.subrange(q, q + run_len(c, q)));
        let prev = runs_before(c, m, q);
        if starts_run(c, q) && run_len(c, q) >= m {
            assert(shifted(prev.push(run_at(c, q)), n + 1) =~= shifted(prev, n + 1).push(
                run_at(b, p),
            ));
            assert(runs_before(a, m, n) + shifted(prev.push(run_at(c, q)), n + 1) =~= (
            runs_before(a, m, n) + shifted(prev, n + 1)).push(run_at(b, p)));
        }
    }
}

/// Law: strings found in two inputs joined by an unprintable byte are the
/// strings of the first input followed by those of the second, whose
/// offsets move by the first input's length plus one.
pub proof fn law_joined_inputs(a: Seq<u8>, sep: u8, c: Seq<u8>, min_len: nat)
    requires
        !is_printable(sep),
    ensures
        printable_strings(a + seq![sep] + c, min_len) == printable_strings(a, min_len) + shifted(
            printable_strings(c, min_len),
            a.len() + 1int,
        ),
{
    lemma_runs_joined_suffix(a, sep, c, min_len, c.len() as int);
    assert((a + seq![sep] + c).len() == a.len() + 1 + c.len());
}

/// The strings of input whose bytes are all printable: one run from the start.
proof fn lemma_all_printable(s: Seq<u8>, min_len: nat)
    requires
        forall|j: int| 0 <= j < s.len() ==> 0x20 <= #[trigger] s[j] && s[j] <= 0x7e,
        s.len() >= 1,
        s.len() >= min_len,
    ensures
        printable_strings(s, min_len) == seq![(0int, s.map_values(|b: u8| b as char))],
{
    lemma_run_len(s, 0, s.len() as int);
    assert forall|j: int| 1 <= j < s.len() implies !starts_run(s, j) by {
        assert(is_printable(s[j - 1]));
    }
    lemma_no_starts(s, min_len, 1, s.len() as int);
    assert(starts_run(s, 0));
    assert(runs_before(s, min_len, 0) =~= Seq::<(int, Seq<char>)>::empty());
    assert(s.subrange(0, s.len() as int) =~= s);
    assert(runs_before(s, min_len, 1) =~= seq![(0int, s.map_values(|b: u8| b as char))]);
}

/// Law: every byte from space (0x20) to `~` (0x7e) counts as printable: a
/// run of such bytes, at least `min_len` long, between two zero bytes is
/// reported whole, at its offset.
pub proof fn law_printable_run_reported_whole(s: Seq<u8>, min_len: nat)
    requires
        forall|j: int| 0 <= j < s.len() ==> 0x20 <= #[trigger] s[j] && s[j] <= 0x7e,
        s.len() >= 1,
        s.len() >= min_len,
    ensures
        printable_strings(seq![0u8] + s + seq![0u8], min_len) == seq![
            (1int, s.map_values(|b: u8| b as char)),
        ],
{
    let e = Seq::<u8>::empty();
    law_joined_inputs(e, 0u8, s + seq![0u8], min_len);
    assert(e + seq![0u8] + (s + seq![0u8]) =~= seq![0u8] + s + seq![0u8]);
    law_joined_inputs(s, 0u8, e, min_len);
    assert(s + seq![0u8] + e =~= s + seq![0u8]);
    assert(runs_before(e, min_len, 0) =~= Seq::<(int, Seq<char>)>::empty());
    lemma_all_printable(s, min_len);
    assert(printable_strings(s + seq![0u8], min_len) =~= seq![(0int, s.map_values(|b: u8| b as char))]);
    assert(shifted(seq![(0int, s.map_values(|b: u8| b as char))], 1) =~= seq![
        (1int, s.map_values(|b: u8| b as char)),
    ]);
}

/// Law: no other byte counts as printable: input made only of bytes below
/// 0x20 or above 0x7e yields no strings.
pub proof fn law_unprintable_input_yields_nothing(s: Seq<u8>, min_len: nat)
    requires
        forall|j: int| 0 <= j < s.len() ==> #[trigger] s[j] < 0x20 || s[j] > 0x7e,
    ensures
        printable_strings(s, min_len).len() == 0,
{
    assert forall|j: int| 0 <= j < s.len() implies !starts_run(s, j) by {
        assert(!is_printable(s[j]));
    }
    lemma_no_starts(s, min_len, 0, s.len() as int);
}

/// Finds every run of printable ASCII bytes (space to `~`) that is at least
/// `min_len` bytes long, and returns each with the offset where it starts,
/// in order. Runs are maximal: a run is never split.
pub fn extract_printable_strings(bytes: &[u8], min_len: usize) -> (results: Vec<(usize, String)>)
    ensures
        entries_view(results@) == printable_strings(bytes@, min_len as nat),
{
    let ghost b = bytes@;
    let ghost m = min_len as nat;
    let mut results: Vec<(usize, String)> = Vec::new();
    let mut start: Option<usize> = None;
    let mut current = String::new();
    let mut i: usize = 0;
    while i < bytes.len()
        invariant
            b == bytes@,
            m == min_len as nat,
            i <= bytes.len(),
            match start {
                None => {
                    &&& (i == 0 || !is_printable(b[i - 1]))
                    &&& entries_view(results@) == runs_before(b, m, i as int)
                },
                Some(s) => {
                    &&& s < i
                    &&& starts_run(b, s as int)
                    &&& forall|j: int| s <= j < i ==> is_printable(#[trigger] b[j])
                    &&& current@ == bytes_as_chars(b.subrange(s as int, i as int))
                    &&& entries_view(results@) == runs_before(b, m, s as int)
                },
            },
        decreases bytes.len() - i,
    {
        let byte = bytes[i];
        let printable = 0x20 <= byte && byte <= 0x7e;
        if printable {
            match start {
                None => {
                    start = Some(i);
                    current = String::new();
                    push_char(&mut current, byte as char);
                    assert(b.subrange(i as int, i + 1) =~= seq![byte]);
                    assert(bytes_as_chars(b.subrange(i as int, i + 1)) =~= seq![byte as char]);
                },
                Some(s) => {
                    push_char(&mut current, byte as char);
                    assert(b.subrange(s as int, i + 1) =~= b.subrange(s as int, i as int).push(byte));
                    assert(bytes_as_chars(b.subrange(s as int, i + 1)) =~= bytes_as_chars(
                        b.subrange(s as int, i as int),
                    ).push(byte as char));
                },
            }
        } else {
            match start {
                None => {
                    proof {
                        lemma_no_starts(b, m, i as int, i + 1);
                    }
                },
                Some(s) => {
                    proof {
                        lemma_run_len(b, s as int, i as int);
                        lemma_no_starts(b, m, s + 1, i + 1);
                    }
                    if i - s >= min_len {
                        let text = current;
                        results.push((s, text));
                        assert(entries_view(results@) =~= runs_before(b, m, s as int).push(
                            run_at(b, s as int),
                        ));
                    }
                    current = String::new();
                },
            }
            start = None;
        }
        i = i + 1;
    }
    match start {
        None => {},
        Some(s) => {
            proof {
                lemma_run_len(b, s as int, i as int);
                lemma_no_starts(b, m, s + 1, i as int);
            }
            if i - s >= min_len {
                let text = current;
                results.push((s, text));
                assert(entries_view(results@) =~= runs_before(b, m, s as int).push(
                    run_at(b, s as int),
                ));
            }
        },
    }
    results
}

} // verus!
