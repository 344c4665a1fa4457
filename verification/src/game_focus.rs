//! Whether Heroes of the Storm has the keyboard focus: the shared flag, the
//! poller that publishes changes, and the foreground check with its cache of
//! the game's process id.

use vstd::prelude::*;
use std::sync::atomic::AtomicBool;
use std::sync::atomic::Ordering;
use crate::text::{
    chars_of, count_lead, decimal_text, law_parse_reads_decimal_text, lead_len, lemma_lead_len,
    lemma_trail_len, parse_u32, parse_u32_range, trim_class, trim_range, CharClass,
};
use vstd::utf8::{decode_utf8, valid_utf8};

verus! {

/// How often the poller looks at the foreground window, in milliseconds.
pub const POLL_INTERVAL_MS: u64 = 500;

/// The focus state shared between the poller and the rest of the app.
#[derive(Default)]
pub struct FocusFlag(AtomicBool);

impl FocusFlag {
    /// Records whether the game is focused.
    pub fn store(&self, v: bool) {
        self.0.store(v, Ordering::SeqCst);
    }

    /// The focus state last recorded by any thread.
    pub fn load(&self) -> bool {
        self.0.load(Ordering::SeqCst)
    }
}

/// What one focus probe observed: a failed probe counts as "not focused".
pub open spec fn observed_focus(probe: Option<bool>) -> bool {
    match probe {
        Some(f) => f,
        None => false,
    }
}

/// The poller's memory: the focus value that watchers last received.
pub struct FocusPoller {
    pub published: bool,
}

/// What the poller does after one probe.
pub struct FocusUpdate {
    /// The value to store in the shared focus flag.
    pub focused: bool,
    /// Whether watchers are told of a new value.
    pub notify: bool,
}

impl FocusPoller {
    /// A poller whose watchers start out with "not focused".
    pub fn new() -> (p: FocusPoller)
        ensures
            p.published == false,
    {
        FocusPoller { published: false }
    }

    /// Takes the result of one probe (`None` when the probe itself failed):
    /// the flag gets the observed value, and watchers hear of it only when
    /// it differs from what they last received.
    pub fn tick(&mut self, probe: Option<bool>) -> (u: FocusUpdate)
        ensures
            u.focused == observed_focus(probe),
            u.notify == notifies(old(self).published, probe),
            final(self).published == observed_focus(probe),
            final(self).published == next_published(old(self).published, probe),
    {
        let focused = match probe {
            Some(f) => f,
            None => false,
        };
        let notify = focused != self.published;
        self.published = focused;
        FocusUpdate { focused, notify }
    }
}

/// Whether a probe makes the poller tell its watchers.
pub open spec fn notifies(published: bool, probe: Option<bool>) -> bool {
    observed_focus(probe) != published
}

/// Law: once a probe has been published, a second probe that observes the
/// same thing tells the watchers nothing.
pub proof fn law_repeated_observation_is_silent(probe: Option<bool>)
    ensures
        !notifies(observed_focus(probe), probe),
{
}


/// The value that watchers hold after one more probe.
pub open spec fn next_published(published: bool, probe: Option<bool>) -> bool {
    if notifies(published, probe) {
        observed_focus(probe)
    } else {
        published
    }
}

/// What the watchers hold after the probes `probes`, in order, starting
/// from a new poller.
pub open spec fn published_after(probes: Seq<Option<bool>>) -> bool
    decreases probes.len(),
{
    if probes.len() == 0 {
        false
    } else {
        next_published(published_after(probes.drop_last()), probes.last())
    }
}

/// Law: watchers start out with "not focused", and after any run of probes
/// they hold what the last probe observed (a failed probe counting as "not
/// focused"), which is also what the last probe stored in the flag.
pub proof fn law_watchers_hold_last_observation(probes: Seq<Option<bool>>)
    ensures
        probes.len() == 0 ==> !published_after(probes),
        probes.len() > 0 ==> published_after(probes) == observed_focus(probes.last()),
{
}

/// What the focus check saw of the foreground window on Windows, or, on
/// other systems, whether the game is running at all.
pub enum FocusProbe {
    /// The process id that owns the foreground window (`None` when there is
    /// no foreground window; `Some(0)` when its owner is unknown).
    Foreground(Option<u32>),
    /// Whether the game's process is running.
    GameRunning(bool),
}

/// What the foreground check can tell before any lookup of the game's
/// process.
#[derive(Clone, Copy, Debug, PartialEq, Eq, Structural)]
pub enum FocusDecision {
    /// The answer is known: there is no foreground process, or the cached
    /// game process owns the foreground window.
    Known(bool),
    /// The foreground window belongs to this process, which is not the cached
    /// game process: the game's process id must be looked up anew.
    NeedLookup(u32),
}

/// The decision before any lookup: no foreground window, or an unknown
/// owner (process id 0), means "not focused"; a foreground process equal to
/// the cached game process means "focused"; anything else needs a lookup.
pub open spec fn spec_focus_decision(foreground_pid: Option<u32>, cached_pid: Option<u32>) -> FocusDecision {
    match foreground_pid {
        None => FocusDecision::Known(false),
        Some(fg) => if fg == 0 {
            FocusDecision::Known(false)
        } else if cached_pid == Some(fg) {
            FocusDecision::Known(true)
        } else {
            FocusDecision::NeedLookup(fg)
        },
    }
}

/// Decides, from the foreground process and the cached game process, whether
/// the answer is known or the game's process must be looked up.
pub fn focus_decision(foreground_pid: Option<u32>, cached_pid: Option<u32>) -> (d: FocusDecision)
    ensures
        d == spec_focus_decision(foreground_pid, cached_pid),
{
    match foreground_pid {
        None => FocusDecision::Known(false),
        Some(fg) => {
            if fg == 0 {
                FocusDecision::Known(false)
            } else {
                match cached_pid {
                    Some(pid) => {
                        if pid == fg {
                            FocusDecision::Known(true)
                        } else {
                            FocusDecision::NeedLookup(fg)
                        }
                    },
                    None => FocusDecision::NeedLookup(fg),
                }
            }
        },
    }
}

/// Law: the game's process is looked up only when a foreground process with
/// a known id exists and is not the cached game process; then it is looked
/// up for exactly that process.
pub proof fn law_lookup_only_on_cache_miss(foreground_pid: Option<u32>, cached_pid: Option<u32>)
    ensures
        (spec_focus_decision(foreground_pid, cached_pid) is NeedLookup) <==> (
        foreground_pid matches Some(fg) && fg != 0 && cached_pid != Some(fg)),
        spec_focus_decision(foreground_pid, cached_pid) matches FocusDecision::NeedLookup(p)
            ==> foreground_pid == Some(p),
{
}

/// Takes the result of a lookup of the game's process: it replaces the
/// cache, and the game is focused when it owns the foreground window.
pub fn apply_lookup(foreground_pid: u32, found: Option<u32>, cached_pid: &mut Option<u32>) -> (focused: bool)
    ensures
        *final(cached_pid) == found,
        focused == (found == Some(foreground_pid)),
{
    *cached_pid = found;
    match found {
        Some(pid) => pid == foreground_pid,
        None => false,
    }
}

/// Decides whether the game owns the foreground window. `cached_pid` holds
/// the game's process id from an earlier lookup; `lookup` finds it anew and
/// is called only where `focus_decision` asks for a lookup. Its answer
/// replaces the cache.
pub fn is_hots_foreground<F: FnOnce() -> Option<u32>>(
    foreground_pid: Option<u32>,
    cached_pid: &mut Option<u32>,
    lookup: F,
) -> (focused: bool)
    requires
        call_requires(lookup, ()),
    ensures
        match spec_focus_decision(foreground_pid, *old(cached_pid)) {
            FocusDecision::Known(known) => focused == known && *final(cached_pid) == *old(
                cached_pid,
            ),
            FocusDecision::NeedLookup(fg) => {
                &&& call_ensures(lookup, (), *final(cached_pid))
                &&& focused == (*final(cached_pid) == Some(fg))
            },
        },
{
    match focus_decision(foreground_pid, *cached_pid) {
        FocusDecision::Known(known) => known,
        FocusDecision::NeedLookup(fg) => {
            let found = lookup();
            apply_lookup(fg, found, cached_pid)
        },
    }
}

/// Whether the game has the focus: on Windows, whether it owns the
/// foreground window (see `is_hots_foreground`); elsewhere, whether it runs.
pub fn is_game_focused_blocking<F: FnOnce() -> Option<u32>>(
    probe: FocusProbe,
    cached_pid: &mut Option<u32>,
    lookup: F,
) -> (focused: bool)
    requires
        call_requires(lookup, ()),
    ensures
        match probe {
            FocusProbe::GameRunning(running) => focused == running && *final(cached_pid)
                == *old(cached_pid),
            FocusProbe::Foreground(foreground_pid) => match spec_focus_decision(
                foreground_pid,
                *old(cached_pid),
            ) {
                FocusDecision::Known(known) => focused == known && *final(cached_pid) == *old(
                    cached_pid,
                ),
                FocusDecision::NeedLookup(fg) => {
                    &&& call_ensures(lookup, (), *final(cached_pid))
                    &&& focused == (*final(cached_pid) == Some(fg))
                },
            },
        },
{
    match probe {
        FocusProbe::GameRunning(running) => running,
        FocusProbe::Foreground(foreground_pid) => is_hots_foreground(
            foreground_pid,
            cached_pid,
            lookup,
        ),
    }
}


/// The process id in one line of `tasklist /FO CSV` output: the second
/// comma-separated field, with white space and then double quotes trimmed
/// off, parsed as a `u32`. A line without a comma has none.
pub open spec fn line_pid(line: Seq<char>) -> Option<u32> {
    let p = lead_len(line, CharClass::AnyBut(','));
    if p >= line.len() {
        None
    } else {
        let rest = line.subrange((p + 1) as int, line.len() as int);
        let field = rest.subrange(0, lead_len(rest, CharClass::AnyBut(',')) as int);
        parse_u32(trim_class(trim_class(field, CharClass::Whitespace), CharClass::Exactly('"')))
    }
}

/// The process id that the first line with one yields, reading `out` line
/// by line as `str::lines` does: lines end at `\n`, and a `\r` right
/// before that `\n` is not part of the line.
pub open spec fn tasklist_pid(out: Seq<char>) -> Option<u32>
    decreases out.len(),
{
    if out.len() == 0 {
        None
    } else {
        let e = lead_len(out, CharClass::AnyBut('\n'));
        if e >= out.len() {
            line_pid(out)
        } else {
            let raw = out.subrange(0, e as int);
            let line = if raw.len() > 0 && raw.last() == '\r' {
                raw.drop_last()
            } else {
                raw
            };
            match line_pid(line) {
                Some(pid) => Some(pid),
                None => tasklist_pid(out.subrange((e + 1) as int, out.len() as int)),
            }
        }
    }
}

fn line_pid_range(chars: &Vec<char>, lo: usize, hi: usize) -> (pid: Option<u32>)
    requires
        lo <= hi <= chars@.len(),
    ensures
        pid == line_pid(chars@.subrange(lo as int, hi as int)),
{
    let ghost line = chars@.subrange(lo as int, hi as int);
    let p = lo + count_lead(chars, lo, hi, CharClass::AnyBut(','));
    if p >= hi {
        return None;
    }
    let q = p + 1 + count_lead(chars, p + 1, hi, CharClass::AnyBut(','));
    proof {
        let rest = line.subrange(p - lo + 1, line.len() as int);
        assert(rest =~= chars@.subrange(p + 1, hi as int));
        assert(rest.subrange(0, q - p - 1) =~= chars@.subrange(p + 1, q as int));
    }
    let (a, b) = trim_range(chars, p + 1, q, CharClass::Whitespace);
    let (c, d) = trim_range(chars, a, b, CharClass::Exactly('"'));
    parse_u32_range(chars, c, d)
}

/// The game's process id in the text that `tasklist` printed.
pub fn parse_tasklist_pid(text: &str) -> (pid: Option<u32>)
    ensures
        pid == tasklist_pid(text@),
{
    let chars = chars_of(text);
    let n = chars.len();
    let mut i: usize = 0;
    assert(chars@.subrange(0, n as int) =~= chars@);
    while i < n
        invariant
            i <= n == chars@.len(),
            chars@ == text@,
            tasklist_pid(text@) == tasklist_pid(chars@.subrange(i as int, n as int)),
        decreases n - i,
    {
        let ghost out = chars@.subrange(i as int, n as int);
        let e = i + count_lead(&chars, i, n, CharClass::AnyBut('\n'));
        if e >= n {
            return line_pid_range(&chars, i, n);
        }
        let end = if e > i && chars[e - 1] == '\r' {
            e - 1
        } else {
            e
        };
        proof {
            let raw = out.subrange(0, e - i);
            assert(raw =~= chars@.subrange(i as int, e as int));
            if raw.len() > 0 && raw.last() == '\r' {
                assert(raw.drop_last() =~= chars@.subrange(i as int, end as int));
            } else {
                assert(raw =~= chars@.subrange(i as int, end as int));
            }
            assert(out.subrange(e - i + 1, out.len() as int) =~= chars@.subrange(e + 1, n as int));
        }
        match line_pid_range(&chars, i, end) {
            Some(pid) => {
                return Some(pid);
            },
            None => {},
        }
        i = e + 1;
    }
    None
}

/// What `String::from_utf8_lossy` makes of some bytes.
pub uninterp spec fn utf8_lossy(bytes: Seq<u8>) -> Seq<char>;

/// Decodes bytes as UTF-8, putting U+FFFD in place of invalid sequences
/// (std's `String::from_utf8_lossy`). The result is the name `utf8_lossy`
/// of the bytes; for valid UTF-8 it is the plain decoding.
#[verifier::external_body]
fn decode_utf8_lossy(bytes: &[u8]) -> (text: String)
    ensures
        text@ == utf8_lossy(bytes@),
        valid_utf8(bytes@) ==> text@ == decode_utf8(bytes@),
{
    String::from_utf8_lossy(bytes).into_owned()
}

/// The game's process id in what `tasklist` wrote to its standard output.
pub fn pid_from_tasklist_output(stdout: &[u8]) -> (pid: Option<u32>)
    ensures
        pid == tasklist_pid(utf8_lossy(stdout@)),
{
    let text = decode_utf8_lossy(stdout);
    parse_tasklist_pid(text.as_str())
}


/// One `tasklist /FO CSV` line: the quoted image name, then the quoted
/// process id `n` in decimal, then the remaining fields.
pub open spec fn tasklist_csv_line(image: Seq<char>, n: u32, rest: Seq<char>) -> Seq<char> {
    seq!['"'] + image + seq!['"', ','] + seq!['"'] + decimal_text(n as nat) + seq!['"'] + rest
}

/// Law: for every process id, the line that `tasklist` prints for the game
/// yields that id, whatever the image name (without commas) and the fields
/// after it; so does the whole output ending in a line break.
pub proof fn law_tasklist_line_yields_pid(image: Seq<char>, n: u32, rest: Seq<char>)
    requires
        forall|j: int| 0 <= j < image.len() ==> #[trigger] image[j] != ',' && image[j] != '\n',
        forall|j: int| 0 <= j < rest.len() ==> #[trigger] rest[j] != '\n',
        rest.len() == 0 || rest[0] == ',',
    ensures
        line_pid(tasklist_csv_line(image, n, rest)) == Some(n),
        tasklist_pid(tasklist_csv_line(image, n, rest) + seq!['\r', '\n']) == Some(n),
{
    let d = decimal_text(n as nat);
    law_parse_reads_decimal_text(n);
    crate::text::lemma_decimal_text_digits(n as nat);
    let line = tasklist_csv_line(image, n, rest);
    let p = image.len() + 2int;
    assert forall|j: int| 0 <= j < p implies CharClass::AnyBut(',') != CharClass::Whitespace && crate::text::in_class(
        CharClass::AnyBut(','),
        #[trigger] line[j],
    ) by {
        if j == 0 {
        } else if j <= image.len() {
            assert(line[j] == image[j - 1]);
        } else {
            assert(line[j] == '"');
        }
    }
    assert(line[p] == ',');
    lemma_lead_len(line, CharClass::AnyBut(','), p);
    let rest1 = line.subrange(p + 1, line.len() as int);
    let field = seq!['"'] + d + seq!['"'];
    assert(rest1 =~= field + rest);
    assert forall|j: int| 0 <= j < field.len() implies crate::text::in_class(
        CharClass::AnyBut(','),
        #[trigger] rest1[j],
    ) by {
        assert(rest1[j] == field[j]);
        if 0 < j < field.len() - 1 {
            assert(field[j] == d[j - 1]);
        }
    }
    if field.len() < rest1.len() {
        assert(rest1[field.len() as int] == rest[0]);
    }
    lemma_lead_len(rest1, CharClass::AnyBut(','), field.len() as int);
    assert(rest1.subrange(0, field.len() as int) =~= field);
    // White space: none at either end of the field.
    lemma_lead_len(field, CharClass::Whitespace, 0);
    assert(field.subrange(0, field.len() as int) =~= field);
    lemma_trail_len(field, CharClass::Whitespace, 0);
    assert(field.subrange(0, field.len() as int).subrange(0, field.len() as int) =~= field);
    assert(trim_class(field, CharClass::Whitespace) =~= field);
    // Quotes: exactly one at either end.
    assert(field[1] == d[0]);
    lemma_lead_len(field, CharClass::Exactly('"'), 1);
    let t = field.subrange(1, field.len() as int);
    assert(t =~= d + seq!['"']);
    assert(t[t.len() - 2] == d[d.len() - 1]);
    lemma_trail_len(t, CharClass::Exactly('"'), 1);
    assert(t.subrange(0, t.len() - 1) =~= d);
    assert(line_pid(line) == Some(n));
    // The whole output.
    let out = line + seq!['\r', '\n'];
    assert forall|j: int| 0 <= j < line.len() + 1int implies crate::text::in_class(
        CharClass::AnyBut('\n'),
        #[trigger] out[j],
    ) by {
        if j < line.len() {
            assert(out[j] == line[j]);
            let k = j - (image.len() + 4) - d.len() - 1;
            if j == 0 {
            } else if j <= image.len() {
                assert(line[j] == image[j - 1]);
            } else if j < image.len() + 4 {
            } else if j < image.len() + 4 + d.len() {
                assert(line[j] == d[j - image.len() - 4]);
            } else if j == image.len() + 4 + d.len() {
            } else {
                assert(line[j] == rest[k]);
            }
        }
    }
    assert(out[line.len() + 1int] == '\n');
    lemma_lead_len(out, CharClass::AnyBut('\n'), line.len() + 1int);
    assert(out.subrange(0, line.len() + 1int).drop_last() =~= line);
}

} // verus!
