//! Small text helpers shared by the other modules.

use vstd::prelude::*;
use vstd::std_specs::iter::IteratorSpec;

verus! {

broadcast use vstd::string::group_string_axioms;

/// Appends one character to a `String` (std's `String::push`): the new
/// contents are the old ones followed by `c`.
#[verifier::external_body]
pub(crate) fn push_char(s: &mut String, c: char)
    ensures
        final(s)@ == old(s)@.push(c),
{
    s.push(c);
}



/// The characters of `s`, in order.
pub fn chars_of(s: &str) -> (v: Vec<char>)
    ensures
        v@ == s@,
{
    let mut it = s.chars();
    let mut v: Vec<char> = Vec::new();
    loop
        invariant
            v@ + it.remaining() == s@,
            it.decrease() is Some,
        ensures
            v@ == s@,
        decreases it.decrease()->0,
    {
        match it.next() {
            Some(c) => {
                v.push(c);
            },
            None => {
                assert(v@ =~= v@ + it.remaining());
                break;
            },
        }
    }
    v
}


/// A `String` holding `chars[lo..hi]`.
pub fn string_from_range(chars: &Vec<char>, lo: usize, hi: usize) -> (s: String)
    requires
        lo <= hi <= chars@.len(),
    ensures
        s@ == chars@.subrange(lo as int, hi as int),
{
    let mut s = String::new();
    let mut i: usize = lo;
    while i < hi
        invariant
            lo <= i <= hi <= chars@.len(),
            s@ == chars@.subrange(lo as int, i as int),
        decreases hi - i,
    {
        push_char(&mut s, chars[i]);
        assert(chars@.subrange(lo as int, i + 1) =~= chars@.subrange(lo as int, i as int).push(
            chars@[i as int],
        ));
        i = i + 1;
    }
    s
}

/// Whether `chars[lo..hi]` spells exactly `word`.
pub fn range_equals(chars: &Vec<char>, lo: usize, hi: usize, word: &Vec<char>) -> (eq: bool)
    requires
        lo <= hi <= chars@.len(),
    ensures
        eq == (chars@.subrange(lo as int, hi as int) == word@),
{
    if hi - lo != word.len() {
        assert(chars@.subrange(lo as int, hi as int).len() != word@.len());
        return false;
    }
    let mut i: usize = 0;
    while i < word.len()
        invariant
            lo <= hi <= chars@.len(),
            hi - lo == word@.len(),
            i <= word@.len(),
            forall|j: int| 0 <= j < i ==> chars@[lo + j] == word@[j],
        decreases word.len() - i,
    {
        if chars[lo + i] != word[i] {
            assert(chars@.subrange(lo as int, hi as int)[i as int] != word@[i as int]);
            return false;
        }
        i = i + 1;
    }
    assert(chars@.subrange(lo as int, hi as int) =~= word@);
    true
}

/// The position of the last `c` in `s` before position `k`, if there is one.
pub open spec fn last_index_before(s: Seq<char>, c: char, k: int) -> Option<int>
    decreases k,
{
    if k <= 0 {
        None
    } else if s[k - 1] == c {
        Some(k - 1)
    } else {
        last_index_before(s, c, k - 1)
    }
}

/// Where a file name splits into stem and extension: at its last dot, unless
/// the name is `..`, has no dot, or its only dot is the first character.
pub open spec fn extension_dot(name: Seq<char>) -> Option<int> {
    if name == seq!['.', '.'] {
        None
    } else {
        match last_index_before(name, '.', name.len() as int) {
            Some(k) => if k > 0 {
                Some(k)
            } else {
                None
            },
            None => None,
        }
    }
}

/// The stem of a file name: all of it before the extension's dot.
pub open spec fn file_stem(name: Seq<char>) -> Seq<char> {
    match extension_dot(name) {
        Some(k) => name.subrange(0, k),
        None => name,
    }
}

/// The extension of a file name: what follows its last dot, if it has one.
pub open spec fn file_extension(name: Seq<char>) -> Option<Seq<char>> {
    match extension_dot(name) {
        Some(k) => Some(name.subrange(k + 1, name.len() as int)),
        None => None,
    }
}

/// Finds where the extension's dot of a file name stands.
pub fn find_extension_dot(name: &Vec<char>) -> (dot: Option<usize>)
    ensures
        match dot {
            Some(k) => extension_dot(name@) == Some(k as int),
            None => extension_dot(name@) is None,
        },
        dot matches Some(k) ==> 0 < k < name@.len(),
{
    if name.len() == 2 && name[0] == '.' && name[1] == '.' {
        assert(name@ =~= seq!['.', '.']);
        return None;
    }
    assert(name@ != seq!['.', '.']) by {
        if name@ == seq!['.', '.'] {
            assert(name@.len() == 2 && name@[0] == '.' && name@[1] == '.');
        }
    }
    let mut k: usize = name.len();
    while k > 0
        invariant
            k <= name@.len(),
            name@ != seq!['.', '.'],
            last_index_before(name@, '.', name@.len() as int) == last_index_before(
                name@,
                '.',
                k as int,
            ),
        decreases k,
    {
        if name[k - 1] == '.' {
            assert(last_index_before(name@, '.', k as int) == Some(k - 1));
            assert(extension_dot(name@) == if k - 1 > 0 {
                Some(k - 1)
            } else {
                None::<int>
            });
            if k - 1 > 0 {
                return Some(k - 1);
            } else {
                return None;
            }
        }
        k = k - 1;
    }
    None
}


/// Unicode `White_Space` characters, the ones that `str::trim` removes.
pub open spec fn is_whitespace(c: char) -> bool {
    ||| ('\t' <= c && c <= '\r')
    ||| c == ' '
    ||| c == '\u{85}'
    ||| c == '\u{a0}'
    ||| c == '\u{1680}'
    ||| ('\u{2000}' <= c && c <= '\u{200a}')
    ||| c == '\u{2028}'
    ||| c == '\u{2029}'
    ||| c == '\u{202f}'
    ||| c == '\u{205f}'
    ||| c == '\u{3000}'
}

/// A class of characters that scanning skips over.
#[derive(Clone, Copy, PartialEq, Eq, Structural)]
pub enum CharClass {
    /// Unicode white space.
    Whitespace,
    /// This one character.
    Exactly(char),
    /// Every character but this one.
    AnyBut(char),
}

/// Whether `c` belongs to `class`.
pub open spec fn in_class(class: CharClass, c: char) -> bool {
    match class {
        CharClass::Whitespace => is_whitespace(c),
        CharClass::Exactly(d) => c == d,
        CharClass::AnyBut(d) => c != d,
    }
}

/// How many characters at the start of `s` belong to `class`.
pub open spec fn lead_len(s: Seq<char>, class: CharClass) -> nat
    decreases s.len(),
{
    if s.len() > 0 && in_class(class, s[0]) {
        1 + lead_len(s.drop_first(), class)
    } else {
        0
    }
}

/// How many characters at the end of `s` belong to `class`.
pub open spec fn trail_len(s: Seq<char>, class: CharClass) -> nat
    decreases s.len(),
{
    if s.len() > 0 && in_class(class, s.last()) {
        1 + trail_len(s.drop_last(), class)
    } else {
        0
    }
}

/// `s` without the characters of `class` at either end (`str::trim_matches`).
pub open spec fn trim_class(s: Seq<char>, class: CharClass) -> Seq<char> {
    let t = s.subrange(lead_len(s, class) as int, s.len() as int);
    t.subrange(0, t.len() - trail_len(t, class))
}

fn is_whitespace_char(c: char) -> (w: bool)
    ensures
        w == is_whitespace(c),
{
    ('\t' <= c && c <= '\r') || c == ' ' || c == '\u{85}' || c == '\u{a0}' || c == '\u{1680}'
        || ('\u{2000}' <= c && c <= '\u{200a}') || c == '\u{2028}' || c == '\u{2029}' || c
        == '\u{202f}' || c == '\u{205f}' || c == '\u{3000}'
}

fn class_contains(class: CharClass, c: char) -> (b: bool)
    ensures
        b == in_class(class, c),
{
    match class {
        CharClass::Whitespace => is_whitespace_char(c),
        CharClass::Exactly(d) => c == d,
        CharClass::AnyBut(d) => c != d,
    }
}

/// `lead_len` is the length of the longest prefix in the class.
pub proof fn lemma_lead_len(s: Seq<char>, class: CharClass, k: int)
    requires
        0 <= k <= s.len(),
        forall|j: int| 0 <= j < k ==> in_class(class, #[trigger] s[j]),
        k == s.len() || !in_class(class, s[k]),
    ensures
        lead_len(s, class) == k,
    decreases k,
{
    if k > 0 {
        let t = s.drop_first();
        assert forall|j: int| 0 <= j < k - 1 implies in_class(class, #[trigger] t[j]) by {
            assert(t[j] == s[j + 1]);
        }
        if k - 1 < t.len() {
            assert(t[k - 1] == s[k]);
        }
        lemma_lead_len(t, class, k - 1);
    }
}

/// `trail_len` is the length of the longest suffix in the class.
pub proof fn lemma_trail_len(s: Seq<char>, class: CharClass, k: int)
    requires
        0 <= k <= s.len(),
        forall|j: int| s.len() - k <= j < s.len() ==> in_class(class, #[trigger] s[j]),
        k == s.len() || !in_class(class, s[s.len() - k - 1]),
    ensures
        trail_len(s, class) == k,
    decreases k,
{
    if k > 0 {
        let t = s.drop_last();
        assert forall|j: int| t.len() - (k - 1) <= j < t.len() implies in_class(
            class,
            #[trigger] t[j],
        ) by {
            assert(t[j] == s[j]);
        }
        if k - 1 < t.len() {
            assert(t[t.len() - (k - 1) - 1] == s[s.len() - k - 1]);
        }
        assert(in_class(class, s[s.len() - 1]));
        lemma_trail_len(t, class, k - 1);
    }
}

/// Counts the characters of `chars[lo..hi]`, from `lo` on, that belong to `class`.
pub fn count_lead(chars: &Vec<char>, lo: usize, hi: usize, class: CharClass) -> (n: usize)
    requires
        lo <= hi <= chars@.len(),
    ensures
        n == lead_len(chars@.subrange(lo as int, hi as int), class),
        n <= hi - lo,
{
    let mut i: usize = lo;
    while i < hi && class_contains(class, chars[i])
        invariant
            lo <= i <= hi <= chars@.len(),
            forall|j: int| lo <= j < i ==> in_class(class, #[trigger] chars@[j]),
        decreases hi - i,
    {
        i = i + 1;
    }
    proof {
        let s = chars@.subrange(lo as int, hi as int);
        assert forall|j: int| 0 <= j < i - lo implies in_class(class, #[trigger] s[j]) by {
            assert(s[j] == chars@[lo + j]);
        }
        if i < hi {
            assert(s[i - lo] == chars@[i as int]);
        }
        lemma_lead_len(s, class, i - lo);
    }
    i - lo
}

/// Counts the characters of `chars[lo..hi]`, from `hi` back, that belong to `class`.
pub fn count_trail(chars: &Vec<char>, lo: usize, hi: usize, class: CharClass) -> (n: usize)
    requires
        lo <= hi <= chars@.len(),
    ensures
        n == trail_len(chars@.subrange(lo as int, hi as int), class),
        n <= hi - lo,
{
    let mut i: usize = hi;
    while i > lo && class_contains(class, chars[i - 1])
        invariant
            lo <= i <= hi <= chars@.len(),
            forall|j: int| i <= j < hi ==> in_class(class, #[trigger] chars@[j]),
        decreases i - lo,
    {
        i = i - 1;
    }
    proof {
        let s = chars@.subrange(lo as int, hi as int);
        assert forall|j: int| s.len() - (hi - i) <= j < s.len() implies in_class(
            class,
            #[trigger] s[j],
        ) by {
            assert(s[j] == chars@[lo + j]);
        }
        if i > lo {
            assert(s[s.len() - (hi - i) - 1] == chars@[i - 1]);
        }
        lemma_trail_len(s, class, hi - i);
    }
    hi - i
}

/// Narrows `chars[lo..hi]` to its part without the characters of `class` at
/// either end; returns the new bounds.
pub fn trim_range(chars: &Vec<char>, lo: usize, hi: usize, class: CharClass) -> (r: (usize, usize))
    requires
        lo <= hi <= chars@.len(),
    ensures
        lo <= r.0 <= r.1 <= hi,
        chars@.subrange(r.0 as int, r.1 as int) == trim_class(
            chars@.subrange(lo as int, hi as int),
            class,
        ),
{
    let a = lo + count_lead(chars, lo, hi, class);
    let b = hi - count_trail(chars, a, hi, class);
    proof {
        let s = chars@.subrange(lo as int, hi as int);
        assert(s.subrange(a - lo, s.len() as int) =~= chars@.subrange(a as int, hi as int));
        let t = chars@.subrange(a as int, hi as int);
        assert(t.subrange(0, b - a) =~= chars@.subrange(a as int, b as int));
    }
    (a, b)
}


/// Whether `c` is an ASCII decimal digit.
pub open spec fn is_digit(c: char) -> bool {
    '0' <= c && c <= '9'
}

/// The value of a string of decimal digits.
pub open spec fn decimal_value(ds: Seq<char>) -> nat
    decreases ds.len(),
{
    if ds.len() == 0 {
        0
    } else {
        decimal_value(ds.drop_last()) * 10 + ((ds.last() as nat) - 48) as nat
    }
}

/// `s` without one leading `+`.
pub open spec fn unsigned_digits(s: Seq<char>) -> Seq<char> {
    if s.len() > 0 && s[0] == '+' {
        s.drop_first()
    } else {
        s
    }
}

/// Whether every character of `ds` is a decimal digit.
pub open spec fn all_digits(ds: Seq<char>) -> bool {
    forall|j: int| 0 <= j < ds.len() ==> is_digit(#[trigger] ds[j])
}

/// What `str::parse::<u32>` gives: an optional `+`, then one or more decimal
/// digits whose value fits in 32 bits.
pub open spec fn parse_u32(s: Seq<char>) -> Option<u32> {
    let ds = unsigned_digits(s);
    if ds.len() > 0 && all_digits(ds) && decimal_value(ds) <= u32::MAX {
        Some(decimal_value(ds) as u32)
    } else {
        None
    }
}

/// Parses `chars[lo..hi]` as a `u32`, as `str::parse::<u32>` does.
pub fn parse_u32_range(chars: &Vec<char>, lo: usize, hi: usize) -> (r: Option<u32>)
    requires
        lo <= hi <= chars@.len(),
    ensures
        r == parse_u32(chars@.subrange(lo as int, hi as int)),
{
    let ghost s = chars@.subrange(lo as int, hi as int);
    let start: usize = if lo < hi && chars[lo] == '+' {
        lo + 1
    } else {
        lo
    };
    let ghost ds = chars@.subrange(start as int, hi as int);
    assert(ds =~= unsigned_digits(s));
    if start == hi {
        return None;
    }
    let mut value: u32 = 0;
    let mut overflow = false;
    let mut i: usize = start;
    while i < hi
        invariant
            lo <= start < hi <= chars@.len(),
            start <= i <= hi,
            ds == chars@.subrange(start as int, hi as int),
            s == chars@.subrange(lo as int, hi as int),
            ds == unsigned_digits(s),
            forall|j: int| start <= j < i ==> is_digit(#[trigger] chars@[j]),
            overflow ==> decimal_value(chars@.subrange(start as int, i as int)) > u32::MAX,
            !overflow ==> value == decimal_value(chars@.subrange(start as int, i as int)),
        decreases hi - i,
    {
        let c = chars[i];
        if c < '0' || c > '9' {
            assert(!is_digit(ds[i - start]));
            return None;
        }
        let d: u32 = (c as u32) - 48;
        let ghost prefix = chars@.subrange(start as int, i + 1);
        assert(prefix.drop_last() =~= chars@.subrange(start as int, i as int));
        assert(decimal_value(prefix) == decimal_value(chars@.subrange(start as int, i as int)) * 10
            + d);
        if !overflow {
            if value > (u32::MAX - d) / 10 {
                overflow = true;
                assert(decimal_value(prefix) > u32::MAX) by (nonlinear_arith)
                    requires
                        value > (u32::MAX - d) / 10,
                        decimal_value(prefix) == value * 10 + d,
                        d <= 9,
                ;
            } else {
                assert(value * 10 + d <= u32::MAX) by (nonlinear_arith)
                    requires
                        value <= (u32::MAX - d) / 10,
                        d <= 9,
                ;
                value = value * 10 + d;
            }
        } else {
            assert(decimal_value(prefix) > u32::MAX) by (nonlinear_arith)
                requires
                    decimal_value(prefix) == decimal_value(prefix.drop_last()) * 10 + d,
                    decimal_value(prefix.drop_last()) > u32::MAX,
            ;
        }
        i = i + 1;
    }
    assert(chars@.subrange(start as int, i as int) =~= ds);
    if overflow {
        None
    } else {
        Some(value)
    }
}

} // verus!

verus! {

/// The decimal digit character for `d` (below 10).
pub open spec fn decimal_digit(d: nat) -> char {
    (d + 48) as char
}

/// The standard decimal text of `n` (what `n.to_string()` writes): its
/// digits, most significant first, without leading zeros.
pub open spec fn decimal_text(n: nat) -> Seq<char>
    decreases n,
{
    if n < 10 {
        seq![decimal_digit(n)]
    } else {
        decimal_text(n / 10).push(decimal_digit(n % 10))
    }
}

proof fn lemma_decimal_text(n: nat)
    ensures
        decimal_text(n).len() > 0,
        forall|j: int|
            0 <= j < decimal_text(n).len() ==> '0' <= #[trigger] decimal_text(n)[j] && decimal_text(
                n,
            )[j] <= '9',
        all_digits(decimal_text(n)),
        decimal_value(decimal_text(n)) == n,
    decreases n,
{
    if n >= 10 {
        lemma_decimal_text(n / 10);
        let t = decimal_text(n);
        let d = n % 10;
        assert(t.drop_last() =~= decimal_text(n / 10));
        assert(t.last() == decimal_digit(d));
        assert((decimal_digit(d) as nat) == d + 48);
        assert(decimal_value(t) == decimal_value(decimal_text(n / 10)) * 10 + d);
    } else {
        let t = decimal_text(n);
        assert((decimal_digit(n) as nat) == n + 48);
        assert(t.drop_last() =~= Seq::<char>::empty());
        assert(decimal_value(t.drop_last()) == 0);
    }
}

/// Every character of a decimal text is a digit, so neither a comma, a
/// quote, white space nor a line break.
pub proof fn lemma_decimal_text_digits(n: nat)
    ensures
        decimal_text(n).len() > 0,
        forall|j: int|
            0 <= j < decimal_text(n).len() ==> '0' <= #[trigger] decimal_text(n)[j] && decimal_text(
                n,
            )[j] <= '9',
{
    lemma_decimal_text(n);
}

/// Law: parsing reads back every 32-bit number from its standard decimal
/// text, whatever digits it holds.
pub proof fn law_parse_reads_decimal_text(n: u32)
    ensures
        parse_u32(decimal_text(n as nat)) == Some(n),
{
    lemma_decimal_text(n as nat);
    let t = decimal_text(n as nat);
    assert(t[0] != '+');
    assert(unsigned_digits(t) == t);
}

/// Law: a leading `+` is accepted once; text holding any character other
/// than a digit after it is never a number.
pub proof fn law_parse_sign_and_digits(s: Seq<char>, j: int)
    requires
        0 <= j < s.len(),
        !('0' <= s[j] && s[j] <= '9'),
        j > 0 || s[j] != '+',
    ensures
        parse_u32(s) is None,
{
    let ds = unsigned_digits(s);
    if s.len() > 0 && s[0] == '+' {
        assert(ds[j - 1] == s[j]);
        assert(!is_digit(ds[j - 1]));
    } else {
        assert(ds[j] == s[j]);
    }
}

} // verus!
