//! Whitespace: the two predicates, runs at either end of a text, trimming.
//!
//! Boundaries are judged by ASCII whitespace alone. Trimming removes every
//! character with the Unicode property White_Space, as `str::trim` does.

use vstd::prelude::*;
use vstd::string::StrSliceExecFns;

verus! {

/// The five ASCII whitespace characters: space, tab, line feed, form feed and
/// carriage return.
pub open spec fn is_ascii_ws(c: char) -> bool {
    c == ' ' || c == '\t' || c == '\n' || c == '\x0C' || c == '\r'
}

/// The characters with the Unicode property White_Space: the ASCII
/// whitespace characters, the vertical tab, next line, the no-break spaces,
/// the spaces of fixed width, and the line and paragraph separators.
pub open spec fn is_white_space(c: char) -> bool {
    let n = c as u32;
    ||| 0x09 <= n <= 0x0D
    ||| n == 0x20
    ||| n == 0x85
    ||| n == 0xA0
    ||| n == 0x1680
    ||| 0x2000 <= n <= 0x200A
    ||| n == 0x2028
    ||| n == 0x2029
    ||| n == 0x202F
    ||| n == 0x205F
    ||| n == 0x3000
}

/// The sorts of character that a run is made of.
#[derive(Debug, Clone, Copy, PartialEq, Eq, Structural)]
pub enum CharClass {
    /// ASCII whitespace.
    AsciiWhitespace,
    /// Anything but ASCII whitespace.
    NotAsciiWhitespace,
    /// Characters with the Unicode property White_Space.
    WhiteSpace,
}

/// Whether `c` is of sort `class`.
pub open spec fn in_class(c: char, class: CharClass) -> bool {
    match class {
        CharClass::AsciiWhitespace => is_ascii_ws(c),
        CharClass::NotAsciiWhitespace => !is_ascii_ws(c),
        CharClass::WhiteSpace => is_white_space(c),
    }
}

/// Length of the longest prefix of `s` made of characters of sort `class`.
pub open spec fn leading_run(s: Seq<char>, class: CharClass) -> nat
    decreases s.len(),
{
    if s.len() > 0 && in_class(s[0], class) {
        1 + leading_run(s.drop_first(), class)
    } else {
        0
    }
}

/// Length of the longest suffix of `s` made of characters of sort `class`.
pub open spec fn trailing_run(s: Seq<char>, class: CharClass) -> nat
    decreases s.len(),
{
    if s.len() > 0 && in_class(s.last(), class) {
        1 + trailing_run(s.drop_last(), class)
    } else {
        0
    }
}

/// `n` is where the leading run of `s` ends: everything before `n` belongs to
/// the run and the character at `n`, if there is one, does not.
pub open spec fn is_leading_run(s: Seq<char>, class: CharClass, n: int) -> bool {
    &&& 0 <= n <= s.len()
    &&& forall|i: int| 0 <= i < n ==> in_class(#[trigger] s[i], class)
    &&& n < s.len() ==> !in_class(s[n], class)
}

/// `n` is the length of the trailing run of `s`.
pub open spec fn is_trailing_run(s: Seq<char>, class: CharClass, n: int) -> bool {
    &&& 0 <= n <= s.len()
    &&& forall|i: int| s.len() - n <= i < s.len() ==> in_class(#[trigger] s[i], class)
    &&& n < s.len() ==> !in_class(s[s.len() - 1 - n], class)
}

/// What stands in `s` between the run of characters of sort `class` at its
/// start and the run at its end; empty when `s` holds nothing else.
pub open spec fn stripped(s: Seq<char>, class: CharClass) -> Seq<char> {
    let a = leading_run(s, class);
    let b = trailing_run(s, class);
    if a + b >= s.len() {
        Seq::<char>::empty()
    } else {
        s.subrange(a as int, s.len() - b)
    }
}

/// `s` without the White_Space characters at its start and at its end;
/// empty when `s` holds nothing else.
pub open spec fn trimmed(s: Seq<char>) -> Seq<char> {
    stripped(s, CharClass::WhiteSpace)
}

/// The run of characters of sort `class` at the start of `s`.
pub open spec fn leading_part(s: Seq<char>, class: CharClass) -> Seq<char> {
    s.subrange(0, leading_run(s, class) as int)
}

/// The run of characters of sort `class` at the end of `s`, in the order in
/// which it stands.
pub open spec fn trailing_part(s: Seq<char>, class: CharClass) -> Seq<char> {
    s.subrange(s.len() - trailing_run(s, class), s.len() as int)
}

/// Every character of `s` is of sort `class`.
pub open spec fn all_in_class(s: Seq<char>, class: CharClass) -> bool {
    forall|i: int| 0 <= i < s.len() ==> in_class(#[trigger] s[i], class)
}

/// Index of the first ASCII whitespace character of `s`, if it has one.
pub open spec fn first_ws(s: Seq<char>) -> Option<int> {
    let n = leading_run(s, CharClass::NotAsciiWhitespace);
    if n < s.len() {
        Some(n as int)
    } else {
        None
    }
}

/// Index of the last ASCII whitespace character of `s`, if it has one.
pub open spec fn last_ws(s: Seq<char>) -> Option<int> {
    let n = trailing_run(s, CharClass::NotAsciiWhitespace);
    if n < s.len() {
        Some(s.len() - 1 - n)
    } else {
        None
    }
}

/// A length that ends the leading run is the length of the leading run.
pub proof fn lemma_leading_run_unique(s: Seq<char>, class: CharClass, n: int)
    requires
        is_leading_run(s, class, n),
    ensures
        leading_run(s, class) == n,
    decreases n,
{
    if n > 0 {
        let t = s.drop_first();
        assert(in_class(s[0], class));
        assert forall|i: int| 0 <= i < n - 1 implies in_class(#[trigger] t[i], class) by {
            assert(t[i] == s[i + 1]);
        }
        if n - 1 < t.len() {
            assert(t[n - 1] == s[n]);
        }
        lemma_leading_run_unique(t, class, n - 1);
    }
}

/// The leading run ends where `is_leading_run` says.
pub proof fn lemma_leading_run_ends(s: Seq<char>, class: CharClass)
    ensures
        is_leading_run(s, class, leading_run(s, class) as int),
    decreases s.len(),
{
    if s.len() > 0 && in_class(s[0], class) {
        let t = s.drop_first();
        lemma_leading_run_ends(t, class);
        let m = leading_run(t, class) as int;
        assert forall|i: int| 0 <= i < m + 1 implies in_class(#[trigger] s[i], class) by {
            if i > 0 {
                assert(s[i] == t[i - 1]);
            }
        }
        if m + 1 < s.len() {
            assert(s[m + 1] == t[m]);
        }
    }
}

/// A length that fits the trailing run is the length of the trailing run.
pub proof fn lemma_trailing_run_unique(s: Seq<char>, class: CharClass, n: int)
    requires
        is_trailing_run(s, class, n),
    ensures
        trailing_run(s, class) == n,
    decreases n,
{
    if n > 0 {
        let t = s.drop_last();
        assert(in_class(s[s.len() - 1], class));
        assert forall|i: int| t.len() - (n - 1) <= i < t.len() implies in_class(#[trigger] t[i], class) by {
            assert(t[i] == s[i]);
        }
        if n - 1 < t.len() {
            assert(t[t.len() - 1 - (n - 1)] == s[s.len() - 1 - n]);
        }
        lemma_trailing_run_unique(t, class, n - 1);
    }
}

/// The trailing run has the length that `is_trailing_run` describes.
pub proof fn lemma_trailing_run_ends(s: Seq<char>, class: CharClass)
    ensures
        is_trailing_run(s, class, trailing_run(s, class) as int),
    decreases s.len(),
{
    if s.len() > 0 && in_class(s.last(), class) {
        let t = s.drop_last();
        lemma_trailing_run_ends(t, class);
        let m = trailing_run(t, class) as int;
        assert forall|i: int| s.len() - (m + 1) <= i < s.len() implies in_class(#[trigger] s[i], class) by {
            if i < s.len() - 1 {
                assert(s[i] == t[i]);
            }
        }
        if m + 1 < s.len() {
            assert(s[s.len() - 1 - (m + 1)] == t[t.len() - 1 - m]);
        }
    }
}

/// The first whitespace is whitespace and nothing before it is; where there
/// is none, the text holds no ASCII whitespace at all. Likewise for the last.
pub proof fn lemma_first_and_last_ws(s: Seq<char>)
    ensures
        match first_ws(s) {
            Some(i) => 0 <= i < s.len() && is_ascii_ws(s[i]) && forall|j: int|
                0 <= j < i ==> !is_ascii_ws(#[trigger] s[j]),
            None => forall|j: int| 0 <= j < s.len() ==> !is_ascii_ws(#[trigger] s[j]),
        },
        match last_ws(s) {
            Some(i) => 0 <= i < s.len() && is_ascii_ws(s[i]) && forall|j: int|
                i < j < s.len() ==> !is_ascii_ws(#[trigger] s[j]),
            None => forall|j: int| 0 <= j < s.len() ==> !is_ascii_ws(#[trigger] s[j]),
        },
        first_ws(s) is Some <==> last_ws(s) is Some,
        first_ws(s) is Some ==> first_ws(s)->0 <= last_ws(s)->0,
{
    lemma_leading_run_ends(s, CharClass::NotAsciiWhitespace);
    lemma_trailing_run_ends(s, CharClass::NotAsciiWhitespace);
    let a = leading_run(s, CharClass::NotAsciiWhitespace) as int;
    let b = trailing_run(s, CharClass::NotAsciiWhitespace) as int;
    assert forall|j: int| 0 <= j < a implies !is_ascii_ws(#[trigger] s[j]) by {
        assert(in_class(s[j], CharClass::NotAsciiWhitespace));
    }
    assert forall|j: int| s.len() - b <= j < s.len() implies !is_ascii_ws(#[trigger] s[j]) by {
        assert(in_class(s[j], CharClass::NotAsciiWhitespace));
    }
    if a < s.len() {
        assert(!in_class(s[a], CharClass::NotAsciiWhitespace));
        if b >= s.len() - a {
            assert(in_class(s[a], CharClass::NotAsciiWhitespace));
        }
    }
    if b < s.len() {
        assert(!in_class(s[s.len() - 1 - b], CharClass::NotAsciiWhitespace));
        if a > s.len() - 1 - b {
            assert(in_class(s[s.len() - 1 - b], CharClass::NotAsciiWhitespace));
        }
    }
}

/// What is left between the two runs neither starts nor ends with a
/// character of the runs' sort.
pub proof fn lemma_stripped_has_bare_ends(s: Seq<char>, class: CharClass)
    ensures
        stripped(s, class).len() > 0 ==> !in_class(stripped(s, class).first(), class)
            && !in_class(stripped(s, class).last(), class),
{
    lemma_leading_run_ends(s, class);
    lemma_trailing_run_ends(s, class);
}

/// What is left after trimming neither starts nor ends with whitespace, of
/// either kind.
pub proof fn lemma_trim_has_bare_ends(s: Seq<char>)
    ensures
        trimmed(s).len() > 0 ==> !is_white_space(trimmed(s).first()) && !is_white_space(
            trimmed(s).last(),
        ) && !is_ascii_ws(trimmed(s).first()) && !is_ascii_ws(trimmed(s).last()),
{
    lemma_stripped_has_bare_ends(s, CharClass::WhiteSpace);
}

/// The run at either end covers the whole text exactly when every character
/// is of the run's sort; otherwise the two runs do not meet.
pub proof fn lemma_runs_cover_iff_all(s: Seq<char>, class: CharClass)
    ensures
        all_in_class(s, class) ==> leading_run(s, class) == s.len() && trailing_run(s, class)
            == s.len(),
        !all_in_class(s, class) ==> leading_run(s, class) + trailing_run(s, class) < s.len(),
{
    lemma_leading_run_ends(s, class);
    lemma_trailing_run_ends(s, class);
    let a = leading_run(s, class) as int;
    let b = trailing_run(s, class) as int;
    if a + b >= s.len() {
        assert forall|i: int| 0 <= i < s.len() implies in_class(#[trigger] s[i], class) by {
            if i >= a {
                assert(s.len() - b <= i);
            }
        }
    }
    if all_in_class(s, class) {
        if a < s.len() {
            assert(in_class(s[a], class));
        }
        if b < s.len() {
            assert(in_class(s[s.len() - 1 - b], class));
        }
    }
}

/// Nothing stands between the two runs exactly when the text is of the
/// runs' sort throughout.
pub proof fn lemma_stripped_empty_iff_all(s: Seq<char>, class: CharClass)
    ensures
        stripped(s, class).len() == 0 <==> all_in_class(s, class),
{
    lemma_runs_cover_iff_all(s, class);
}

/// Trimming yields nothing exactly when the text is whitespace throughout.
pub proof fn lemma_trim_empty_iff_all_whitespace(s: Seq<char>)
    ensures
        trimmed(s).len() == 0 <==> all_in_class(s, CharClass::WhiteSpace),
{
    lemma_stripped_empty_iff_all(s, CharClass::WhiteSpace);
}

/// A text is the run at its start, what stands between the runs and the run
/// at its end, in this order, unless it is of the runs' sort throughout.
pub proof fn lemma_strip_decomposition(s: Seq<char>, class: CharClass)
    requires
        !all_in_class(s, class),
    ensures
        leading_part(s, class) + stripped(s, class) + trailing_part(s, class) == s,
{
    lemma_runs_cover_iff_all(s, class);
    assert(leading_part(s, class) + stripped(s, class) + trailing_part(s, class) =~= s);
}

/// A text is the whitespace at its start, its trimmed core and the
/// whitespace at its end, in this order, unless it is whitespace throughout.
pub proof fn lemma_trim_decomposition(s: Seq<char>)
    requires
        !all_in_class(s, CharClass::WhiteSpace),
    ensures
        leading_part(s, CharClass::WhiteSpace) + trimmed(s) + trailing_part(
            s,
            CharClass::WhiteSpace,
        ) == s,
{
    lemma_strip_decomposition(s, CharClass::WhiteSpace);
}

/// Whether `c` is an ASCII whitespace character.
pub fn is_ascii_whitespace(c: char) -> (b: bool)
    ensures
        b == is_ascii_ws(c),
{
    c == ' ' || c == '\t' || c == '\n' || c == '\x0C' || c == '\r'
}

/// Whether `c` has the Unicode property White_Space.
pub fn is_whitespace(c: char) -> (b: bool)
    ensures
        b == is_white_space(c),
{
    let n: u32 = c as u32;
    (0x09 <= n && n <= 0x0D) || n == 0x20 || n == 0x85 || n == 0xA0 || n == 0x1680 || (0x2000 <= n
        && n <= 0x200A) || n == 0x2028 || n == 0x2029 || n == 0x202F || n == 0x205F || n == 0x3000
}

/// Whether `c` is of sort `class`.
pub fn is_in_class(c: char, class: CharClass) -> (b: bool)
    ensures
        b == in_class(c, class),
{
    match class {
        CharClass::AsciiWhitespace => is_ascii_whitespace(c),
        CharClass::NotAsciiWhitespace => !is_ascii_whitespace(c),
        CharClass::WhiteSpace => is_whitespace(c),
    }
}

/// The characters of `s`, in order.
pub fn chars_of(s: &str) -> (v: Vec<char>)
    ensures
        v@ == s@,
{
    let mut v: Vec<char> = Vec::new();
    for c in it: s.chars()
        invariant
            it.seq() == s@,
            v@ == it.seq().take(it.index() as int),
    {
        v.push(c);
        assert(it.seq().take(it.index() + 1) =~= it.seq().take(it.index() as int).push(c));
    }
    assert(v@ =~= s@);
    v
}

/// Length of the run of characters of sort `class` at the start of `chars`.
pub fn leading_run_len(chars: &Vec<char>, class: CharClass) -> (n: usize)
    ensures
        n == leading_run(chars@, class),
        n <= chars@.len(),
{
    let mut i: usize = 0;
    while i < chars.len() && is_in_class(chars[i], class)
        invariant
            i <= chars@.len(),
            forall|j: int| 0 <= j < i ==> in_class(#[trigger] chars@[j], class),
        decreases chars@.len() - i,
    {
        i += 1;
    }
    proof {
        lemma_leading_run_unique(chars@, class, i as int);
    }
    i
}

/// Length of the run of characters of sort `class` at the end of `chars`.
pub fn trailing_run_len(chars: &Vec<char>, class: CharClass) -> (n: usize)
    ensures
        n == trailing_run(chars@, class),
        n <= chars@.len(),
{
    let len: usize = chars.len();
    let mut n: usize = 0;
    while n < len && is_in_class(chars[len - 1 - n], class)
        invariant
            n <= len,
            len == chars@.len(),
            forall|j: int| len - n <= j < len ==> in_class(#[trigger] chars@[j], class),
        decreases len - n,
    {
        n += 1;
    }
    proof {
        lemma_trailing_run_unique(chars@, class, n as int);
    }
    n
}

/// What stands in `s` between the run of characters of sort `class` at its
/// start and the run at its end.
pub fn strip(s: &str, class: CharClass) -> (r: &str)
    ensures
        r@ == stripped(s@, class),
{
    let chars = chars_of(s);
    let len: usize = chars.len();
    let a: usize = leading_run_len(&chars, class);
    let b: usize = trailing_run_len(&chars, class);
    if a >= len - b {
        s.substring_char(0, 0)
    } else {
        s.substring_char(a, len - b)
    }
}

/// Removes the White_Space characters at the start and at the end of `s`.
pub fn trim(s: &str) -> (r: &str)
    ensures
        r@ == trimmed(s@),
{
    strip(s, CharClass::WhiteSpace)
}

} // verus!
