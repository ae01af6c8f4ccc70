//! Scanning and building text.
//!
//! The model of a text is its sequence of characters. The executable functions
//! work on character slices, so that every position is a character position.
use vstd::arithmetic::power::pow;
use vstd::prelude::*;
use vstd::slice::slice_subrange;
use vstd::utf8::encode_utf8;
use vstd::utf8::valid_utf8;

verus! {

// ---------------------------------------------------------------------------
// Conversions
// ---------------------------------------------------------------------------
/// `String::push` of the standard library: the given character is appended to
/// the string, and nothing else about the string changes.
pub assume_specification[ String::push ](s: &mut String, c: char)
    ensures
        final(s)@ == old(s)@.push(c),
;

/// `core::str::from_utf8` of the standard library: the conversion succeeds
/// exactly on well-formed UTF-8, and the text it gives has the same bytes.
#[verifier::external_body]
pub(crate) fn str_from_utf8(bytes: &[u8]) -> (r: Option<&str>)
    ensures
        r is Some <==> valid_utf8(bytes@),
        r matches Some(s) ==> encode_utf8(s@) == bytes@,
{
    core::str::from_utf8(bytes).ok()
}

/// The characters of a text, in order.
pub fn to_chars(s: &str) -> (r: Vec<char>)
    ensures
        r@ == s@,
{
    let mut out: Vec<char> = Vec::new();
    for c in it: s.chars()
        invariant
            out@ == it.seq().take(it.index()),
            it.seq() == s@,
    {
        out.push(c);
        assert(out@ == it.seq().take(it.index() + 1));
    }
    assert(s@.take(s@.len() as int) == s@);
    out
}

/// The text made of the given characters.
pub fn from_chars(s: &[char]) -> (r: String)
    ensures
        r@ == s@,
{
    let mut out = String::new();
    let mut i: usize = 0;
    while i < s.len()
        invariant
            i <= s@.len(),
            out@ == s@.take(i as int),
        decreases s@.len() - i,
    {
        out.push(s[i]);
        i += 1;
        assert(out@ == s@.take(i as int));
    }
    assert(s@.take(s@.len() as int) == s@);
    out
}

/// Whether the characters spell the given text.
pub fn spells(s: &[char], text: &str) -> (r: bool)
    ensures
        r == (s@ == text@),
{
    chars_equal(s, to_chars(text).as_slice())
}

/// Whether two runs of characters are the same.
pub fn chars_equal(a: &[char], b: &[char]) -> (r: bool)
    ensures
        r == (a@ == b@),
{
    if a.len() != b.len() {
        return false;
    }
    let mut i: usize = 0;
    while i < a.len()
        invariant
            i <= a@.len(),
            a@.len() == b@.len(),
            forall|j: int| 0 <= j < i ==> a@[j] == b@[j],
        decreases a@.len() - i,
    {
        if a[i] != b[i] {
            return false;
        }
        i += 1;
    }
    assert(a@ =~= b@);
    true
}

// ---------------------------------------------------------------------------
// Searching and splitting
// ---------------------------------------------------------------------------
/// `p` stands in `s` at position `i`.
pub open spec fn occurs_at<T>(s: Seq<T>, p: Seq<T>, i: int) -> bool {
    0 <= i && i + p.len() <= s.len() && s.subrange(i, i + p.len()) == p
}

/// The first position, from `i` on, at which `p` stands in `s`.
pub open spec fn find_from<T>(s: Seq<T>, p: Seq<T>, i: int) -> Option<int>
    decreases s.len() + 1 - i,
{
    if i < 0 || i + p.len() > s.len() {
        None
    } else if occurs_at(s, p, i) {
        Some(i)
    } else {
        find_from(s, p, i + 1)
    }
}

/// The first position at which `p` stands in `s`.
pub open spec fn find<T>(s: Seq<T>, p: Seq<T>) -> Option<int> {
    find_from(s, p, 0)
}

/// What stands before and after the first `p` in `s`.
pub open spec fn split_once<T>(s: Seq<T>, p: Seq<T>) -> Option<(Seq<T>, Seq<T>)> {
    match find(s, p) {
        Some(i) => Some((s.take(i), s.skip(i + p.len()))),
        None => None,
    }
}

/// The pieces of `s` between the occurrences of `p`, from left to right.
pub open spec fn split<T>(s: Seq<T>, p: Seq<T>) -> Seq<Seq<T>>
    decreases s.len(),
{
    match find(s, p) {
        Some(i) => {
            proof {
                lemma_find(s, p);
            }
            if p.len() > 0 {
                seq![s.take(i)] + split(s.skip(i + p.len()), p)
            } else {
                seq![s]
            }
        },
        None => seq![s],
    }
}

/// What `find_from` gives is the first occurrence; without one it gives none.
pub proof fn lemma_find_from<T>(s: Seq<T>, p: Seq<T>, i: int)
    requires
        0 <= i,
    ensures
        find_from(s, p, i) matches Some(k) ==> i <= k && occurs_at(s, p, k) && (forall|j: int|
            i <= j < k ==> !occurs_at(s, p, j)),
        find_from(s, p, i) is None ==> (forall|j: int| i <= j ==> !occurs_at(s, p, j)),
    decreases s.len() + 1 - i,
{
    if i + p.len() <= s.len() && !occurs_at(s, p, i) {
        lemma_find_from(s, p, i + 1);
    }
}

/// What `find` gives is the first occurrence; without one it gives none.
pub proof fn lemma_find<T>(s: Seq<T>, p: Seq<T>)
    ensures
        find(s, p) matches Some(k) ==> occurs_at(s, p, k) && (forall|j: int|
            j < k ==> !occurs_at(s, p, j)),
        find(s, p) is None ==> (forall|j: int| !occurs_at(s, p, j)),
{
    lemma_find_from(s, p, 0);
}

/// The first occurrence is the only position with these properties.
pub proof fn lemma_find_is<T>(s: Seq<T>, p: Seq<T>, k: int)
    requires
        occurs_at(s, p, k),
        forall|j: int| 0 <= j < k ==> !occurs_at(s, p, j),
    ensures
        find(s, p) == Some(k),
{
    lemma_find(s, p);
}

/// Where the pattern stands nowhere, nothing is found.
pub proof fn lemma_find_none<T>(s: Seq<T>, p: Seq<T>)
    requires
        forall|j: int| 0 <= j ==> !occurs_at(s, p, j),
    ensures
        find(s, p) is None,
{
    lemma_find(s, p);
}

/// What was found does not move when more is appended.
pub proof fn lemma_find_append<T>(s: Seq<T>, more: Seq<T>, p: Seq<T>)
    ensures
        find(s, p) matches Some(i) ==> find(s + more, p) == Some(i),
{
    lemma_find(s, p);
    if let Some(i) = find(s, p) {
        assert((s + more).subrange(i, i + p.len()) =~= s.subrange(i, i + p.len()));
        assert forall|j: int| 0 <= j < i implies !occurs_at(s + more, p, j) by {
            assert((s + more).subrange(j, j + p.len()) =~= s.subrange(j, j + p.len()));
            assert(!occurs_at(s, p, j));
        }
        lemma_find_is(s + more, p, i);
    }
}

/// A separator whose first item does not occur in what stands before it is the
/// first one.
pub proof fn lemma_split_first<T>(before: Seq<T>, p: Seq<T>, after: Seq<T>)
    requires
        p.len() > 0,
        !before.contains(p[0]),
    ensures
        find(before + p + after, p) == Some(before.len() as int),
        split_once(before + p + after, p) == Some((before, after)),
        split(before + p + after, p) == seq![before] + split(after, p),
{
    let s = before + p + after;
    let n = before.len() as int;
    assert(s.subrange(n, n + p.len()) =~= p);
    assert forall|j: int| 0 <= j < n implies !occurs_at(s, p, j) by {
        if occurs_at(s, p, j) {
            assert(s.subrange(j, j + p.len())[0] == before[j]);
        }
    }
    lemma_find_is(s, p, n);
    assert(s.take(n) =~= before);
    assert(s.skip(n + p.len()) =~= after);
}

/// A separator whose first item does not occur splits nothing.
pub proof fn lemma_split_none<T>(s: Seq<T>, p: Seq<T>)
    requires
        p.len() > 0,
        !s.contains(p[0]),
    ensures
        find(s, p) is None,
        split_once(s, p) is None,
        split(s, p) == seq![s],
{
    assert forall|j: int| 0 <= j implies !occurs_at(s, p, j) by {
        if occurs_at(s, p, j) {
            assert(s.subrange(j, j + p.len())[0] == s[j]);
        }
    }
    lemma_find_none(s, p);
}

/// Position of the first occurrence of `p` in `s`.
pub fn find_chars(s: &[char], p: &[char]) -> (r: Option<usize>)
    ensures
        match r {
            Some(i) => find(s@, p@) == Some(i as int),
            None => find(s@, p@) is None,
        },
        r matches Some(i) ==> i + p@.len() <= s@.len(),
{
    if p.len() > s.len() {
        return None;
    }
    let last = s.len() - p.len();
    let mut i: usize = 0;
    while i < last
        invariant
            i <= last,
            last == s@.len() - p@.len(),
            s@.len() <= usize::MAX,
            find(s@, p@) == find_from(s@, p@, i as int),
        decreases last - i,
    {
        if chars_equal(slice_subrange(s, i, i + p.len()), p) {
            return Some(i);
        }
        i += 1;
    }
    if chars_equal(slice_subrange(s, i, s.len()), p) {
        return Some(i);
    }
    assert(find_from(s@, p@, i + 1) is None);
    None
}

/// What stands before and after the first `p` in `s`.
pub fn split_once_chars<'a>(s: &'a [char], p: &[char]) -> (r: Option<(&'a [char], &'a [char])>)
    ensures
        match r {
            Some((a, b)) => split_once(s@, p@) == Some((a@, b@)),
            None => split_once(s@, p@) is None,
        },
{
    let n = s.len();
    match find_chars(s, p) {
        Some(i) => {
            let before = slice_subrange(s, 0, i);
            let after = slice_subrange(s, i + p.len(), n);
            assert(before@ == s@.take(i as int));
            assert(after@ == s@.skip(i + p@.len()));
            Some((before, after))
        },
        None => None,
    }
}

// ---------------------------------------------------------------------------
// Character classes, words, trimming
// ---------------------------------------------------------------------------
/// The classes of characters that separate or pad pieces of text.
#[derive(Clone, Copy)]
pub enum CharClass {
    /// Unicode `White_Space`.
    Whitespace,
    /// Space, tab, line feed, form feed, carriage return.
    AsciiWhitespace,
    /// The character with code zero.
    Nul,
}

impl CharClass {
    /// Membership.
    pub open spec fn has(self, c: char) -> bool {
        match self {
            CharClass::Whitespace => {
                ||| '\u{9}' <= c <= '\u{d}'
                ||| c == '\u{20}'
                ||| c == '\u{85}'
                ||| c == '\u{a0}'
                ||| c == '\u{1680}'
                ||| '\u{2000}' <= c <= '\u{200a}'
                ||| c == '\u{2028}'
                ||| c == '\u{2029}'
                ||| c == '\u{202f}'
                ||| c == '\u{205f}'
                ||| c == '\u{3000}'
            },
            CharClass::AsciiWhitespace => {
                c == ' ' || c == '\t' || c == '\n' || c == '\u{c}' || c == '\r'
            },
            CharClass::Nul => c == '\u{0}',
        }
    }

    /// Whether the character belongs to the class.
    pub fn contains(self, c: char) -> (r: bool)
        ensures
            r == self.has(c),
    {
        match self {
            CharClass::Whitespace => {
                ('\u{9}' <= c && c <= '\u{d}') || c == '\u{20}' || c == '\u{85}' || c == '\u{a0}'
                    || c == '\u{1680}' || ('\u{2000}' <= c && c <= '\u{200a}') || c == '\u{2028}'
                    || c == '\u{2029}' || c == '\u{202f}' || c == '\u{205f}' || c == '\u{3000}'
            },
            CharClass::AsciiWhitespace => {
                c == ' ' || c == '\t' || c == '\n' || c == '\u{c}' || c == '\r'
            },
            CharClass::Nul => c == '\u{0}',
        }
    }
}

/// The first position, from `i` on, whose character is in the class (`inside`)
/// or outside it (`!inside`); the length of `s` where there is none.
pub open spec fn scan(s: Seq<char>, i: int, class: CharClass, inside: bool) -> int
    decreases s.len() - i,
{
    if i >= s.len() {
        s.len() as int
    } else if class.has(s[i]) == inside {
        i
    } else {
        scan(s, i + 1, class, inside)
    }
}

/// `scan` stays in range, stops at what it looks for and skips nothing of it.
pub proof fn lemma_scan(s: Seq<char>, i: int, class: CharClass, inside: bool)
    requires
        0 <= i <= s.len(),
    ensures
        i <= scan(s, i, class, inside) <= s.len(),
        scan(s, i, class, inside) < s.len() ==> class.has(s[scan(s, i, class, inside)]) == inside,
        forall|j: int|
            i <= j < scan(s, i, class, inside) ==> class.has(#[trigger] s[j]) != inside,
    decreases s.len() - i,
{
    if i < s.len() && class.has(s[i]) != inside {
        lemma_scan(s, i + 1, class, inside);
    }
}

/// The maximal runs of characters outside the class, from left to right.
pub open spec fn words(s: Seq<char>, class: CharClass) -> Seq<Seq<char>>
    decreases s.len(),
{
    let a = scan(s, 0, class, false);
    let b = scan(s, a, class, true);
    proof {
        lemma_scan(s, 0, class, false);
        lemma_scan(s, a, class, true);
    }
    if a >= s.len() {
        seq![]
    } else {
        seq![s.subrange(a, b)] + words(s.skip(b), class)
    }
}

/// The word with index `k`; the empty text where there are not that many.
pub open spec fn word(s: Seq<char>, class: CharClass, k: int) -> Seq<char> {
    if 0 <= k < words(s, class).len() {
        words(s, class)[k]
    } else {
        seq![]
    }
}

/// A word, after characters of the class and before the end or another one, is
/// the first word.
pub proof fn lemma_first_word(lead: Seq<char>, w: Seq<char>, rest: Seq<char>, class: CharClass)
    requires
        forall|i: int| 0 <= i < lead.len() ==> class.has(#[trigger] lead[i]),
        forall|i: int| 0 <= i < w.len() ==> !class.has(#[trigger] w[i]),
        w.len() > 0,
        rest.len() > 0 ==> class.has(rest[0]),
    ensures
        words(lead + w + rest, class) == seq![w] + words(rest, class),
{
    let s = lead + w + rest;
    let a = lead.len() as int;
    let b = a + w.len();
    lemma_scan(s, 0, class, false);
    let k = scan(s, 0, class, false);
    assert(s[a] == w[0]);
    if k < a {
        assert(s[k] == lead[k]);
    }
    assert(k == a);
    lemma_scan(s, a, class, true);
    let m = scan(s, a, class, true);
    if m < b {
        assert(s[m] == w[m - a]);
    }
    if b < m {
        assert(s[b] == rest[0]);
    }
    assert(m == b);
    assert(s.subrange(a, b) =~= w);
    assert(s.skip(b) =~= rest);
}

/// First position from `i` on inside or outside the class.
fn scan_chars(s: &[char], i: usize, class: CharClass, inside: bool) -> (r: usize)
    requires
        i <= s@.len(),
    ensures
        r == scan(s@, i as int, class, inside),
        i <= r <= s@.len(),
{
    let mut k: usize = i;
    while k < s.len() && class.contains(s[k]) != inside
        invariant
            i <= k <= s@.len(),
            scan(s@, i as int, class, inside) == scan(s@, k as int, class, inside),
        decreases s@.len() - k,
    {
        k += 1;
    }
    k
}

/// The word with index `k`; nothing where there are not that many.
pub fn nth_word<'a>(s: &'a [char], class: CharClass, k: usize) -> (r: &'a [char])
    ensures
        r@ == word(s@, class, k as int),
{
    let mut rest: &[char] = s;
    let mut n: usize = 0;
    loop
        invariant
            n <= k,
            word(s@, class, k as int) == word(rest@, class, k - n),
        decreases k - n,
    {
        let a = scan_chars(rest, 0, class, false);
        let b = scan_chars(rest, a, class, true);
        if a >= rest.len() {
            let empty = slice_subrange(rest, 0, 0);
            assert(empty@ =~= seq![]);
            return empty;
        }
        if n == k {
            return slice_subrange(rest, a, b);
        }
        let next = slice_subrange(rest, b, rest.len());
        proof {
            lemma_scan(rest@, 0, class, false);
            lemma_scan(rest@, a as int, class, true);
            assert(next@ == rest@.skip(b as int));
            assert(words(rest@, class) == seq![rest@.subrange(a as int, b as int)] + words(
                next@,
                class,
            ));
        }
        rest = next;
        n += 1;
    }
}

/// `s` without the characters of the class at its beginning.
pub open spec fn trim_start(s: Seq<char>, class: CharClass) -> Seq<char> {
    s.skip(scan(s, 0, class, false))
}

/// `s` without the characters of the class at its end.
pub open spec fn trim_end(s: Seq<char>, class: CharClass) -> Seq<char>
    decreases s.len(),
{
    if s.len() > 0 && class.has(s.last()) {
        trim_end(s.drop_last(), class)
    } else {
        s
    }
}

/// `s` without the characters of the class at either end.
pub open spec fn trim(s: Seq<char>, class: CharClass) -> Seq<char> {
    trim_end(trim_start(s, class), class)
}

/// Drops the characters of the class at the end.
pub fn trim_end_chars<'a>(s: &'a [char], class: CharClass) -> (r: &'a [char])
    ensures
        r@ == trim_end(s@, class),
{
    let mut n: usize = s.len();
    assert(s@.take(n as int) == s@);
    while n > 0 && class.contains(s[n - 1])
        invariant
            n <= s@.len(),
            trim_end(s@, class) == trim_end(s@.take(n as int), class),
        decreases n,
    {
        assert(s@.take(n as int).drop_last() == s@.take(n - 1));
        n -= 1;
    }
    assert(n > 0 ==> s@.take(n as int).last() == s@[n - 1]);
    let kept = slice_subrange(s, 0, n);
    assert(kept@ == s@.take(n as int));
    kept
}

/// Drops the characters of the class at both ends.
pub fn trim_chars<'a>(s: &'a [char], class: CharClass) -> (r: &'a [char])
    ensures
        r@ == trim(s@, class),
{
    let a = scan_chars(s, 0, class, false);
    let rest = slice_subrange(s, a, s.len());
    assert(rest@ == trim_start(s@, class));
    trim_end_chars(rest, class)
}

/// The text before the first line feed, less a carriage return right before it;
/// all of it where there is no line feed.
pub open spec fn first_line(s: Seq<char>) -> Seq<char> {
    match find(s, seq!['\n']) {
        Some(i) => if i > 0 && s[i - 1] == '\r' {
            s.take(i - 1)
        } else {
            s.take(i)
        },
        None => s,
    }
}

/// The first line, without its line ending.
pub fn first_line_chars<'a>(s: &'a [char]) -> (r: &'a [char])
    ensures
        r@ == first_line(s@),
{
    let lf: [char; 1] = ['\n'];
    assert(lf@ =~= seq!['\n']);
    match find_chars(s, &lf) {
        Some(i) => {
            let n: usize = if i > 0 && s[i - 1] == '\r' {
                i - 1
            } else {
                i
            };
            let line = slice_subrange(s, 0, n);
            assert(line@ == s@.take(n as int));
            line
        },
        None => s,
    }
}

// ---------------------------------------------------------------------------
// Letter case, prefixes and suffixes
// ---------------------------------------------------------------------------
/// An upper-case ASCII letter as its lower-case one; any other character as it is.
pub open spec fn ascii_lower(c: char) -> char {
    if 'A' <= c <= 'Z' {
        (c as u32 + 32) as char
    } else {
        c
    }
}

/// The texts differ at most in the case of their ASCII letters.
pub open spec fn same_ignoring_case(a: Seq<char>, b: Seq<char>) -> bool {
    a.map_values(|c: char| ascii_lower(c)) == b.map_values(|c: char| ascii_lower(c))
}

fn to_ascii_lower(c: char) -> (r: char)
    ensures
        r == ascii_lower(c),
{
    if 'A' <= c && c <= 'Z' {
        ((c as u8) + 32) as char
    } else {
        c
    }
}

/// Whether the characters spell the text, up to the case of ASCII letters.
pub fn spells_ignoring_case(s: &[char], text: &str) -> (r: bool)
    ensures
        r == same_ignoring_case(s@, text@),
{
    let t = to_chars(text);
    let ghost f = |c: char| ascii_lower(c);
    if s.len() != t.len() {
        assert(s@.map_values(f).len() != t@.map_values(f).len());
        return false;
    }
    let mut i: usize = 0;
    while i < s.len()
        invariant
            i <= s@.len(),
            s@.len() == t@.len(),
            t@ == text@,
            f == (|c: char| ascii_lower(c)),
            forall|j: int| 0 <= j < i ==> ascii_lower(s@[j]) == ascii_lower(t@[j]),
        decreases s@.len() - i,
    {
        if to_ascii_lower(s[i]) != to_ascii_lower(t[i]) {
            assert(s@.map_values(f)[i as int] != t@.map_values(f)[i as int]);
            return false;
        }
        i += 1;
    }
    assert(s@.map_values(f) =~= t@.map_values(f));
    true
}

/// Whether `p` is the beginning of `s`.
pub fn starts_with(s: &[char], p: &str) -> (r: bool)
    ensures
        r == p@.is_prefix_of(s@),
{
    let t = to_chars(p);
    if t.len() > s.len() {
        return false;
    }
    spells(slice_subrange(s, 0, t.len()), p)
}

/// Whether `p` is the end of `s`.
pub fn ends_with(s: &[char], p: &str) -> (r: bool)
    ensures
        r == p@.is_suffix_of(s@),
{
    let t = to_chars(p);
    if t.len() > s.len() {
        return false;
    }
    spells(slice_subrange(s, s.len() - t.len(), s.len()), p)
}

/// Whether the character occurs in `s`.
pub fn contains_char(s: &[char], c: char) -> (r: bool)
    ensures
        r == s@.contains(c),
{
    let mut i: usize = 0;
    while i < s.len()
        invariant
            i <= s@.len(),
            forall|j: int| 0 <= j < i ==> s@[j] != c,
        decreases s@.len() - i,
    {
        if s[i] == c {
            return true;
        }
        i += 1;
    }
    false
}

// ---------------------------------------------------------------------------
// Decimal numbers
// ---------------------------------------------------------------------------
pub open spec fn is_digit(c: char) -> bool {
    '0' <= c <= '9'
}

pub open spec fn all_digits(s: Seq<char>) -> bool {
    forall|i: int| 0 <= i < s.len() ==> is_digit(#[trigger] s[i])
}

/// The value of a run of decimal digits.
pub open spec fn number(s: Seq<char>) -> nat
    decreases s.len(),
{
    if s.len() == 0 {
        0
    } else {
        number(s.drop_last()) * 10 + (s.last() as u32 - '0' as u32) as nat
    }
}

/// The decimal digits of a number, most significant first, without leading zeros.
pub open spec fn decimal(n: nat) -> Seq<char>
    decreases n,
{
    if n < 10 {
        seq![('0' as u32 + n) as char]
    } else {
        decimal(n / 10).push(('0' as u32 + n % 10) as char)
    }
}

/// The number that a text writes: an optional plus sign and then digits, at
/// least one and nothing else, with a value of at most `max`.
pub open spec fn parse_decimal(s: Seq<char>, max: nat) -> Option<nat> {
    let digits = if s.len() > 0 && s[0] == '+' {
        s.skip(1)
    } else {
        s
    };
    if digits.len() > 0 && all_digits(digits) && number(digits) <= max {
        Some(number(digits))
    } else {
        None
    }
}

/// A longer run of digits has no smaller value.
proof fn lemma_number_grows(s: Seq<char>, i: int)
    requires
        all_digits(s),
        0 <= i <= s.len(),
    ensures
        number(s.take(i)) <= number(s),
    decreases s.len() - i,
{
    if i == s.len() {
        assert(s.take(i) == s);
    } else {
        lemma_number_grows(s, i + 1);
        assert(s.take(i + 1).drop_last() == s.take(i));
    }
}

/// Reads an unsigned decimal number of at most `max`.
pub fn read_decimal(s: &[char], max: u64) -> (r: Option<u64>)
    ensures
        match r {
            Some(n) => parse_decimal(s@, max as nat) == Some(n as nat),
            None => parse_decimal(s@, max as nat) is None,
        },
{
    let start: usize = if s.len() > 0 && s[0] == '+' {
        1
    } else {
        0
    };
    let ghost digits = s@.skip(start as int);
    assert(start == 0 ==> digits == s@);
    if s.len() == start {
        return None;
    }
    let mut value: u64 = 0;
    let mut i: usize = start;
    assert(digits.take(0) =~= seq![]);
    while i < s.len()
        invariant
            start <= i <= s@.len(),
            digits == s@.skip(start as int),
            digits.len() > 0,
            digits == (if s@.len() > 0 && s@[0] == '+' {
                s@.skip(1)
            } else {
                s@
            }),
            forall|j: int| 0 <= j < i - start ==> is_digit(#[trigger] digits[j]),
            value == number(digits.take(i - start)),
            value <= max,
        decreases s@.len() - i,
    {
        let c = s[i];
        assert(c == digits[i - start]);
        if !('0' <= c && c <= '9') {
            return None;
        }
        let d: u64 = (c as u32 - '0' as u32) as u64;
        assert(digits.take(i - start + 1).drop_last() == digits.take(i - start));
        assert(number(digits.take(i - start + 1)) == value * 10 + d);
        if max < d || value > max / 10 || value * 10 > max - d {
            proof {
                if all_digits(digits) {
                    lemma_number_grows(digits, i - start + 1);
                }
            }
            return None;
        }
        value = value * 10 + d;
        i += 1;
    }
    assert(digits.take(i - start) == digits);
    Some(value)
}

/// Writes a number in decimal.
pub fn write_decimal(n: u64) -> (r: String)
    ensures
        r@ == decimal(n as nat),
    decreases n,
{
    let digit = (48u8 + (n % 10) as u8) as char;
    let mut out = if n < 10 {
        String::new()
    } else {
        write_decimal(n / 10)
    };
    out.push(digit);
    assert(n < 10 ==> out@ =~= decimal(n as nat));
    out
}

/// A number reads back from its decimal digits.
pub proof fn lemma_decimal_round_trip(n: nat, max: nat)
    requires
        n <= max,
    ensures
        decimal(n).len() > 0,
        all_digits(decimal(n)),
        number(decimal(n)) == n,
        parse_decimal(decimal(n), max) == Some(n),
    decreases n,
{
    let d = decimal(n);
    if n >= 10 {
        lemma_decimal_round_trip(n / 10, max);
        assert(d.drop_last() == decimal(n / 10));
    } else {
        assert(d.drop_last() =~= seq![]);
    }
    assert(d.last() as u32 == '0' as u32 + n % 10);
    assert(number(d) == number(d.drop_last()) * 10 + n % 10);
    assert(is_digit(d[0]));
}

// ---------------------------------------------------------------------------
// Laws
// ---------------------------------------------------------------------------
/// The sum of the digits, each times the power of ten of its place.
pub open spec fn digit_sum(s: Seq<char>) -> int
    decreases s.len(),
{
    if s.len() == 0 {
        0
    } else {
        (s[0] as int - '0' as int) * pow(10, (s.len() - 1) as nat) + digit_sum(s.drop_first())
    }
}

/// The text without a plus sign at its beginning.
pub open spec fn unsigned(s: Seq<char>) -> Seq<char> {
    if s.len() > 0 && s[0] == '+' {
        s.drop_first()
    } else {
        s
    }
}

/// Whether the text writes the number in decimal: digits only, at least one,
/// perhaps after a plus sign.
pub open spec fn writes_number(s: Seq<char>, n: int) -> bool {
    &&& unsigned(s).len() > 0
    &&& forall|i: int|
        0 <= i < unsigned(s).len() ==> '0' <= #[trigger] unsigned(s)[i] <= '9'
    &&& digit_sum(unsigned(s)) == n
}

/// A digit more at the end multiplies by ten what stands before it.
proof fn lemma_digit_sum_push(s: Seq<char>, c: char)
    ensures
        digit_sum(s.push(c)) == digit_sum(s) * 10 + (c as int - '0' as int),
    decreases s.len(),
{
    let t = s.push(c);
    if s.len() == 0 {
        assert(t.drop_first() =~= seq![]);
        vstd::arithmetic::power::lemma_pow0(10);
        assert(digit_sum(t) == (c as int - '0' as int) * pow(10, 0) + digit_sum(t.drop_first()));
    } else {
        let n = (s.len() - 1) as nat;
        let d = s[0] as int - '0' as int;
        let p = pow(10, n);
        lemma_digit_sum_push(s.drop_first(), c);
        assert(t.drop_first() =~= s.drop_first().push(c));
        assert(pow(10, n + 1) == 10 * p) by {
            reveal(pow);
        }
        assert(d * (10 * p) == (d * p) * 10) by (nonlinear_arith);
    }
}

proof fn lemma_number_is_digit_sum(s: Seq<char>)
    requires
        all_digits(s),
    ensures
        number(s) == digit_sum(s),
    decreases s.len(),
{
    if s.len() > 0 {
        let rest = s.drop_last();
        assert(is_digit(s.last()));
        assert(all_digits(rest)) by {
            assert forall|i: int| 0 <= i < rest.len() implies is_digit(#[trigger] rest[i]) by {
                assert(rest[i] == s[i]);
            }
        }
        lemma_number_is_digit_sum(rest);
        lemma_digit_sum_push(rest, s.last());
        assert(rest.push(s.last()) =~= s);
    }
}

/// A number is written with its decimal digits and no others: the digits add up
/// to it by their places, and the first is no zero unless it is the only one.
pub proof fn law_numbers_are_written_in_decimal(n: nat)
    ensures
        writes_number(decimal(n), n as int),
        decimal(n)[0] != '+',
        decimal(n).len() > 1 ==> decimal(n)[0] != '0',
    decreases n,
{
    let d = decimal(n);
    lemma_decimal_round_trip(n, n);
    lemma_number_is_digit_sum(d);
    assert(is_digit(d[0]));
    assert forall|i: int| 0 <= i < d.len() implies '0' <= #[trigger] d[i] <= '9' by {
        assert(is_digit(d[i]));
    }
    if n >= 10 {
        law_numbers_are_written_in_decimal(n / 10);
        assert(d[0] == decimal(n / 10)[0]);
        if decimal(n / 10).len() == 1 && decimal(n / 10)[0] == '0' {
            assert(decimal(n / 10).drop_first() =~= seq![]);
            reveal_with_fuel(digit_sum, 2);
        }
    }
}

/// A text is read as a number exactly where it writes one that is not too large,
/// and as that one.
pub proof fn law_numbers_are_read_in_decimal(s: Seq<char>, max: nat)
    ensures
        parse_decimal(s, max) matches Some(n) ==> n <= max && writes_number(s, n as int),
        forall|n: int|
            #![trigger writes_number(s, n)]
            writes_number(s, n) ==> n >= 0 && (if n <= max {
                parse_decimal(s, max) == Some(n as nat)
            } else {
                parse_decimal(s, max) is None
            }),
{
    let digits = unsigned(s);
    assert(s.len() > 0 ==> s.skip(1) =~= s.drop_first());
    if all_digits(digits) {
        lemma_number_is_digit_sum(digits);
        assert forall|i: int| 0 <= i < digits.len() implies '0' <= #[trigger] digits[i] <= '9' by {
            assert(is_digit(digits[i]));
        }
    }
    assert forall|n: int| #![trigger writes_number(s, n)] writes_number(s, n) implies n >= 0 && (
    if n <= max {
        parse_decimal(s, max) == Some(n as nat)
    } else {
        parse_decimal(s, max) is None
    }) by {
        assert forall|i: int| 0 <= i < digits.len() implies is_digit(#[trigger] digits[i]) by {
            assert(unsigned(s)[i] == digits[i]);
        }
        assert(all_digits(digits));
    }
}

/// The first line begins with what stands before the first line feed.
pub proof fn lemma_first_line_append(front: Seq<char>, rest: Seq<char>)
    requires
        !front.contains('\n'),
        front.len() > 0 ==> front.last() != '\r',
    ensures
        first_line(front + rest) == front + first_line(rest),
        first_line(rest).len() > 0 ==> rest.len() > 0 && first_line(rest)[0] == rest[0],
{
    let lf = seq!['\n'];
    let s = front + rest;
    let n = front.len() as int;
    lemma_find(rest, lf);
    match find(rest, lf) {
        Some(k) => {
            assert(rest.subrange(k, k + 1)[0] == rest[k]);
            assert(s.subrange(n + k, n + k + 1) =~= lf);
            assert forall|j: int| 0 <= j < n + k implies !occurs_at(s, lf, j) by {
                if occurs_at(s, lf, j) {
                    assert(s.subrange(j, j + 1)[0] == s[j]);
                    if j < n {
                        assert(s[j] == front[j]);
                    } else {
                        assert(rest.subrange(j - n, j - n + 1) =~= lf);
                        assert(occurs_at(rest, lf, j - n));
                    }
                }
            }
            lemma_find_is(s, lf, n + k);
            if k > 0 {
                assert(s[n + k - 1] == rest[k - 1]);
            } else if n > 0 {
                assert(s[n + k - 1] == front.last());
            }
            assert(first_line(s) =~= front + first_line(rest));
        },
        None => {
            assert forall|j: int| 0 <= j implies !occurs_at(s, lf, j) by {
                if occurs_at(s, lf, j) {
                    assert(s.subrange(j, j + 1)[0] == s[j]);
                    if j < n {
                        assert(s[j] == front[j]);
                    } else {
                        assert(rest.subrange(j - n, j - n + 1) =~= lf);
                        assert(occurs_at(rest, lf, j - n));
                    }
                }
            }
            lemma_find_none(s, lf);
        },
    }
}

/// The first two words of a text: what is not of the class, before and after
/// characters of the class, whatever follows them.
pub proof fn lemma_two_words(
    first: Seq<char>,
    gap: Seq<char>,
    second: Seq<char>,
    rest: Seq<char>,
    class: CharClass,
)
    requires
        first.len() > 0,
        gap.len() > 0,
        second.len() > 0,
        forall|i: int| 0 <= i < first.len() ==> !class.has(#[trigger] first[i]),
        forall|i: int| 0 <= i < gap.len() ==> class.has(#[trigger] gap[i]),
        forall|i: int| 0 <= i < second.len() ==> !class.has(#[trigger] second[i]),
        rest.len() > 0 ==> class.has(rest[0]),
    ensures
        word(first + gap + second + rest, class, 0) == first,
        word(first + gap + second + rest, class, 1) == second,
{
    let tail = gap + second + rest;
    assert(tail[0] == gap[0]);
    lemma_first_word(seq![], first, tail, class);
    lemma_first_word(gap, second, rest, class);
    assert(Seq::<char>::empty() + first + tail =~= first + gap + second + rest);
}

} // verus!
