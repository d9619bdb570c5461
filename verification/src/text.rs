//! Character-level text primitives shared by the rest of the library:
//! whitespace trimming, substring search, line scanning and decimal numbers.
//!
//! Strings are modelled by their view, the sequence of their characters.
//! For valid UTF-8 text a byte-level substring match is the same as a
//! character-level one, so searching on characters agrees with `str::find`
//! and `str::contains`.
use vstd::prelude::*;
use vstd::string::*;
use vstd::utf8::*;

verus! {

// ---------------------------------------------------------------------------
// Specifications
// ---------------------------------------------------------------------------

/// Unicode `White_Space`, the property behind `char::is_whitespace` and `str::trim`.
pub open spec fn is_ws(c: char) -> bool {
    let u = c as u32;
    ||| 9 <= u <= 13
    ||| u == 32
    ||| u == 0x85
    ||| u == 0xa0
    ||| u == 0x1680
    ||| 0x2000 <= u <= 0x200a
    ||| u == 0x2028
    ||| u == 0x2029
    ||| u == 0x202f
    ||| u == 0x205f
    ||| u == 0x3000
}

/// A set of characters that a trim removes.
#[derive(Clone, Copy)]
pub enum CharSet {
    /// Unicode whitespace.
    Whitespace,
    /// Exactly this character.
    Only(char),
}

pub open spec fn in_set(k: CharSet, c: char) -> bool {
    match k {
        CharSet::Whitespace => is_ws(c),
        CharSet::Only(x) => c == x,
    }
}

/// `s` without its leading characters from `k`.
pub open spec fn trim_start_set(s: Seq<char>, k: CharSet) -> Seq<char>
    decreases s.len(),
{
    if s.len() > 0 && in_set(k, s[0]) {
        trim_start_set(s.drop_first(), k)
    } else {
        s
    }
}

/// `s` without its trailing characters from `k`.
pub open spec fn trim_end_set(s: Seq<char>, k: CharSet) -> Seq<char>
    decreases s.len(),
{
    if s.len() > 0 && in_set(k, s.last()) {
        trim_end_set(s.drop_last(), k)
    } else {
        s
    }
}

/// `str::trim_matches` for a set of characters.
pub open spec fn trim_set(s: Seq<char>, k: CharSet) -> Seq<char> {
    trim_end_set(trim_start_set(s, k), k)
}

/// `str::trim`.
pub open spec fn trim(s: Seq<char>) -> Seq<char> {
    trim_set(s, CharSet::Whitespace)
}

/// `pat` occurs in `s` starting at index `i`.
pub open spec fn occurs_at(s: Seq<char>, pat: Seq<char>, i: int) -> bool {
    0 <= i && i + pat.len() <= s.len() && s.subrange(i, i + pat.len()) == pat
}

/// `str::contains`.
pub open spec fn contains(s: Seq<char>, pat: Seq<char>) -> bool {
    exists|i: int| occurs_at(s, pat, i)
}

/// `str::starts_with`.
pub open spec fn starts_with(s: Seq<char>, pat: Seq<char>) -> bool {
    occurs_at(s, pat, 0)
}

/// The first occurrence of `pat` in `s` at or after `i`.
pub open spec fn find_from(s: Seq<char>, pat: Seq<char>, i: int) -> Option<int>
    decreases s.len() + 1 - i,
{
    if i < 0 || i + pat.len() > s.len() {
        None
    } else if occurs_at(s, pat, i) {
        Some(i)
    } else {
        find_from(s, pat, i + 1)
    }
}

/// `str::find`, counted in characters.
pub open spec fn find(s: Seq<char>, pat: Seq<char>) -> Option<int> {
    find_from(s, pat, 0)
}

/// The last index below `j` where `s` holds `c`.
pub open spec fn rfind_char_before(s: Seq<char>, c: char, j: int) -> Option<int>
    decreases j,
{
    if j <= 0 {
        None
    } else if s[j - 1] == c {
        Some(j - 1)
    } else {
        rfind_char_before(s, c, j - 1)
    }
}

/// `str::rfind` for one character, counted in characters.
pub open spec fn rfind_char(s: Seq<char>, c: char) -> Option<int> {
    rfind_char_before(s, c, s.len() as int)
}

/// The index of the first `'\n'` at or after `i`, or `s.len()` when there is none.
pub open spec fn next_newline(s: Seq<char>, i: int) -> int
    decreases s.len() - i,
{
    if i >= s.len() {
        s.len() as int
    } else if i >= 0 && s[i] == '\n' {
        i
    } else {
        next_newline(s, i + 1)
    }
}

/// The line of `s` that starts at `i`, as `str::lines` yields it: without its
/// `"\n"` terminator, and without a `'\r'` directly before that terminator.
pub open spec fn line_at(s: Seq<char>, i: int) -> Seq<char> {
    let e = next_newline(s, i);
    let raw = s.subrange(i, e);
    if e < s.len() && raw.len() > 0 && raw.last() == '\r' {
        raw.drop_last()
    } else {
        raw
    }
}

/// The value of one decimal digit.
pub open spec fn digit_value(c: char) -> int {
    (c as u32) - ('0' as u32)
}

pub open spec fn is_digit(c: char) -> bool {
    '0' <= c <= '9'
}

pub open spec fn all_digits(s: Seq<char>) -> bool {
    forall|i: int| 0 <= i < s.len() ==> is_digit(#[trigger] s[i])
}

/// The value of a run of decimal digits.
pub open spec fn digits_value(s: Seq<char>) -> nat
    decreases s.len(),
{
    if s.len() == 0 {
        0
    } else {
        (digits_value(s.drop_last()) * 10 + digit_value(s.last())) as nat
    }
}

/// `u32::from_str`: an optional `'+'`, then at least one ASCII digit, with a value
/// that fits in a `u32`.
pub open spec fn parse_u32(s: Seq<char>) -> Option<u32> {
    let d = if s.len() > 0 && s[0] == '+' {
        s.drop_first()
    } else {
        s
    };
    if d.len() > 0 && all_digits(d) && digits_value(d) <= u32::MAX {
        Some(digits_value(d) as u32)
    } else {
        None
    }
}

pub open spec fn digit_char(d: nat) -> char {
    if d == 0 {
        '0'
    } else if d == 1 {
        '1'
    } else if d == 2 {
        '2'
    } else if d == 3 {
        '3'
    } else if d == 4 {
        '4'
    } else if d == 5 {
        '5'
    } else if d == 6 {
        '6'
    } else if d == 7 {
        '7'
    } else if d == 8 {
        '8'
    } else {
        '9'
    }
}

/// The decimal form of `n`, as `Display` prints an unsigned integer.
pub open spec fn decimal(n: nat) -> Seq<char>
    decreases n,
{
    if n < 10 {
        seq![digit_char(n)]
    } else {
        decimal(n / 10).push(digit_char(n % 10))
    }
}

/// `str::trim_start_matches` for a non-empty string pattern: every leading copy of
/// `p` removed.
pub open spec fn strip_prefix_all(s: Seq<char>, p: Seq<char>) -> Seq<char>
    decreases s.len(),
{
    if p.len() > 0 && starts_with(s, p) {
        strip_prefix_all(s.skip(p.len() as int), p)
    } else {
        s
    }
}

/// `s.split(c).last()`: what follows the last `c`, or all of `s` when there is none.
pub open spec fn after_last(s: Seq<char>, c: char) -> Seq<char> {
    match rfind_char(s, c) {
        Some(k) => s.skip(k + 1),
        None => s,
    }
}

/// The start of the first line at or after line start `i` that contains `key`.
pub open spec fn first_line_containing_from(s: Seq<char>, key: Seq<char>, i: int) -> Option<int>
    decreases s.len() + 1 - i,
{
    if i < 0 || i >= s.len() {
        None
    } else if contains(line_at(s, i), key) {
        Some(i)
    } else {
        proof {
            lemma_next_newline(s, i);
        }
        first_line_containing_from(s, key, next_newline(s, i) + 1)
    }
}

/// `s.lines().find(|l| l.contains(key))`, as the start of that line.
pub open spec fn first_line_containing(s: Seq<char>, key: Seq<char>) -> Option<int> {
    first_line_containing_from(s, key, 0)
}

/// The start of the last line at or after line start `i` that starts with `p`, or
/// `found` when there is none.
pub open spec fn last_line_starting_with_from(
    s: Seq<char>,
    p: Seq<char>,
    i: int,
    found: Option<int>,
) -> Option<int>
    decreases s.len() + 1 - i,
{
    if i < 0 || i >= s.len() {
        found
    } else {
        proof {
            lemma_next_newline(s, i);
        }
        let now = if starts_with(line_at(s, i), p) {
            Some(i)
        } else {
            found
        };
        last_line_starting_with_from(s, p, next_newline(s, i) + 1, now)
    }
}

/// `s.lines().filter(|l| l.starts_with(p)).last()`, as the start of that line.
pub open spec fn last_line_starting_with(s: Seq<char>, p: Seq<char>) -> Option<int> {
    last_line_starting_with_from(s, p, 0, None)
}

/// Item `i` of a numbered list: `"{i + 1}. {item}"`.
pub open spec fn numbered_item(i: int, item: Seq<char>) -> Seq<char> {
    decimal((i + 1) as nat) + seq!['.', ' '] + item
}

/// The items numbered from 1, one per line.
pub open spec fn numbered_list(items: Seq<Seq<char>>) -> Seq<char>
    decreases items.len(),
{
    if items.len() == 0 {
        seq![]
    } else if items.len() == 1 {
        numbered_item(0, items[0])
    } else {
        numbered_list(items.drop_last()) + seq!['\n'] + numbered_item(
            items.len() - 1,
            items.last(),
        )
    }
}

pub open spec fn string_views(v: Seq<String>) -> Seq<Seq<char>> {
    v.map_values(|x: String| x@)
}

pub open spec fn min(a: int, b: int) -> int {
    if a <= b {
        a
    } else {
        b
    }
}

// ---------------------------------------------------------------------------
// Lemmas
// ---------------------------------------------------------------------------

/// What `find_from` returns: the first occurrence at or after `i`.
pub proof fn lemma_find_from(s: Seq<char>, pat: Seq<char>, i: int)
    requires
        0 <= i,
    ensures
        find_from(s, pat, i) matches Some(k) ==> i <= k && occurs_at(s, pat, k) && forall|j: int|
            i <= j < k ==> !occurs_at(s, pat, j),
        find_from(s, pat, i) is None ==> forall|j: int| i <= j ==> !occurs_at(s, pat, j),
    decreases s.len() + 1 - i,
{
    if i + pat.len() > s.len() {
    } else if occurs_at(s, pat, i) {
    } else {
        lemma_find_from(s, pat, i + 1);
        assert forall|j: int| i <= j && find_from(s, pat, i + 1) is None implies !occurs_at(
            s,
            pat,
            j,
        ) by {
            if j > i {
            }
        }
    }
}

/// `find` gives the first occurrence, and none exactly when `contains` fails.
pub proof fn lemma_find(s: Seq<char>, pat: Seq<char>)
    ensures
        find(s, pat) matches Some(k) ==> occurs_at(s, pat, k) && forall|j: int|
            0 <= j < k ==> !occurs_at(s, pat, j),
        find(s, pat) is None <==> !contains(s, pat),
{
    lemma_find_from(s, pat, 0);
    if find(s, pat) is None {
        assert forall|j: int| !occurs_at(s, pat, j) by {
            if j < 0 {
            }
        }
    }
}

pub proof fn lemma_rfind_char_before(s: Seq<char>, c: char, j: int)
    requires
        j <= s.len(),
    ensures
        rfind_char_before(s, c, j) matches Some(k) ==> 0 <= k < j && s[k] == c && forall|m: int|
            k < m < j ==> s[m] != c,
        rfind_char_before(s, c, j) is None ==> forall|m: int| 0 <= m < j ==> s[m] != c,
    decreases j,
{
    if j > 0 && s[j - 1] != c {
        lemma_rfind_char_before(s, c, j - 1);
    }
}

pub proof fn lemma_next_newline(s: Seq<char>, i: int)
    requires
        0 <= i,
    ensures
        i <= next_newline(s, i) <= s.len() || (i > s.len() && next_newline(s, i) == s.len()),
        next_newline(s, i) < s.len() ==> s[next_newline(s, i)] == '\n',
        forall|m: int| i <= m < next_newline(s, i) ==> s[m] != '\n',
    decreases s.len() - i,
{
    if i < s.len() && s[i] != '\n' {
        lemma_next_newline(s, i + 1);
    }
}

proof fn lemma_trim_start_step(s: Seq<char>, i: int, k: CharSet)
    requires
        0 <= i < s.len(),
        in_set(k, s[i]),
    ensures
        trim_start_set(s.subrange(i, s.len() as int), k) == trim_start_set(
            s.subrange(i + 1, s.len() as int),
            k,
        ),
{
    assert(s.subrange(i, s.len() as int).drop_first() =~= s.subrange(i + 1, s.len() as int));
}

proof fn lemma_trim_end_step(s: Seq<char>, i: int, j: int, k: CharSet)
    requires
        0 <= i < j <= s.len(),
        in_set(k, s[j - 1]),
    ensures
        trim_end_set(s.subrange(i, j), k) == trim_end_set(s.subrange(i, j - 1), k),
{
    assert(s.subrange(i, j).drop_last() =~= s.subrange(i, j - 1));
}

/// Trimming removes only characters of the set, from both ends, and keeps no
/// such character at either end.
pub proof fn lemma_trim_set_shape(s: Seq<char>, k: CharSet)
    ensures
        trim_set(s, k).len() > 0 ==> !in_set(k, trim_set(s, k)[0]) && !in_set(
            k,
            trim_set(s, k).last(),
        ),
        exists|a: int, b: int|
            0 <= a <= b <= s.len() && trim_set(s, k) == s.subrange(a, b) && (forall|m: int|
                0 <= m < a ==> in_set(k, #[trigger] s[m])) && (forall|m: int|
                b <= m < s.len() ==> in_set(k, #[trigger] s[m])),
{
    let (a, b) = trim_bounds_spec(s, k);
    assert(trim_set(s, k) == s.subrange(a, b));
}

/// The bounds of `trim_set`, with the facts about them.
proof fn trim_bounds_spec(s: Seq<char>, k: CharSet) -> (r: (int, int))
    ensures
        0 <= r.0 <= r.1 <= s.len(),
        trim_set(s, k) == s.subrange(r.0, r.1),
        trim_start_set(s, k) == s.subrange(r.0, s.len() as int),
        forall|m: int| 0 <= m < r.0 ==> in_set(k, #[trigger] s[m]),
        forall|m: int| r.1 <= m < s.len() ==> in_set(k, #[trigger] s[m]),
        r.0 < r.1 ==> !in_set(k, s[r.0]) && !in_set(k, s[r.1 - 1]),
        r.0 == r.1 ==> forall|m: int| 0 <= m < s.len() ==> in_set(k, #[trigger] s[m]),
{
    let a = start_bound(s, k, 0);
    let b = end_bound(s, k, a, s.len() as int);
    assert(s.subrange(0, s.len() as int) =~= s);
    (a, b)
}

proof fn start_bound(s: Seq<char>, k: CharSet, i: int) -> (a: int)
    requires
        0 <= i <= s.len(),
        forall|m: int| 0 <= m < i ==> in_set(k, #[trigger] s[m]),
    ensures
        i <= a <= s.len(),
        trim_start_set(s.subrange(i, s.len() as int), k) == s.subrange(a, s.len() as int),
        forall|m: int| 0 <= m < a ==> in_set(k, #[trigger] s[m]),
        a < s.len() ==> !in_set(k, s[a]),
    decreases s.len() - i,
{
    if i < s.len() && in_set(k, s[i]) {
        lemma_trim_start_step(s, i, k);
        start_bound(s, k, i + 1)
    } else {
        i
    }
}

proof fn end_bound(s: Seq<char>, k: CharSet, a: int, j: int) -> (b: int)
    requires
        0 <= a <= j <= s.len(),
        a < s.len() ==> !in_set(k, s[a]),
        forall|m: int| 0 <= m < a ==> in_set(k, #[trigger] s[m]),
        forall|m: int| j <= m < s.len() ==> in_set(k, #[trigger] s[m]),
    ensures
        a <= b <= j,
        trim_end_set(s.subrange(a, j), k) == s.subrange(a, b),
        forall|m: int| b <= m < s.len() ==> in_set(k, #[trigger] s[m]),
        a < b ==> !in_set(k, s[b - 1]),
        a == b ==> forall|m: int| 0 <= m < s.len() ==> in_set(k, #[trigger] s[m]),
    decreases j,
{
    if j > a && in_set(k, s[j - 1]) {
        lemma_trim_end_step(s, a, j, k);
        end_bound(s, k, a, j - 1)
    } else {
        if a == j && a < s.len() {
            // s[a] is in the set by the third requirement and not by the second
            assert(false);
        }
        j
    }
}

/// Trimming a trimmed sequence changes nothing.
pub proof fn lemma_trim_set_idempotent(s: Seq<char>, k: CharSet)
    ensures
        trim_set(trim_set(s, k), k) == trim_set(s, k),
{
    let t = trim_set(s, k);
    lemma_trim_set_shape(s, k);
    lemma_trim_set_shape(t, k);
    let (a, b) = trim_bounds_spec(t, k);
    if a < b {
        if a > 0 {
            assert(in_set(k, t[0]));
        }
        if b < t.len() {
            assert(in_set(k, t[t.len() - 1]));
        }
        assert(t.subrange(a, b) =~= t);
    } else if t.len() > 0 {
        assert(in_set(k, t[0]));
    } else {
        assert(t.subrange(a, b) =~= t);
    }
}

// ---------------------------------------------------------------------------
// Executable functions
// ---------------------------------------------------------------------------

/// What `String::from_utf8_lossy` makes of `bytes`.
pub uninterp spec fn utf8_lossy(bytes: Seq<u8>) -> Seq<char>;

/// Calls `String::from_utf8_lossy`. Trusted: the result is named `utf8_lossy` of the
/// bytes, and, as the standard library documents, valid UTF-8 decodes unchanged.
/// What replaces invalid sequences is left unsaid.
#[verifier::external_body]
pub(crate) fn decode_utf8_lossy(bytes: &[u8]) -> (s: String)
    ensures
        s@ == utf8_lossy(bytes@),
        valid_utf8(bytes@) ==> s@ == decode_utf8(bytes@),
{
    String::from_utf8_lossy(bytes).into_owned()
}

/// The characters of `s`, in order.
pub fn chars_of(s: &str) -> (out: Vec<char>)
    ensures
        out@ == s@,
{
    let mut out: Vec<char> = Vec::new();
    for c in it: s.chars()
        invariant
            out@ == it.seq().take(it.index() as int),
            it.seq() == s@,
    {
        out.push(c);
    }
    out
}

/// The characters `from..to` of `s` as a new string.
pub fn substring(s: &str, from: usize, to: usize) -> (out: String)
    requires
        from <= to <= s@.len(),
    ensures
        out@ == s@.subrange(from as int, to as int),
{
    s.substring_char(from, to).to_owned()
}

/// Whether `c` is Unicode whitespace (`char::is_whitespace`).
pub fn is_whitespace(c: char) -> (b: bool)
    ensures
        b == is_ws(c),
{
    let u = c as u32;
    (9 <= u && u <= 13) || u == 32 || u == 0x85 || u == 0xa0 || u == 0x1680 || (0x2000 <= u && u
        <= 0x200a) || u == 0x2028 || u == 0x2029 || u == 0x202f || u == 0x205f || u == 0x3000
}

pub fn char_in_set(k: CharSet, c: char) -> (b: bool)
    ensures
        b == in_set(k, c),
{
    match k {
        CharSet::Whitespace => is_whitespace(c),
        CharSet::Only(x) => c == x,
    }
}

/// The bounds `(i, j)` within `lo..hi` of `v` that trimming the characters of `k` keeps.
pub fn trim_bounds(v: &Vec<char>, lo: usize, hi: usize, k: CharSet) -> (r: (usize, usize))
    requires
        lo <= hi <= v@.len(),
    ensures
        lo <= r.0 <= r.1 <= hi,
        v@.subrange(r.0 as int, r.1 as int) == trim_set(v@.subrange(lo as int, hi as int), k),
{
    let ghost s = v@.subrange(lo as int, hi as int);
    let mut i = lo;
    while i < hi && char_in_set(k, v[i])
        invariant
            lo <= i <= hi <= v@.len(),
            s == v@.subrange(lo as int, hi as int),
            trim_start_set(s, k) == trim_start_set(v@.subrange(i as int, hi as int), k),
        decreases hi - i,
    {
        proof {
            let t = v@.subrange(i as int, hi as int);
            assert(t.drop_first() =~= v@.subrange(i + 1, hi as int));
        }
        i = i + 1;
    }
    proof {
        let t = v@.subrange(i as int, hi as int);
        if t.len() > 0 {
            assert(t[0] == v@[i as int]);
        }
    }
    let mut j = hi;
    while j > i && char_in_set(k, v[j - 1])
        invariant
            lo <= i <= j <= hi <= v@.len(),
            s == v@.subrange(lo as int, hi as int),
            trim_start_set(s, k) == v@.subrange(i as int, hi as int),
            trim_set(s, k) == trim_end_set(v@.subrange(i as int, j as int), k),
        decreases j,
    {
        proof {
            let t = v@.subrange(i as int, j as int);
            assert(t.drop_last() =~= v@.subrange(i as int, j - 1));
        }
        j = j - 1;
    }
    proof {
        let t = v@.subrange(i as int, j as int);
        if t.len() > 0 {
            assert(t.last() == v@[j - 1]);
        }
    }
    (i, j)
}

/// `str::trim_matches` for the characters of `k`.
pub fn trim_chars(s: &str, k: CharSet) -> (out: String)
    ensures
        out@ == trim_set(s@, k),
{
    let v = chars_of(s);
    let (i, j) = trim_bounds(&v, 0, v.len(), k);
    assert(v@.subrange(0, v@.len() as int) =~= v@);
    substring(s, i, j)
}

/// `str::trim`.
pub fn trim_str(s: &str) -> (out: String)
    ensures
        out@ == trim(s@),
{
    trim_chars(s, CharSet::Whitespace)
}

/// Whether `pat` occurs in `hay` at `i`.
pub fn occurs_at_exec(hay: &Vec<char>, pat: &Vec<char>, i: usize) -> (b: bool)
    ensures
        b == occurs_at(hay@, pat@, i as int),
{
    if i > hay.len() || pat.len() > hay.len() - i {
        return false;
    }
    let mut k: usize = 0;
    while k < pat.len()
        invariant
            i + pat@.len() <= hay.len(),
            k <= pat@.len(),
            forall|m: int| 0 <= m < k ==> hay@[i + m] == pat@[m],
        decreases pat@.len() - k,
    {
        if hay[i + k] != pat[k] {
            assert(hay@.subrange(i as int, i + pat@.len())[k as int] != pat@[k as int]);
            return false;
        }
        k = k + 1;
    }
    assert(hay@.subrange(i as int, i + pat@.len()) =~= pat@);
    true
}

/// The first occurrence of `pat` in `hay` at or after `from`.
pub fn find_from_exec(hay: &Vec<char>, pat: &Vec<char>, from: usize) -> (r: Option<usize>)
    ensures
        r matches Some(k) ==> find_from(hay@, pat@, from as int) == Some(k as int),
        r is None ==> find_from(hay@, pat@, from as int) is None,
{
    let mut i = from;
    while i <= hay.len() && pat.len() <= hay.len() - i
        invariant
            from <= i,
            find_from(hay@, pat@, from as int) == find_from(hay@, pat@, i as int),
        decreases hay@.len() + 1 - i,
    {
        if occurs_at_exec(hay, pat, i) {
            return Some(i);
        }
        if i == hay.len() {
            assert(find_from(hay@, pat@, i as int + 1) is None);
            return None;
        }
        i = i + 1;
    }
    None
}

/// `str::find`, counted in characters.
pub fn find_exec(hay: &Vec<char>, pat: &Vec<char>) -> (r: Option<usize>)
    ensures
        r matches Some(k) ==> find(hay@, pat@) == Some(k as int),
        r is None ==> find(hay@, pat@) is None,
{
    find_from_exec(hay, pat, 0)
}

/// `str::contains`.
pub fn contains_str(hay: &str, pat: &str) -> (b: bool)
    ensures
        b == contains(hay@, pat@),
{
    let h = chars_of(hay);
    let p = chars_of(pat);
    proof {
        lemma_find(h@, p@);
    }
    find_exec(&h, &p).is_some()
}

/// The last index below `j` at which `v` holds `c`.
pub fn rfind_char_exec(v: &Vec<char>, c: char, j: usize) -> (r: Option<usize>)
    requires
        j <= v@.len(),
    ensures
        r matches Some(k) ==> rfind_char_before(v@, c, j as int) == Some(k as int),
        r is None ==> rfind_char_before(v@, c, j as int) is None,
{
    let mut m = j;
    while m > 0
        invariant
            m <= j <= v@.len(),
            rfind_char_before(v@, c, j as int) == rfind_char_before(v@, c, m as int),
        decreases m,
    {
        if v[m - 1] == c {
            return Some(m - 1);
        }
        m = m - 1;
    }
    None
}

/// The index of the first `'\n'` in `v` at or after `i`, or `v.len()`.
pub fn next_newline_exec(v: &Vec<char>, i: usize) -> (r: usize)
    requires
        i <= v@.len(),
    ensures
        r as int == next_newline(v@, i as int),
        i <= r <= v@.len(),
{
    let mut m = i;
    while m < v.len() && v[m] != '\n'
        invariant
            i <= m <= v@.len(),
            next_newline(v@, i as int) == next_newline(v@, m as int),
        decreases v@.len() - m,
    {
        m = m + 1;
    }
    m
}

/// The line of `v` that starts at `i`, as the bounds `(i, end)` of its text and the
/// index `next` where the following line starts.
pub fn line_bounds(v: &Vec<char>, i: usize) -> (r: (usize, usize))
    requires
        i < v@.len(),
    ensures
        i <= r.0 <= v@.len(),
        r.0 as int == next_newline(v@, i as int),
        v@.subrange(i as int, r.1 as int) == line_at(v@, i as int),
        i <= r.1 <= r.0,
{
    let e = next_newline_exec(v, i);
    if e < v.len() && e > i && v[e - 1] == '\r' {
        proof {
            let raw = v@.subrange(i as int, e as int);
            assert(raw.last() == v@[e - 1]);
            assert(raw.drop_last() =~= v@.subrange(i as int, e - 1));
        }
        (e, e - 1)
    } else {
        proof {
            let raw = v@.subrange(i as int, e as int);
            if e < v.len() && raw.len() > 0 {
                assert(raw.last() == v@[e - 1]);
            }
        }
        (e, e)
    }
}

/// Appends the decimal digits of `n` to `out`.
pub fn push_decimal(out: &mut String, n: usize)
    ensures
        final(out)@ == old(out)@ + decimal(n as nat),
    decreases n,
{
    if n >= 10 {
        push_decimal(out, n / 10);
    }
    let d = n % 10;
    let digit: &str = if d == 0 {
        "0"
    } else if d == 1 {
        "1"
    } else if d == 2 {
        "2"
    } else if d == 3 {
        "3"
    } else if d == 4 {
        "4"
    } else if d == 5 {
        "5"
    } else if d == 6 {
        "6"
    } else if d == 7 {
        "7"
    } else if d == 8 {
        "8"
    } else {
        "9"
    };
    proof {
        reveal_strlit("0");
        reveal_strlit("1");
        reveal_strlit("2");
        reveal_strlit("3");
        reveal_strlit("4");
        reveal_strlit("5");
        reveal_strlit("6");
        reveal_strlit("7");
        reveal_strlit("8");
        reveal_strlit("9");
    }
    out.append(digit);
    proof {
        assert(digit@ =~= seq![digit_char(d as nat)]);
        if n >= 10 {
            assert(decimal(n as nat) == decimal((n / 10) as nat).push(digit_char((n % 10) as nat)));
        }
    }
}

/// `u32::from_str`.
pub fn parse_u32_exec(s: &str) -> (r: Option<u32>)
    ensures
        r == parse_u32(s@),
{
    let v = chars_of(s);
    let start: usize = if v.len() > 0 && v[0] == '+' {
        1
    } else {
        0
    };
    let ghost d = v@.subrange(start as int, v@.len() as int);
    proof {
        if start == 1 {
            assert(d =~= v@.drop_first());
        } else {
            assert(d =~= v@);
        }
    }
    if start >= v.len() {
        assert(d.len() == 0);
        return None;
    }
    let mut acc: u64 = 0;
    let mut over = false;
    let mut i = start;
    while i < v.len()
        invariant
            start <= i <= v@.len(),
            d == v@.subrange(start as int, v@.len() as int),
            v@ == s@,
            d == (if s@.len() > 0 && s@[0] == '+' {
                s@.drop_first()
            } else {
                s@
            }),
            all_digits(v@.subrange(start as int, i as int)),
            over ==> digits_value(v@.subrange(start as int, i as int)) > u32::MAX,
            !over ==> acc as int == digits_value(v@.subrange(start as int, i as int)) && acc
                <= u32::MAX,
        decreases v@.len() - i,
    {
        let c = v[i];
        let ghost pre = v@.subrange(start as int, i as int);
        let ghost next = v@.subrange(start as int, i + 1);
        proof {
            assert(next.drop_last() =~= pre);
            assert(next.last() == c);
        }
        if c < '0' || c > '9' {
            proof {
                assert(d[i - start] == c);
                assert(!is_digit(d[i - start]));
                assert(!all_digits(d));
            }
            return None;
        }
        let dv = (c as u32 - '0' as u32) as u64;
        if !over {
            acc = acc * 10 + dv;
            if acc > 4294967295 {
                over = true;
            }
        }
        proof {
            assert forall|m: int| 0 <= m < next.len() implies is_digit(#[trigger] next[m]) by {
                if m < pre.len() {
                    assert(next[m] == pre[m]);
                }
            }
        }
        i = i + 1;
    }
    assert(v@.subrange(start as int, i as int) == d);
    if over {
        None
    } else {
        Some(acc as u32)
    }
}

/// The characters `lo..hi` of `v`.
pub fn slice_chars(v: &Vec<char>, lo: usize, hi: usize) -> (out: Vec<char>)
    requires
        lo <= hi <= v@.len(),
    ensures
        out@ == v@.subrange(lo as int, hi as int),
{
    let mut out: Vec<char> = Vec::new();
    let mut i = lo;
    while i < hi
        invariant
            lo <= i <= hi <= v@.len(),
            out@ == v@.subrange(lo as int, i as int),
        decreases hi - i,
    {
        out.push(v[i]);
        assert(v@.subrange(lo as int, i + 1) =~= v@.subrange(lo as int, i as int).push(v@[i as int]));
        i = i + 1;
    }
    out
}

/// `str::trim_start_matches` for a string pattern.
pub fn trim_start_matches_str(s: &str, p: &str) -> (out: String)
    ensures
        out@ == strip_prefix_all(s@, p@),
{
    let v = chars_of(s);
    let pv = chars_of(p);
    if pv.len() == 0 {
        return String::from_str(s);
    }
    let mut pos: usize = 0;
    proof {
        assert(v@.skip(0) =~= v@);
    }
    while pos <= v.len() && occurs_at_exec(&v, &pv, pos)
        invariant
            v@ == s@,
            pv@ == p@,
            pv@.len() > 0,
            pos <= v@.len(),
            strip_prefix_all(s@, p@) == strip_prefix_all(v@.skip(pos as int), p@),
        decreases v@.len() - pos,
    {
        proof {
            let t = v@.skip(pos as int);
            assert(t.subrange(0, pv@.len() as int) =~= v@.subrange(pos as int, pos + pv@.len()));
            assert(t.skip(pv@.len() as int) =~= v@.skip(pos + pv@.len()));
        }
        pos = pos + pv.len();
    }
    proof {
        let t = v@.skip(pos as int);
        if pv@.len() <= t.len() {
            assert(t.subrange(0, pv@.len() as int) =~= v@.subrange(pos as int, pos + pv@.len()));
        }
    }
    substring(s, pos, v.len())
}

/// `s.split(c).last()`.
pub fn after_last_char(s: &str, c: char) -> (out: String)
    ensures
        out@ == after_last(s@, c),
{
    let v = chars_of(s);
    match rfind_char_exec(&v, c, v.len()) {
        Some(k) => {
            proof {
                lemma_rfind_char_before(v@, c, v@.len() as int);
            }
            substring(s, k + 1, v.len())
        },
        None => String::from_str(s),
    }
}

/// The start of the first line of `v` that contains `key`.
pub fn first_line_containing_exec(v: &Vec<char>, key: &Vec<char>) -> (r: Option<usize>)
    ensures
        r matches Some(i) ==> first_line_containing(v@, key@) == Some(i as int),
        r is None ==> first_line_containing(v@, key@) is None,
{
    let mut i: usize = 0;
    while i < v.len()
        invariant
            i <= v@.len(),
            first_line_containing(v@, key@) == first_line_containing_from(v@, key@, i as int),
        decreases v@.len() - i,
    {
        let (e, end) = line_bounds(v, i);
        let line = slice_chars(v, i, end);
        proof {
            lemma_find(line@, key@);
        }
        if find_exec(&line, key).is_some() {
            return Some(i);
        }
        if e == v.len() {
            assert(first_line_containing_from(v@, key@, e + 1) is None);
            return None;
        }
        i = e + 1;
    }
    None
}

/// The start of the last line of `v` that starts with `p`.
pub fn last_line_starting_with_exec(v: &Vec<char>, p: &Vec<char>) -> (r: Option<usize>)
    ensures
        r matches Some(i) ==> last_line_starting_with(v@, p@) == Some(i as int),
        r is None ==> last_line_starting_with(v@, p@) is None,
{
    let mut i: usize = 0;
    let mut found: Option<usize> = None;
    while i < v.len()
        invariant
            i <= v@.len(),
            last_line_starting_with(v@, p@) == last_line_starting_with_from(
                v@,
                p@,
                i as int,
                match found {
                    Some(k) => Some(k as int),
                    None => None,
                },
            ),
        decreases v@.len() - i,
    {
        let (e, end) = line_bounds(v, i);
        let line = slice_chars(v, i, end);
        if occurs_at_exec(&line, p, 0) {
            found = Some(i);
        }
        if e == v.len() {
            proof {
                assert(last_line_starting_with_from(
                    v@,
                    p@,
                    e + 1,
                    match found {
                        Some(k) => Some(k as int),
                        None => None,
                    },
                ) == match found {
                    Some(k) => Some(k as int),
                    None => None,
                });
            }
            return found;
        }
        i = e + 1;
    }
    found
}

/// The first `limit` items numbered from 1, one per line: `"1. a\n2. b"`.
pub fn numbered_lines(items: &Vec<String>, limit: usize) -> (out: String)
    ensures
        out@ == numbered_list(string_views(items@).take(min(limit as int, items@.len() as int))),
{
    let n = if limit < items.len() {
        limit
    } else {
        items.len()
    };
    let ghost all = string_views(items@);
    let mut out = String::new();
    let mut i: usize = 0;
    proof {
        assert(all.take(0) =~= Seq::<Seq<char>>::empty());
    }
    while i < n
        invariant
            n <= items@.len(),
            i <= n,
            all == string_views(items@),
            out@ == numbered_list(all.take(i as int)),
        decreases n - i,
    {
        let ghost before = out@;
        if i > 0 {
            out.append("\n");
        }
        push_decimal(&mut out, i + 1);
        out.append(". ");
        out.append(items[i].as_str());
        proof {
            reveal_strlit("\n");
            reveal_strlit(". ");
            let t = all.take(i + 1);
            assert(t.drop_last() =~= all.take(i as int));
            assert(t.last() == items@[i as int]@);
            if i > 0 {
                assert(out@ =~= before + seq!['\n'] + numbered_item(i as int, t.last()));
            } else {
                assert(before =~= Seq::<char>::empty());
                assert(out@ =~= numbered_item(0, t[0]));
            }
        }
        i = i + 1;
    }
    out
}

/// Whether two strings are equal (`==` on `str`).
pub fn same_text(a: &str, b: &str) -> (eq: bool)
    ensures
        eq == (a@ == b@),
{
    let av = chars_of(a);
    let bv = chars_of(b);
    if av.len() != bv.len() {
        return false;
    }
    let r = occurs_at_exec(&av, &bv, 0);
    assert(av@.subrange(0, bv@.len() as int) =~= av@);
    r
}

} // verus!
