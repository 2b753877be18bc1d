//! Character-level text operations over `Seq<char>`, with executable
//! counterparts proved against them.
use vstd::prelude::*;

verus! {

broadcast use vstd::string::group_string_axioms;

// ---------------------------------------------------------------------------
// Specifications
// ---------------------------------------------------------------------------

/// Whether `c` is an ASCII digit.
pub open spec fn is_digit(c: char) -> bool {
    '0' <= c && c <= '9'
}

/// Whether `c` is an ASCII upper-case letter.
pub open spec fn is_upper(c: char) -> bool {
    'A' <= c && c <= 'Z'
}

/// Whether `c` is an ASCII lower-case letter.
pub open spec fn is_lower(c: char) -> bool {
    'a' <= c && c <= 'z'
}

/// Whether `c` is ASCII.
pub open spec fn is_ascii_char(c: char) -> bool {
    (c as u32) < 128
}

/// Whether every character of `s` is ASCII.
pub open spec fn all_ascii(s: Seq<char>) -> bool {
    forall|i: int| 0 <= i < s.len() ==> is_ascii_char(#[trigger] s[i])
}

/// `char::to_ascii_lowercase`.
pub open spec fn lower_char(c: char) -> char {
    if is_upper(c) {
        ((c as u8) + 32) as char
    } else {
        c
    }
}

/// `char::to_ascii_uppercase`.
pub open spec fn upper_char(c: char) -> char {
    if is_lower(c) {
        ((c as u8) - 32) as char
    } else {
        c
    }
}

/// `str::to_ascii_lowercase`.
pub open spec fn ascii_lower(s: Seq<char>) -> Seq<char> {
    s.map_values(|c: char| lower_char(c))
}

/// `str::to_ascii_uppercase`.
pub open spec fn ascii_upper(s: Seq<char>) -> Seq<char> {
    s.map_values(|c: char| upper_char(c))
}

/// `str::eq_ignore_ascii_case`.
pub open spec fn eq_ignore_case(a: Seq<char>, b: Seq<char>) -> bool {
    a.len() == b.len() && ascii_lower(a) == ascii_lower(b)
}

/// `str::strip_prefix`.
pub open spec fn strip_prefix(s: Seq<char>, p: Seq<char>) -> Option<Seq<char>> {
    if p.is_prefix_of(s) {
        Some(s.skip(p.len() as int))
    } else {
        None
    }
}

/// `str::strip_suffix`.
pub open spec fn strip_suffix(s: Seq<char>, p: Seq<char>) -> Option<Seq<char>> {
    if p.is_suffix_of(s) {
        Some(s.take(s.len() - p.len()))
    } else {
        None
    }
}

/// `s.strip_prefix(p).unwrap_or(s)`.
pub open spec fn without_prefix(s: Seq<char>, p: Seq<char>) -> Seq<char> {
    if p.is_prefix_of(s) {
        s.skip(p.len() as int)
    } else {
        s
    }
}

/// `s.strip_suffix(p).unwrap_or(s)`.
pub open spec fn without_suffix(s: Seq<char>, p: Seq<char>) -> Seq<char> {
    if p.is_suffix_of(s) {
        s.take(s.len() - p.len())
    } else {
        s
    }
}

/// `str::trim_end_matches` with a character pattern.
pub open spec fn trim_end_char(s: Seq<char>, c: char) -> Seq<char>
    decreases s.len(),
{
    if s.len() > 0 && s.last() == c {
        trim_end_char(s.drop_last(), c)
    } else {
        s
    }
}

/// First index at or after `i` where `p` occurs in `s`.
pub open spec fn find_from(s: Seq<char>, p: Seq<char>, i: int) -> Option<int>
    decreases s.len() + 1 - i,
{
    if i < 0 || i + p.len() > s.len() {
        None
    } else if s.subrange(i, i + p.len()) == p {
        Some(i)
    } else {
        find_from(s, p, i + 1)
    }
}

/// `str::find` with a string pattern, counted in characters.
pub open spec fn find(s: Seq<char>, p: Seq<char>) -> Option<int> {
    find_from(s, p, 0)
}

/// `str::contains` with a string pattern.
pub open spec fn contains(s: Seq<char>, p: Seq<char>) -> bool {
    find(s, p) is Some
}

/// `str::replace`: every non-overlapping occurrence of a non-empty `p`,
/// from the left, replaced by `to`.
pub open spec fn replace_nonempty(s: Seq<char>, p: Seq<char>, to: Seq<char>) -> Seq<char>
    decreases s.len(),
{
    if p.len() == 0 || s.len() < p.len() {
        s
    } else if s.take(p.len() as int) == p {
        to + replace_nonempty(s.skip(p.len() as int), p, to)
    } else {
        seq![s[0]] + replace_nonempty(s.drop_first(), p, to)
    }
}

/// `str::replace` with an empty pattern: `to` before every character and at the end.
pub open spec fn replace_empty(s: Seq<char>, to: Seq<char>) -> Seq<char>
    decreases s.len(),
{
    if s.len() == 0 {
        to
    } else {
        to + seq![s[0]] + replace_empty(s.drop_first(), to)
    }
}

/// `str::replace`.
pub open spec fn replace(s: Seq<char>, p: Seq<char>, to: Seq<char>) -> Seq<char> {
    if p.len() == 0 {
        replace_empty(s, to)
    } else {
        replace_nonempty(s, p, to)
    }
}

/// First index at or after `i` of character `c` in `s`.
pub open spec fn find_char_from(s: Seq<char>, c: char, i: int) -> Option<int>
    decreases s.len() - i,
{
    if i < 0 || i >= s.len() {
        None
    } else if s[i] == c {
        Some(i)
    } else {
        find_char_from(s, c, i + 1)
    }
}

/// Searching from `i` in `s` is searching `s.skip(i)` from its start,
/// shifted by `i`.
pub proof fn lemma_find_char_shift(s: Seq<char>, c: char, i: int)
    requires
        0 <= i <= s.len(),
    ensures
        find_char_from(s, c, i) matches Some(j) ==> i <= j < s.len() && find_char(s.skip(i), c) == Some(j - i),
        find_char_from(s, c, i) is None ==> find_char(s.skip(i), c) is None,
    decreases s.len() - i,
{
    lemma_find_char_shift_gen(s, c, i, 0);
}

proof fn lemma_find_char_shift_gen(s: Seq<char>, c: char, i: int, k: int)
    requires
        0 <= i <= s.len(),
        0 <= k <= s.len() - i,
    ensures
        find_char_from(s, c, i + k) matches Some(j) ==> i + k <= j < s.len() && find_char_from(s.skip(i), c, k) == Some(j - i),
        find_char_from(s, c, i + k) is None ==> find_char_from(s.skip(i), c, k) is None,
    decreases s.len() - i - k,
{
    if i + k < s.len() {
        if s[i + k] != c {
            lemma_find_char_shift_gen(s, c, i, k + 1);
        }
    }
}

/// First index of character `c` in `s`.
pub open spec fn find_char(s: Seq<char>, c: char) -> Option<int> {
    find_char_from(s, c, 0)
}

/// `str::split` with a character separator.
pub open spec fn split_char(s: Seq<char>, c: char) -> Seq<Seq<char>>
    decreases s.len(),
{
    match find_char(s, c) {
        Some(i) => if 0 <= i < s.len() {
            seq![s.take(i)] + split_char(s.skip(i + 1), c)
        } else {
            seq![s]
        },
        None => seq![s],
    }
}

/// `str::split_once` with a character separator.
pub open spec fn split_once_char(s: Seq<char>, c: char) -> Option<(Seq<char>, Seq<char>)> {
    match find_char(s, c) {
        Some(i) => Some((s.take(i), s.skip(i + 1))),
        None => None,
    }
}

/// The longest prefix of `s` made of ASCII digits.
pub open spec fn leading_digits(s: Seq<char>) -> Seq<char>
    decreases s.len(),
{
    if s.len() > 0 && is_digit(s[0]) {
        seq![s[0]] + leading_digits(s.drop_first())
    } else {
        Seq::empty()
    }
}

/// `char::is_whitespace`: the Unicode `White_Space` characters.
pub open spec fn is_whitespace(c: char) -> bool {
    ||| '\u{9}' <= c && c <= '\u{d}'
    ||| c == ' '
    ||| c == '\u{85}'
    ||| c == '\u{a0}'
    ||| c == '\u{1680}'
    ||| '\u{2000}' <= c && c <= '\u{200a}'
    ||| c == '\u{2028}'
    ||| c == '\u{2029}'
    ||| c == '\u{202f}'
    ||| c == '\u{205f}'
    ||| c == '\u{3000}'
}

/// `str::trim_start`.
pub open spec fn trim_start(s: Seq<char>) -> Seq<char>
    decreases s.len(),
{
    if s.len() > 0 && is_whitespace(s[0]) {
        trim_start(s.drop_first())
    } else {
        s
    }
}

/// `str::trim_end`.
pub open spec fn trim_end(s: Seq<char>) -> Seq<char>
    decreases s.len(),
{
    if s.len() > 0 && is_whitespace(s.last()) {
        trim_end(s.drop_last())
    } else {
        s
    }
}

/// `str::trim`.
pub open spec fn trim(s: Seq<char>) -> Seq<char> {
    trim_end(trim_start(s))
}

/// `str::trim_end_matches` with a non-empty string pattern.
pub open spec fn trim_end_str(s: Seq<char>, p: Seq<char>) -> Seq<char>
    decreases s.len(),
{
    if p.len() > 0 && p.is_suffix_of(s) {
        trim_end_str(s.take(s.len() - p.len()), p)
    } else {
        s
    }
}

/// `char::len_utf8`.
pub open spec fn char_utf8_len(c: char) -> nat {
    if (c as u32) < 0x80 {
        1
    } else if (c as u32) < 0x800 {
        2
    } else if (c as u32) < 0x10000 {
        3
    } else {
        4
    }
}

/// `str::len`: the length of the UTF-8 encoding.
pub open spec fn utf8_len(s: Seq<char>) -> nat
    decreases s.len(),
{
    if s.len() == 0 {
        0
    } else {
        utf8_len(s.drop_last()) + char_utf8_len(s.last())
    }
}

/// A string takes at least one and at most four bytes per character.
pub proof fn lemma_utf8_len_bounds(s: Seq<char>)
    ensures
        s.len() <= utf8_len(s) <= 4 * s.len(),
    decreases s.len(),
{
    if s.len() > 0 {
        lemma_utf8_len_bounds(s.drop_last());
    }
}

/// The UTF-8 length of `v`.
pub fn utf8_len_exec(v: &Vec<char>) -> (n: u128)
    ensures
        n == utf8_len(v@),
{
    let mut n: u128 = 0;
    let mut i: usize = 0;
    while i < v.len()
        invariant
            i <= v.len(),
            n == utf8_len(v@.take(i as int)),
            n <= 4 * i,
        decreases v.len() - i,
    {
        let c = v[i];
        let w: u128 = if (c as u32) < 0x80 {
            1
        } else if (c as u32) < 0x800 {
            2
        } else if (c as u32) < 0x10000 {
            3
        } else {
            4
        };
        assert(v@.take(i + 1).drop_last() =~= v@.take(i as int));
        n = n + w;
        i += 1;
    }
    assert(v@.take(v.len() as int) =~= v@);
    proof {
        lemma_utf8_len_bounds(v@);
    }
    n
}

/// Concatenation of a sequence of strings, in order.
pub open spec fn concat(parts: Seq<Seq<char>>) -> Seq<char>
    decreases parts.len(),
{
    if parts.len() == 0 {
        Seq::empty()
    } else {
        concat(parts.drop_last()) + parts.last()
    }
}

/// How many times `c` occurs in `s`.
pub open spec fn count_char(s: Seq<char>, c: char) -> nat
    decreases s.len(),
{
    if s.len() == 0 {
        0
    } else {
        count_char(s.drop_last(), c) + if s.last() == c {
            1nat
        } else {
            0nat
        }
    }
}

// ---------------------------------------------------------------------------
// Trusted std items that vstd gives no specification
// ---------------------------------------------------------------------------

/// `String::push`: appends one character at the end of the string.
#[verifier::external_body]
pub(crate) fn push_char(s: &mut String, c: char)
    ensures
        final(s)@ == old(s)@.push(c),
{
    s.push(c);
}

/// Full Unicode uppercase as `str::to_uppercase` computes it.
pub uninterp spec fn unicode_upper(s: Seq<char>) -> Seq<char>;

/// Full Unicode lowercase as `str::to_lowercase` computes it.
pub uninterp spec fn unicode_lower(s: Seq<char>) -> Seq<char>;

/// `str::to_uppercase`. Its documentation maps each character to its Unicode
/// uppercase; on ASCII input this is the ASCII uppercase. That is stated for
/// `s`, and for `s` followed by any ASCII text `t` (whose upper case is then
/// `r` followed by the ASCII upper case of `t`). Beyond ASCII the result is
/// only named.
#[verifier::external_body]
pub(crate) fn to_uppercase(s: &str) -> (r: String)
    ensures
        r@ == unicode_upper(s@),
        all_ascii(s@) ==> r@ == ascii_upper(s@),
        forall|t: Seq<char>|
            all_ascii(s@) && all_ascii(t) ==> #[trigger] unicode_upper(s@ + t) == r@ + ascii_upper(t),
{
    s.to_uppercase()
}

/// `str::to_lowercase`. On ASCII input the result is the ASCII lowercase;
/// beyond ASCII it is only named.
#[verifier::external_body]
pub(crate) fn to_lowercase(s: &str) -> (r: String)
    ensures
        r@ == unicode_lower(s@),
        all_ascii(s@) ==> r@ == ascii_lower(s@),
{
    s.to_lowercase()
}

// ---------------------------------------------------------------------------
// Executable operations
// ---------------------------------------------------------------------------

/// The characters of `s`, in order.
pub fn chars_of(s: &str) -> (r: Vec<char>)
    ensures
        r@ == s@,
{
    let mut r: Vec<char> = Vec::new();
    for c in it: s.chars()
        invariant
            it.seq() == s@,
            r@ == it.seq().take(it.index() as int),
    {
        r.push(c);
    }
    r
}

/// Appends the characters `v[from..to]` to `s`.
pub fn push_chars(s: &mut String, v: &Vec<char>, from: usize, to: usize)
    requires
        from <= to <= v.len(),
    ensures
        final(s)@ == old(s)@ + v@.subrange(from as int, to as int),
{
    let mut i = from;
    while i < to
        invariant
            from <= i <= to <= v.len(),
            s@ == old(s)@ + v@.subrange(from as int, i as int),
        decreases to - i,
    {
        push_char(s, v[i]);
        assert(v@.subrange(from as int, i + 1) =~= v@.subrange(from as int, i as int).push(v@[i as int]));
        i += 1;
    }
}

/// A string made of the characters `v[from..to]`.
pub fn string_of(v: &Vec<char>, from: usize, to: usize) -> (r: String)
    requires
        from <= to <= v.len(),
    ensures
        r@ == v@.subrange(from as int, to as int),
{
    let mut r = String::new();
    push_chars(&mut r, v, from, to);
    assert(r@ =~= v@.subrange(from as int, to as int));
    r
}

/// Appends `t` to `s`.
pub fn push_str(s: &mut String, t: &str)
    ensures
        final(s)@ == old(s)@ + t@,
{
    s.append(t);
}

/// Whether `p` occurs in `s` at position `at`.
pub fn matches_at(s: &Vec<char>, p: &Vec<char>, at: usize) -> (r: bool)
    ensures
        r == (at + p.len() <= s.len() && s@.subrange(at as int, at + p.len()) == p@),
{
    if p.len() > s.len() || at > s.len() - p.len() {
        return false;
    }
    let mut i: usize = 0;
    while i < p.len()
        invariant
            i <= p.len(),
            at + p.len() <= s.len(),
            forall|k: int| 0 <= k < i ==> s@[at + k] == p@[k],
        decreases p.len() - i,
    {
        if s[at + i] != p[i] {
            assert(s@.subrange(at as int, at + p.len())[i as int] != p@[i as int]);
            return false;
        }
        i += 1;
    }
    assert(s@.subrange(at as int, at + p.len()) =~= p@);
    true
}

/// `str::starts_with`.
pub fn starts_with(s: &Vec<char>, p: &Vec<char>) -> (r: bool)
    ensures
        r == p@.is_prefix_of(s@),
{
    matches_at(s, p, 0)
}

/// `str::ends_with`.
pub fn ends_with(s: &Vec<char>, p: &Vec<char>) -> (r: bool)
    ensures
        r == p@.is_suffix_of(s@),
{
    if p.len() > s.len() {
        false
    } else {
        matches_at(s, p, s.len() - p.len())
    }
}

/// Equality of two strings.
pub fn str_eq(a: &str, b: &str) -> (r: bool)
    ensures
        r == (a@ == b@),
{
    let x = chars_of(a);
    let y = chars_of(b);
    if x.len() != y.len() {
        return false;
    }
    let r = matches_at(&x, &y, 0);
    assert(x@ =~= x@.subrange(0, y@.len() as int));
    r
}

/// A match found from `i` lies at or after `i`, inside `s`, and is `p`.
pub proof fn lemma_find_from_bounds(s: Seq<char>, p: Seq<char>, i: int)
    ensures
        find_from(s, p, i) matches Some(j) ==> i <= j && j + p.len() <= s.len()
            && s.subrange(j, j + p.len()) == p,
    decreases s.len() + 1 - i,
{
    if !(i < 0 || i + p.len() > s.len()) && s.subrange(i, i + p.len()) != p {
        lemma_find_from_bounds(s, p, i + 1);
    }
}

/// The last character of a string ends every string it ends.
pub proof fn lemma_suffix_last(p: Seq<char>, x: Seq<char>)
    requires
        p.is_suffix_of(x),
        p.len() > 0,
    ensures
        x.last() == p.last(),
{
    assert(x.subrange(x.len() - p.len(), x.len() as int)[p.len() - 1] == x.last());
}

/// A string's prefix gives its first characters.
pub proof fn lemma_prefix_at(p: Seq<char>, x: Seq<char>, i: int)
    requires
        p.is_prefix_of(x),
        0 <= i < p.len(),
    ensures
        x[i] == p[i],
{
    assert(x.subrange(0, p.len() as int)[i] == x[i]);
}

/// A pattern present at `k` is found from any `i` at or before `k`.
pub proof fn lemma_found_at(s: Seq<char>, p: Seq<char>, i: int, k: int)
    requires
        0 <= i <= k,
        k + p.len() <= s.len(),
        s.subrange(k, k + p.len()) == p,
    ensures
        find_from(s, p, i) is Some,
    decreases k - i,
{
    if s.subrange(i, i + p.len()) != p {
        lemma_found_at(s, p, i + 1, k);
    }
}

/// Replacing a pattern that does not occur changes nothing.
pub proof fn lemma_replace_absent(s: Seq<char>, p: Seq<char>, to: Seq<char>)
    requires
        !contains(s, p),
    ensures
        replace(s, p, to) == s,
    decreases s.len(),
{
    if p.len() == 0 {
        assert(s.subrange(0, 0) =~= p);
        lemma_found_at(s, p, 0, 0);
    } else if s.len() >= p.len() {
        if s.take(p.len() as int) == p {
            assert(s.subrange(0, p.len() as int) == s.take(p.len() as int));
            lemma_found_at(s, p, 0, 0);
        } else {
            let d = s.drop_first();
            if contains(d, p) {
                lemma_find_from_bounds(d, p, 0);
                let j = find(d, p)->0;
                assert(s.subrange(j + 1, j + 1 + p.len()) =~= d.subrange(j, j + p.len()));
                lemma_found_at(s, p, 0, j + 1);
            }
            lemma_replace_absent(d, p, to);
            assert(seq![s[0]] + d =~= s);
        }
    }
}

/// First position at or after `from` where `p` occurs in `s`.
pub fn find_from_exec(s: &Vec<char>, p: &Vec<char>, from: usize) -> (r: Option<usize>)
    requires
        from <= s.len(),
    ensures
        r matches Some(i) ==> find_from(s@, p@, from as int) == Some(i as int),
        r is None ==> find_from(s@, p@, from as int) is None,
{
    if p.len() > s.len() - from {
        return None;
    }
    if p.len() == 0 {
        assert(s@.subrange(from as int, from as int) =~= p@);
        return Some(from);
    }
    let mut i = from;
    while i <= s.len() - p.len()
        invariant
            0 < p.len() <= s.len(),
            from <= i <= s.len() - p.len() + 1,
            find_from(s@, p@, from as int) == find_from(s@, p@, i as int),
        decreases s.len() - p.len() + 1 - i,
    {
        if matches_at(s, p, i) {
            return Some(i);
        }
        i += 1;
    }
    None
}

/// `str::find`, counted in characters.
pub fn find_exec(s: &Vec<char>, p: &Vec<char>) -> (r: Option<usize>)
    ensures
        r matches Some(i) ==> find(s@, p@) == Some(i as int) && i + p.len() <= s.len(),
        r is None ==> find(s@, p@) is None,
{
    proof {
        lemma_find_from_bounds(s@, p@, 0);
    }
    find_from_exec(s, p, 0)
}

/// `s.strip_prefix(p).unwrap_or(s)`.
pub fn without_prefix_exec(s: &Vec<char>, p: &Vec<char>) -> (r: Vec<char>)
    ensures
        r@ == without_prefix(s@, p@),
{
    if starts_with(s, p) {
        let r = slice_of(s, p.len(), s.len());
        r
    } else {
        slice_of(s, 0, s.len())
    }
}

/// `s.strip_suffix(p).unwrap_or(s)`.
pub fn without_suffix_exec(s: &Vec<char>, p: &Vec<char>) -> (r: Vec<char>)
    ensures
        r@ == without_suffix(s@, p@),
{
    if ends_with(s, p) {
        slice_of(s, 0, s.len() - p.len())
    } else {
        slice_of(s, 0, s.len())
    }
}

/// The characters `v[from..to]`.
pub fn slice_of(v: &Vec<char>, from: usize, to: usize) -> (r: Vec<char>)
    requires
        from <= to <= v.len(),
    ensures
        r@ == v@.subrange(from as int, to as int),
{
    let mut r: Vec<char> = Vec::new();
    let mut i = from;
    while i < to
        invariant
            from <= i <= to <= v.len(),
            r@ == v@.subrange(from as int, i as int),
        decreases to - i,
    {
        r.push(v[i]);
        assert(v@.subrange(from as int, i + 1) =~= v@.subrange(from as int, i as int).push(v@[i as int]));
        i += 1;
    }
    r
}

/// `a` followed by `b`.
pub fn join(a: &Vec<char>, b: &Vec<char>) -> (r: Vec<char>)
    ensures
        r@ == a@ + b@,
{
    let mut r = slice_of(a, 0, a.len());
    let mut i: usize = 0;
    while i < b.len()
        invariant
            i <= b.len(),
            r@ == a@ + b@.take(i as int),
        decreases b.len() - i,
    {
        r.push(b[i]);
        assert(b@.take(i + 1) =~= b@.take(i as int).push(b@[i as int]));
        i += 1;
    }
    assert(b@.take(b.len() as int) =~= b@);
    r
}

/// Whether `c` is an ASCII digit.
pub fn is_digit_exec(c: char) -> (r: bool)
    ensures
        r == is_digit(c),
{
    '0' <= c && c <= '9'
}

/// `char::to_ascii_lowercase`.
pub fn lower_char_exec(c: char) -> (r: char)
    ensures
        r == lower_char(c),
{
    if 'A' <= c && c <= 'Z' {
        ((c as u8) + 32) as char
    } else {
        c
    }
}

/// `char::to_ascii_uppercase`.
pub fn upper_char_exec(c: char) -> (r: char)
    ensures
        r == upper_char(c),
{
    if 'a' <= c && c <= 'z' {
        ((c as u8) - 32) as char
    } else {
        c
    }
}

/// `str::to_ascii_lowercase` on characters.
pub fn ascii_lower_exec(s: &Vec<char>) -> (r: Vec<char>)
    ensures
        r@ == ascii_lower(s@),
{
    let mut r: Vec<char> = Vec::new();
    let mut i: usize = 0;
    while i < s.len()
        invariant
            i <= s.len(),
            r@ == ascii_lower(s@.take(i as int)),
        decreases s.len() - i,
    {
        r.push(lower_char_exec(s[i]));
        assert(ascii_lower(s@.take(i + 1)) =~= ascii_lower(s@.take(i as int)).push(lower_char(s@[i as int])));
        i += 1;
    }
    assert(s@.take(s.len() as int) =~= s@);
    r
}

/// `str::eq_ignore_ascii_case`.
pub fn eq_ignore_case_exec(a: &Vec<char>, b: &Vec<char>) -> (r: bool)
    ensures
        r == eq_ignore_case(a@, b@),
{
    if a.len() != b.len() {
        return false;
    }
    let la = ascii_lower_exec(a);
    let lb = ascii_lower_exec(b);
    let r = matches_at(&la, &lb, 0);
    assert(la@ =~= la@.subrange(0, lb@.len() as int));
    r
}

/// First position at or after `from` of character `c` in `v`.
pub fn find_char_exec(v: &Vec<char>, c: char, from: usize) -> (r: Option<usize>)
    ensures
        r matches Some(i) ==> find_char_from(v@, c, from as int) == Some(i as int) && from <= i
            < v.len(),
        r is None ==> find_char_from(v@, c, from as int) is None,
{
    let mut i = from;
    while i < v.len()
        invariant
            from <= i,
            find_char_from(v@, c, from as int) == find_char_from(v@, c, i as int),
        decreases v.len() - i,
    {
        if v[i] == c {
            return Some(i);
        }
        i += 1;
    }
    None
}

/// Number of ASCII digits at the start of `v[from..]`.
pub fn leading_digits_len(v: &Vec<char>, from: usize) -> (n: usize)
    requires
        from <= v.len(),
    ensures
        from + n <= v.len(),
        v@.subrange(from as int, from + n) == leading_digits(v@.skip(from as int)),
{
    let mut i = from;
    while i < v.len() && is_digit_exec(v[i])
        invariant
            from <= i <= v.len(),
            leading_digits(v@.skip(from as int)) == v@.subrange(from as int, i as int)
                + leading_digits(v@.skip(i as int)),
        decreases v.len() - i,
    {
        assert(v@.skip(i as int).drop_first() =~= v@.skip(i + 1));
        assert(v@.subrange(from as int, i + 1) =~= v@.subrange(from as int, i as int) + seq![v@[i as int]]);
        i += 1;
    }
    assert(v@.subrange(from as int, from as int) =~= Seq::<char>::empty());
    assert(leading_digits(v@.skip(i as int)) =~= Seq::<char>::empty());
    i - from
}

/// `char::is_whitespace`.
pub fn is_whitespace_exec(c: char) -> (r: bool)
    ensures
        r == is_whitespace(c),
{
    ('\u{9}' <= c && c <= '\u{d}') || c == ' ' || c == '\u{85}' || c == '\u{a0}' || c == '\u{1680}'
        || ('\u{2000}' <= c && c <= '\u{200a}') || c == '\u{2028}' || c == '\u{2029}' || c
        == '\u{202f}' || c == '\u{205f}' || c == '\u{3000}'
}

/// `str::trim` on characters.
pub fn trim_exec(s: &Vec<char>) -> (r: Vec<char>)
    ensures
        r@ == trim(s@),
{
    let mut a: usize = 0;
    assert(s@.skip(0) =~= s@);
    while a < s.len() && is_whitespace_exec(s[a])
        invariant
            a <= s.len(),
            trim_start(s@) == trim_start(s@.skip(a as int)),
        decreases s.len() - a,
    {
        assert(s@.skip(a as int).drop_first() =~= s@.skip(a + 1));
        a += 1;
    }
    let mut b: usize = s.len();
    assert(s@.skip(a as int) =~= s@.subrange(a as int, b as int));
    while b > a && is_whitespace_exec(s[b - 1])
        invariant
            a <= b <= s.len(),
            trim_start(s@) == s@.skip(a as int),
            trim(s@) == trim_end(s@.subrange(a as int, b as int)),
        decreases b,
    {
        assert(s@.subrange(a as int, b as int).drop_last() =~= s@.subrange(a as int, b - 1));
        b -= 1;
    }
    slice_of(s, a, b)
}

/// `str::trim_end_matches` with a non-empty string pattern.
pub fn trim_end_str_exec(s: &Vec<char>, p: &Vec<char>) -> (r: Vec<char>)
    requires
        p.len() > 0,
    ensures
        r@ == trim_end_str(s@, p@),
{
    let mut cur = slice_of(s, 0, s.len());
    assert(cur@ =~= s@);
    while ends_with(&cur, p)
        invariant
            p.len() > 0,
            trim_end_str(s@, p@) == trim_end_str(cur@, p@),
        decreases cur.len(),
    {
        cur = slice_of(&cur, 0, cur.len() - p.len());
    }
    cur
}

/// `str::trim_end_matches` with a character pattern.
pub fn trim_end_char_exec(s: &Vec<char>, c: char) -> (r: Vec<char>)
    ensures
        r@ == trim_end_char(s@, c),
{
    let mut end = s.len();
    assert(s@.take(end as int) =~= s@);
    while end > 0 && s[end - 1] == c
        invariant
            end <= s.len(),
            trim_end_char(s@, c) == trim_end_char(s@.take(end as int), c),
        decreases end,
    {
        assert(s@.take(end as int).drop_last() =~= s@.take(end - 1));
        end -= 1;
    }
    assert(s@.take(end as int) =~= trim_end_char(s@.take(end as int), c));
    slice_of(s, 0, end)
}

/// `str::replace`.
pub fn replace_exec(s: &Vec<char>, p: &Vec<char>, to: &Vec<char>) -> (r: Vec<char>)
    ensures
        r@ == replace(s@, p@, to@),
{
    if p.len() == 0 {
        let mut r: Vec<char> = Vec::new();
        let mut i: usize = 0;
        assert(s@.skip(0) =~= s@);
        assert(r@ + replace_empty(s@, to@) =~= replace_empty(s@, to@));
        while i < s.len()
            invariant
                i <= s.len(),
                r@ + replace_empty(s@.skip(i as int), to@) == replace_empty(s@, to@),
            decreases s.len() - i,
        {
            r = join(&r, to);
            r.push(s[i]);
            assert(s@.skip(i as int).drop_first() =~= s@.skip(i + 1));
            assert(r@ + replace_empty(s@.skip(i + 1), to@) =~= r@.drop_last() + (seq![s@[i as int]] + replace_empty(s@.skip(i + 1), to@)));
            i += 1;
        }
        r = join(&r, to);
        return r;
    }
    let mut r: Vec<char> = Vec::new();
    let mut i: usize = 0;
    assert(s@.skip(0) =~= s@);
    assert(r@ + replace_nonempty(s@, p@, to@) =~= replace_nonempty(s@, p@, to@));
    while i < s.len()
        invariant
            p.len() > 0,
            i <= s.len(),
            r@ + replace_nonempty(s@.skip(i as int), p@, to@) == replace_nonempty(s@, p@, to@),
        decreases s.len() - i,
    {
        let ghost rest = s@.skip(i as int);
        if matches_at(s, p, i) {
            assert(rest.take(p.len() as int) =~= s@.subrange(i as int, i + p.len()));
            assert(rest.skip(p.len() as int) =~= s@.skip(i + p.len()));
            r = join(&r, to);
            i += p.len();
        } else {
            proof {
                if rest.len() >= p.len() {
                    assert(rest.take(p.len() as int) =~= s@.subrange(i as int, i + p.len()));
                }
            }
            assert(rest.drop_first() =~= s@.skip(i + 1));
            r.push(s[i]);
            i += 1;
        }
    }
    assert(s@.skip(i as int) =~= Seq::<char>::empty());
    r
}

/// `str::split` with a character separator, each piece as a `String`.
pub fn split_char_exec(s: &str, c: char) -> (r: Vec<String>)
    ensures
        r@.map_values(|x: String| x@) == split_char(s@, c),
{
    let v = chars_of(s);
    let mut out: Vec<String> = Vec::new();
    let mut start: usize = 0;
    assert(v@.skip(0) =~= v@);
    assert(out@.map_values(|x: String| x@) + split_char(v@.skip(0), c) =~= split_char(s@, c));
    loop
        invariant
            start <= v.len(),
            v@ == s@,
            out@.map_values(|x: String| x@) + split_char(v@.skip(start as int), c) == split_char(s@, c),
        decreases v.len() - start,
    {
        let ghost rest = v@.skip(start as int);
        let ghost before = out@;
        proof {
            lemma_find_char_shift(v@, c, start as int);
        }
        match find_char_exec(&v, c, start) {
            Some(i) => {
                out.push(string_of(&v, start, i));
                assert(rest.take(i - start) =~= v@.subrange(start as int, i as int));
                assert(rest.skip(i - start + 1) =~= v@.skip(i + 1));
                assert(out@.map_values(|x: String| x@) =~= before.map_values(|x: String| x@).push(rest.take(i - start)));
                assert(out@.map_values(|x: String| x@) + split_char(v@.skip(i + 1), c) =~= before.map_values(
                    |x: String| x@,
                ) + split_char(rest, c));
                start = i + 1;
            },
            None => {
                out.push(string_of(&v, start, v.len()));
                assert(rest =~= v@.subrange(start as int, v.len() as int));
                assert(out@.map_values(|x: String| x@) =~= before.map_values(|x: String| x@) + split_char(rest, c));
                return out;
            },
        }
    }
}

/// How many times `c` occurs in `v`.
pub fn count_char_exec(v: &Vec<char>, c: char) -> (n: usize)
    ensures
        n == count_char(v@, c),
{
    let mut n: usize = 0;
    let mut i: usize = 0;
    while i < v.len()
        invariant
            i <= v.len(),
            n == count_char(v@.take(i as int), c),
            n <= i,
        decreases v.len() - i,
    {
        assert(v@.take(i + 1).drop_last() =~= v@.take(i as int));
        if v[i] == c {
            n += 1;
        }
        i += 1;
    }
    assert(v@.take(i as int) =~= v@);
    n
}

} // verus!
