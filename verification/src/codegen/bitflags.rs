//! Names and literals of the bitflag types.
use crate::casing::{snake_case, to_snake_case};
use crate::codegen::{Writer, const_name, const_name_spec, file_header, file_header_lines, lemma_vendor_tags_ascii, lemma_vendor_tags_letters, render_lines, rust_name, rust_name_spec, vendor_tags, vendors};
use crate::codegen::enums::{better_pascal_case, better_pascal_spec, is_vendor_word, pascal_segment};
use crate::number::{all_digits, digit_value, digits_value};
use crate::parse::registry::{EnumModel, EnumValueModel, Registry, TypeKind, TypeKindModel, TypeModel, VkEnum};
use crate::parse::tables::{entries_get, enum_map_entries, enum_map_get, type_map_entries, type_map_get_index, type_map_len};
use crate::text::{all_ascii, ascii_lower, ascii_upper, chars_of, contains, ends_with, eq_ignore_case, find, find_char, find_char_from, find_exec, find_from, is_ascii_char, is_digit, is_digit_exec, is_lower, is_upper, join, leading_digits, leading_digits_len, lemma_find_char_shift, lemma_find_from_bounds, lemma_found_at, lemma_suffix_last, lower_char, push_char, push_chars, push_str, slice_of, starts_with, str_eq, string_of, strip_prefix, to_uppercase, trim_end_char, unicode_upper, upper_char, without_suffix, without_suffix_exec};
use vstd::prelude::*;

verus! {

broadcast use vstd::string::group_string_axioms;

// ---------------------------------------------------------------------------
// Vendor suffixes
// ---------------------------------------------------------------------------

/// Splits `name` at the first vendor tag (tried in order) whose upper-case
/// form ends it, into the rest and that upper-case form; `(name, "")` when
/// there is none.
pub open spec fn split_vendor_from(name: Seq<char>, i: int) -> (Seq<char>, Seq<char>)
    decreases vendor_tags().len() - i,
{
    if i < 0 || i >= vendor_tags().len() {
        (name, Seq::empty())
    } else if ascii_upper(vendor_tags()[i]).is_suffix_of(name) {
        (name.take(name.len() - vendor_tags()[i].len()), ascii_upper(vendor_tags()[i]))
    } else {
        split_vendor_from(name, i + 1)
    }
}

/// What [`split_vendor_suffix`] returns.
pub open spec fn split_vendor_spec(name: Seq<char>) -> (Seq<char>, Seq<char>) {
    split_vendor_from(name, 0)
}

/// The upper-case form of an ASCII word is ASCII, and stays as it is when
/// put in upper case again.
proof fn lemma_ascii_upper_twice(t: Seq<char>)
    requires
        all_ascii(t),
    ensures
        all_ascii(ascii_upper(t)),
        ascii_upper(ascii_upper(t)) == ascii_upper(t),
{
    assert(ascii_upper(ascii_upper(t)) =~= ascii_upper(t));
}

/// The vendor part of a split is the upper-case form of a vendor tag, or
/// empty, and the two parts put back together give the name.
proof fn lemma_split_vendor_parts(name: Seq<char>, i: int)
    requires
        0 <= i,
    ensures
        all_ascii(split_vendor_from(name, i).1),
        ascii_upper(split_vendor_from(name, i).1) == split_vendor_from(name, i).1,
        split_vendor_from(name, i).0 + split_vendor_from(name, i).1 == name,
        split_vendor_from(name, i).1.len() == 0 || exists|k: int|
            0 <= k < vendor_tags().len() && ascii_upper(vendor_tags()[k]) == split_vendor_from(name, i).1,
    decreases vendor_tags().len() - i,
{
    lemma_vendor_tags_ascii();
    if i >= vendor_tags().len() {
        assert(ascii_upper(Seq::<char>::empty()) =~= Seq::<char>::empty());
        assert(name + Seq::<char>::empty() =~= name);
    } else if ascii_upper(vendor_tags()[i]).is_suffix_of(name) {
        let t = vendor_tags()[i];
        lemma_ascii_upper_twice(t);
        assert(ascii_upper(t).len() == t.len());
        assert(name.take(name.len() - t.len()) + ascii_upper(t) =~= name);
    } else {
        lemma_split_vendor_parts(name, i + 1);
    }
}

/// Splitting off a vendor suffix loses nothing: the base followed by the
/// suffix is the name, and the suffix is the upper-case form of one of the
/// vendor tags, or empty.
pub proof fn split_vendor_rejoins(name: Seq<char>)
    ensures
        split_vendor_spec(name).0 + split_vendor_spec(name).1 == name,
        split_vendor_spec(name).1.len() == 0 || vendor_tags().map_values(|t: Seq<char>| ascii_upper(t)).contains(
            split_vendor_spec(name).1,
        ),
{
    lemma_split_vendor_parts(name, 0);
    if split_vendor_spec(name).1.len() != 0 {
        let k = choose|k: int|
            0 <= k < vendor_tags().len() && ascii_upper(vendor_tags()[k]) == split_vendor_from(name, 0).1;
        assert(vendor_tags().map_values(|t: Seq<char>| ascii_upper(t))[k] == split_vendor_spec(name).1);
    }
}

/// Splits a SCREAMING_SNAKE name into `(base, vendor_suffix)`: the suffix is
/// the upper-case vendor tag that ends the name, and the base what comes
/// before it.
///
/// - `"INDIRECT_COMMAND_READ_BIT_KHR"` → `("INDIRECT_COMMAND_READ_BIT_", "KHR")`
/// - `"INDIRECT_COMMAND_READ_BIT"` → `("INDIRECT_COMMAND_READ_BIT", "")`
pub fn split_vendor_suffix(name: &str) -> (r: (&str, &str))
    ensures
        (r.0@, r.1@) == split_vendor_spec(name@),
{
    proof {
        lemma_vendor_tags_ascii();
        reveal_strlit("");
    }
    let cs = chars_of(name);
    let vs = vendors();
    let mut i: usize = 0;
    while i < vs.len()
        invariant
            i <= vs.len(),
            cs@ == name@,
            vs@.len() == vendor_tags().len(),
            forall|j: int| 0 <= j < vs@.len() ==> (#[trigger] vs@[j])@ == vendor_tags()[j],
            forall|j: int| 0 <= j < vendor_tags().len() ==> all_ascii(#[trigger] vendor_tags()[j]),
            split_vendor_spec(name@) == split_vendor_from(name@, i as int),
        decreases vs.len() - i,
    {
        let tag: &'static str = vs[i];
        let up = to_uppercase(tag);
        let upc = chars_of(up.as_str());
        if ends_with(&cs, &upc) {
            let tag_len = tag.unicode_len();
            assert(ascii_upper(tag@).len() == tag@.len());
            let base = name.substring_char(0, cs.len() - tag_len);
            assert(base@ =~= name@.take(name@.len() - tag@.len()));
            let suffix = name.substring_char(cs.len() - tag_len, cs.len());
            assert(suffix@ =~= ascii_upper(tag@));
            return (base, suffix);
        }
        i += 1;
    }
    (name, "")
}

// ---------------------------------------------------------------------------
// Identifiers that must not start with a digit
// ---------------------------------------------------------------------------

/// `"8Bit"` → `"Type8Bit"`; any other string is kept.
pub open spec fn move_digits_to_end_spec(s: Seq<char>) -> Seq<char> {
    if s.len() > 0 && is_digit(s[0]) {
        "Type"@ + s
    } else {
        s
    }
}

/// Makes a PascalCase name a valid Rust identifier: a name that starts with a
/// digit is prefixed with `Type`, any other is kept.
///
/// - `"8Bit"` → `"Type8Bit"`
/// - `"R8G8"` → `"R8G8"`
pub fn move_digits_to_end(s: &str) -> (r: String)
    ensures
        r@ == move_digits_to_end_spec(s@),
        r@.len() > 0 ==> !is_digit(r@[0]),
{
    proof {
        reveal_strlit("Type");
    }
    let cs = chars_of(s);
    if cs.len() > 0 && is_digit_exec(cs[0]) {
        let mut r = String::new();
        push_str(&mut r, "Type");
        push_str(&mut r, s);
        return r;
    }
    // The leading digit run is empty here, so moving it behind the rest
    // gives back the name itself.
    let split_index = leading_digits_len(&cs, 0);
    assert(cs@.skip(0) =~= cs@);
    assert(leading_digits(cs@) =~= Seq::<char>::empty());
    assert(cs@.subrange(0, split_index as int).len() == 0);
    let mut r = string_of(&cs, split_index, cs.len());
    push_chars(&mut r, &cs, 0, split_index);
    assert(r@ =~= s@);
    r
}

// ---------------------------------------------------------------------------
// Binary literals
// ---------------------------------------------------------------------------

/// The binary digit for `b`.
pub open spec fn bit_char(b: nat) -> char {
    if b == 0 {
        '0'
    } else {
        '1'
    }
}

/// The binary digits of `n`, most significant first, without leading zeros.
pub open spec fn binary_digits(n: nat) -> Seq<char>
    decreases n,
{
    if n < 2 {
        seq![bit_char(n)]
    } else {
        binary_digits(n / 2).push(bit_char(n % 2))
    }
}

/// `d` with an `_` before every group of four digits counted from the right.
pub open spec fn group_by_four(d: Seq<char>) -> Seq<char>
    decreases d.len(),
{
    if d.len() <= 4 {
        d
    } else {
        group_by_four(d.take(d.len() - 4)) + seq!['_'] + d.skip(d.len() - 4)
    }
}

/// `0` → `"0"`, `256` → `"0b1_0000_0000"`.
pub open spec fn binary_literal_spec(v: u32) -> Seq<char> {
    if v == 0 {
        "0"@
    } else {
        "0b"@ + group_by_four(binary_digits(v as nat))
    }
}

proof fn lemma_binary_digits_len(n: nat)
    ensures
        binary_digits(n).len() >= 1,
    decreases n,
{
    if n >= 2 {
        lemma_binary_digits_len(n / 2);
    }
}

/// `s` with every `c` removed.
pub open spec fn without_char(s: Seq<char>, c: char) -> Seq<char>
    decreases s.len(),
{
    if s.len() == 0 {
        Seq::empty()
    } else {
        without_char(s.drop_last(), c) + if s.last() == c {
            Seq::<char>::empty()
        } else {
            seq![s.last()]
        }
    }
}

proof fn lemma_without_char_add(a: Seq<char>, b: Seq<char>, c: char)
    ensures
        without_char(a + b, c) == without_char(a, c) + without_char(b, c),
    decreases b.len(),
{
    if b.len() == 0 {
        assert(a + b =~= a);
        assert(without_char(a, c) + without_char(b, c) =~= without_char(a, c));
    } else {
        lemma_without_char_add(a, b.drop_last(), c);
        assert((a + b).drop_last() =~= a + b.drop_last());
        assert((a + b).last() == b.last());
        let t = if b.last() == c {
            Seq::<char>::empty()
        } else {
            seq![b.last()]
        };
        assert(without_char(a, c) + without_char(b.drop_last(), c) + t =~= without_char(a, c) + (without_char(
            b.drop_last(),
            c,
        ) + t));
    }
}

proof fn lemma_without_char_absent(s: Seq<char>, c: char)
    requires
        !s.contains(c),
    ensures
        without_char(s, c) == s,
    decreases s.len(),
{
    if s.len() > 0 {
        assert(!s.drop_last().contains(c)) by {
            if s.drop_last().contains(c) {
                let k = choose|k: int| 0 <= k < s.drop_last().len() && s.drop_last()[k] == c;
                assert(s[k] == c);
            }
        }
        lemma_without_char_absent(s.drop_last(), c);
        assert(s.last() != c) by {
            assert(s[s.len() - 1] == s.last());
        }
        assert(s.drop_last() + seq![s.last()] =~= s);
    }
}

proof fn lemma_group_by_four_ungroups(d: Seq<char>)
    requires
        !d.contains('_'),
    ensures
        without_char(group_by_four(d), '_') == d,
    decreases d.len(),
{
    if d.len() <= 4 {
        lemma_without_char_absent(d, '_');
    } else {
        let a = d.take(d.len() - 4);
        let b = d.skip(d.len() - 4);
        assert(!a.contains('_')) by {
            if a.contains('_') {
                let k = choose|k: int| 0 <= k < a.len() && a[k] == '_';
                assert(d[k] == '_');
            }
        }
        assert(!b.contains('_')) by {
            if b.contains('_') {
                let k = choose|k: int| 0 <= k < b.len() && b[k] == '_';
                assert(d[d.len() - 4 + k] == '_');
            }
        }
        lemma_group_by_four_ungroups(a);
        lemma_without_char_add(group_by_four(a) + seq!['_'], b, '_');
        lemma_without_char_add(group_by_four(a), seq!['_'], '_');
        lemma_without_char_absent(b, '_');
        assert(without_char(seq!['_'], '_') =~= Seq::<char>::empty()) by {
            let one = seq!['_'];
            assert(one.len() == 1);
            assert(one.last() == '_');
            assert(one.drop_last() =~= Seq::<char>::empty());
            assert(without_char(Seq::<char>::empty(), '_') == Seq::<char>::empty());
        }
        assert(a + b =~= d);
    }
}

proof fn lemma_binary_digits_value(n: nat)
    ensures
        digits_value(binary_digits(n), 2) == n,
        all_digits(binary_digits(n), 2),
        !binary_digits(n).contains('_'),
    decreases n,
{
    if n >= 2 {
        lemma_binary_digits_value(n / 2);
        let d = binary_digits(n / 2);
        let e = d.push(bit_char(n % 2));
        assert(binary_digits(n) == e);
        assert(e.drop_last() =~= d);
        assert(e.last() == bit_char(n % 2));
        assert(digits_value(e, 2) == digits_value(d, 2) * 2 + (n % 2));
        assert(digit_value(bit_char(n % 2), 2) == Some((n % 2) as nat));
        assert((n / 2) * 2 + n % 2 == n) by (nonlinear_arith);
        assert forall|i: int| 0 <= i < e.len() implies (#[trigger] digit_value(e[i], 2)) is Some by {
            if i < d.len() {
                assert(e[i] == d[i]);
            }
        }
        assert(!e.contains('_')) by {
            if e.contains('_') {
                let k = choose|k: int| 0 <= k < e.len() && e[k] == '_';
                if k < d.len() {
                    assert(e[k] == d[k]);
                }
            }
        }
    } else {
        let e = binary_digits(n);
        assert(e == seq![bit_char(n)]);
        assert(e.drop_last() =~= Seq::<char>::empty());
        assert(digit_value(bit_char(n), 2) == Some(n));
        assert(digits_value(Seq::<char>::empty(), 2) == 0);
        assert(digits_value(e, 2) == n);
        assert(!e.contains('_')) by {
            if e.contains('_') {
                let k = choose|k: int| 0 <= k < e.len() && e[k] == '_';
                assert(k == 0);
            }
        }
    }
}

/// Whether `g` is made of `_`-separated groups of characters other than
/// `_`: the first of one to four, every later one of exactly four.
pub open spec fn grouped_by_four(g: Seq<char>) -> bool
    decreases g.len(),
{
    if g.len() <= 4 {
        g.len() >= 1 && !g.contains('_')
    } else {
        &&& g[g.len() - 5] == '_'
        &&& !g.skip(g.len() - 4).contains('_')
        &&& grouped_by_four(g.take(g.len() - 5))
    }
}

proof fn lemma_group_by_four_grouped(d: Seq<char>)
    requires
        d.len() >= 1,
        !d.contains('_'),
    ensures
        grouped_by_four(group_by_four(d)),
        group_by_four(d)[0] == d[0],
    decreases d.len(),
{
    if d.len() > 4 {
        let a = d.take(d.len() - 4);
        let b = d.skip(d.len() - 4);
        assert(!a.contains('_')) by {
            if a.contains('_') {
                let k = choose|k: int| 0 <= k < a.len() && a[k] == '_';
                assert(d[k] == '_');
            }
        }
        assert(!b.contains('_')) by {
            if b.contains('_') {
                let k = choose|k: int| 0 <= k < b.len() && b[k] == '_';
                assert(d[d.len() - 4 + k] == '_');
            }
        }
        lemma_group_by_four_grouped(a);
        let ga = group_by_four(a);
        let g = ga + seq!['_'] + b;
        assert(group_by_four(d) == g);
        assert(g[g.len() - 5] == '_');
        assert(g.skip(g.len() - 4) =~= b);
        assert(g.take(g.len() - 5) =~= ga);
        assert(g[0] == ga[0]);
        assert(a[0] == d[0]);
    }
}

proof fn lemma_binary_digits_lead(n: nat)
    requires
        n >= 1,
    ensures
        binary_digits(n)[0] == '1',
    decreases n,
{
    if n >= 2 {
        lemma_binary_digits_lead(n / 2);
        lemma_binary_digits_len(n / 2);
    }
}

/// A binary literal denotes its value: exactly `0` is written `0`; any other
/// value is written `0b1` and more binary digits, in `_`-separated groups
/// of four counted from the right (the first group one to four long), which
/// with the separators removed read back as the value.
pub proof fn binary_literal_denotes(v: u32)
    ensures
        (v == 0) == (binary_literal_spec(v) == "0"@),
        v != 0 ==> "0b1"@.is_prefix_of(binary_literal_spec(v)),
        v != 0 ==> grouped_by_four(binary_literal_spec(v).skip(2)),
        v != 0 ==> all_digits(without_char(binary_literal_spec(v).skip(2), '_'), 2),
        v != 0 ==> digits_value(without_char(binary_literal_spec(v).skip(2), '_'), 2) == v,
{
    reveal_strlit("0");
    reveal_strlit("0b");
    reveal_strlit("0b1");
    if v != 0 {
        lemma_binary_digits_value(v as nat);
        lemma_binary_digits_len(v as nat);
        lemma_binary_digits_lead(v as nat);
        lemma_group_by_four_ungroups(binary_digits(v as nat));
        lemma_group_by_four_grouped(binary_digits(v as nat));
        let lit = binary_literal_spec(v);
        assert(lit.skip(2) =~= group_by_four(binary_digits(v as nat)));
        assert(lit[2] == '1');
        assert(lit.subrange(0, 3) =~= "0b1"@);
        assert(lit.len() != 1);
    }
}

fn binary_digits_exec(v: u32) -> (d: Vec<char>)
    ensures
        d@ == binary_digits(v as nat),
{
    let mut m = v;
    let mut tail: Vec<char> = Vec::new();
    assert(binary_digits(v as nat) =~= binary_digits(m as nat) + tail@);
    while m >= 2
        invariant
            binary_digits(v as nat) == binary_digits(m as nat) + tail@,
        decreases m,
    {
        let c = if m % 2 == 0 {
            '0'
        } else {
            '1'
        };
        assert(binary_digits(m as nat) == binary_digits((m / 2) as nat).push(c));
        let ghost t0 = tail@;
        tail.insert(0, c);
        assert(tail@ =~= seq![c] + t0);
        assert(binary_digits(m as nat) + t0 =~= binary_digits((m / 2) as nat) + tail@);
        m = m / 2;
    }
    let c = if m == 0 {
        '0'
    } else {
        '1'
    };
    let mut d: Vec<char> = Vec::new();
    d.push(c);
    let d = join(&d, &tail);
    assert(binary_digits(m as nat) =~= seq![c]);
    d
}

/// Formats a `u32` as a grouped binary literal (`0b1_0000_0000`).
pub fn to_binary_literal(value: u32) -> (r: String)
    ensures
        r@ == binary_literal_spec(value),
{
    if value == 0 {
        return "0".to_string();
    }
    let d = binary_digits_exec(value);
    proof {
        lemma_binary_digits_len(value as nat);
    }
    let n = d.len();
    let head = (n - 1) % 4 + 1;
    let mut r = String::new();
    push_str(&mut r, "0b");
    push_chars(&mut r, &d, 0, head);
    assert(d@.take(head as int) =~= d@.subrange(0, head as int));
    let mut j = head;
    while j < n
        invariant
            n == d@.len(),
            1 <= head <= 4,
            head <= j <= n,
            (j - head) % 4 == 0,
            (n - head) % 4 == 0,
            r@ == "0b"@ + group_by_four(d@.take(j as int)),
        decreases n - j,
    {
        push_char(&mut r, '_');
        push_chars(&mut r, &d, j, j + 4);
        assert(d@.take(j + 4).take(j as int) =~= d@.take(j as int));
        assert(d@.take(j + 4).skip(j as int) =~= d@.subrange(j as int, j + 4));
        assert(r@ =~= "0b"@ + group_by_four(d@.take(j + 4)));
        j += 4;
    }
    assert(d@.take(n as int) =~= d@);
    r
}

} // verus!

verus! {

// ---------------------------------------------------------------------------
// Value names
// ---------------------------------------------------------------------------

/// `name` with `FlagBits` and what follows removed, keeping a version digit
/// run that directly follows it as `_<digits>`:
/// `VkAccessFlagBits2KHR` → `VkAccess_2`, `VkFormat` → `VkFormat`.
pub open spec fn flag_bits_stem_spec(name: Seq<char>) -> Seq<char> {
    match find(name, "FlagBits"@) {
        Some(i) => {
            let digits = leading_digits(name.skip(i + "FlagBits"@.len()));
            name.take(i) + if digits.len() == 0 {
                Seq::<char>::empty()
            } else {
                seq!['_'] + digits
            }
        },
        None => name,
    }
}

/// The value-name prefix given the SCREAMING_SNAKE form of the enum's stem:
/// without the vendor suffix, and ending in exactly one `_`.
pub open spec fn prefix_from_screaming_spec(screaming: Seq<char>) -> Seq<char> {
    trim_end_char(split_vendor_spec(screaming).0, '_').push('_')
}

proof fn lemma_trim_end_char(s: Seq<char>, c: char)
    ensures
        trim_end_char(s, c).len() > 0 ==> trim_end_char(s, c).last() != c,
    decreases s.len(),
{
    if s.len() > 0 && s.last() == c {
        lemma_trim_end_char(s.drop_last(), c);
    }
}

/// The value-name prefix of every enum ends in exactly one `_`.
pub proof fn prefix_ends_in_one_underscore(screaming: Seq<char>)
    ensures
        prefix_from_screaming_spec(screaming).last() == '_',
        prefix_from_screaming_spec(screaming).len() >= 2 ==> prefix_from_screaming_spec(screaming)[prefix_from_screaming_spec(
            screaming,
        ).len() - 2] != '_',
{
    let t = trim_end_char(split_vendor_spec(screaming).0, '_');
    lemma_trim_end_char(split_vendor_spec(screaming).0, '_');
    if t.len() > 0 {
        assert(t.push('_')[t.len() - 1] == t.last());
    }
}

/// A tag that no earlier tag of the list ends is what the split takes off a
/// name that ends in `_` and that tag's upper-case form.
proof fn lemma_split_at_tag(s: Seq<char>, k: int)
    requires
        0 <= k < vendor_tags().len(),
        forall|j: int|
            0 <= j < k ==> !ascii_upper(#[trigger] vendor_tags()[j]).is_suffix_of(ascii_upper(vendor_tags()[k])),
    ensures
        split_vendor_spec(s + "_"@ + ascii_upper(vendor_tags()[k])) == (s + "_"@, ascii_upper(vendor_tags()[k])),
{
    reveal_strlit("_");
    lemma_vendor_tags_ascii();
    lemma_vendor_tags_letters();
    let t = ascii_upper(vendor_tags()[k]);
    let x = s + "_"@ + t;
    assert(t.is_suffix_of(x)) by {
        assert(x.subrange(x.len() - t.len(), x.len() as int) =~= t);
    }
    assert forall|j: int| 0 <= j < k implies !ascii_upper(#[trigger] vendor_tags()[j]).is_suffix_of(x) by {
        let a = ascii_upper(vendor_tags()[j]);
        if a.is_suffix_of(x) {
            if a.len() <= t.len() {
                lemma_suffix_within(a, t, x);
            } else {
                let m = a.len() - t.len() - 1;
                assert(a[m] == x.subrange(x.len() - a.len(), x.len() as int)[m]);
                assert(x[x.len() - t.len() - 1] == '_');
                assert(is_upper(vendor_tags()[j][m]) || is_lower(vendor_tags()[j][m]));
            }
        }
    }
    lemma_split_skip(x, 0, k);
    assert(x.take(x.len() - vendor_tags()[k].len()) =~= s + "_"@);
}

proof fn lemma_split_skip(x: Seq<char>, i: int, k: int)
    requires
        0 <= i <= k < vendor_tags().len(),
        forall|j: int| i <= j < k ==> !ascii_upper(#[trigger] vendor_tags()[j]).is_suffix_of(x),
    ensures
        split_vendor_from(x, i) == split_vendor_from(x, k),
    decreases k - i,
{
    if i < k {
        lemma_split_skip(x, i + 1, k);
    }
}

/// A vendor suffix on an enum's SCREAMING_SNAKE name does not change the
/// prefix of its value names: for a name `s` that does not end in a vendor
/// tag, `s_TAG`, where `TAG` is the upper-case form of a vendor tag that no
/// earlier tag of the list ends, gives the prefix `s` gives.
pub proof fn prefix_ignores_vendor_suffix(s: Seq<char>, k: int)
    requires
        0 <= k < vendor_tags().len(),
        split_vendor_spec(s).1.len() == 0,
        forall|j: int|
            0 <= j < k ==> !ascii_upper(#[trigger] vendor_tags()[j]).is_suffix_of(ascii_upper(vendor_tags()[k])),
    ensures
        prefix_from_screaming_spec(s + "_"@ + ascii_upper(vendor_tags()[k])) == prefix_from_screaming_spec(s),
{
    reveal_strlit("_");
    lemma_split_at_tag(s, k);
    lemma_split_vendor_parts(s, 0);
    assert(split_vendor_spec(s).0 == s) by {
        assert(split_vendor_spec(s).0 + split_vendor_spec(s).1 == s);
        assert(split_vendor_spec(s).0 + split_vendor_spec(s).1 =~= split_vendor_spec(s).0);
    }
    assert(s + "_"@ =~= s.push('_'));
    assert(s.push('_').drop_last() =~= s);
    assert(trim_end_char(s.push('_'), '_') == trim_end_char(s, '_'));
}

/// A string with no ASCII lower-case letter is its own ASCII upper case.
proof fn lemma_upper_fixed(w: Seq<char>)
    requires
        forall|i: int| 0 <= i < w.len() ==> !is_lower(#[trigger] w[i]),
    ensures
        ascii_upper(w) == w,
{
    assert(ascii_upper(w) =~= w);
}

/// Trimming a character off the end keeps a prefix.
proof fn lemma_trim_end_prefix(v: Seq<char>, c: char)
    ensures
        trim_end_char(v, c).len() <= v.len(),
        trim_end_char(v, c) == v.take(trim_end_char(v, c).len() as int),
    decreases v.len(),
{
    if v.len() > 0 && v.last() == c {
        lemma_trim_end_prefix(v.drop_last(), c);
        assert(v.drop_last().take(trim_end_char(v, c).len() as int) =~= v.take(
            trim_end_char(v, c).len() as int,
        ));
    } else {
        assert(v.take(v.len() as int) =~= v);
    }
}

/// The value-name prefix of an upper-cased name holds no lower-case letter.
proof fn lemma_prefix_upper(y: Seq<char>)
    ensures
        ascii_upper(prefix_from_screaming_spec(ascii_upper(y))) == prefix_from_screaming_spec(ascii_upper(y)),
{
    let u = ascii_upper(y);
    assert forall|i: int| 0 <= i < u.len() implies !is_lower(#[trigger] u[i]) by {
        assert(u[i] == upper_char(y[i]));
    }
    lemma_split_vendor_parts(u, 0);
    let b = split_vendor_spec(u).0;
    assert forall|i: int| 0 <= i < b.len() implies !is_lower(#[trigger] b[i]) by {
        assert((b + split_vendor_spec(u).1)[i] == b[i]);
    }
    let w = trim_end_char(b, '_');
    lemma_trim_end_prefix(b, '_');
    let p = w.push('_');
    assert forall|i: int| 0 <= i < p.len() implies !is_lower(#[trigger] p[i]) by {
        if i < w.len() {
            assert(w[i] == b.take(w.len() as int)[i]);
        }
    }
    lemma_upper_fixed(p);
}

/// Every character of `leading_digits(s)` is an ASCII digit.
proof fn lemma_leading_digits_digits(s: Seq<char>)
    ensures
        forall|i: int| 0 <= i < leading_digits(s).len() ==> is_digit(#[trigger] leading_digits(s)[i]),
    decreases s.len(),
{
    if s.len() > 0 && is_digit(s[0]) {
        lemma_leading_digits_digits(s.drop_first());
        assert forall|i: int| 0 <= i < leading_digits(s).len() implies is_digit(#[trigger] leading_digits(s)[i]) by {
            if i > 0 {
                assert(leading_digits(s)[i] == leading_digits(s.drop_first())[i - 1]);
            }
        }
    }
}

/// The stem of an ASCII enum name is ASCII.
proof fn lemma_flag_bits_stem_ascii(name: Seq<char>)
    requires
        all_ascii(name),
    ensures
        all_ascii(flag_bits_stem_spec(name)),
{
    reveal_strlit("FlagBits");
    match find(name, "FlagBits"@) {
        Some(i) => {
            lemma_find_from_bounds(name, "FlagBits"@, 0);
            let digits = leading_digits(name.skip(i + "FlagBits"@.len()));
            lemma_leading_digits_digits(name.skip(i + "FlagBits"@.len()));
            let r = flag_bits_stem_spec(name);
            assert forall|j: int| 0 <= j < r.len() implies is_ascii_char(#[trigger] r[j]) by {
                if j < i {
                    assert(r[j] == name[j]);
                } else if j > i {
                    assert(r[j] == digits[j - i - 1]);
                }
            }
        },
        None => {},
    }
}

/// A pattern absent from `s` is absent from `s` followed by text that holds
/// no occurrence of the pattern's last character.
proof fn lemma_find_none_append(s: Seq<char>, t: Seq<char>, p: Seq<char>, i: int)
    requires
        0 <= i,
        p.len() > 0,
        find_from(s, p, 0) is None,
        forall|m: int| 0 <= m < t.len() ==> #[trigger] t[m] != p.last(),
    ensures
        find_from(s + t, p, i) is None,
    decreases (s + t).len() + 1 - i,
{
    let x = s + t;
    if i + p.len() <= x.len() {
        if x.subrange(i, i + p.len()) == p {
            if i + p.len() <= s.len() {
                assert(s.subrange(i, i + p.len()) =~= x.subrange(i, i + p.len()));
                lemma_found_at(s, p, 0, i);
            } else {
                assert(x.subrange(i, i + p.len())[p.len() - 1] == x[i + p.len() - 1]);
                assert(x[i + p.len() - 1] == t[i + p.len() - 1 - s.len()]);
            }
        }
        lemma_find_none_append(s, t, p, i + 1);
    }
}

/// The screaming-snake prefix that all value names of `enum_name` share.
pub open spec fn enum_prefix_spec(enum_name: Seq<char>) -> Seq<char> {
    prefix_from_screaming_spec(unicode_upper(snake_case(flag_bits_stem_spec(enum_name))))
}

/// The constant name of value `vk_name`, given the value-name prefix of its
/// enum and the SCREAMING_SNAKE form of the enum's name.
pub open spec fn const_name_from_parts_spec(
    prefix: Seq<char>,
    enum_screaming: Seq<char>,
    vk_name: Seq<char>,
) -> Seq<char> {
    let without = match strip_prefix(vk_name, prefix) {
        Some(r) => r,
        None => const_name_spec(vk_name),
    };
    let enum_suffix = split_vendor_spec(enum_screaming).1;
    let name = split_vendor_spec(without).0;
    let vendor = split_vendor_spec(without).1;
    let clean = without_suffix(without_suffix(name, "_BIT"@), "_BIT_"@);
    let clean = move_digits_to_end_spec(better_pascal_spec(clean));
    if enum_suffix.len() == 0 {
        clean + ascii_upper(vendor)
    } else {
        clean
    }
}

/// The constant name of value `vk_name` of enum `enum_name`.
pub open spec fn value_const_name_spec(enum_name: Seq<char>, vk_name: Seq<char>) -> Seq<char> {
    const_name_from_parts_spec(
        enum_prefix_spec(enum_name),
        unicode_upper(snake_case(enum_name)),
        vk_name,
    )
}

/// The stem of an enum name before its SCREAMING_SNAKE conversion.
pub fn flag_bits_stem(name: &str) -> (r: String)
    ensures
        r@ == flag_bits_stem_spec(name@),
{
    let cs = chars_of(name);
    let fb = chars_of("FlagBits");
    match find_exec(&cs, &fb) {
        Some(i) => {
            let after = i + fb.len();
            let n = leading_digits_len(&cs, after);
            let mut r = string_of(&cs, 0, i);
            if n > 0 {
                push_char(&mut r, '_');
                push_chars(&mut r, &cs, after, after + n);
            }
            proof {
                if n == 0 {
                    assert(leading_digits(cs@.skip(after as int)).len() == 0);
                }
            }
            assert(r@ =~= flag_bits_stem_spec(name@));
            r
        },
        None => name.to_string(),
    }
}

/// The value-name prefix given the SCREAMING_SNAKE form of an enum's stem.
pub fn prefix_from_screaming(screaming: &str) -> (r: String)
    ensures
        r@ == prefix_from_screaming_spec(screaming@),
{
    let (base, _) = split_vendor_suffix(screaming);
    let cs = chars_of(base);
    let mut end = cs.len();
    assert(cs@.take(end as int) =~= cs@);
    while end > 0 && cs[end - 1] == '_'
        invariant
            end <= cs.len(),
            trim_end_char(cs@, '_') == trim_end_char(cs@.take(end as int), '_'),
        decreases end,
    {
        assert(cs@.take(end as int).drop_last() =~= cs@.take(end - 1));
        end -= 1;
    }
    assert(cs@.take(end as int) =~= trim_end_char(cs@.take(end as int), '_'));
    let mut r = string_of(&cs, 0, end);
    push_char(&mut r, '_');
    assert(cs@.subrange(0, end as int) =~= cs@.take(end as int));
    r
}

/// Returns the screaming-snake prefix that all Vulkan value names belonging
/// to `name` share, without the vendor suffix.
///
/// | `name`                                   | result                                          |
/// |------------------------------------------|-------------------------------------------------|
/// | `VkFormat`                               | `"VK_FORMAT_"`                                  |
/// | `VkClusterAccelerationStructureOpModeNV` | `"VK_CLUSTER_ACCELERATION_STRUCTURE_OP_MODE_"`  |
/// | `VkAccessFlagBits`                       | `"VK_ACCESS_"`                                  |
/// | `VkAccessFlagBits2KHR`                   | `"VK_ACCESS_2_"`                                |
///
/// The prefix of an ASCII name holds no lower-case letter. And a vendor suffix
/// on the enum's name does not change it: for an ASCII `name` without
/// `FlagBits` that ends in a lower-case letter and whose SCREAMING_SNAKE form
/// ends in no vendor tag, `name` followed by the upper-case form of a vendor
/// tag that no earlier tag of the list ends has the same prefix.
pub fn enum_name_to_screaming_prefix(name: &str) -> (r: String)
    ensures
        r@ == enum_prefix_spec(name@),
        all_ascii(name@) ==> ascii_upper(r@) == r@,
        forall|k: int|
            0 <= k < vendor_tags().len() && all_ascii(name@) && name@.len() > 0 && is_lower(name@.last())
                && !contains(name@, "FlagBits"@) && split_vendor_spec(unicode_upper(snake_case(name@))).1.len()
                == 0 && (forall|j: int|
                0 <= j < k ==> !ascii_upper(#[trigger] vendor_tags()[j]).is_suffix_of(
                    ascii_upper(vendor_tags()[k]),
                )) ==> #[trigger] enum_prefix_spec(name@ + ascii_upper(vendor_tags()[k])) == r@,
{
    let stem = flag_bits_stem(name);
    let snake = to_snake_case(stem.as_str());
    let screaming = to_uppercase(snake.as_str());
    let r = prefix_from_screaming(screaming.as_str());
    proof {
        if all_ascii(name@) {
            lemma_flag_bits_stem_ascii(name@);
            lemma_prefix_upper(snake@);
        }
        assert forall|k: int|
            0 <= k < vendor_tags().len() && all_ascii(name@) && name@.len() > 0 && is_lower(name@.last())
                && !contains(name@, "FlagBits"@) && split_vendor_spec(unicode_upper(snake_case(name@))).1.len()
                == 0 && (forall|j: int|
                0 <= j < k ==> !ascii_upper(#[trigger] vendor_tags()[j]).is_suffix_of(
                    ascii_upper(vendor_tags()[k]),
                )) implies #[trigger] enum_prefix_spec(name@ + ascii_upper(vendor_tags()[k])) == r@ by {
            lemma_prefix_with_vendor_tag(name@, stem@, snake@, screaming@, k);
        }
    }
    r
}

/// The steps of the vendor-suffix clause of [`enum_name_to_screaming_prefix`],
/// given what its calls returned.
proof fn lemma_prefix_with_vendor_tag(
    name: Seq<char>,
    stem: Seq<char>,
    snake: Seq<char>,
    screaming: Seq<char>,
    k: int,
)
    requires
        0 <= k < vendor_tags().len(),
        all_ascii(name),
        name.len() > 0,
        is_lower(name.last()),
        !contains(name, "FlagBits"@),
        stem == flag_bits_stem_spec(name),
        snake == snake_case(stem),
        all_ascii(stem) ==> all_ascii(snake),
        forall|t: Seq<char>|
            stem.len() > 0 && is_lower(stem.last()) && t.len() > 0 && (forall|i: int|
                0 <= i < t.len() ==> is_upper(#[trigger] t[i])) ==> #[trigger] snake_case(stem + t)
                == snake + seq!['_'] + ascii_lower(t),
        screaming == unicode_upper(snake),
        forall|t: Seq<char>|
            all_ascii(snake) && all_ascii(t) ==> #[trigger] unicode_upper(snake + t) == screaming + ascii_upper(t),
        split_vendor_spec(unicode_upper(snake_case(name))).1.len() == 0,
        forall|j: int|
            0 <= j < k ==> !ascii_upper(#[trigger] vendor_tags()[j]).is_suffix_of(ascii_upper(vendor_tags()[k])),
    ensures
        enum_prefix_spec(name + ascii_upper(vendor_tags()[k])) == prefix_from_screaming_spec(screaming),
{
    reveal_strlit("FlagBits");
    reveal_strlit("_");
    lemma_vendor_tags_ascii();
    lemma_vendor_tags_letters();
    let tag = vendor_tags()[k];
    let t = ascii_upper(tag);
    assert(stem == name);
    // `t` is a run of upper-case letters
    assert forall|i: int| 0 <= i < t.len() implies is_upper(#[trigger] t[i]) by {
        assert(is_upper(tag[i]) || is_lower(tag[i]));
    }
    // no `FlagBits` appears once the tag is added
    assert forall|m: int| 0 <= m < t.len() implies #[trigger] t[m] != "FlagBits"@.last() by {
        assert(is_upper(t[m]));
    }
    lemma_find_none_append(name, t, "FlagBits"@, 0);
    assert(flag_bits_stem_spec(name + t) == name + t);
    // the snake form gains `_` and the lower-cased tag
    assert(snake_case(name + t) == snake + seq!['_'] + ascii_lower(t));
    let u = seq!['_'] + ascii_lower(t);
    assert(snake + seq!['_'] + ascii_lower(t) =~= snake + u);
    assert(all_ascii(u)) by {
        assert forall|i: int| 0 <= i < u.len() implies is_ascii_char(#[trigger] u[i]) by {
            if i > 0 {
                assert(u[i] == lower_char(t[i - 1]));
            }
        }
    }
    assert(unicode_upper(snake + u) == screaming + ascii_upper(u));
    assert(ascii_upper(u) =~= "_"@ + t) by {
        assert forall|i: int| 0 <= i < u.len() implies #[trigger] ascii_upper(u)[i] == ("_"@ + t)[i] by {
            if i > 0 {
                assert(u[i] == lower_char(t[i - 1]));
                assert(is_upper(t[i - 1]));
            }
        }
    }
    assert(screaming + ("_"@ + t) =~= screaming + "_"@ + t);
    prefix_ignores_vendor_suffix(screaming, k);
}

/// `s.strip_prefix(p)`.
fn strip_prefix_exec(s: &Vec<char>, p: &Vec<char>) -> (r: Option<Vec<char>>)
    ensures
        r matches Some(v) ==> strip_prefix(s@, p@) == Some(v@),
        r is None ==> strip_prefix(s@, p@) is None,
{
    if starts_with(s, p) {
        Some(slice_of(s, p.len(), s.len()))
    } else {
        None
    }
}

/// The constant name of a value, given the value-name prefix of its enum and
/// the SCREAMING_SNAKE form of the enum's name.
pub fn const_name_from_parts(prefix: &str, enum_screaming: &str, vk_name: &str) -> (r: String)
    ensures
        r@ == const_name_from_parts_spec(prefix@, enum_screaming@, vk_name@),
{
    proof {
        lemma_split_vendor_parts(enum_screaming@, 0);
    }
    let vk = chars_of(vk_name);
    let pre = chars_of(prefix);
    let without: Vec<char> = match strip_prefix_exec(&vk, &pre) {
        Some(r) => r,
        None => chars_of(const_name(vk_name)),
    };
    let without_s = string_of(&without, 0, without.len());
    assert(without_s@ =~= without@);
    let (_, enum_suffix) = split_vendor_suffix(enum_screaming);
    let (name, vendor) = split_vendor_suffix(without_s.as_str());
    proof {
        lemma_split_vendor_parts(without@, 0);
    }
    let name_c = chars_of(name);
    let clean = without_suffix_exec(&name_c, &chars_of("_BIT"));
    let clean = without_suffix_exec(&clean, &chars_of("_BIT_"));
    let clean_s = string_of(&clean, 0, clean.len());
    assert(clean_s@ =~= clean@);
    let pascal = better_pascal_case(clean_s.as_str());
    let mut r = move_digits_to_end(pascal.as_str());
    if enum_suffix.unicode_len() == 0 {
        let up = to_uppercase(vendor);
        push_str(&mut r, up.as_str());
    }
    r
}

/// Converts a raw Vulkan enum value name into its Rust constant / variant name.
///
/// - `"VK_ACCESS_INDIRECT_COMMAND_READ_BIT"` under `"VkAccessFlagBits"` → `"IndirectCommandRead"`
/// - `"VK_ACCESS_INDIRECT_COMMAND_READ_BIT_KHR"` → `"IndirectCommandReadKHR"`
/// - `"VK_CLUSTER_ACCELERATION_STRUCTURE_OP_MODE_IMPLICIT_DESTINATIONS_NV"`
///   under `"VkClusterAccelerationStructureOpModeNV"` → `"ImplicitDestinations"`
///
/// [`value_to_const_name_vendor_suffix`] states how a vendor suffix on the
/// value name carries into the result.
pub fn value_to_const_name(enum_name: &str, vk_name: &str) -> (r: String)
    ensures
        r@ == value_const_name_spec(enum_name@, vk_name@),
{
    let prefix = enum_name_to_screaming_prefix(enum_name);
    let snake = to_snake_case(enum_name);
    let temp = to_uppercase(snake.as_str());
    const_name_from_parts(prefix.as_str(), temp.as_str(), vk_name)
}


// ---------------------------------------------------------------------------
// A vendor suffix on a value name
// ---------------------------------------------------------------------------

proof fn lemma_suffix_trans(a: Seq<char>, s: Seq<char>, x: Seq<char>)
    requires
        a.is_suffix_of(s),
        s.is_suffix_of(x),
    ensures
        a.is_suffix_of(x),
{
    assert forall|k: int| 0 <= k < a.len() implies #[trigger] x.subrange(x.len() - a.len(), x.len() as int)[k]
        == a[k] by {
        assert(a[k] == s.subrange(s.len() - a.len(), s.len() as int)[k]);
        assert(s[s.len() - a.len() + k] == x.subrange(x.len() - s.len(), x.len() as int)[s.len() - a.len() + k]);
    }
    assert(a =~= x.subrange(x.len() - a.len(), x.len() as int));
}

proof fn lemma_suffix_within(a: Seq<char>, s: Seq<char>, x: Seq<char>)
    requires
        a.is_suffix_of(x),
        s.is_suffix_of(x),
        a.len() <= s.len(),
    ensures
        a.is_suffix_of(s),
{
    assert forall|k: int| 0 <= k < a.len() implies #[trigger] s.subrange(s.len() - a.len(), s.len() as int)[k]
        == a[k] by {
        assert(a[k] == x.subrange(x.len() - a.len(), x.len() as int)[k]);
        assert(s[s.len() - a.len() + k] == x.subrange(x.len() - s.len(), x.len() as int)[s.len() - a.len() + k]);
    }
    assert(a =~= s.subrange(s.len() - a.len(), s.len() as int));
}

/// A vendor suffix found on `x` is found alike on any end of `x` long enough to hold it.
proof fn lemma_split_on_end(x: Seq<char>, s: Seq<char>, i: int)
    requires
        0 <= i,
        s.is_suffix_of(x),
        split_vendor_from(x, i).1.len() > 0,
        split_vendor_from(x, i).1.len() <= s.len(),
    ensures
        split_vendor_from(s, i) == (
            s.take(s.len() - split_vendor_from(x, i).1.len()),
            split_vendor_from(x, i).1,
        ),
    decreases vendor_tags().len() - i,
{
    lemma_vendor_tags_ascii();
    if i < vendor_tags().len() {
        let t = ascii_upper(vendor_tags()[i]);
        assert(t.len() == vendor_tags()[i].len());
        if t.is_suffix_of(x) {
            lemma_suffix_within(t, s, x);
        } else {
            if t.is_suffix_of(s) {
                lemma_suffix_trans(t, s, x);
            }
            lemma_split_on_end(x, s, i + 1);
        }
    }
}

/// A name with no vendor suffix has none on any of its ends.
proof fn lemma_no_split_on_end(x: Seq<char>, s: Seq<char>, i: int)
    requires
        0 <= i,
        s.is_suffix_of(x),
        split_vendor_from(x, i).1.len() == 0,
    ensures
        split_vendor_from(s, i) == (s, Seq::<char>::empty()),
    decreases vendor_tags().len() - i,
{
    lemma_vendor_tags_ascii();
    if i < vendor_tags().len() {
        let t = ascii_upper(vendor_tags()[i]);
        assert(t.len() == vendor_tags()[i].len());
        if t.is_suffix_of(x) {
            assert(split_vendor_from(x, i).1 == t);
        } else {
            if t.is_suffix_of(s) {
                lemma_suffix_trans(t, s, x);
            }
            lemma_no_split_on_end(x, s, i + 1);
        }
    }
}

proof fn lemma_find_char_append(m: Seq<char>, c: char, i: int)
    requires
        0 <= i <= m.len(),
    ensures
        find_char_from(m.push(c), c, i) == match find_char_from(m, c, i) {
            Some(j) => Some(j),
            None => Some(m.len() as int),
        },
    decreases m.len() - i,
{
    if i < m.len() {
        assert(m.push(c)[i] == m[i]);
        lemma_find_char_append(m, c, i + 1);
    } else {
        assert(m.push(c)[i] == c);
    }
}

/// A trailing `_` adds an empty segment, which casing leaves empty.
proof fn lemma_better_pascal_trailing(m: Seq<char>)
    ensures
        better_pascal_spec(m.push('_')) == better_pascal_spec(m),
    decreases m.len(),
{
    lemma_find_char_append(m, '_', 0);
    lemma_vendor_tags_ascii();
    let e = Seq::<char>::empty();
    assert(better_pascal_spec(e) == pascal_segment(e)) by {
        assert(find_char_from(e, '_', 0) is None);
    }
    assert(!is_vendor_word(e)) by {
        if is_vendor_word(e) {
            let k = choose|k: int| 0 <= k < vendor_tags().len() && eq_ignore_case(#[trigger] vendor_tags()[k], e);
            assert(vendor_tags()[k].len() > 0);
        }
    }
    assert(pascal_segment(e) =~= e);
    match find_char(m, '_') {
        Some(i) => {
            lemma_find_char_shift(m, '_', 0);
            assert(m.push('_').take(i) =~= m.take(i));
            assert(m.push('_').skip(i + 1) =~= m.skip(i + 1).push('_'));
            lemma_better_pascal_trailing(m.skip(i + 1));
        },
        None => {
            assert(m.push('_').take(m.len() as int) =~= m);
            assert(m.push('_').skip(m.len() as int + 1) =~= e);
        },
    }
}

/// How a vendor suffix on a value name carries into its constant name
/// ([`value_to_const_name`]):
/// for a value name `n` of enum `enum_name` that starts with the enum's
/// prefix, ends in neither `_` nor a vendor tag, and holds no `__`, the name
/// `n_TAG` (the upper-case vendor tag `TAG` split off as its suffix) gets the
/// constant name of `n` followed by `TAG`, or the same name as `n` when the
/// enum's own name ends in a vendor tag.
pub proof fn value_to_const_name_vendor_suffix(enum_name: Seq<char>, n: Seq<char>, k: int)
    requires
        0 <= k < vendor_tags().len(),
        enum_prefix_spec(enum_name).is_prefix_of(n),
        n.len() > 0,
        n.last() != '_',
        !contains(n, "__"@),
        split_vendor_spec(n).1.len() == 0,
        split_vendor_spec(n + "_"@ + ascii_upper(vendor_tags()[k])) == (
            n + "_"@,
            ascii_upper(vendor_tags()[k]),
        ),
    ensures
        value_const_name_spec(enum_name, n + "_"@ + ascii_upper(vendor_tags()[k])) == value_const_name_spec(
            enum_name,
            n,
        ) + if split_vendor_spec(unicode_upper(snake_case(enum_name))).1.len() == 0 {
            ascii_upper(vendor_tags()[k])
        } else {
            Seq::<char>::empty()
        },
{
    reveal_strlit("_");
    reveal_strlit("__");
    reveal_strlit("_BIT");
    reveal_strlit("_BIT_");
    lemma_vendor_tags_ascii();
    let p = enum_prefix_spec(enum_name);
    let es = unicode_upper(snake_case(enum_name));
    let t = ascii_upper(vendor_tags()[k]);
    lemma_ascii_upper_twice(vendor_tags()[k]);
    assert(t.len() == vendor_tags()[k].len());
    let x = n + "_"@ + t;
    prefix_ends_in_one_underscore(unicode_upper(snake_case(flag_bits_stem_spec(enum_name))));
    assert(p.last() == '_');
    // the prefix is shorter than `n`, and starts `x` too
    assert(p.len() < n.len()) by {
        if p.len() == n.len() {
            assert(n.subrange(0, p.len() as int) =~= n);
            assert(n.last() == p.last());
        }
    }
    let m = n.skip(p.len() as int);
    let w = x.skip(p.len() as int);
    assert(p.is_prefix_of(x)) by {
        assert(x.subrange(0, p.len() as int) =~= n.subrange(0, p.len() as int));
    }
    assert(w =~= m + "_"@ + t);
    assert(m.len() > 0 && m.last() == n.last());
    // vendor splits of the value parts
    assert(w.is_suffix_of(x)) by {
        assert(x.subrange(x.len() - w.len(), x.len() as int) =~= w);
    }
    assert(m.is_suffix_of(n)) by {
        assert(n.subrange(n.len() - m.len(), n.len() as int) =~= m);
    }
    lemma_split_on_end(x, w, 0);
    assert(w.take(w.len() - t.len()) =~= m.push('_'));
    assert(split_vendor_spec(w) == (m.push('_'), t));
    lemma_no_split_on_end(n, m, 0);
    assert(split_vendor_spec(m) == (m, Seq::<char>::empty()));
    // removing `_BIT` and `_BIT_`
    let mu = m.push('_');
    assert(!"_BIT"@.is_suffix_of(mu)) by {
        if "_BIT"@.is_suffix_of(mu) {
            lemma_suffix_last("_BIT"@, mu);
        }
    }
    assert("_BIT_"@.is_suffix_of(mu) == "_BIT"@.is_suffix_of(m)) by {
        if "_BIT_"@.is_suffix_of(mu) {
            assert(mu.subrange(mu.len() - 5, mu.len() as int).take(4) =~= m.subrange(
                m.len() - 4,
                m.len() as int,
            ));
            assert("_BIT_"@.take(4) =~= "_BIT"@);
        }
        if "_BIT"@.is_suffix_of(m) {
            assert(mu.subrange(mu.len() - 5, mu.len() as int) =~= m.subrange(m.len() - 4, m.len() as int).push(
                '_',
            ));
            assert("_BIT"@.push('_') =~= "_BIT_"@);
        }
    }
    let clean1 = without_suffix(without_suffix(mu, "_BIT"@), "_BIT_"@);
    let clean0 = without_suffix(without_suffix(m, "_BIT"@), "_BIT_"@);
    if "_BIT"@.is_suffix_of(m) {
        let q = m.take(m.len() - 4);
        assert(clean1 =~= q);
        assert(without_suffix(m, "_BIT"@) == q);
        assert(!"_BIT_"@.is_suffix_of(q)) by {
            if "_BIT_"@.is_suffix_of(q) {
                lemma_suffix_last("_BIT_"@, q);
                // then `n` holds `__` where `q` meets `_BIT`
                let j = p.len() + q.len() - 1;
                assert(n[j] == '_');
                assert(n[j + 1] == '_') by {
                    assert(m.subrange(m.len() - 4, m.len() as int)[0] == '_');
                }
                assert(n.subrange(j, j + 2) =~= "__"@);
                lemma_found_at(n, "__"@, 0, j);
            }
        }
        assert(clean0 == q);
    } else {
        assert(clean1 == mu);
        assert(!"_BIT_"@.is_suffix_of(m)) by {
            if "_BIT_"@.is_suffix_of(m) {
                lemma_suffix_last("_BIT_"@, m);
            }
        }
        assert(clean0 == m);
        lemma_better_pascal_trailing(m);
    }
    assert(better_pascal_spec(clean1) == better_pascal_spec(clean0));
    assert(strip_prefix(x, p) == Some(w));
    assert(strip_prefix(n, p) == Some(m));
    assert(ascii_upper(Seq::<char>::empty()) =~= Seq::<char>::empty());
    let c = move_digits_to_end_spec(better_pascal_spec(clean0));
    if split_vendor_spec(es).1.len() == 0 {
        assert(c + Seq::<char>::empty() =~= c);
    } else {
        assert(c + Seq::<char>::empty() =~= c);
    }
}


} // verus!


verus! {

// ---------------------------------------------------------------------------
// The bitflags file
// ---------------------------------------------------------------------------

/// The constant names of `vals`, in order.
pub open spec fn const_names(en_name: Seq<char>, vals: Seq<EnumValueModel>) -> Seq<Seq<char>> {
    vals.map_values(|v: EnumValueModel| value_const_name_spec(en_name, v.name))
}

/// The positions of the values whose constant name no earlier value has:
/// the values that get a constant, in order.
pub open spec fn first_indices(en_name: Seq<char>, vals: Seq<EnumValueModel>) -> Seq<int>
    decreases vals.len(),
{
    if vals.len() == 0 {
        Seq::empty()
    } else {
        let prev = vals.drop_last();
        if const_names(en_name, prev).contains(value_const_name_spec(en_name, vals.last().name)) {
            first_indices(en_name, prev)
        } else {
            first_indices(en_name, prev).push(vals.len() - 1)
        }
    }
}

/// The positions in `names` of the names no earlier position has.
pub open spec fn firsts(names: Seq<Seq<char>>) -> Seq<int>
    decreases names.len(),
{
    if names.len() == 0 {
        Seq::empty()
    } else if names.drop_last().contains(names.last()) {
        firsts(names.drop_last())
    } else {
        firsts(names.drop_last()).push(names.len() - 1)
    }
}

/// The positions `idx` lie in `0..n`, in increasing order.
pub open spec fn increasing_below(idx: Seq<int>, n: int) -> bool {
    &&& forall|a: int, b: int| 0 <= a < b < idx.len() ==> #[trigger] idx[a] < #[trigger] idx[b]
    &&& forall|a: int| 0 <= a < idx.len() ==> 0 <= #[trigger] idx[a] < n
}

/// No two of the positions `idx` hold the same name.
pub open spec fn distinct_at(names: Seq<Seq<char>>, idx: Seq<int>) -> bool {
    forall|a: int, b: int| 0 <= a < b < idx.len() ==> names[#[trigger] idx[a]] != names[#[trigger] idx[b]]
}

/// Name `k` of `names` is held at one of the positions `idx`, at or before `k`.
pub open spec fn covered_at(names: Seq<Seq<char>>, idx: Seq<int>, k: int) -> bool {
    exists|a: int| 0 <= a < idx.len() && #[trigger] idx[a] <= k && names[k] == names[idx[a]]
}

/// Every name of `names` is held at one of the positions `idx`, at or before its own.
pub open spec fn covered_by(names: Seq<Seq<char>>, idx: Seq<int>) -> bool {
    forall|k: int| 0 <= k < names.len() ==> #[trigger] covered_at(names, idx, k)
}

proof fn lemma_first_indices_firsts(en_name: Seq<char>, vals: Seq<EnumValueModel>)
    ensures
        first_indices(en_name, vals) == firsts(const_names(en_name, vals)),
    decreases vals.len(),
{
    if vals.len() > 0 {
        lemma_first_indices_firsts(en_name, vals.drop_last());
        assert(const_names(en_name, vals).drop_last() =~= const_names(en_name, vals.drop_last()));
    }
}

proof fn lemma_firsts_increasing(names: Seq<Seq<char>>)
    ensures
        increasing_below(firsts(names), names.len() as int),
    decreases names.len(),
{
    if names.len() > 0 {
        lemma_firsts_increasing(names.drop_last());
    }
}

proof fn lemma_firsts_distinct(names: Seq<Seq<char>>)
    ensures
        distinct_at(names, firsts(names)),
    decreases names.len(),
{
    if names.len() > 0 {
        let p = names.drop_last();
        let ip = firsts(p);
        lemma_firsts_distinct(p);
        lemma_firsts_increasing(p);
        assert forall|k: int| 0 <= k < p.len() implies #[trigger] p[k] == names[k] by {}
        if !p.contains(names.last()) {
            let idx = firsts(names);
            assert forall|a: int, b: int| 0 <= a < b < idx.len() implies names[#[trigger] idx[a]]
                != names[#[trigger] idx[b]] by {
                assert(idx[a] == ip[a]);
                if b < ip.len() {
                    assert(idx[b] == ip[b]);
                    assert(p[ip[a]] != p[ip[b]]);
                } else {
                    assert(idx[b] == names.len() - 1);
                    if names[idx[a]] == names[idx[b]] {
                        assert(p[ip[a]] == names.last());
                    }
                }
            }
        }
    }
}

/// One name of `names` is covered once the names before the last are.
proof fn lemma_cover_one(names: Seq<Seq<char>>, k: int)
    requires
        names.len() > 0,
        0 <= k < names.len(),
        covered_by(names.drop_last(), firsts(names.drop_last())),
        increasing_below(firsts(names.drop_last()), names.len() - 1),
    ensures
        covered_at(names, firsts(names), k),
{
    let p = names.drop_last();
    let ip = firsts(p);
    let idx = firsts(names);
    if k < p.len() {
        assert(covered_at(p, ip, k));
        let a = choose|a: int| 0 <= a < ip.len() && #[trigger] ip[a] <= k && p[k] == p[ip[a]];
        assert(idx[a] == ip[a]);
        assert(p[k] == names[k]);
        assert(p[ip[a]] == names[ip[a]]);
        assert(idx[a] <= k && names[k] == names[idx[a]]);
    } else if p.contains(names.last()) {
        let m = choose|m: int| 0 <= m < p.len() && p[m] == names.last();
        assert(covered_at(p, ip, m));
        let a = choose|a: int| 0 <= a < ip.len() && #[trigger] ip[a] <= m && p[m] == p[ip[a]];
        assert(idx[a] == ip[a]);
        assert(p[m] == names[m]);
        assert(p[ip[a]] == names[ip[a]]);
        assert(idx[a] <= k && names[k] == names[idx[a]]);
    } else {
        assert(idx[ip.len() as int] == k);
    }
}

proof fn lemma_firsts_cover(names: Seq<Seq<char>>)
    ensures
        covered_by(names, firsts(names)),
    decreases names.len(),
{
    if names.len() > 0 {
        lemma_firsts_cover(names.drop_last());
        lemma_firsts_increasing(names.drop_last());
        assert forall|k: int| 0 <= k < names.len() implies #[trigger] covered_at(names, firsts(names), k) by {
            lemma_cover_one(names, k);
        }
    }
}

/// Constants are kept once per name, the first value of each name winning:
/// the values that get a constant come in order, no two share a name, and
/// every value's name is the name of one of them. The `Display` table of a
/// flags type lists the same values as the flags type itself.
pub proof fn first_indices_dedup(en_name: Seq<char>, vals: Seq<EnumValueModel>)
    ensures
        increasing_below(first_indices(en_name, vals), vals.len() as int),
        distinct_at(const_names(en_name, vals), first_indices(en_name, vals)),
        covered_by(const_names(en_name, vals), first_indices(en_name, vals)),
{
    lemma_first_indices_firsts(en_name, vals);
    lemma_firsts_increasing(const_names(en_name, vals));
    lemma_firsts_distinct(const_names(en_name, vals));
    lemma_firsts_cover(const_names(en_name, vals));
}

/// The values of an enum that get a constant: position and constant name.
pub fn distinct_consts(en: &VkEnum) -> (r: Vec<(usize, String)>)
    ensures
        r@.map_values(|p: (usize, String)| p.0 as int) == first_indices(en@.name, en@.values),
        forall|k: int|
            0 <= k < r@.len() ==> (#[trigger] r@[k]).0 < en.values@.len() && r@[k].1@
                == value_const_name_spec(en@.name, en@.values[r@[k].0 as int].name),
{
    let ghost vals = en@.values;
    let mut r: Vec<(usize, String)> = Vec::new();
    let mut i: usize = 0;
    assert(vals.take(0) =~= Seq::<EnumValueModel>::empty());
    assert(r@.map_values(|p: (usize, String)| p.0 as int) =~= Seq::<int>::empty());
    while i < en.values.len()
        invariant
            i <= en.values.len(),
            vals == en@.values,
            r@.map_values(|p: (usize, String)| p.0 as int) == first_indices(en@.name, vals.take(i as int)),
            forall|k: int|
                0 <= k < r@.len() ==> (#[trigger] r@[k]).0 < i && r@[k].1@ == value_const_name_spec(
                    en@.name,
                    vals[r@[k].0 as int].name,
                ),
            forall|x: Seq<char>|
                (exists|k: int| 0 <= k < r@.len() && (#[trigger] r@[k]).1@ == x) <==> #[trigger] const_names(
                    en@.name,
                    vals.take(i as int),
                ).contains(x),
        decreases en.values.len() - i,
    {
        let cn = value_to_const_name(en.name.as_str(), en.values[i].name.as_str());
        let ghost prev = vals.take(i as int);
        assert(vals.take(i + 1).drop_last() =~= prev);
        assert(vals.take(i + 1).last() == vals[i as int]);
        assert(const_names(en@.name, vals.take(i + 1)) =~= const_names(en@.name, prev).push(cn@));
        let mut seen = false;
        let mut k: usize = 0;
        while k < r.len()
            invariant
                k <= r.len(),
                seen == exists|m: int| 0 <= m < k && (#[trigger] r@[m]).1@ == cn@,
            decreases r.len() - k,
        {
            if str_eq(r[k].1.as_str(), cn.as_str()) {
                seen = true;
            }
            k += 1;
        }
        if !seen {
            let ghost before = r@;
            r.push((i, cn));
            assert(r@.map_values(|p: (usize, String)| p.0 as int) =~= before.map_values(
                |p: (usize, String)| p.0 as int,
            ).push(i as int));
            assert forall|x: Seq<char>|
                (exists|m: int| 0 <= m < r@.len() && (#[trigger] r@[m]).1@ == x) <==> #[trigger] const_names(
                    en@.name,
                    vals.take(i + 1),
                ).contains(x) by {
                if const_names(en@.name, vals.take(i + 1)).contains(x) {
                    let j = choose|j: int| 0 <= j < i + 1 && #[trigger] const_names(en@.name, vals.take(i + 1))[j] == x;
                    if j < i {
                        assert(const_names(en@.name, prev)[j] == x);
                        assert(const_names(en@.name, prev).contains(x));
                        let m = choose|m: int| 0 <= m < before.len() && (#[trigger] before[m]).1@ == x;
                        assert(r@[m] == before[m]);
                    } else {
                        assert(r@[before.len() as int].1@ == x);
                    }
                }
                if exists|m: int| 0 <= m < r@.len() && (#[trigger] r@[m]).1@ == x {
                    let m = choose|m: int| 0 <= m < r@.len() && (#[trigger] r@[m]).1@ == x;
                    if m < before.len() {
                        assert(before[m].1@ == x);
                        assert(const_names(en@.name, prev).contains(x));
                        let j = choose|j: int| 0 <= j < prev.len() && #[trigger] const_names(en@.name, prev)[j] == x;
                        assert(const_names(en@.name, vals.take(i + 1))[j] == x);
                    } else {
                        assert(const_names(en@.name, vals.take(i + 1))[i as int] == x);
                    }
                }
            }
        } else {
            proof {
                let m0 = choose|m: int| 0 <= m < k && (#[trigger] r@[m]).1@ == cn@;
                assert(const_names(en@.name, prev).contains(cn@));
                assert forall|x: Seq<char>|
                    (exists|m: int| 0 <= m < r@.len() && (#[trigger] r@[m]).1@ == x) <==> #[trigger] const_names(
                        en@.name,
                        vals.take(i + 1),
                    ).contains(x) by {
                    if const_names(en@.name, vals.take(i + 1)).contains(x) {
                        let j = choose|j: int| 0 <= j < i + 1 && #[trigger] const_names(en@.name, vals.take(i + 1))[j] == x;
                        if j < i {
                            assert(const_names(en@.name, prev)[j] == x);
                            assert(const_names(en@.name, prev).contains(x));
                        } else {
                            assert(x == cn@);
                            assert(r@[m0].1@ == x);
                        }
                    }
                    if exists|m: int| 0 <= m < r@.len() && (#[trigger] r@[m]).1@ == x {
                        assert(const_names(en@.name, prev).contains(x));
                        let j = choose|j: int| 0 <= j < prev.len() && #[trigger] const_names(en@.name, prev)[j] == x;
                        assert(const_names(en@.name, vals.take(i + 1))[j] == const_names(en@.name, prev)[j]);
                    }
                }
            }
        }
        i += 1;
    }
    assert(vals.take(i as int) =~= vals);
    r
}

/// The lines of the constant of value number `j` of `en`.
pub open spec fn bitflag_value_lines(en: EnumModel, j: int) -> Seq<Seq<char>> {
    let v = en.values[j];
    let line = "pub const "@ + value_const_name_spec(en.name, v.name) + ": Self = Self("@
        + binary_literal_spec(v.value as u32) + ");"@;
    match v.comment {
        Some(c) => seq!["/// "@ + c, line],
        None => seq![line],
    }
}

/// The constant lines of the values at `idx`, each with its comment.
pub open spec fn bitflag_values_lines(en: EnumModel, idx: Seq<int>) -> Seq<Seq<char>>
    decreases idx.len(),
{
    if idx.len() == 0 {
        Seq::empty()
    } else {
        bitflag_values_lines(en, idx.drop_last()) + bitflag_value_lines(en, idx.last())
    }
}

/// The doc line linking the reference page of `name`.
pub open spec fn refpage_line(name: Seq<char>) -> Seq<char> {
    "/// <https://docs.vulkan.org/refpages/latest/refpages/source/"@ + name + ".html>"@
}

/// The lines of the flags struct of bitmask enum `en`, stored as `repr`:
/// the struct, then one constant per distinct value name.
pub open spec fn bitflag_struct_lines(en: EnumModel, repr: Seq<char>) -> Seq<Seq<char>> {
    let sn = rust_name_spec(en.name);
    seq![
        refpage_line(en.name),
        "#[repr(transparent)]"@,
        "#[derive(Clone, Copy, Hash, PartialEq, Eq)]"@,
        "pub struct "@ + sn + "(pub(crate) "@ + repr + ");"@,
        "vk_bitflags_wrapped!("@ + sn + ", "@ + repr + ");"@,
        Seq::empty(),
    ] + if en.values.len() == 0 {
        Seq::<Seq<char>>::empty()
    } else {
        seq!["impl "@ + sn + " {"@] + bitflag_values_lines(en, first_indices(en.name, en.values))
            + seq!["}"@, Seq::empty()]
    }
}

/// The lines of a flags type that has no bits enum: an alias of `repr`.
pub open spec fn empty_bitflags_lines(name: Seq<char>, repr: Seq<char>) -> Seq<Seq<char>> {
    seq![
        refpage_line(name),
        "pub type "@ + rust_name_spec(name) + " = "@ + repr + ";"@,
        Seq::empty(),
    ]
}

/// The doc line linking the reference page of `name`.
pub fn refpage_line_exec(name: &str) -> (r: String)
    ensures
        r@ == refpage_line(name@),
{
    let mut l = String::new();
    push_str(&mut l, "/// <https://docs.vulkan.org/refpages/latest/refpages/source/");
    push_str(&mut l, name);
    push_str(&mut l, ".html>");
    l
}

/// Writes the flags struct of bitmask enum `en`.
pub fn write_bitflag_struct(w: &mut Writer, en: &VkEnum, repr: &str)
    ensures
        final(w)@ == old(w)@ + bitflag_struct_lines(en@, repr@),
{
    let struct_name = rust_name(en.name.as_str());
    w.ln(refpage_line_exec(en.name.as_str()).as_str());
    w.ln("#[repr(transparent)]");
    w.ln("#[derive(Clone, Copy, Hash, PartialEq, Eq)]");
    let mut l = String::new();
    push_str(&mut l, "pub struct ");
    push_str(&mut l, struct_name.as_str());
    push_str(&mut l, "(pub(crate) ");
    push_str(&mut l, repr);
    push_str(&mut l, ");");
    w.ln(l.as_str());
    let mut l = String::new();
    push_str(&mut l, "vk_bitflags_wrapped!(");
    push_str(&mut l, struct_name.as_str());
    push_str(&mut l, ", ");
    push_str(&mut l, repr);
    push_str(&mut l, ");");
    w.ln(l.as_str());
    w.blank();
    let ghost head = w@;
    if en.values.len() != 0 {
        let mut l = String::new();
        push_str(&mut l, "impl ");
        push_str(&mut l, struct_name.as_str());
        push_str(&mut l, " {");
        w.ln(l.as_str());
        let ghost start = w@;
        let consts = distinct_consts(en);
        let ghost idx = first_indices(en@.name, en@.values);
        let mut k: usize = 0;
        assert(idx.take(0) =~= Seq::<int>::empty());
        assert(w@ =~= start + bitflag_values_lines(en@, idx.take(0)));
        while k < consts.len()
            invariant
                k <= consts.len(),
                consts@.map_values(|p: (usize, String)| p.0 as int) == idx,
                forall|m: int|
                    0 <= m < consts@.len() ==> (#[trigger] consts@[m]).0 < en.values@.len()
                        && consts@[m].1@ == value_const_name_spec(en@.name, en@.values[consts@[m].0 as int].name),
                w@ == start + bitflag_values_lines(en@, idx.take(k as int)),
            decreases consts.len() - k,
        {
            let j = consts[k].0;
            let v = &en.values[j];
            assert(idx[k as int] == j as int);
            if let Some(c) = &v.comment {
                let mut l = String::new();
                push_str(&mut l, "/// ");
                push_str(&mut l, c.as_str());
                w.ln(l.as_str());
            }
            let lit = to_binary_literal(v.value as u32);
            let mut l = String::new();
            push_str(&mut l, "pub const ");
            push_str(&mut l, consts[k].1.as_str());
            push_str(&mut l, ": Self = Self(");
            push_str(&mut l, lit.as_str());
            push_str(&mut l, ");");
            w.ln(l.as_str());
            assert(idx.take(k + 1).drop_last() =~= idx.take(k as int));
            assert(en@.values[j as int] == v@);
            assert(w@ =~= start + bitflag_values_lines(en@, idx.take(k + 1)));
            k += 1;
        }
        assert(idx.take(k as int) =~= idx);
        w.ln("}");
        w.blank();
    }
    assert(w@ =~= old(w)@ + bitflag_struct_lines(en@, repr@));
}

/// Writes an alias for a flags type that has no bits enum.
pub fn write_empty_bitflags(w: &mut Writer, name: &str, repr: &str)
    ensures
        final(w)@ == old(w)@ + empty_bitflags_lines(name@, repr@),
{
    w.ln(refpage_line_exec(name).as_str());
    let rn = rust_name(name);
    let mut l = String::new();
    push_str(&mut l, "pub type ");
    push_str(&mut l, rn.as_str());
    push_str(&mut l, " = ");
    push_str(&mut l, repr);
    push_str(&mut l, ";");
    w.ln(l.as_str());
    w.blank();
    assert(w@ =~= old(w)@ + empty_bitflags_lines(name@, repr@));
}

/// The lines a registry type contributes to the bitflags file.
pub open spec fn bitflags_type_lines(enums: Seq<(Seq<char>, EnumModel)>, ty: TypeModel) -> Seq<Seq<char>> {
    match ty.kind {
        TypeKindModel::Bitmask { bits_enum, repr } => match bits_enum {
            Some(en) => match entries_get(enums, en) {
                Some(e) => bitflag_struct_lines(e, repr),
                None => empty_bitflags_lines(ty.name, repr),
            },
            None => empty_bitflags_lines(ty.name, repr),
        },
        TypeKindModel::Other => Seq::empty(),
    }
}

/// The lines written for the bitmask types among `types`, in order.
pub open spec fn bitflags_types_lines(
    enums: Seq<(Seq<char>, EnumModel)>,
    types: Seq<(Seq<char>, TypeModel)>,
) -> Seq<Seq<char>>
    decreases types.len(),
{
    if types.len() == 0 {
        Seq::empty()
    } else {
        bitflags_types_lines(enums, types.drop_last()) + bitflags_type_lines(enums, types.last().1)
    }
}

/// The lines of `vk/bitflags.rs`.
pub open spec fn bitflags_file_lines(
    enums: Seq<(Seq<char>, EnumModel)>,
    types: Seq<(Seq<char>, TypeModel)>,
) -> Seq<Seq<char>> {
    file_header_lines("vk/bitflags.rs"@) + seq![
        "#![allow(non_upper_case_globals)]"@,
        "use crate::{vk::types::{Flags, Flags64}, vk_bitflags_wrapped};"@,
        Seq::empty(),
    ] + bitflags_types_lines(enums, types)
}

/// The text of `vk/bitflags.rs`: for every flags type of the registry, in
/// order, its struct and constants, or an alias when it has no bits enum.
pub fn generate(registry: &Registry) -> (r: String)
    ensures
        r@ == render_lines(
            bitflags_file_lines(enum_map_entries(registry.enums), type_map_entries(registry.types)),
        ),
{
    let ghost enums = enum_map_entries(registry.enums);
    let ghost types = type_map_entries(registry.types);
    let mut w = Writer::new();
    file_header(&mut w, "vk/bitflags.rs");
    w.ln("#![allow(non_upper_case_globals)]");
    w.ln("use crate::{vk::types::{Flags, Flags64}, vk_bitflags_wrapped};");
    w.blank();
    let ghost start = w@;
    let n = type_map_len(&registry.types);
    let mut i: usize = 0;
    assert(types.take(0) =~= Seq::<(Seq<char>, TypeModel)>::empty());
    assert(w@ =~= start + bitflags_types_lines(enums, types.take(0)));
    while i < n
        invariant
            i <= n,
            n == types.len(),
            types == type_map_entries(registry.types),
            enums == enum_map_entries(registry.enums),
            w@ == start + bitflags_types_lines(enums, types.take(i as int)),
        decreases n - i,
    {
        let ghost before = w@;
        match type_map_get_index(&registry.types, i) {
            Some((_, ty)) => {
                assert(types[i as int].1 == ty@);
                match &ty.kind {
                    TypeKind::Bitmask { bits_enum, repr } => {
                        let found = match bits_enum {
                            Some(en) => enum_map_get(&registry.enums, en.as_str()),
                            None => None,
                        };
                        match found {
                            Some(en) => write_bitflag_struct(&mut w, en, repr.as_str()),
                            None => write_empty_bitflags(&mut w, ty.name.as_str(), repr.as_str()),
                        }
                    },
                    TypeKind::Other => {},
                }
                assert(w@ =~= before + bitflags_type_lines(enums, ty@));
            },
            None => {},
        }
        assert(types.take(i + 1).drop_last() =~= types.take(i as int));
        assert(w@ =~= start + bitflags_types_lines(enums, types.take(i + 1)));
        i += 1;
    }
    assert(types.take(i as int) =~= types);
    assert(w@ =~= bitflags_file_lines(enums, types));
    w.into_string()
}

} // verus!
