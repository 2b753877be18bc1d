//! Rust enums for the registry's value enums.
use crate::casing::{pascal_case, to_pascal_case};
use crate::codegen::{Writer, file_header, file_header_lines, lemma_vendor_tags_ascii, render_lines, rust_name, rust_name_spec, vendor_tags, vendors};
use crate::codegen::bitflags::{enum_name_to_screaming_prefix, enum_prefix_spec, refpage_line, refpage_line_exec, value_const_name_spec, value_to_const_name};
use crate::number::{decimal_spec, i64_to_string};
use crate::parse::registry::{EnumModel, EnumValueModel, Registry, VkEnum};
use crate::parse::tables::{entries_get, enum_map_entries, enum_map_get_index, enum_map_len, key_index, lemma_key_index, lemma_stype_names_index, stype_map_entries, stype_map_get, stype_map_insert, stype_names};
use crate::text::{all_ascii, ascii_upper, chars_of, contains, ends_with, eq_ignore_case, eq_ignore_case_exec, find_char, find_char_exec, is_digit, is_digit_exec, lemma_find_char_shift, lower_char, lower_char_exec, push_char, push_chars, push_str, replace, replace_exec, slice_of, str_eq, string_of, to_lowercase, to_uppercase, unicode_lower, without_prefix, without_prefix_exec};
use indexmap::IndexMap;
use vstd::prelude::*;

verus! {

broadcast use {vstd::string::group_string_axioms, vstd::std_specs::hash::group_hash_axioms};

/// A word of a format name, cased from `first` on: every run of letters keeps
/// its first letter and lowercases the rest; digits are kept and start a new run.
pub open spec fn pascal_chars(seg: Seq<char>, first: bool) -> Seq<char>
    decreases seg.len(),
{
    if seg.len() == 0 {
        Seq::empty()
    } else if is_digit(seg[0]) {
        seq![seg[0]] + pascal_chars(seg.drop_first(), true)
    } else if first {
        seq![seg[0]] + pascal_chars(seg.drop_first(), false)
    } else {
        seq![lower_char(seg[0])] + pascal_chars(seg.drop_first(), false)
    }
}

/// Whether `seg` is a vendor tag, ignoring ASCII case.
pub open spec fn is_vendor_word(seg: Seq<char>) -> bool {
    exists|k: int| 0 <= k < vendor_tags().len() && eq_ignore_case(#[trigger] vendor_tags()[k], seg)
}

/// The number of characters of `seg` before its first digit (all of them
/// when it has none).
pub open spec fn lead_len(seg: Seq<char>) -> nat
    decreases seg.len(),
{
    if seg.len() == 0 || is_digit(seg[0]) {
        0
    } else {
        1 + lead_len(seg.drop_first())
    }
}

/// A channel spec such as `R8G8B8A8`, `BC1` or `4x4`: a segment with a digit
/// whose run of characters before the first digit is at most three long.
///
/// The bound of three is this library's own rule. It is chosen so that the
/// examples of [`better_pascal_case`] hold together: segments that carry a
/// digit early (`BC1`, `4x4`, `R8G8B8A8`) stay verbatim, while a longer word
/// that only ends in digits, such as `PACK32`, is still cased (`Pack32`).
pub open spec fn is_channel_spec(seg: Seq<char>) -> bool {
    lead_len(seg) < seg.len() && lead_len(seg) <= 3
}

/// One `_`-separated segment: a vendor tag or a channel spec is kept
/// verbatim, anything else is cased by [`pascal_chars`].
pub open spec fn pascal_segment(seg: Seq<char>) -> Seq<char> {
    if is_vendor_word(seg) || is_channel_spec(seg) {
        seg
    } else {
        pascal_chars(seg, true)
    }
}

/// The segments of `s` between `_`, each cased, joined without separator.
pub open spec fn better_pascal_spec(s: Seq<char>) -> Seq<char>
    decreases s.len(),
{
    match find_char(s, '_') {
        Some(i) => if 0 <= i < s.len() {
            pascal_segment(s.take(i)) + better_pascal_spec(s.skip(i + 1))
        } else {
            pascal_segment(s)
        },
        None => pascal_segment(s),
    }
}

fn is_vendor_word_exec(v: &Vec<char>, from: usize, to: usize) -> (r: bool)
    requires
        from <= to <= v.len(),
    ensures
        r == is_vendor_word(v@.subrange(from as int, to as int)),
{
    let seg = slice_of(v, from, to);
    let vs = vendors();
    let mut i: usize = 0;
    while i < vs.len()
        invariant
            i <= vs.len(),
            from <= to <= v.len(),
            seg@ == v@.subrange(from as int, to as int),
            vs@.len() == vendor_tags().len(),
            forall|j: int| 0 <= j < vs@.len() ==> (#[trigger] vs@[j])@ == vendor_tags()[j],
            forall|j: int| 0 <= j < i ==> !eq_ignore_case(#[trigger] vendor_tags()[j], seg@),
        decreases vs.len() - i,
    {
        let t = chars_of(vs[i]);
        if eq_ignore_case_exec(&t, &seg) {
            assert(eq_ignore_case(vendor_tags()[i as int], seg@));
            return true;
        }
        i += 1;
    }
    false
}

fn push_pascal_segment(out: &mut String, v: &Vec<char>, from: usize, to: usize)
    requires
        from <= to <= v.len(),
    ensures
        final(out)@ == old(out)@ + pascal_segment(v@.subrange(from as int, to as int)),
{
    let ghost seg = v@.subrange(from as int, to as int);
    if is_vendor_word_exec(v, from, to) {
        push_chars(out, v, from, to);
        return;
    }
    let mut lead = from;
    assert(seg.skip(0) =~= seg);
    while lead < to && !is_digit_exec(v[lead])
        invariant
            from <= lead <= to <= v.len(),
            seg == v@.subrange(from as int, to as int),
            lead_len(seg) == (lead - from) + lead_len(seg.skip(lead - from)),
        decreases to - lead,
    {
        assert(seg.skip(lead - from)[0] == v@[lead as int]);
        assert(seg.skip(lead - from).drop_first() =~= seg.skip(lead + 1 - from));
        lead += 1;
    }
    if lead < to {
        assert(seg.skip(lead - from)[0] == v@[lead as int]);
    }
    assert(lead_len(seg) == lead - from);
    if lead < to && lead - from <= 3 {
        push_chars(out, v, from, to);
        return;
    }
    let mut is_first = true;
    let mut i = from;
    assert(seg.skip(0) =~= seg);
    while i < to
        invariant
            from <= i <= to <= v.len(),
            seg == v@.subrange(from as int, to as int),
            out@ + pascal_chars(seg.skip(i - from), is_first) == old(out)@ + pascal_chars(seg, true),
        decreases to - i,
    {
        let ch = v[i];
        assert(seg.skip(i - from)[0] == ch);
        assert(seg.skip(i - from).drop_first() =~= seg.skip(i + 1 - from));
        if is_digit_exec(ch) {
            is_first = true;
            push_char(out, ch);
        } else if is_first {
            push_char(out, ch);
            is_first = false;
        } else {
            push_char(out, lower_char_exec(ch));
        }
        i += 1;
    }
    assert(seg.skip(to - from) =~= Seq::<char>::empty());
}

/// Pascal-case converter for `VkFormat` value names.
///
/// Generic pascal-case (as `heck` provides it) destroys information in
/// format names: `R8G8B8A8` → `R8g8b8a8`. Format names split on `_` into
/// two kinds of segments:
///
/// - **Channel specs** contain a digit and at most three characters before
///   their first one, e.g. `R8G8B8A8`, `BC1`, `4x4`. They encode bit widths
///   and component counts and are kept verbatim; vendor tags are kept too.
/// - **Other segments**, e.g. `UNORM`, `BLOCK`, `PACK32`: every letter that
///   follows a letter is lowercased, while digits are kept and restart the
///   casing (`Unorm`, `Block`, `Pack32`).
///
/// Examples:
/// - `R8G8B8A8_UNORM` → `R8G8B8A8Unorm`
/// - `BC1_RGB_UNORM_BLOCK` → `BC1RgbUnormBlock`
/// - `ASTC_4x4_UNORM_BLOCK` → `Astc4x4UnormBlock`
/// - `R16G16_SFLOAT` → `R16G16Sfloat`
/// - `R8G8B8A8_UNORM_PACK32` → `R8G8B8A8UnormPack32`
pub fn better_pascal_case(s: &str) -> (r: String)
    ensures
        r@ == better_pascal_spec(s@),
{
    let v = chars_of(s);
    let mut out = String::new();
    let mut start: usize = 0;
    assert(v@.skip(0) =~= v@);
    loop
        invariant
            start <= v.len(),
            v@ == s@,
            out@ + better_pascal_spec(v@.skip(start as int)) == better_pascal_spec(v@),
        decreases v.len() - start,
    {
        let ghost rest = v@.skip(start as int);
        match find_char_exec(&v, '_', start) {
            Some(i) => {
                proof {
                    lemma_find_char_shift(v@, '_', start as int);
                    assert(rest.take(i - start) =~= v@.subrange(start as int, i as int));
                    assert(rest.skip(i - start + 1) =~= v@.skip(i + 1));
                }
                push_pascal_segment(&mut out, &v, start, i);
                start = i + 1;
            },
            None => {
                proof {
                    lemma_find_char_shift(v@, '_', start as int);
                    assert(rest =~= v@.subrange(start as int, v.len() as int));
                }
                assert(find_char(rest, '_') is None);
                assert(better_pascal_spec(rest) == pascal_segment(rest));
                push_pascal_segment(&mut out, &v, start, v.len());
                return out;
            },
        }
    }
}

// ---------------------------------------------------------------------------
// Variant names
// ---------------------------------------------------------------------------

/// The lookup key of a `VkStructureType` value: lowercase, without `_`,
/// without `structuretype`.
pub open spec fn structure_search_key(vk_name: Seq<char>) -> Seq<char> {
    replace(replace(unicode_lower(vk_name), "_"@, Seq::empty()), "structuretype"@, Seq::empty())
}

/// `camel` with the first vendor tag (from `i` on) that ends it spelled in
/// upper case.
pub open spec fn fix_vendor_from(camel: Seq<char>, i: int) -> Seq<char>
    decreases vendor_tags().len() - i,
{
    if i < 0 || i >= vendor_tags().len() {
        camel
    } else if vendor_tags()[i].is_suffix_of(camel) {
        camel.take(camel.len() - vendor_tags()[i].len()) + ascii_upper(vendor_tags()[i])
    } else {
        fix_vendor_from(camel, i + 1)
    }
}

/// The variant name of value `vk_name` of enum `enum_name`, given the keys
/// and struct names of the structure-type table.
pub open spec fn variant_name_spec(
    names: Seq<(Seq<char>, Seq<char>)>,
    enum_name: Seq<char>,
    vk_name: Seq<char>,
) -> Seq<char> {
    if enum_name == "VkStructureType"@ {
        match entries_get(names, structure_search_key(vk_name)) {
            Some(n) => rust_name_spec(n),
            None => fix_vendor_from(
                pascal_case(without_prefix(vk_name, enum_prefix_spec(enum_name))),
                0,
            ),
        }
    } else {
        value_const_name_spec(enum_name, vk_name)
    }
}

/// The structure-type table after looking up `vk_name`: a found entry is
/// marked as used.
pub open spec fn mark_used(
    e: Seq<(Seq<char>, (Seq<char>, bool))>,
    enum_name: Seq<char>,
    vk_name: Seq<char>,
) -> Seq<(Seq<char>, (Seq<char>, bool))> {
    if enum_name == "VkStructureType"@ {
        match key_index(e, structure_search_key(vk_name)) {
            Some(i) => e.update(i, (e[i].0, (e[i].1.0, true))),
            None => e,
        }
    } else {
        e
    }
}

/// Marking a structure type used keeps every key and struct name.
proof fn lemma_mark_used_names(
    e: Seq<(Seq<char>, (Seq<char>, bool))>,
    enum_name: Seq<char>,
    vk_name: Seq<char>,
)
    ensures
        stype_names(mark_used(e, enum_name, vk_name)) == stype_names(e),
{
    if enum_name == "VkStructureType"@ {
        lemma_key_index(e, structure_search_key(vk_name), 0);
        assert(stype_names(mark_used(e, enum_name, vk_name)) =~= stype_names(e));
    }
}

/// Enum and bitflag code name the values of every enum but
/// `VkStructureType` alike, through the one shared prefix rule, and naming
/// such a value marks no structure type.
pub proof fn enum_and_bitflag_names_agree(
    names: Seq<(Seq<char>, Seq<char>)>,
    table: Seq<(Seq<char>, (Seq<char>, bool))>,
    enum_name: Seq<char>,
    vk_name: Seq<char>,
)
    requires
        enum_name != "VkStructureType"@,
    ensures
        variant_name_spec(names, enum_name, vk_name) == value_const_name_spec(enum_name, vk_name),
        mark_used(table, enum_name, vk_name) == table,
{
}

/// Converts a raw Vulkan enum value name to the Rust variant / const name
/// that appears inside the generated enum.
///
/// | enum              | strategy                                            |
/// |-------------------|-----------------------------------------------------|
/// | `VkStructureType` | lookup in the known-struct map, pascal fallback     |
/// | everything else   | [`value_to_const_name`] (shared with bitflag codegen) |
///
/// A struct found in the map is marked as used.
pub fn variant_name(
    enum_name: &str,
    vk_name: &str,
    types: &mut IndexMap<String, (String, bool)>,
) -> (r: String)
    ensures
        r@ == variant_name_spec(stype_names(stype_map_entries(*old(types))), enum_name@, vk_name@),
        stype_map_entries(*final(types)) == mark_used(stype_map_entries(*old(types)), enum_name@, vk_name@),
{
    let ghost e = stype_map_entries(*types);
    if str_eq(enum_name, "VkStructureType") {
        let lower = to_lowercase(vk_name);
        let empty: Vec<char> = Vec::new();
        assert(empty@ =~= Seq::<char>::empty());
        let s1 = replace_exec(&chars_of(lower.as_str()), &chars_of("_"), &empty);
        let s2 = replace_exec(&s1, &chars_of("structuretype"), &empty);
        let search = string_of(&s2, 0, s2.len());
        assert(search@ =~= structure_search_key(vk_name@));
        proof {
            lemma_key_index(e, search@, 0);
            lemma_stype_names_index(e, search@, 0);
        }
        let found = match stype_map_get(types, search.as_str()) {
            Some(entry) => Some(entry.0.clone()),
            None => None,
        };
        if let Some(struct_name) = found {
            let rn = rust_name(struct_name.as_str());
            stype_map_insert(types, search, (struct_name, true));
            assert(stype_map_entries(*types) =~= mark_used(e, enum_name@, vk_name@));
            return rn;
        }
        let prefix = enum_name_to_screaming_prefix(enum_name);
        let without = without_prefix_exec(&chars_of(vk_name), &chars_of(prefix.as_str()));
        let without_s = string_of(&without, 0, without.len());
        assert(without_s@ =~= without@);
        let camel = to_pascal_case(without_s.as_str());
        return fix_vendor(camel.as_str());
    }
    value_to_const_name(enum_name, vk_name)
}

/// Spells a trailing vendor tag of a PascalCase name in upper case.
fn fix_vendor(camel: &str) -> (r: String)
    ensures
        r@ == fix_vendor_from(camel@, 0),
{
    proof {
        lemma_vendor_tags_ascii();
    }
    let cs = chars_of(camel);
    let vs = vendors();
    let mut i: usize = 0;
    while i < vs.len()
        invariant
            i <= vs.len(),
            cs@ == camel@,
            vs@.len() == vendor_tags().len(),
            forall|j: int| 0 <= j < vs@.len() ==> (#[trigger] vs@[j])@ == vendor_tags()[j],
            forall|j: int| 0 <= j < vendor_tags().len() ==> all_ascii(#[trigger] vendor_tags()[j]),
            fix_vendor_from(camel@, 0) == fix_vendor_from(camel@, i as int),
        decreases vs.len() - i,
    {
        let tag = chars_of(vs[i]);
        if ends_with(&cs, &tag) {
            let mut r = string_of(&cs, 0, cs.len() - tag.len());
            let up = to_uppercase(vs[i]);
            push_str(&mut r, up.as_str());
            return r;
        }
        i += 1;
    }
    string_of(&cs, 0, cs.len())
}

// ---------------------------------------------------------------------------
// The enums file
// ---------------------------------------------------------------------------

/// The values of `vals`, in order.
pub open spec fn values_of(vals: Seq<EnumValueModel>) -> Seq<i64> {
    vals.map_values(|v: EnumValueModel| v.value)
}

/// The positions of the values whose number no earlier value has: the
/// values that become variants, in order.
pub open spec fn first_value_indices(vals: Seq<EnumValueModel>) -> Seq<int>
    decreases vals.len(),
{
    if vals.len() == 0 {
        Seq::empty()
    } else {
        let prev = vals.drop_last();
        if values_of(prev).contains(vals.last().value) {
            first_value_indices(prev)
        } else {
            first_value_indices(prev).push(vals.len() - 1)
        }
    }
}

/// The structure-type table after looking up each of `names` in turn.
pub open spec fn mark_all(
    e: Seq<(Seq<char>, (Seq<char>, bool))>,
    enum_name: Seq<char>,
    names: Seq<Seq<char>>,
) -> Seq<(Seq<char>, (Seq<char>, bool))>
    decreases names.len(),
{
    if names.len() == 0 {
        e
    } else {
        mark_used(mark_all(e, enum_name, names.drop_last()), enum_name, names.last())
    }
}

/// The lines of the variant of value number `j`; the first variant is the default.
pub open spec fn variant_lines(
    names: Seq<(Seq<char>, Seq<char>)>,
    en: EnumModel,
    j: int,
    is_first: bool,
) -> Seq<Seq<char>> {
    let v = en.values[j];
    (match v.comment {
        Some(c) => seq!["/// "@ + c],
        None => Seq::<Seq<char>>::empty(),
    }) + (if is_first {
        seq!["#[default]"@]
    } else {
        Seq::<Seq<char>>::empty()
    }) + seq![variant_name_spec(names, en.name, v.name) + " = "@ + decimal_spec(v.value as int) + ","@]
}

/// The variant lines of the values at `idx`; the first is the default.
pub open spec fn variants_lines(names: Seq<(Seq<char>, Seq<char>)>, en: EnumModel, idx: Seq<int>) -> Seq<Seq<char>>
    decreases idx.len(),
{
    if idx.len() == 0 {
        Seq::empty()
    } else {
        variants_lines(names, en, idx.drop_last()) + variant_lines(names, en, idx.last(), idx.len() == 1)
    }
}

/// The names of the values at positions `idx`.
pub open spec fn names_at(vals: Seq<EnumValueModel>, idx: Seq<int>) -> Seq<Seq<char>> {
    idx.map_values(|j: int| vals[j].name)
}

/// The first value from position `i` on with the same number as value `j`
/// and another name.
pub open spec fn alias_target_from(vals: Seq<EnumValueModel>, j: int, i: int) -> Option<int>
    decreases vals.len() - i,
{
    if i < 0 || i >= vals.len() {
        None
    } else if vals[i].value == vals[j].value && vals[i].name != vals[j].name {
        Some(i)
    } else {
        alias_target_from(vals, j, i + 1)
    }
}

/// The alias constant that makes value name `a` refer to variant `b`.
pub open spec fn alias_text(rn: Seq<char>, a: Seq<char>, b: Seq<char>) -> Seq<char> {
    "impl "@ + rn + " {\n    #[allow(non_upper_case_globals)]\n    pub const "@ + a + ": "@ + rn
        + " = "@ + rn + "::"@ + b + ";\n}"@
}

/// The alias constant written for value number `j`, if any.
pub open spec fn alias_lines(names: Seq<(Seq<char>, Seq<char>)>, en: EnumModel, j: int) -> Seq<Seq<char>> {
    match alias_target_from(en.values, j, 0) {
        Some(o) => seq![
            alias_text(
                rust_name_spec(en.name),
                variant_name_spec(names, en.name, en.values[j].name),
                variant_name_spec(names, en.name, en.values[o].name),
            ),
        ],
        None => Seq::empty(),
    }
}

/// The alias constants of the first `n` values.
pub open spec fn aliases_lines(names: Seq<(Seq<char>, Seq<char>)>, en: EnumModel, n: int) -> Seq<Seq<char>>
    decreases n,
{
    if n <= 0 {
        Seq::empty()
    } else {
        aliases_lines(names, en, n - 1) + alias_lines(names, en, n - 1)
    }
}

/// The structure-type table after the alias pass over the first `n` values.
pub open spec fn alias_marks(
    e: Seq<(Seq<char>, (Seq<char>, bool))>,
    en: EnumModel,
    n: int,
) -> Seq<(Seq<char>, (Seq<char>, bool))>
    decreases n,
{
    if n <= 0 {
        e
    } else {
        let e2 = mark_used(alias_marks(e, en, n - 1), en.name, en.values[n - 1].name);
        match alias_target_from(en.values, n - 1, 0) {
            Some(o) => mark_used(e2, en.name, en.values[o].name),
            None => e2,
        }
    }
}

/// The lines of the Rust enum for `en`: one variant per distinct value, then
/// an alias constant for every value whose number another value has under
/// another name.
pub open spec fn enum_lines(names: Seq<(Seq<char>, Seq<char>)>, en: EnumModel) -> Seq<Seq<char>> {
    seq![
        refpage_line(en.name),
        "#[repr(C)]"@,
        "#[derive(Clone, Copy, Debug, Default, Hash, PartialEq, Eq)]"@,
        "pub enum "@ + rust_name_spec(en.name) + " {"@,
    ] + variants_lines(names, en, first_value_indices(en.values)) + seq!["}"@, Seq::empty()]
        + aliases_lines(names, en, en.values.len() as int) + seq![Seq::empty()]
}

/// The structure-type table after writing the enum for `en`.
pub open spec fn enum_marks(e: Seq<(Seq<char>, (Seq<char>, bool))>, en: EnumModel) -> Seq<(Seq<char>, (Seq<char>, bool))> {
    alias_marks(
        mark_all(e, en.name, names_at(en.values, first_value_indices(en.values))),
        en,
        en.values.len() as int,
    )
}

/// So does marking several.
proof fn lemma_mark_all_names(
    e: Seq<(Seq<char>, (Seq<char>, bool))>,
    enum_name: Seq<char>,
    names: Seq<Seq<char>>,
)
    ensures
        stype_names(mark_all(e, enum_name, names)) == stype_names(e),
    decreases names.len(),
{
    if names.len() > 0 {
        lemma_mark_all_names(e, enum_name, names.drop_last());
        lemma_mark_used_names(mark_all(e, enum_name, names.drop_last()), enum_name, names.last());
    }
}

fn write_enum_variants(w: &mut Writer, en: &VkEnum, types: &mut IndexMap<String, (String, bool)>)
    ensures
        final(w)@ == old(w)@ + variants_lines(
            stype_names(stype_map_entries(*old(types))),
            en@,
            first_value_indices(en@.values),
        ),
        stype_map_entries(*final(types)) == mark_all(
            stype_map_entries(*old(types)),
            en@.name,
            names_at(en@.values, first_value_indices(en@.values)),
        ),
{
    let ghost vals = en@.values;
    let ghost e0 = stype_map_entries(*types);
    let ghost names = stype_names(e0);
    let ghost start = w@;
    let mut seen: std::collections::HashSet<i64> = std::collections::HashSet::new();
    let mut first = true;
    let mut i: usize = 0;
    assert(vals.take(0) =~= Seq::<EnumValueModel>::empty());
    assert(w@ =~= start + variants_lines(names, en@, first_value_indices(vals.take(0))));
    assert(names_at(vals, first_value_indices(vals.take(0))) =~= Seq::<Seq<char>>::empty());
    while i < en.values.len()
        invariant
            i <= en.values.len(),
            vals == en@.values,
            names == stype_names(e0),
            forall|x: i64| seen@.contains(x) <==> values_of(vals.take(i as int)).contains(x),
            first == (first_value_indices(vals.take(i as int)).len() == 0),
            forall|k: int|
                0 <= k < first_value_indices(vals.take(i as int)).len() ==> 0 <= #[trigger] first_value_indices(
                    vals.take(i as int),
                )[k] < i,
            w@ == start + variants_lines(names, en@, first_value_indices(vals.take(i as int))),
            stype_map_entries(*types) == mark_all(e0, en@.name, names_at(vals, first_value_indices(vals.take(i as int)))),
        decreases en.values.len() - i,
    {
        let v = &en.values[i];
        let ghost prev = vals.take(i as int);
        assert(vals.take(i + 1).drop_last() =~= prev);
        assert(vals.take(i + 1).last() == v@);
        assert(values_of(vals.take(i + 1)) =~= values_of(prev).push(v.value));
        let ghost idx0 = first_value_indices(prev);
        let ghost s0 = seen@;
        assert(s0.contains(v.value) == values_of(prev).contains(v.value));
        assert(vals.take(i + 1).last().value == v.value);
        let fresh = seen.insert(v.value);
        if fresh {
            proof {
                lemma_mark_all_names(e0, en@.name, names_at(vals, idx0));
            }
            if let Some(c) = &v.comment {
                let mut l = String::new();
                push_str(&mut l, "/// ");
                push_str(&mut l, c.as_str());
                w.ln(l.as_str());
            }
            if first {
                first = false;
                w.ln("#[default]");
            }
            let vname = variant_name(en.name.as_str(), v.name.as_str(), types);
            let num = i64_to_string(v.value);
            let mut l = String::new();
            push_str(&mut l, vname.as_str());
            push_str(&mut l, " = ");
            push_str(&mut l, num.as_str());
            push_str(&mut l, ",");
            w.ln(l.as_str());
            let ghost idx1 = first_value_indices(vals.take(i + 1));
            assert(idx1 == idx0.push(i as int));
            assert(idx1.drop_last() =~= idx0);
            assert(vals.take(i + 1)[i as int] == v@);
            assert(vals[idx1.last()] == v@);
            assert(w@ =~= start + variants_lines(names, en@, idx1));
            assert(names_at(vals, idx1).drop_last() =~= names_at(vals, idx0));
            assert forall|x: i64| seen@.contains(x) <==> values_of(vals.take(i + 1)).contains(x) by {
                if values_of(vals.take(i + 1)).contains(x) {
                    let j = choose|j: int| 0 <= j < i + 1 && #[trigger] values_of(vals.take(i + 1))[j] == x;
                    if j < i {
                        assert(values_of(prev)[j] == x);
                        assert(values_of(prev).contains(x));
                    }
                }
                if seen@.contains(x) && x != v.value {
                    assert(s0.contains(x));
                    let j = choose|j: int| 0 <= j < prev.len() && #[trigger] values_of(prev)[j] == x;
                    assert(values_of(vals.take(i + 1))[j] == x);
                }
                if x == v.value {
                    assert(values_of(vals.take(i + 1))[i as int] == x);
                }
            }
        } else {
            assert(first_value_indices(vals.take(i + 1)) == idx0);
            assert forall|x: i64| seen@.contains(x) <==> values_of(vals.take(i + 1)).contains(x) by {
                if values_of(vals.take(i + 1)).contains(x) {
                    let j = choose|j: int| 0 <= j < i + 1 && #[trigger] values_of(vals.take(i + 1))[j] == x;
                    if j < i {
                        assert(values_of(prev)[j] == x);
                    }
                }
                if seen@.contains(x) {
                    assert(values_of(prev).contains(x));
                    let j = choose|j: int| 0 <= j < prev.len() && #[trigger] values_of(prev)[j] == x;
                    assert(values_of(vals.take(i + 1))[j] == x);
                }
            }
        }
        i += 1;
    }
    assert(vals.take(i as int) =~= vals);
}

fn find_alias_target(en: &VkEnum, j: usize) -> (r: Option<usize>)
    requires
        j < en.values.len(),
    ensures
        r matches Some(o) ==> o < en.values.len() && alias_target_from(en@.values, j as int, 0) == Some(o as int),
        r is None ==> alias_target_from(en@.values, j as int, 0) is None,
{
    let mut x: usize = 0;
    while x < en.values.len()
        invariant
            j < en.values.len(),
            alias_target_from(en@.values, j as int, 0) == alias_target_from(en@.values, j as int, x as int),
        decreases en.values.len() - x,
    {
        if en.values[x].value == en.values[j].value && !str_eq(
            en.values[x].name.as_str(),
            en.values[j].name.as_str(),
        ) {
            return Some(x);
        }
        x += 1;
    }
    None
}

fn write_enum_aliases(w: &mut Writer, en: &VkEnum, types: &mut IndexMap<String, (String, bool)>)
    ensures
        final(w)@ == old(w)@ + aliases_lines(
            stype_names(stype_map_entries(*old(types))),
            en@,
            en@.values.len() as int,
        ),
        stype_map_entries(*final(types)) == alias_marks(
            stype_map_entries(*old(types)),
            en@,
            en@.values.len() as int,
        ),
{
    let ghost e0 = stype_map_entries(*types);
    let ghost names = stype_names(e0);
    let ghost start = w@;
    let mut i: usize = 0;
    // Every value went into the set of seen values while the variants were
    // written, so each one is looked at here.
    while i < en.values.len()
        invariant
            i <= en.values.len(),
            names == stype_names(e0),
            stype_names(stype_map_entries(*types)) == names,
            w@ == start + aliases_lines(names, en@, i as int),
            stype_map_entries(*types) == alias_marks(e0, en@, i as int),
        decreases en.values.len() - i,
    {
        let v = &en.values[i];
        assert(en@.values[i as int] == v@);
        let ghost e1 = stype_map_entries(*types);
        let vname = variant_name(en.name.as_str(), v.name.as_str(), types);
        proof {
            lemma_mark_used_names(e1, en@.name, v@.name);
        }
        let target = find_alias_target(en, i);
        if let Some(o) = target {
            assert(en@.values[o as int] == en.values@[o as int]@);
            let name = rust_name(en.name.as_str());
            let ghost e2 = stype_map_entries(*types);
            let oname = variant_name(en.name.as_str(), en.values[o].name.as_str(), types);
            proof {
                lemma_mark_used_names(e2, en@.name, en@.values[o as int].name);
            }
            let mut l = String::new();
            push_str(&mut l, "impl ");
            push_str(&mut l, name.as_str());
            push_str(&mut l, " {\n    #[allow(non_upper_case_globals)]\n    pub const ");
            push_str(&mut l, vname.as_str());
            push_str(&mut l, ": ");
            push_str(&mut l, name.as_str());
            push_str(&mut l, " = ");
            push_str(&mut l, name.as_str());
            push_str(&mut l, "::");
            push_str(&mut l, oname.as_str());
            push_str(&mut l, ";\n}");
            w.ln(l.as_str());
        }
        assert(w@ =~= start + aliases_lines(names, en@, i + 1));
        i += 1;
    }
}

/// Writes the Rust enum for `en`, looking up structure types in `types`
/// and marking the ones it uses.
pub fn write_enum(w: &mut Writer, en: &VkEnum, types: &mut IndexMap<String, (String, bool)>)
    ensures
        final(w)@ == old(w)@ + enum_lines(stype_names(stype_map_entries(*old(types))), en@),
        stype_map_entries(*final(types)) == enum_marks(stype_map_entries(*old(types)), en@),
{
    let ghost e0 = stype_map_entries(*types);
    w.ln(refpage_line_exec(en.name.as_str()).as_str());
    w.ln("#[repr(C)]");
    w.ln("#[derive(Clone, Copy, Debug, Default, Hash, PartialEq, Eq)]");
    let rn = rust_name(en.name.as_str());
    let mut l = String::new();
    push_str(&mut l, "pub enum ");
    push_str(&mut l, rn.as_str());
    push_str(&mut l, " {");
    w.ln(l.as_str());
    write_enum_variants(w, en, types);
    proof {
        lemma_mark_all_names(e0, en@.name, names_at(en@.values, first_value_indices(en@.values)));
    }
    w.ln("}");
    w.blank();
    write_enum_aliases(w, en, types);
    w.blank();
    assert(w@ =~= old(w)@ + enum_lines(stype_names(e0), en@));
}

/// The lines the value enums among `enums` contribute, in order.
pub open spec fn enums_lines(names: Seq<(Seq<char>, Seq<char>)>, enums: Seq<(Seq<char>, EnumModel)>) -> Seq<Seq<char>>
    decreases enums.len(),
{
    if enums.len() == 0 {
        Seq::empty()
    } else {
        enums_lines(names, enums.drop_last()) + if enums.last().1.is_bitmask {
            Seq::<Seq<char>>::empty()
        } else {
            enum_lines(names, enums.last().1)
        }
    }
}

/// The structure-type table after writing the value enums among `enums`.
pub open spec fn enums_marks(
    e: Seq<(Seq<char>, (Seq<char>, bool))>,
    enums: Seq<(Seq<char>, EnumModel)>,
) -> Seq<(Seq<char>, (Seq<char>, bool))>
    decreases enums.len(),
{
    if enums.len() == 0 {
        e
    } else if enums.last().1.is_bitmask {
        enums_marks(e, enums.drop_last())
    } else {
        enum_marks(enums_marks(e, enums.drop_last()), enums.last().1)
    }
}

/// `b` is `a` with possibly more structure types marked used: same keys,
/// same struct names, same places, and no mark taken away.
pub open spec fn marks_grow(a: Seq<(Seq<char>, (Seq<char>, bool))>, b: Seq<(Seq<char>, (Seq<char>, bool))>) -> bool {
    &&& a.len() == b.len()
    &&& forall|i: int|
        0 <= i < a.len() ==> (#[trigger] a[i]).0 == b[i].0 && a[i].1.0 == b[i].1.0 && (a[i].1.1 ==> b[i].1.1)
}

proof fn lemma_marks_grow_trans(
    a: Seq<(Seq<char>, (Seq<char>, bool))>,
    b: Seq<(Seq<char>, (Seq<char>, bool))>,
    c: Seq<(Seq<char>, (Seq<char>, bool))>,
)
    requires
        marks_grow(a, b),
        marks_grow(b, c),
    ensures
        marks_grow(a, c),
{
    assert forall|i: int| 0 <= i < a.len() implies (#[trigger] a[i]).0 == c[i].0 && a[i].1.0 == c[i].1.0 && (
    a[i].1.1 ==> c[i].1.1) by {
        assert(b[i].0 == c[i].0);
    }
}

proof fn lemma_mark_used_grows(e: Seq<(Seq<char>, (Seq<char>, bool))>, enum_name: Seq<char>, vk_name: Seq<char>)
    ensures
        marks_grow(e, mark_used(e, enum_name, vk_name)),
{
    if enum_name == "VkStructureType"@ {
        lemma_key_index(e, structure_search_key(vk_name), 0);
    }
}

proof fn lemma_mark_all_grows(e: Seq<(Seq<char>, (Seq<char>, bool))>, enum_name: Seq<char>, names: Seq<Seq<char>>)
    ensures
        marks_grow(e, mark_all(e, enum_name, names)),
    decreases names.len(),
{
    if names.len() == 0 {
        assert(marks_grow(e, e));
    } else {
        let p = mark_all(e, enum_name, names.drop_last());
        lemma_mark_all_grows(e, enum_name, names.drop_last());
        lemma_mark_used_grows(p, enum_name, names.last());
        lemma_marks_grow_trans(e, p, mark_used(p, enum_name, names.last()));
    }
}

proof fn lemma_alias_marks_grow(e: Seq<(Seq<char>, (Seq<char>, bool))>, en: EnumModel, n: int)
    ensures
        marks_grow(e, alias_marks(e, en, n)),
    decreases n,
{
    if n <= 0 {
        assert(marks_grow(e, e));
    } else {
        let p = alias_marks(e, en, n - 1);
        lemma_alias_marks_grow(e, en, n - 1);
        let e2 = mark_used(p, en.name, en.values[n - 1].name);
        lemma_mark_used_grows(p, en.name, en.values[n - 1].name);
        lemma_marks_grow_trans(e, p, e2);
        match alias_target_from(en.values, n - 1, 0) {
            Some(o) => {
                lemma_mark_used_grows(e2, en.name, en.values[o].name);
                lemma_marks_grow_trans(e, e2, mark_used(e2, en.name, en.values[o].name));
            },
            None => {},
        }
    }
}

/// Writing the enums only ever marks structure types as used: every entry
/// of the table keeps its key, its struct name and its place, and an entry
/// marked used stays marked.
pub proof fn enums_only_mark(e: Seq<(Seq<char>, (Seq<char>, bool))>, enums: Seq<(Seq<char>, EnumModel)>)
    ensures
        marks_grow(e, enums_marks(e, enums)),
    decreases enums.len(),
{
    if enums.len() == 0 {
        assert(marks_grow(e, e));
    } else {
        let p = enums_marks(e, enums.drop_last());
        enums_only_mark(e, enums.drop_last());
        if !enums.last().1.is_bitmask {
            let en = enums.last().1;
            let m = mark_all(p, en.name, names_at(en.values, first_value_indices(en.values)));
            lemma_mark_all_grows(p, en.name, names_at(en.values, first_value_indices(en.values)));
            lemma_alias_marks_grow(m, en, en.values.len() as int);
            lemma_marks_grow_trans(p, m, enum_marks(p, en));
            lemma_marks_grow_trans(e, p, enum_marks(p, en));
        }
    }
}

/// The lines of `vk/enums.rs`.
pub open spec fn enums_file_lines(names: Seq<(Seq<char>, Seq<char>)>, enums: Seq<(Seq<char>, EnumModel)>) -> Seq<Seq<char>> {
    file_header_lines("vk/enums.rs"@) + seq!["#![allow(non_camel_case_types)]"@, Seq::empty()]
        + enums_lines(names, enums)
}

/// So do the marks of an enum's aliases.
proof fn lemma_enum_marks_names(e: Seq<(Seq<char>, (Seq<char>, bool))>, en: EnumModel, n: int)
    ensures
        stype_names(alias_marks(e, en, n)) == stype_names(e),
    decreases n,
{
    if n > 0 {
        lemma_enum_marks_names(e, en, n - 1);
        let e2 = mark_used(alias_marks(e, en, n - 1), en.name, en.values[n - 1].name);
        lemma_mark_used_names(alias_marks(e, en, n - 1), en.name, en.values[n - 1].name);
        match alias_target_from(en.values, n - 1, 0) {
            Some(o) => lemma_mark_used_names(e2, en.name, en.values[o].name),
            None => {},
        }
    }
}

/// The text of `vk/enums.rs`: a Rust enum for every value enum of the
/// registry, in order. Structure types the enums use are marked in
/// `registry.stypes`.
pub fn generate(registry: &mut Registry) -> (r: String)
    ensures
        r@ == render_lines(
            enums_file_lines(stype_names(stype_map_entries(old(registry).stypes)), enum_map_entries(old(registry).enums)),
        ),
        stype_map_entries(final(registry).stypes) == enums_marks(
            stype_map_entries(old(registry).stypes),
            enum_map_entries(old(registry).enums),
        ),
        final(registry).types == old(registry).types,
        final(registry).enums == old(registry).enums,
        final(registry).commands == old(registry).commands,
        final(registry).constants == old(registry).constants,
        final(registry).extensions == old(registry).extensions,
        final(registry).features == old(registry).features,
{
    let ghost enums = enum_map_entries(registry.enums);
    let ghost e0 = stype_map_entries(registry.stypes);
    let ghost names = stype_names(e0);
    let mut w = Writer::new();
    file_header(&mut w, "vk/enums.rs");
    w.ln("#![allow(non_camel_case_types)]");
    w.blank();
    let ghost start = w@;
    let n = enum_map_len(&registry.enums);
    let mut i: usize = 0;
    assert(enums.take(0) =~= Seq::<(Seq<char>, EnumModel)>::empty());
    assert(w@ =~= start + enums_lines(names, enums.take(0)));
    while i < n
        invariant
            i <= n,
            n == enums.len(),
            enums == enum_map_entries(registry.enums),
            names == stype_names(e0),
            stype_names(stype_map_entries(registry.stypes)) == names,
            stype_map_entries(registry.stypes) == enums_marks(e0, enums.take(i as int)),
            w@ == start + enums_lines(names, enums.take(i as int)),
            registry.types == old(registry).types,
            registry.enums == old(registry).enums,
            registry.commands == old(registry).commands,
            registry.constants == old(registry).constants,
            registry.extensions == old(registry).extensions,
            registry.features == old(registry).features,
        decreases n - i,
    {
        assert(enums.take(i + 1).drop_last() =~= enums.take(i as int));
        match enum_map_get_index(&registry.enums, i) {
            Some((_, en)) => {
                assert(enums[i as int].1 == en@);
                if !en.is_bitmask {
                    let ghost e1 = stype_map_entries(registry.stypes);
                    write_enum(&mut w, en, &mut registry.stypes);
                    proof {
                        lemma_mark_all_names(e1, en@.name, names_at(en@.values, first_value_indices(en@.values)));
                        lemma_enum_marks_names(
                            mark_all(e1, en@.name, names_at(en@.values, first_value_indices(en@.values))),
                            en@,
                            en@.values.len() as int,
                        );
                    }
                }
            },
            None => {},
        }
        assert(w@ =~= start + enums_lines(names, enums.take(i + 1)));
        i += 1;
    }
    assert(enums.take(i as int) =~= enums);
    assert(w@ =~= enums_file_lines(names, enums));
    w.into_string()
}

} // verus!
