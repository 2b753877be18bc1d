//! The `vk/constants.rs` file: API version helpers and the registry's constants.
use crate::codegen::{Writer, const_name, const_name_spec, file_header, file_header_lines, render_lines};
use crate::number::{parse_u32, parse_unsigned, radix_digits, radix_digits_exec};
use crate::parse::enums::{infer_constant_type_spec, rust_constant_value_spec};
use crate::parse::registry::{ConstantModel, Registry, VkConstant};
use crate::text::{ascii_lower, ascii_lower_exec, chars_of, contains, ends_with, find, find_char, find_char_exec, find_char_from, is_digit, is_whitespace, lemma_find_from_bounds, lemma_found_at, lemma_prefix_at, lemma_suffix_last, lemma_utf8_len_bounds, push_chars, push_str, slice_of, starts_with, string_of, trim, trim_end_char, trim_end_char_exec, trim_end_str, trim_end_str_exec, trim_exec, trim_start, utf8_len, utf8_len_exec};
use vstd::prelude::*;

verus! {

broadcast use vstd::string::group_string_axioms;

/// Whether `s` ends with `c`.
pub open spec fn ends_char(s: Seq<char>, c: char) -> bool {
    s.len() > 0 && s.last() == c
}

/// Whether `v` is a bit-inverted literal such as `(~0U)`.
pub open spec fn is_bitnot(v: Seq<char>) -> bool {
    "(~"@.is_prefix_of(v) && ")"@.is_suffix_of(v) && v.len() >= 3
}

/// The operand inside `(~ … )`.
pub open spec fn bitnot_inner(v: Seq<char>) -> Seq<char> {
    v.subrange(2, v.len() - 1)
}

/// Whether `v` ends with a C `long` suffix.
pub open spec fn has_long_suffix(v: Seq<char>) -> bool {
    "ULL"@.is_suffix_of(v) || "ull"@.is_suffix_of(v) || "UL"@.is_suffix_of(v) || "ul"@.is_suffix_of(v)
}

/// Whether `v` is written in hexadecimal.
pub open spec fn is_hex(v: Seq<char>) -> bool {
    "0x"@.is_prefix_of(v) || "0X"@.is_prefix_of(v)
}

/// The Rust type of a C constant literal: `f32` for floats, `u64` for
/// 64-bit suffixes and wide hexadecimal literals, `u32` otherwise.
pub open spec fn infer_type_spec(value: Seq<char>) -> Seq<char> {
    let v = trim(value);
    if ends_char(v, 'f') || ends_char(v, 'F') || find_char(v, '.') is Some {
        "f32"@
    } else if is_bitnot(v) {
        let inner = bitnot_inner(v);
        let base = match find_char(inner, '-') {
            Some(p) => inner.take(p),
            None => inner,
        };
        if has_long_suffix(base) {
            "u64"@
        } else {
            "u32"@
        }
    } else if has_long_suffix(v) {
        "u64"@
    } else if is_hex(v) && utf8_len(v) - 2 > 8 {
        "u64"@
    } else if "u64"@.is_suffix_of(v) {
        "u64"@
    } else {
        "u32"@
    }
}

/// The digits of a bit-inverted operand: `0U` → `0`, `2ULL` → `2`.
pub open spec fn bitnot_digits(base: Seq<char>) -> Seq<char> {
    trim_end_char(
        trim_end_char(
            trim_end_str(
                trim_end_str(trim_end_str(trim_end_str(base, "ULL"@), "ull"@), "UL"@),
                "ul"@,
            ),
            'U',
        ),
        'u',
    )
}

/// The Rust integer type a C suffix names: `u64` for the long suffixes,
/// `u32` for `U`, none without a suffix.
pub open spec fn bitnot_width(base: Seq<char>) -> Seq<char> {
    if has_long_suffix(base) {
        "u64"@
    } else if ends_char(base, 'U') || ends_char(base, 'u') {
        "u32"@
    } else {
        Seq::empty()
    }
}

/// `0U` → `!0u32`, `0ULL` → `!0u64`, `0U-1` → `!0u32 - 1`; an unparsable
/// subtrahend counts as `0`.
pub open spec fn bitnot_spec(inner: Seq<char>) -> Seq<char> {
    match find_char(inner, '-') {
        Some(pos) => {
            let base = inner.take(pos);
            let sub: nat = match parse_unsigned(inner.skip(pos + 1), 10, 0xffff_ffff) {
                Some(n) => n,
                None => 0,
            };
            "!"@ + bitnot_digits(base) + bitnot_width(base) + " - "@ + radix_digits(sub, 10)
        },
        None => "!"@ + bitnot_digits(inner) + bitnot_width(inner),
    }
}

/// The Rust spelling of a C constant literal: the C suffix removed,
/// hexadecimal in lower case, bit-inversions in Rust syntax.
pub open spec fn to_rust_value_spec(value: Seq<char>) -> Seq<char> {
    let v = trim(value);
    if is_bitnot(v) {
        bitnot_spec(bitnot_inner(v))
    } else if ends_char(v, 'f') || ends_char(v, 'F') {
        v.drop_last()
    } else if "ULL"@.is_suffix_of(v) || "ull"@.is_suffix_of(v) || "u32"@.is_suffix_of(v)
        || "u64"@.is_suffix_of(v) {
        v.take(v.len() - 3)
    } else if "UL"@.is_suffix_of(v) || "ul"@.is_suffix_of(v) {
        v.take(v.len() - 2)
    } else if ends_char(v, 'U') || ends_char(v, 'u') {
        v.drop_last()
    } else if is_hex(v) {
        ascii_lower(v)
    } else {
        v
    }
}

fn ends_char_exec(v: &Vec<char>, c: char) -> (r: bool)
    ensures
        r == ends_char(v@, c),
{
    v.len() > 0 && v[v.len() - 1] == c
}

fn has_long_suffix_exec(v: &Vec<char>) -> (r: bool)
    ensures
        r == has_long_suffix(v@),
{
    ends_with(v, &chars_of("ULL")) || ends_with(v, &chars_of("ull")) || ends_with(
        v,
        &chars_of("UL"),
    ) || ends_with(v, &chars_of("ul"))
}

fn is_hex_exec(v: &Vec<char>) -> (r: bool)
    ensures
        r == is_hex(v@),
{
    starts_with(v, &chars_of("0x")) || starts_with(v, &chars_of("0X"))
}

fn is_bitnot_exec(v: &Vec<char>) -> (r: bool)
    ensures
        r == is_bitnot(v@),
{
    starts_with(v, &chars_of("(~")) && ends_with(v, &chars_of(")")) && v.len() >= 3
}

/// Infers the Rust type of a C constant literal.
pub fn infer_type(value: &str) -> (r: &'static str)
    ensures
        r@ == infer_type_spec(value@),
{
    let v = trim_exec(&chars_of(value));
    if ends_char_exec(&v, 'f') || ends_char_exec(&v, 'F') || find_char_exec(&v, '.', 0).is_some() {
        return "f32";
    }
    if is_bitnot_exec(&v) {
        let inner = slice_of(&v, 2, v.len() - 1);
        let base = match find_char_exec(&inner, '-', 0) {
            Some(p) => slice_of(&inner, 0, p),
            None => inner,
        };
        if has_long_suffix_exec(&base) {
            return "u64";
        }
        return "u32";
    }
    if has_long_suffix_exec(&v) {
        return "u64";
    }
    if is_hex_exec(&v) {
        let bytes = utf8_len_exec(&v);
        proof {
            reveal_strlit("0x");
            reveal_strlit("0X");
            lemma_utf8_len_bounds(v@);
        }
        if bytes - 2 > 8 {
            return "u64";
        }
    }
    if ends_with(&v, &chars_of("u64")) {
        return "u64";
    }
    "u32"
}

/// The digits of a bit-inverted operand.
fn bitnot_digits_exec(base: &Vec<char>) -> (r: Vec<char>)
    ensures
        r@ == bitnot_digits(base@),
{
    proof {
        reveal_strlit("ULL");
        reveal_strlit("ull");
        reveal_strlit("UL");
        reveal_strlit("ul");
    }
    let d = trim_end_str_exec(base, &chars_of("ULL"));
    let d = trim_end_str_exec(&d, &chars_of("ull"));
    let d = trim_end_str_exec(&d, &chars_of("UL"));
    let d = trim_end_str_exec(&d, &chars_of("ul"));
    let d = trim_end_char_exec(&d, 'U');
    trim_end_char_exec(&d, 'u')
}

/// The Rust integer type a C suffix names.
fn bitnot_width_exec(base: &Vec<char>) -> (r: &'static str)
    ensures
        r@ == bitnot_width(base@),
{
    proof {
        reveal_strlit("u64");
        reveal_strlit("u32");
        reveal_strlit("");
    }
    if has_long_suffix_exec(base) {
        "u64"
    } else if ends_char_exec(base, 'U') || ends_char_exec(base, 'u') {
        "u32"
    } else {
        ""
    }
}

/// Rust syntax for the operand of a C bit-inversion:
///
/// - `"0U"` → `"!0u32"`
/// - `"0ULL"` → `"!0u64"`
/// - `"2U"` → `"!2u32"`
/// - `"2ULL"` → `"!2u64"`
/// - `"0U-1"` → `"!0u32 - 1"`
/// - `"0U-2"` → `"!0u32 - 2"`
pub fn parse_bitnot_expr(inner: &str) -> (r: String)
    ensures
        r@ == bitnot_spec(inner@),
{
    let v = chars_of(inner);
    match find_char_exec(&v, '-', 0) {
        Some(pos) => {
            let rest = string_of(&v, pos + 1, v.len());
            assert(rest@ =~= inner@.skip(pos + 1));
            let sub: u32 = match parse_u32(rest.as_str()) {
                Some(n) => n,
                None => 0,
            };
            let base = slice_of(&v, 0, pos);
            assert(base@ =~= inner@.take(pos as int));
            let digits = bitnot_digits_exec(&base);
            let mut r = String::new();
            push_str(&mut r, "!");
            push_chars(&mut r, &digits, 0, digits.len());
            push_str(&mut r, bitnot_width_exec(&base));
            push_str(&mut r, " - ");
            let n = radix_digits_exec(sub as u64, 10);
            push_str(&mut r, n.as_str());
            assert(digits@.subrange(0, digits@.len() as int) =~= digits@);
            r
        },
        None => {
            let digits = bitnot_digits_exec(&v);
            let mut r = String::new();
            push_str(&mut r, "!");
            push_chars(&mut r, &digits, 0, digits.len());
            push_str(&mut r, bitnot_width_exec(&v));
            assert(digits@.subrange(0, digits@.len() as int) =~= digits@);
            r
        },
    }
}

/// Converts a C constant literal to its Rust spelling.
pub fn to_rust_value(value: &str) -> (r: String)
    ensures
        r@ == to_rust_value_spec(value@),
{
    let v = trim_exec(&chars_of(value));
    if is_bitnot_exec(&v) {
        let inner = string_of(&v, 2, v.len() - 1);
        return parse_bitnot_expr(inner.as_str());
    }
    if ends_char_exec(&v, 'f') || ends_char_exec(&v, 'F') {
        return string_of(&v, 0, v.len() - 1);
    }
    if ends_with(&v, &chars_of("ULL")) || ends_with(&v, &chars_of("ull")) || ends_with(
        &v,
        &chars_of("u32"),
    ) || ends_with(&v, &chars_of("u64")) {
        proof {
            reveal_strlit("ULL");
            reveal_strlit("ull");
            reveal_strlit("u32");
            reveal_strlit("u64");
        }
        return string_of(&v, 0, v.len() - 3);
    }
    if ends_with(&v, &chars_of("UL")) || ends_with(&v, &chars_of("ul")) {
        proof {
            reveal_strlit("UL");
            reveal_strlit("ul");
        }
        return string_of(&v, 0, v.len() - 2);
    }
    if ends_char_exec(&v, 'U') || ends_char_exec(&v, 'u') {
        return string_of(&v, 0, v.len() - 1);
    }
    if is_hex_exec(&v) {
        let l = ascii_lower_exec(&v);
        return string_of(&l, 0, l.len());
    }
    string_of(&v, 0, v.len())
}

/// The version helpers that open `vk/constants.rs`, as one block.
pub open spec fn api_version_block() -> Seq<char> {
    "/// <https://docs.vulkan.org/refpages/latest/refpages/source/VK_MAKE_API_VERSION.html>\npub const fn make_api_version(variant: u32, major: u32, minor: u32, patch: u32) -> u32 {\n    ((variant) << 29) | ((major) << 22) | ((minor) << 12) | (patch)\n}\n/// <https://docs.vulkan.org/refpages/latest/refpages/source/VK_API_VERSION_VARIANT.html>\npub const fn api_version_variant(version: u32) -> u32 {\n    (version) >> 29\n}\n/// <https://docs.vulkan.org/refpages/latest/refpages/source/VK_API_VERSION_MAJOR.html>\npub const fn api_version_major(version: u32) -> u32 {\n    ((version) >> 22) & 0x7fu32\n}\n/// <https://docs.vulkan.org/refpages/latest/refpages/source/VK_API_VERSION_MINOR.html>\npub const fn api_version_minor(version: u32) -> u32 {\n    ((version) >> 12) & 0x3ffu32\n}\n/// <https://docs.vulkan.org/refpages/latest/refpages/source/VK_API_VERSION_PATCH.html>\npub const fn api_version_patch(version: u32) -> u32 {\n    (version) & 0xfffu32\n}\n/// <https://docs.vulkan.org/refpages/latest/refpages/source/VK_API_VERSION_1_0.html>\npub const API_VERSION_1_0: u32 = make_api_version(0, 1, 0, 0);\n/// <https://docs.vulkan.org/refpages/latest/refpages/source/VK_API_VERSION_1_1.html>\npub const API_VERSION_1_1: u32 = make_api_version(0, 1, 1, 0);\n/// <https://docs.vulkan.org/refpages/latest/refpages/source/VK_API_VERSION_1_2.html>\npub const API_VERSION_1_2: u32 = make_api_version(0, 1, 2, 0);\n/// <https://docs.vulkan.org/refpages/latest/refpages/source/VK_API_VERSION_1_3.html>\npub const API_VERSION_1_3: u32 = make_api_version(0, 1, 3, 0);\n/// <https://docs.vulkan.org/refpages/latest/refpages/source/VK_API_VERSION_1_4.html>\npub const API_VERSION_1_4: u32 = make_api_version(0, 1, 4, 0);\n"@
}

/// The lines of one constant: its comment, if any, then its definition.
pub open spec fn constant_lines(c: ConstantModel) -> Seq<Seq<char>> {
    let line = "pub const "@ + const_name_spec(c.name) + ": "@ + infer_type_spec(c.value) + " = "@
        + to_rust_value_spec(c.value) + ";"@;
    match c.comment {
        Some(cm) => seq!["/// "@ + cm, line],
        None => seq![line],
    }
}

/// The lines written for the constants `cs`, in order.
pub open spec fn constants_lines(cs: Seq<ConstantModel>) -> Seq<Seq<char>>
    decreases cs.len(),
{
    if cs.len() == 0 {
        Seq::empty()
    } else {
        constants_lines(cs.drop_last()) + constant_lines(cs.last())
    }
}

/// The lines of `vk/constants.rs`.
pub open spec fn constants_file_lines(cs: Seq<ConstantModel>) -> Seq<Seq<char>> {
    file_header_lines("vk/constants.rs"@) + seq![api_version_block()] + constants_lines(cs)
}

/// Writes the lines of one constant.
pub fn write_constant(w: &mut Writer, c: &VkConstant)
    ensures
        final(w)@ == old(w)@ + constant_lines(c@),
{
    let name = const_name(c.name.as_str());
    let value = to_rust_value(c.value.as_str());
    let ty = infer_type(c.value.as_str());
    if let Some(comment) = &c.comment {
        let mut l = String::new();
        push_str(&mut l, "/// ");
        push_str(&mut l, comment.as_str());
        w.ln(l.as_str());
    }
    let mut l = String::new();
    push_str(&mut l, "pub const ");
    push_str(&mut l, name);
    push_str(&mut l, ": ");
    push_str(&mut l, ty);
    push_str(&mut l, " = ");
    push_str(&mut l, value.as_str());
    push_str(&mut l, ";");
    w.ln(l.as_str());
    assert(w@ =~= old(w)@ + constant_lines(c@));
}

/// The text of `vk/constants.rs`: the version helpers, then every constant
/// of the registry in order.
pub fn generate(registry: &Registry) -> (r: String)
    ensures
        r@ == render_lines(constants_file_lines(registry.constants@.map_values(|c: VkConstant| c@))),
{
    let ghost cs = registry.constants@.map_values(|c: VkConstant| c@);
    let mut w = Writer::new();
    file_header(&mut w, "vk/constants.rs");
    w.ln("/// <https://docs.vulkan.org/refpages/latest/refpages/source/VK_MAKE_API_VERSION.html>\npub const fn make_api_version(variant: u32, major: u32, minor: u32, patch: u32) -> u32 {\n    ((variant) << 29) | ((major) << 22) | ((minor) << 12) | (patch)\n}\n/// <https://docs.vulkan.org/refpages/latest/refpages/source/VK_API_VERSION_VARIANT.html>\npub const fn api_version_variant(version: u32) -> u32 {\n    (version) >> 29\n}\n/// <https://docs.vulkan.org/refpages/latest/refpages/source/VK_API_VERSION_MAJOR.html>\npub const fn api_version_major(version: u32) -> u32 {\n    ((version) >> 22) & 0x7fu32\n}\n/// <https://docs.vulkan.org/refpages/latest/refpages/source/VK_API_VERSION_MINOR.html>\npub const fn api_version_minor(version: u32) -> u32 {\n    ((version) >> 12) & 0x3ffu32\n}\n/// <https://docs.vulkan.org/refpages/latest/refpages/source/VK_API_VERSION_PATCH.html>\npub const fn api_version_patch(version: u32) -> u32 {\n    (version) & 0xfffu32\n}\n/// <https://docs.vulkan.org/refpages/latest/refpages/source/VK_API_VERSION_1_0.html>\npub const API_VERSION_1_0: u32 = make_api_version(0, 1, 0, 0);\n/// <https://docs.vulkan.org/refpages/latest/refpages/source/VK_API_VERSION_1_1.html>\npub const API_VERSION_1_1: u32 = make_api_version(0, 1, 1, 0);\n/// <https://docs.vulkan.org/refpages/latest/refpages/source/VK_API_VERSION_1_2.html>\npub const API_VERSION_1_2: u32 = make_api_version(0, 1, 2, 0);\n/// <https://docs.vulkan.org/refpages/latest/refpages/source/VK_API_VERSION_1_3.html>\npub const API_VERSION_1_3: u32 = make_api_version(0, 1, 3, 0);\n/// <https://docs.vulkan.org/refpages/latest/refpages/source/VK_API_VERSION_1_4.html>\npub const API_VERSION_1_4: u32 = make_api_version(0, 1, 4, 0);\n");
    let ghost start = w@;
    let mut i: usize = 0;
    assert(cs.take(0) =~= Seq::<ConstantModel>::empty());
    assert(w@ =~= start + constants_lines(cs.take(0)));
    while i < registry.constants.len()
        invariant
            i <= registry.constants.len(),
            cs == registry.constants@.map_values(|c: VkConstant| c@),
            start == file_header_lines("vk/constants.rs"@) + seq![api_version_block()],
            w@ == start + constants_lines(cs.take(i as int)),
        decreases registry.constants.len() - i,
    {
        write_constant(&mut w, &registry.constants[i]);
        assert(cs.take(i + 1).drop_last() =~= cs.take(i as int));
        assert(w@ =~= start + constants_lines(cs.take(i + 1)));
        i += 1;
    }
    assert(cs.take(i as int) =~= cs);
    assert(w@ =~= constants_file_lines(cs));
    w.into_string()
}

// ---------------------------------------------------------------------------
// The type the parser records and the type the generator writes
// ---------------------------------------------------------------------------

/// Whether `d` is a non-empty run of ASCII digits.
pub open spec fn is_digit_run(d: Seq<char>) -> bool {
    d.len() > 0 && forall|i: int| 0 <= i < d.len() ==> is_digit(#[trigger] d[i])
}



proof fn lemma_no_char_from(s: Seq<char>, c: char, i: int)
    requires
        forall|k: int| 0 <= k < s.len() ==> s[k] != c,
    ensures
        find_char_from(s, c, i) is None,
    decreases s.len() - i,
{
    if 0 <= i < s.len() {
        lemma_no_char_from(s, c, i + 1);
    }
}

proof fn lemma_trim_keeps(s: Seq<char>)
    requires
        s.len() > 0,
        !is_whitespace(s[0]),
        !is_whitespace(s.last()),
    ensures
        trim(s) == s,
{
    assert(trim_start(s) == s);
}

/// For a decimal literal, with or without the `ULL` suffix, the type that
/// `constants::generate` writes for the value the API-constant reader
/// records is the type that reader records.
pub proof fn constant_types_agree_on_integers(d: Seq<char>)
    requires
        is_digit_run(d),
    ensures
        infer_type_spec(rust_constant_value_spec(d)) == infer_constant_type_spec(d),
        infer_type_spec(rust_constant_value_spec(d + "ULL"@)) == infer_constant_type_spec(d + "ULL"@),
        infer_constant_type_spec(d) == "u32"@,
        infer_constant_type_spec(d + "ULL"@) == "u64"@,
{
    reveal_strlit("ULL");
    reveal_strlit("ull");
    reveal_strlit("UL");
    reveal_strlit("ul");
    reveal_strlit("u64");
    reveal_strlit("u32");
    reveal_strlit("0x");
    reveal_strlit("0X");
    reveal_strlit("(~");
    reveal_strlit("(~0");
    reveal_strlit("(~0U)");
    reveal_strlit("(~0ULL)");
    reveal_strlit("(~0U-1)");
    reveal_strlit("(~0U-2)");
    let last = d.last();
    assert(is_digit(d[d.len() - 1]));
    assert(is_digit(d[0]));
    // the plain literal
    assert(rust_constant_value_spec(d) == d) by {
        if d == "(~0U)"@ || d == "(~0ULL)"@ || d == "(~0U-1)"@ || d == "(~0U-2)"@ {
            assert(d[0] == '(');
        }
        if "ULL"@.is_suffix_of(d) {
            lemma_suffix_last("ULL"@, d);
        }
    }
    lemma_trim_keeps(d);
    lemma_no_char_from(d, '.', 0);
    if "ULL"@.is_suffix_of(d) {
        lemma_suffix_last("ULL"@, d);
    }
    if "ull"@.is_suffix_of(d) {
        lemma_suffix_last("ull"@, d);
    }
    if "UL"@.is_suffix_of(d) {
        lemma_suffix_last("UL"@, d);
    }
    if "ul"@.is_suffix_of(d) {
        lemma_suffix_last("ul"@, d);
    }
    if "u64"@.is_suffix_of(d) {
        lemma_suffix_last("u64"@, d);
        assert(d.subrange(d.len() - 3, d.len() as int)[0] == d[d.len() - 3]);
    }
    if "0x"@.is_prefix_of(d) {
        lemma_prefix_at("0x"@, d, 1);
    }
    if "0X"@.is_prefix_of(d) {
        lemma_prefix_at("0X"@, d, 1);
    }
    if "(~"@.is_prefix_of(d) {
        lemma_prefix_at("(~"@, d, 0);
    }
    if "(~0"@.is_prefix_of(d) {
        lemma_prefix_at("(~0"@, d, 0);
    }
    assert(infer_type_spec(d) == "u32"@);
    assert(infer_constant_type_spec(d) == "u32"@);
    // with the `ULL` suffix
    let x = d + "ULL"@;
    let y = d + "u64"@;
    assert(x.last() == 'L');
    assert(x[0] == d[0]);
    assert("ULL"@.is_suffix_of(x)) by {
        assert(x.subrange(x.len() - 3, x.len() as int) =~= "ULL"@);
    }
    assert(rust_constant_value_spec(x) == y) by {
        if x == "(~0U)"@ || x == "(~0ULL)"@ || x == "(~0U-1)"@ || x == "(~0U-2)"@ {
            assert(x[0] == '(');
        }
        assert(x.take(x.len() - 3) =~= d);
    }
    assert(infer_constant_type_spec(x) == "u64"@);
    assert(y.last() == '4');
    assert(y[0] == d[0]);
    lemma_trim_keeps(y);
    assert forall|k: int| 0 <= k < y.len() implies y[k] != '.' by {
        if k < d.len() {
            assert(y[k] == d[k]);
        }
    }
    lemma_no_char_from(y, '.', 0);
    assert("u64"@.is_suffix_of(y)) by {
        assert(y.subrange(y.len() - 3, y.len() as int) =~= "u64"@);
    }
    if "ULL"@.is_suffix_of(y) {
        lemma_suffix_last("ULL"@, y);
    }
    if "ull"@.is_suffix_of(y) {
        lemma_suffix_last("ull"@, y);
    }
    if "UL"@.is_suffix_of(y) {
        lemma_suffix_last("UL"@, y);
    }
    if "ul"@.is_suffix_of(y) {
        lemma_suffix_last("ul"@, y);
    }
    if "(~"@.is_prefix_of(y) {
        lemma_prefix_at("(~"@, y, 0);
    }
    if "0x"@.is_prefix_of(y) {
        lemma_prefix_at("0x"@, y, 1);
        if d.len() > 1 {
            assert(y[1] == d[1]);
        }
    }
    if "0X"@.is_prefix_of(y) {
        lemma_prefix_at("0X"@, y, 1);
        if d.len() > 1 {
            assert(y[1] == d[1]);
        }
    }
    assert(infer_type_spec(y) == "u64"@);
}

/// Whether every character of `d` is an ASCII digit (`d` may be empty).
pub open spec fn all_dec_digits(d: Seq<char>) -> bool {
    forall|i: int| 0 <= i < d.len() ==> is_digit(#[trigger] d[i])
}

/// For a float literal `<digits>.<digits>f`, the type that
/// `constants::generate` writes for the value the API-constant reader
/// records is the type that reader records, `f32`.
pub proof fn constant_types_agree_on_floats(d1: Seq<char>, d2: Seq<char>)
    requires
        is_digit_run(d1),
        all_dec_digits(d2),
    ensures
        infer_type_spec(rust_constant_value_spec(d1 + "."@ + d2 + "f"@)) == infer_constant_type_spec(
            d1 + "."@ + d2 + "f"@,
        ),
        infer_constant_type_spec(d1 + "."@ + d2 + "f"@) == "f32"@,
{
    reveal_strlit(".");
    reveal_strlit("f");
    reveal_strlit("f32");
    reveal_strlit("ULL");
    reveal_strlit("ull");
    reveal_strlit("0x");
    reveal_strlit("(~0U)");
    reveal_strlit("(~0ULL)");
    reveal_strlit("(~0U-1)");
    reveal_strlit("(~0U-2)");
    let x = d1 + "."@ + d2 + "f"@;
    let m = d1 + "."@ + d2;
    let y = m + "f32"@;
    assert(x =~= m + "f"@);
    assert(x.last() == 'f');
    assert(x[0] == d1[0]);
    assert(is_digit(d1[0]));
    assert(x.drop_last() =~= m);
    assert(rust_constant_value_spec(x) == y) by {
        if x == "(~0U)"@ || x == "(~0ULL)"@ || x == "(~0U-1)"@ || x == "(~0U-2)"@ {
            assert(x[0] == '(');
        }
    }
    if "ULL"@.is_suffix_of(x) {
        lemma_suffix_last("ULL"@, x);
    }
    if "ull"@.is_suffix_of(x) {
        lemma_suffix_last("ull"@, x);
    }
    if "0x"@.is_prefix_of(x) {
        lemma_prefix_at("0x"@, x, 1);
        if d1.len() > 1 {
            assert(x[1] == d1[1]);
        } else {
            assert(x[1] == '.');
        }
    }
    assert(infer_constant_type_spec(x) == "f32"@);
    assert(y[0] == d1[0]);
    assert(y.last() == '2');
    lemma_trim_keeps(y);
    assert(y[d1.len() as int] == '.');
    assert(find_char(y, '.') is Some) by {
        lemma_first_char_found(y, '.', 0, d1.len() as int);
    }
    assert(infer_type_spec(y) == "f32"@);
}

/// A character present at or after `i` is found at or after `i`.
proof fn lemma_first_char_found(s: Seq<char>, c: char, i: int, k: int)
    requires
        0 <= i <= k < s.len(),
        s[k] == c,
    ensures
        find_char_from(s, c, i) is Some,
    decreases k - i,
{
    if s[i] != c {
        lemma_first_char_found(s, c, i + 1, k);
    }
}

/// The type written for a value with no suffix that names a width, no
/// `.`, no bit-inversion and no hexadecimal prefix.
proof fn lemma_infer_type_plain(y: Seq<char>)
    requires
        y.len() >= 2,
        !is_whitespace(y[0]),
        !is_whitespace(y.last()),
        y[0] != '(',
        y.last() != 'f' && y.last() != 'F' && y.last() != 'L' && y.last() != 'l',
        y[1] != 'x' && y[1] != 'X',
        forall|k: int| 0 <= k < y.len() ==> y[k] != '.',
    ensures
        infer_type_spec(y) == if "u64"@.is_suffix_of(y) {
            "u64"@
        } else {
            "u32"@
        },
{
    reveal_strlit("ULL");
    reveal_strlit("ull");
    reveal_strlit("UL");
    reveal_strlit("ul");
    reveal_strlit("0x");
    reveal_strlit("0X");
    reveal_strlit("(~");
    lemma_trim_keeps(y);
    lemma_no_char_from(y, '.', 0);
    if "ULL"@.is_suffix_of(y) {
        lemma_suffix_last("ULL"@, y);
    }
    if "ull"@.is_suffix_of(y) {
        lemma_suffix_last("ull"@, y);
    }
    if "UL"@.is_suffix_of(y) {
        lemma_suffix_last("UL"@, y);
    }
    if "ul"@.is_suffix_of(y) {
        lemma_suffix_last("ul"@, y);
    }
    if "(~"@.is_prefix_of(y) {
        lemma_prefix_at("(~"@, y, 0);
    }
    if "0x"@.is_prefix_of(y) {
        lemma_prefix_at("0x"@, y, 1);
    }
    if "0X"@.is_prefix_of(y) {
        lemma_prefix_at("0X"@, y, 1);
    }
}

/// The type the API-constant reader records for a bit-inverted literal.
proof fn lemma_infer_constant_bitnot(v: Seq<char>)
    requires
        v.len() >= 3,
        v[0] == '(' && v[1] == '~' && v[2] == '0',
        v.last() == ')',
        forall|k: int| 0 <= k < v.len() ==> v[k] != '.',
    ensures
        infer_constant_type_spec(v) == if contains(v, "ULL"@) {
            "u64"@
        } else {
            "u32"@
        },
{
    reveal_strlit("ULL");
    reveal_strlit("ull");
    reveal_strlit("0x");
    reveal_strlit("(~0");
    lemma_no_char_from(v, '.', 0);
    if "ULL"@.is_suffix_of(v) {
        lemma_suffix_last("ULL"@, v);
    }
    if "ull"@.is_suffix_of(v) {
        lemma_suffix_last("ull"@, v);
    }
    if "0x"@.is_prefix_of(v) {
        lemma_prefix_at("0x"@, v, 0);
    }
    assert("(~0"@.is_prefix_of(v)) by {
        assert(v.subrange(0, 3) =~= "(~0"@);
    }
}

/// A string without an `L` holds no `ULL`.
proof fn lemma_no_ull(v: Seq<char>)
    requires
        forall|k: int| 0 <= k < v.len() ==> v[k] != 'L',
    ensures
        !contains(v, "ULL"@),
{
    reveal_strlit("ULL");
    lemma_find_from_bounds(v, "ULL"@, 0);
    if let Some(j) = find(v, "ULL"@) {
        assert(v.subrange(j, j + 3)[1] == v[j + 1]);
    }
}


/// For the bit-inverted literals of the registry, the type that
/// `constants::generate` writes for the value the API-constant reader
/// records is the type that reader records.
pub proof fn constant_types_agree_on_bit_inversions()
    ensures
        infer_type_spec(rust_constant_value_spec("(~0U)"@)) == infer_constant_type_spec("(~0U)"@),
        infer_type_spec(rust_constant_value_spec("(~0ULL)"@)) == infer_constant_type_spec("(~0ULL)"@),
        infer_type_spec(rust_constant_value_spec("(~0U-1)"@)) == infer_constant_type_spec("(~0U-1)"@),
        infer_type_spec(rust_constant_value_spec("(~0U-2)"@)) == infer_constant_type_spec("(~0U-2)"@),
{
    reveal_strlit("(~0U)");
    reveal_strlit("(~0ULL)");
    reveal_strlit("(~0U-1)");
    reveal_strlit("(~0U-2)");
    reveal_strlit("!0u32");
    reveal_strlit("!0u64");
    reveal_strlit("!0u32 - 1");
    reveal_strlit("!0u32 - 2");
    reveal_strlit("u64");
    reveal_strlit("u32");
    reveal_strlit("ULL");
    let a = "(~0U)"@;
    let b = "(~0ULL)"@;
    let c = "(~0U-1)"@;
    let d = "(~0U-2)"@;
    assert(a != b && a != c && a != d && b != c && b != d && c != d) by {
        assert(a.len() != b.len() && a.len() != c.len() && a.len() != d.len());
        assert(b[4] != c[4] && b[4] != d[4]);
        assert(c[5] != d[5]);
    }
    assert(rust_constant_value_spec(a) == "!0u32"@);
    assert(rust_constant_value_spec(b) == "!0u64"@);
    assert(rust_constant_value_spec(c) == "!0u32 - 1"@);
    assert(rust_constant_value_spec(d) == "!0u32 - 2"@);
    let ya = "!0u32"@;
    let yb = "!0u64"@;
    let yc = "!0u32 - 1"@;
    let yd = "!0u32 - 2"@;
    lemma_infer_type_plain(ya);
    lemma_infer_type_plain(yb);
    lemma_infer_type_plain(yc);
    lemma_infer_type_plain(yd);
    if "u64"@.is_suffix_of(ya) {
        lemma_suffix_last("u64"@, ya);
    }
    assert("u64"@.is_suffix_of(yb)) by {
        assert(yb.subrange(2, 5) =~= "u64"@);
    }
    if "u64"@.is_suffix_of(yc) {
        lemma_suffix_last("u64"@, yc);
    }
    if "u64"@.is_suffix_of(yd) {
        lemma_suffix_last("u64"@, yd);
    }
    lemma_infer_constant_bitnot(a);
    lemma_infer_constant_bitnot(b);
    lemma_infer_constant_bitnot(c);
    lemma_infer_constant_bitnot(d);
    lemma_no_ull(a);
    lemma_no_ull(c);
    lemma_no_ull(d);
    assert(contains(b, "ULL"@)) by {
        assert(b.subrange(3, 6) =~= "ULL"@);
        lemma_found_at(b, "ULL"@, 0, 3);
    }
}

} // verus!
