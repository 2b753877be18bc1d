//! Enums and API constants of the registry.
use crate::number::{parse_i64, parse_i64_spec, parse_u32, parse_unsigned};
use crate::parse::registry::{ConstantModel, EnumModel, EnumValueModel, Registry, VkConstant, VkEnum, VkEnumValue, opt_view};
use crate::parse::tables::{entries_get, entries_insert, enum_map_entries, enum_map_get, enum_map_insert};
use crate::parse::xml::{NodeModel, XmlDocument, attr, children_of, has_tag};
use crate::text::{chars_of, contains, ends_with, find_char, find_char_exec, find_exec, push_str, starts_with, str_eq, string_of, trim, trim_exec, utf8_len, utf8_len_exec};
use indexmap::IndexMap;
use vstd::arithmetic::power2::pow2;
use vstd::prelude::*;

verus! {

broadcast use vstd::string::group_string_axioms;

/// Whether `x` is within the range of `i64`.
pub open spec fn in_i64(x: int) -> bool {
    i64::MIN <= x <= i64::MAX
}

/// `o.unwrap_or("")`.
pub open spec fn or_empty(o: Option<Seq<char>>) -> Seq<char> {
    match o {
        Some(s) => s,
        None => Seq::empty(),
    }
}

/// `1i64 << n`.
pub open spec fn bit_value(n: nat) -> i64 {
    pow2(n) as i64
}

/// An integer literal of the registry: hexadecimal after `0x`/`0X`,
/// decimal otherwise, surrounding whitespace ignored.
pub open spec fn parse_value_spec(s: Seq<char>) -> Option<int> {
    let t = trim(s);
    if "0x"@.is_prefix_of(t) || "0X"@.is_prefix_of(t) {
        parse_i64_spec(t.skip(2), 16)
    } else {
        parse_i64_spec(t, 10)
    }
}

/// A parsed number, or `default` when it did not parse.
pub open spec fn opt_i64(o: Option<int>, default: i64) -> i64 {
    match o {
        Some(v) => v as i64,
        None => default,
    }
}

/// The value of an enum added at `offset` by extension number `ext`.
pub open spec fn offset_value(ext: int, off: int, negative: bool) -> int {
    let base = 1_000_000_000 + (ext - 1) * 1000 + off;
    if negative {
        -base
    } else {
        base
    }
}

/// The arithmetic of [`offset_value`] stays within `i64` at every step.
pub open spec fn offset_fits(ext: int, off: int, negative: bool) -> bool {
    &&& in_i64(ext - 1)
    &&& in_i64((ext - 1) * 1000)
    &&& in_i64(1_000_000_000 + (ext - 1) * 1000)
    &&& in_i64(1_000_000_000 + (ext - 1) * 1000 + off)
    &&& (negative ==> in_i64(-(1_000_000_000 + (ext - 1) * 1000 + off)))
}

/// Whether an enum element counts its offset downwards (`dir="-"`).
pub open spec fn is_negative_dir(n: NodeModel) -> bool {
    attr(n, "dir"@) == Some("-"@)
}

/// The value an enum element that extends an enum gives: its `value`, its
/// `bitpos`, or its `offset` under `extnumber` (default 1), else 0; numbers
/// that do not parse count as 0.
pub open spec fn resolve_value_spec(n: NodeModel) -> i64 {
    match attr(n, "value"@) {
        Some(v) => opt_i64(parse_value_spec(v), 0),
        None => match attr(n, "bitpos"@) {
            Some(b) => bit_value(
                match parse_unsigned(b, 10, 0xffff_ffff) {
                    Some(k) => k,
                    None => 0,
                },
            ),
            None => match attr(n, "offset"@) {
                Some(o) => {
                    let off = opt_i64(parse_i64_spec(o, 10), 0);
                    let ext = match attr(n, "extnumber"@) {
                        Some(e) => opt_i64(parse_i64_spec(e, 10), 1),
                        None => 1,
                    };
                    offset_value(ext as int, off as int, is_negative_dir(n)) as i64
                },
                None => 0,
            },
        },
    }
}

/// Resolving the value of `n` neither shifts by 64 or more nor overflows.
pub open spec fn resolve_fits(n: NodeModel) -> bool {
    match attr(n, "value"@) {
        Some(_) => true,
        None => match attr(n, "bitpos"@) {
            Some(b) => match parse_unsigned(b, 10, 0xffff_ffff) {
                Some(k) => k < 64,
                None => true,
            },
            None => match attr(n, "offset"@) {
                Some(o) => {
                    let off = opt_i64(parse_i64_spec(o, 10), 0);
                    let ext = match attr(n, "extnumber"@) {
                        Some(e) => opt_i64(parse_i64_spec(e, 10), 1),
                        None => 1,
                    };
                    offset_fits(ext as int, off as int, is_negative_dir(n))
                },
                None => true,
            },
        },
    }
}

/// The literal's value.
pub fn parse_value_str(s: &str) -> (r: Option<i64>)
    ensures
        match r {
            Some(v) => parse_value_spec(s@) == Some(v as int),
            None => parse_value_spec(s@) is None,
        },
{
    let t = trim_exec(&chars_of(s));
    if starts_with(&t, &chars_of("0x")) || starts_with(&t, &chars_of("0X")) {
        proof {
            reveal_strlit("0x");
            reveal_strlit("0X");
        }
        let rest = string_of(&t, 2, t.len());
        assert(rest@ =~= t@.skip(2));
        parse_i64(rest.as_str(), 16)
    } else {
        let ts = string_of(&t, 0, t.len());
        assert(ts@ =~= t@);
        parse_i64(ts.as_str(), 10)
    }
}

/// `1i64 << n`.
pub fn bit_at(n: u32) -> (r: i64)
    requires
        n < 64,
    ensures
        r == bit_value(n as nat),
{
    proof {
        vstd::bits::lemma_u64_pow2_no_overflow(n as nat);
        vstd::bits::lemma_u64_shl_is_mul(1, n as u64);
    }
    let b: u64 = 1u64 << (n as u64);
    b as i64
}

pub(crate) fn parse_i64_or(s: Option<&str>, default: i64) -> (r: i64)
    ensures
        r == match s {
            Some(t) => opt_i64(parse_i64_spec(t@, 10), default),
            None => default,
        },
{
    match s {
        Some(t) => match parse_i64(t, 10) {
            Some(v) => v,
            None => default,
        },
        None => default,
    }
}

/// The value an enum element that extends an enum gives.
pub fn resolve_extension_value(doc: &XmlDocument, node: usize) -> (r: i64)
    requires
        node < doc@.len(),
        resolve_fits(doc@[node as int]),
    ensures
        r == resolve_value_spec(doc@[node as int]),
{
    if let Some(val) = doc.attribute(node, "value") {
        return match parse_value_str(val) {
            Some(v) => v,
            None => 0,
        };
    }
    if let Some(bitpos) = doc.attribute(node, "bitpos") {
        let k: u32 = match parse_u32(bitpos) {
            Some(k) => k,
            None => 0,
        };
        return bit_at(k);
    }
    if let Some(offset) = doc.attribute(node, "offset") {
        let offset = parse_i64_or(Some(offset), 0);
        let extnumber = parse_i64_or(doc.attribute(node, "extnumber"), 1);
        let base = 1_000_000_000 + (extnumber - 1) * 1000 + offset;
        return if str_opt_eq(doc.attribute(node, "dir"), "-") {
            -base
        } else {
            base
        };
    }
    0
}

/// `2^k` for a bit position below 63 is a positive `i64` and reads back as itself.
proof fn lemma_pow2_in_i64(k: nat)
    requires
        k < 63,
    ensures
        0 < pow2(k) < 0x8000_0000_0000_0000,
        bit_value(k) as int == pow2(k),
{
    vstd::arithmetic::power2::lemma2_to64_rest();
    vstd::arithmetic::power2::lemma_pow2_strictly_increases(k, 63);
    vstd::arithmetic::power2::lemma_pow2_pos(k);
}

/// An enum element placed by bit position `k` stands for the single bit `k`:
/// its value is `2^k`, both when it extends an enum from a `<feature>` or an
/// `<extension>` (and has no `value`) and when it is read in the `<enums>`
/// block of a bitmask enum; so the two readers agree.
pub proof fn bitpos_is_power_of_two(n: NodeModel, b: Seq<char>, k: nat)
    requires
        attr(n, "bitpos"@) == Some(b),
        parse_unsigned(b, 10, 0xffff_ffff) == Some(k),
        k < 63,
    ensures
        attr(n, "value"@) is None ==> resolve_value_spec(n) as int == pow2(k),
        enum_value_number(n, true) == Some(pow2(k) as int),
{
    lemma_pow2_in_i64(k);
}

/// An enum element that extends an enum gives its `value` when it has one.
/// Without `value` or `bitpos`, an element with `offset` `off`, in extension
/// number `ext` (its `extnumber`, else 1), gives `1000000000 + (ext - 1) * 1000
/// + off`, negated when `dir="-"`; an element with none of the three gives 0.
pub proof fn extension_value_by_kind(n: NodeModel, off: int, ext: int)
    requires
        attr(n, "value"@) is None ==> attr(n, "bitpos"@) is None,
        attr(n, "value"@) is None ==> match attr(n, "offset"@) {
            Some(o) => parse_i64_spec(o, 10) == Some(off) && match attr(n, "extnumber"@) {
                Some(e) => parse_i64_spec(e, 10) == Some(ext),
                None => ext == 1,
            } && offset_fits(ext, off, is_negative_dir(n)),
            None => true,
        },
    ensures
        attr(n, "value"@) matches Some(v) ==> (parse_value_spec(v) matches Some(x) ==> resolve_value_spec(n) == x),
        attr(n, "value"@) matches Some(v) ==> (parse_value_spec(v) is None ==> resolve_value_spec(n) == 0),
        attr(n, "value"@) is None && attr(n, "offset"@) is Some && attr(n, "dir"@) != Some("-"@) ==> resolve_value_spec(
            n,
        ) == 1_000_000_000 + (ext - 1) * 1000 + off,
        attr(n, "value"@) is None && attr(n, "offset"@) is Some && attr(n, "dir"@) == Some("-"@) ==> resolve_value_spec(
            n,
        ) == -(1_000_000_000 + (ext - 1) * 1000 + off),
        attr(n, "value"@) is None && attr(n, "offset"@) is None ==> resolve_value_spec(n) == 0,
{
    match attr(n, "value"@) {
        Some(v) => {
            lemma_parse_i64_range(trim(v));
            lemma_parse_i64_range(trim(v).skip(2));
        },
        None => {
            match attr(n, "offset"@) {
                Some(o) => {
                    lemma_parse_i64_range(o);
                    match attr(n, "extnumber"@) {
                        Some(e) => lemma_parse_i64_range(e),
                        None => {},
                    }
                },
                None => {},
            }
        },
    }
}

/// A number read as `i64` is within the range of `i64`.
proof fn lemma_parse_i64_range(s: Seq<char>)
    ensures
        parse_i64_spec(s, 10) matches Some(x) ==> in_i64(x),
        parse_i64_spec(s, 16) matches Some(x) ==> in_i64(x),
{
}

/// `o == Some(s)`.
pub fn str_opt_eq(o: Option<&str>, s: &str) -> (r: bool)
    ensures
        r == match o {
            Some(t) => t@ == s@,
            None => false,
        },
{
    match o {
        Some(t) => str_eq(t, s),
        None => false,
    }
}

/// A copy of `en`.
pub fn copy_enum(en: &VkEnum) -> (r: VkEnum)
    ensures
        r@ == en@,
{
    let mut values: Vec<VkEnumValue> = Vec::new();
    let mut i: usize = 0;
    while i < en.values.len()
        invariant
            i <= en.values.len(),
            values@.len() == i,
            values@.map_values(|v: VkEnumValue| v@) == en.values@.take(i as int).map_values(|v: VkEnumValue| v@),
        decreases en.values.len() - i,
    {
        let v = &en.values[i];
        let ghost old_vals = values@;
        values.push(
            VkEnumValue {
                name: v.name.clone(),
                value: v.value,
                comment: copy_opt(&v.comment),
                extension: copy_opt(&v.extension),
            },
        );
        assert(values@[i as int]@ == en.values@[i as int]@);
        assert(en.values@.take(i + 1) =~= en.values@.take(i as int).push(en.values@[i as int]));
        let ghost a = values@.map_values(|v: VkEnumValue| v@);
        let ghost b = en.values@.take(i + 1).map_values(|v: VkEnumValue| v@);
        let ghost a0 = old_vals.map_values(|v: VkEnumValue| v@);
        let ghost b0 = en.values@.take(i as int).map_values(|v: VkEnumValue| v@);
        assert forall|k: int| 0 <= k < i + 1 implies #[trigger] a[k] == b[k] by {
            if k < i {
                assert(values@[k] == old_vals[k]);
                assert(a0[k] == b0[k]);
            }
        }
        assert(values@.map_values(|v: VkEnumValue| v@) =~= en.values@.take(i + 1).map_values(|v: VkEnumValue| v@));
        i += 1;
    }
    assert(en.values@.take(i as int) =~= en.values@);
    let r = VkEnum {
        name: en.name.clone(),
        is_bitmask: en.is_bitmask,
        bitwidth_64: en.bitwidth_64,
        values,
    };
    assert(r@.values =~= en@.values);
    r
}

/// A copy of an optional string.
pub fn copy_opt(o: &Option<String>) -> (r: Option<String>)
    ensures
        opt_view(r) == opt_view(*o),
{
    match o {
        Some(s) => Some(s.clone()),
        None => None,
    }
}

/// `o.map(str::to_string)`.
pub fn opt_string(o: Option<&str>) -> (r: Option<String>)
    ensures
        opt_view(r) == match o {
            Some(s) => Some(s@),
            None => None,
        },
{
    match o {
        Some(s) => Some(s.to_string()),
        None => None,
    }
}

/// The enums after `n`, an enum element that extends enum `extends`, adds
/// its value there; unchanged when it extends nothing known.
pub open spec fn extension_enum_effect(
    e: Seq<(Seq<char>, EnumModel)>,
    n: NodeModel,
    extension: Option<Seq<char>>,
) -> Seq<(Seq<char>, EnumModel)> {
    match attr(n, "extends"@) {
        None => e,
        Some(x) => match entries_get(e, x) {
            None => e,
            Some(en) => entries_insert(
                e,
                x,
                EnumModel {
                    values: en.values.push(
                        EnumValueModel {
                            name: or_empty(attr(n, "name"@)),
                            value: resolve_value_spec(n),
                            comment: attr(n, "comment"@),
                            extension,
                        },
                    ),
                    ..en
                },
            ),
        },
    }
}

/// What adding the value of `n` needs to resolve it without panicking.
pub open spec fn extension_enum_fits(e: Seq<(Seq<char>, EnumModel)>, n: NodeModel) -> bool {
    match attr(n, "extends"@) {
        Some(x) => entries_get(e, x) is Some ==> resolve_fits(n),
        None => true,
    }
}

/// Injects an enum value added by a feature or extension into an existing enum.
/// `extension` is `Some(name)` when called from an extension, `None` for core features.
pub fn parse_extension_enum(
    doc: &XmlDocument,
    node: usize,
    enums: &mut IndexMap<String, VkEnum>,
    extension: Option<&str>,
)
    requires
        node < doc@.len(),
        extension_enum_fits(enum_map_entries(*old(enums)), doc@[node as int]),
    ensures
        enum_map_entries(*final(enums)) == extension_enum_effect(
            enum_map_entries(*old(enums)),
            doc@[node as int],
            match extension {
                Some(s) => Some(s@),
                None => None,
            },
        ),
{
    let name = match doc.attribute(node, "name") {
        Some(n) => n,
        None => "",
    };
    proof {
        reveal_strlit("");
    }
    let extends = match doc.attribute(node, "extends") {
        Some(e) => e,
        None => return ,
    };
    let mut en = match enum_map_get(enums, extends) {
        Some(e) => copy_enum(e),
        None => return ,
    };
    let value = resolve_extension_value(doc, node);
    let ghost before = en@;
    en.values.push(
        VkEnumValue {
            name: name.to_string(),
            value,
            comment: opt_string(doc.attribute(node, "comment")),
            extension: opt_string(extension),
        },
    );
    assert(en@.values =~= before.values.push(en@.values.last()));
    let ghost nv = EnumValueModel {
        name: or_empty(attr(doc@[node as int], "name"@)),
        value: resolve_value_spec(doc@[node as int]),
        comment: attr(doc@[node as int], "comment"@),
        extension: match extension {
            Some(s) => Some(s@),
            None => None,
        },
    };
    assert(en@.values.last().name == nv.name);
    assert(en@.values.last().value == nv.value);
    assert(en@.values.last().comment == nv.comment);
    assert(en@.values.last().extension == nv.extension);
    assert(en@.values.last() == nv);
    assert(en@ == EnumModel { values: before.values.push(nv), ..before });
    let key = extends.to_string();
    assert(key@ == extends@);
    enum_map_insert(enums, key, en);
}

/// The number an enum element gives its enum: a bit position for bitmask
/// enums, else (or when it has none) its `value`.
pub open spec fn enum_value_number(n: NodeModel, is_bitmask: bool) -> Option<int> {
    if is_bitmask {
        match attr(n, "bitpos"@) {
            Some(b) => match parse_unsigned(b, 10, 0xffff_ffff) {
                Some(k) => Some(bit_value(k) as int),
                None => None,
            },
            None => match attr(n, "value"@) {
                Some(v) => parse_value_spec(v),
                None => None,
            },
        }
    } else {
        match attr(n, "value"@) {
            Some(v) => parse_value_spec(v),
            None => None,
        }
    }
}

/// The value an `<enum>` element of an `<enums>` block gives: none for
/// aliases, unnamed elements and numbers that do not parse.
pub open spec fn enum_value_spec(n: NodeModel, is_bitmask: bool) -> Option<EnumValueModel> {
    match attr(n, "name"@) {
        None => None,
        Some(name) => if attr(n, "alias"@) is Some {
            None
        } else {
            match enum_value_number(n, is_bitmask) {
                Some(x) => Some(
                    EnumValueModel { name, value: x as i64, comment: attr(n, "comment"@), extension: None },
                ),
                None => None,
            }
        },
    }
}

/// Reading the value of `n` does not shift by 64 or more.
pub open spec fn enum_value_fits(n: NodeModel, is_bitmask: bool) -> bool {
    is_bitmask && attr(n, "name"@) is Some && attr(n, "alias"@) is None ==> match attr(n, "bitpos"@) {
        Some(b) => match parse_unsigned(b, 10, 0xffff_ffff) {
            Some(k) => k < 64,
            None => true,
        },
        None => true,
    }
}

/// The values of the `<enum>` children among `kids`, in order.
pub open spec fn enum_values_from(doc: Seq<NodeModel>, kids: Seq<int>, is_bitmask: bool) -> Seq<EnumValueModel>
    decreases kids.len(),
{
    if kids.len() == 0 {
        Seq::empty()
    } else {
        let prev = enum_values_from(doc, kids.drop_last(), is_bitmask);
        let k = kids.last();
        if 0 <= k < doc.len() && has_tag(doc[k], "enum"@) {
            match enum_value_spec(doc[k], is_bitmask) {
                Some(v) => prev.push(v),
                None => prev,
            }
        } else {
            prev
        }
    }
}

/// Whether the values of the `<enum>` children among `kids` can be read without
/// shifting by 64 or more.
pub open spec fn enum_children_fit(doc: Seq<NodeModel>, kids: Seq<int>, is_bitmask: bool) -> bool {
    forall|m: int|
        0 <= m < kids.len() && 0 <= kids[m] < doc.len() && has_tag(doc[#[trigger] kids[m]], "enum"@)
            ==> enum_value_fits(doc[kids[m]], is_bitmask)
}

fn parse_enum_value(doc: &XmlDocument, node: usize, is_bitmask: bool) -> (r: Option<VkEnumValue>)
    requires
        node < doc@.len(),
        enum_value_fits(doc@[node as int], is_bitmask),
    ensures
        match r {
            Some(v) => enum_value_spec(doc@[node as int], is_bitmask) == Some(v@),
            None => enum_value_spec(doc@[node as int], is_bitmask) is None,
        },
{
    let name = doc.attribute(node, "name")?;
    if doc.attribute(node, "alias").is_some() {
        return None;
    }
    let value: i64 = if is_bitmask {
        if let Some(bitpos) = doc.attribute(node, "bitpos") {
            let k = parse_u32(bitpos)?;
            bit_at(k)
        } else if let Some(val) = doc.attribute(node, "value") {
            parse_value_str(val)?
        } else {
            return None;
        }
    } else {
        parse_value_str(doc.attribute(node, "value")?)?
    };
    Some(
        VkEnumValue {
            name: name.to_string(),
            value,
            comment: opt_string(doc.attribute(node, "comment")),
            extension: None,
        },
    )
}

/// The Rust type of an API constant's value.
pub open spec fn infer_constant_type_spec(v: Seq<char>) -> Seq<char> {
    if "ULL"@.is_suffix_of(v) || "ull"@.is_suffix_of(v) || (utf8_len(v) > 10 && "0x"@.is_prefix_of(v)) {
        "u64"@
    } else if (v.len() > 0 && v.last() == 'f') || find_char(v, '.') is Some {
        "f32"@
    } else if "(~0"@.is_prefix_of(v) {
        if contains(v, "ULL"@) {
            "u64"@
        } else {
            "u32"@
        }
    } else {
        "u32"@
    }
}

/// The Rust spelling of an API constant's value.
pub open spec fn rust_constant_value_spec(v: Seq<char>) -> Seq<char> {
    if v == "(~0U)"@ {
        "!0u32"@
    } else if v == "(~0ULL)"@ {
        "!0u64"@
    } else if v == "(~0U-1)"@ {
        "!0u32 - 1"@
    } else if v == "(~0U-2)"@ {
        "!0u32 - 2"@
    } else if v.len() > 0 && v.last() == 'f' {
        v.drop_last() + "f32"@
    } else if "ULL"@.is_suffix_of(v) {
        v.take(v.len() - 3) + "u64"@
    } else {
        v
    }
}

/// Infers the Rust type of an API constant's value.
pub fn infer_constant_type(value: &str) -> (r: &'static str)
    ensures
        r@ == infer_constant_type_spec(value@),
{
    let v = chars_of(value);
    if ends_with(&v, &chars_of("ULL")) || ends_with(&v, &chars_of("ull")) || (utf8_len_exec(&v) > 10
        && starts_with(&v, &chars_of("0x"))) {
        "u64"
    } else if (v.len() > 0 && v[v.len() - 1] == 'f') || find_char_exec(&v, '.', 0).is_some() {
        "f32"
    } else if starts_with(&v, &chars_of("(~0")) {
        if find_exec(&v, &chars_of("ULL")).is_some() {
            "u64"
        } else {
            "u32"
        }
    } else {
        "u32"
    }
}

/// The Rust spelling of an API constant's value.
pub fn rust_constant_value(value: &str) -> (r: String)
    ensures
        r@ == rust_constant_value_spec(value@),
{
    if str_eq(value, "(~0U)") {
        return "!0u32".to_string();
    }
    if str_eq(value, "(~0ULL)") {
        return "!0u64".to_string();
    }
    if str_eq(value, "(~0U-1)") {
        return "!0u32 - 1".to_string();
    }
    if str_eq(value, "(~0U-2)") {
        return "!0u32 - 2".to_string();
    }
    let v = chars_of(value);
    if v.len() > 0 && v[v.len() - 1] == 'f' {
        let mut r = string_of(&v, 0, v.len() - 1);
        push_str(&mut r, "f32");
        return r;
    }
    if ends_with(&v, &chars_of("ULL")) {
        proof {
            reveal_strlit("ULL");
        }
        let mut r = string_of(&v, 0, v.len() - 3);
        push_str(&mut r, "u64");
        return r;
    }
    value.to_string()
}

/// The constants the `<enum>` children among `kids` define, in order;
/// elements without a name or a value are skipped.
pub open spec fn api_constants_from(doc: Seq<NodeModel>, kids: Seq<int>) -> Seq<ConstantModel>
    decreases kids.len(),
{
    if kids.len() == 0 {
        Seq::empty()
    } else {
        let prev = api_constants_from(doc, kids.drop_last());
        let k = kids.last();
        if 0 <= k < doc.len() && has_tag(doc[k], "enum"@) {
            match (attr(doc[k], "name"@), attr(doc[k], "value"@)) {
                (Some(name), Some(value)) => prev.push(
                    ConstantModel {
                        name,
                        ty: infer_constant_type_spec(value),
                        value: rust_constant_value_spec(value),
                        comment: attr(doc[k], "comment"@),
                    },
                ),
                _ => prev,
            }
        } else {
            prev
        }
    }
}

/// Appends the constants of the `API Constants` block `node` to `constants`.
pub fn parse_api_constants(doc: &XmlDocument, node: usize, constants: &mut Vec<VkConstant>)
    requires
        node < doc@.len(),
    ensures
        final(constants)@.map_values(|c: VkConstant| c@) == old(constants)@.map_values(|c: VkConstant| c@)
            + api_constants_from(doc@, children_of(doc@, node as int)),
{
    let kids = doc.children(node);
    let ghost ks = children_of(doc@, node as int);
    let ghost start = constants@.map_values(|c: VkConstant| c@);
    let mut i: usize = 0;
    assert(ks.take(0) =~= Seq::<int>::empty());
    assert(constants@.map_values(|c: VkConstant| c@) =~= start + api_constants_from(doc@, ks.take(0)));
    while i < kids.len()
        invariant
            i <= kids.len(),
            kids@.map_values(|j: usize| j as int) == ks,
            forall|m: int| 0 <= m < kids@.len() ==> (#[trigger] kids@[m]) < doc@.len(),
            constants@.map_values(|c: VkConstant| c@) == start + api_constants_from(doc@, ks.take(i as int)),
        decreases kids.len() - i,
    {
        let child = kids[i];
        assert(ks[i as int] == child as int);
        assert(ks.take(i + 1).drop_last() =~= ks.take(i as int));
        let ghost before = constants@;
        if doc.has_tag_name(child, "enum") {
            let name = doc.attribute(child, "name");
            let value = doc.attribute(child, "value");
            if let (Some(name), Some(value)) = (name, value) {
                constants.push(
                    VkConstant {
                        name: name.to_string(),
                        ty: infer_constant_type(value).to_string(),
                        value: rust_constant_value(value),
                        comment: opt_string(doc.attribute(child, "comment")),
                    },
                );
                assert(constants@.map_values(|c: VkConstant| c@) =~= before.map_values(|c: VkConstant| c@).push(
                    constants@.last()@,
                ));
            }
        }
        assert(constants@.map_values(|c: VkConstant| c@) =~= start + api_constants_from(doc@, ks.take(i + 1)));
        i += 1;
    }
    assert(ks.take(i as int) =~= ks);
}

/// The values of the `<enum>` children of `node`.
fn enum_values(doc: &XmlDocument, node: usize, is_bitmask: bool) -> (r: Vec<VkEnumValue>)
    requires
        node < doc@.len(),
        enum_children_fit(doc@, children_of(doc@, node as int), is_bitmask),
    ensures
        r@.map_values(|v: VkEnumValue| v@) == enum_values_from(doc@, children_of(doc@, node as int), is_bitmask),
{
    let kids = doc.children(node);
    let ghost ks = children_of(doc@, node as int);
    let mut values: Vec<VkEnumValue> = Vec::new();
    let mut i: usize = 0;
    assert(ks.take(0) =~= Seq::<int>::empty());
    assert(values@.map_values(|v: VkEnumValue| v@) =~= enum_values_from(doc@, ks.take(0), is_bitmask));
    while i < kids.len()
        invariant
            i <= kids.len(),
            kids@.map_values(|j: usize| j as int) == ks,
            forall|m: int| 0 <= m < kids@.len() ==> (#[trigger] kids@[m]) < doc@.len(),
            enum_children_fit(doc@, ks, is_bitmask),
            values@.map_values(|v: VkEnumValue| v@) == enum_values_from(doc@, ks.take(i as int), is_bitmask),
        decreases kids.len() - i,
    {
        let child = kids[i];
        assert(ks[i as int] == child as int);
        assert(ks.take(i + 1).drop_last() =~= ks.take(i as int));
        let ghost before = values@;
        if doc.has_tag_name(child, "enum") {
            assert(has_tag(doc@[ks[i as int]], "enum"@));
            if let Some(v) = parse_enum_value(doc, child, is_bitmask) {
                values.push(v);
                assert(values@.map_values(|v: VkEnumValue| v@) =~= before.map_values(|v: VkEnumValue| v@).push(
                    values@.last()@,
                ));
            }
        }
        assert(values@.map_values(|v: VkEnumValue| v@) =~= enum_values_from(doc@, ks.take(i + 1), is_bitmask));
        i += 1;
    }
    assert(ks.take(i as int) =~= ks);
    values
}

/// Whether an `<enums>` block has `attribute` equal to `expected`.
pub open spec fn attr_is(n: NodeModel, attribute: Seq<char>, expected: Seq<char>) -> bool {
    attr(n, attribute) == Some(expected)
}

/// The enums after reading the `<enums>` block `n` named `name`: its values
/// replace those of a known enum of that name, or make a new enum.
pub open spec fn enums_block_effect(
    doc: Seq<NodeModel>,
    node: int,
    name: Seq<char>,
    e: Seq<(Seq<char>, EnumModel)>,
) -> Seq<(Seq<char>, EnumModel)> {
    let n = doc[node];
    let is_bitmask = attr_is(n, "type"@, "bitmask"@);
    let bitwidth_64 = attr_is(n, "bitwidth"@, "64"@);
    let values = enum_values_from(doc, children_of(doc, node), is_bitmask);
    match entries_get(e, name) {
        Some(en) => entries_insert(e, name, EnumModel { values, bitwidth_64, ..en }),
        None => entries_insert(e, name, EnumModel { name, is_bitmask, bitwidth_64, values }),
    }
}

/// Whether the values of the `<enums>` block `node` can be read without
/// panicking: no bit position of a bitmask value is 64 or more.
pub fn enum_block_fits(doc: &XmlDocument, node: usize) -> (r: bool)
    requires
        node < doc@.len(),
    ensures
        r == enum_children_fit(
            doc@,
            children_of(doc@, node as int),
            attr_is(doc@[node as int], "type"@, "bitmask"@),
        ),
{
    let is_bitmask = str_opt_eq(doc.attribute(node, "type"), "bitmask");
    let kids = doc.children(node);
    let ghost ks = children_of(doc@, node as int);
    let mut j: usize = 0;
    while j < kids.len()
        invariant
            j <= kids.len(),
            ks == children_of(doc@, node as int),
            kids@.map_values(|x: usize| x as int) == ks,
            forall|m: int| 0 <= m < kids@.len() ==> (#[trigger] kids@[m]) < doc@.len(),
            is_bitmask == attr_is(doc@[node as int], "type"@, "bitmask"@),
            forall|m: int|
                0 <= m < j && 0 <= ks[m] < doc@.len() && has_tag(doc@[#[trigger] ks[m]], "enum"@)
                    ==> enum_value_fits(doc@[ks[m]], is_bitmask),
        decreases kids.len() - j,
    {
        let child = kids[j];
        assert(ks[j as int] == child as int);
        if doc.has_tag_name(child, "enum") && is_bitmask && doc.attribute(child, "name").is_some()
            && doc.attribute(child, "alias").is_none() {
            if let Some(b) = doc.attribute(child, "bitpos") {
                if let Some(k) = parse_u32(b) {
                    if k >= 64 {
                        assert(!enum_value_fits(doc@[ks[j as int]], is_bitmask));
                        return false;
                    }
                }
            }
        }
        j += 1;
    }
    true
}

/// Reads an `<enums>` block into the registry: the `API Constants` block
/// adds constants, any other named block an enum; an unnamed block is ignored.
pub fn parse_into(doc: &XmlDocument, node: usize, reg: &mut Registry)
    requires
        node < doc@.len(),
        enum_children_fit(
            doc@,
            children_of(doc@, node as int),
            attr_is(doc@[node as int], "type"@, "bitmask"@),
        ),
    ensures
        ({
            let n = doc@[node as int];
            match attr(n, "name"@) {
                None => *final(reg) == *old(reg),
                Some(name) => if name == "API Constants"@ {
                    &&& final(reg).constants@.map_values(|c: VkConstant| c@) == old(reg).constants@.map_values(
                        |c: VkConstant| c@,
                    ) + api_constants_from(doc@, children_of(doc@, node as int))
                    &&& final(reg).enums == old(reg).enums
                } else {
                    &&& enum_map_entries(final(reg).enums) == enums_block_effect(
                        doc@,
                        node as int,
                        name,
                        enum_map_entries(old(reg).enums),
                    )
                    &&& final(reg).constants == old(reg).constants
                }
            }
        }),
        final(reg).types == old(reg).types,
        final(reg).commands == old(reg).commands,
        final(reg).extensions == old(reg).extensions,
        final(reg).features == old(reg).features,
        final(reg).stypes == old(reg).stypes,
{
    let name = match doc.attribute(node, "name") {
        Some(n) => n,
        None => return ,
    };
    if str_eq(name, "API Constants") {
        parse_api_constants(doc, node, &mut reg.constants);
        return ;
    }
    let is_bitmask = str_opt_eq(doc.attribute(node, "type"), "bitmask");
    let bitwidth_64 = str_opt_eq(doc.attribute(node, "bitwidth"), "64");
    let values = enum_values(doc, node, is_bitmask);
    let replaced = match enum_map_get(&reg.enums, name) {
        Some(en) => Some(VkEnum { name: en.name.clone(), is_bitmask: en.is_bitmask, bitwidth_64, values: Vec::new() }),
        None => None,
    };
    match replaced {
        Some(mut en) => {
            en.values = values;
            enum_map_insert(&mut reg.enums, name.to_string(), en);
        },
        None => {
            enum_map_insert(
                &mut reg.enums,
                name.to_string(),
                VkEnum { bitwidth_64, name: name.to_string(), is_bitmask, values },
            );
        },
    }
}

} // verus!
