//! Features (core versions), extensions and video extensions of the registry.
use crate::codegen::{const_name, const_name_spec};
use crate::number::{parse_i64, parse_i64_spec, parse_u32, parse_u64_hex, parse_unsigned, radix_digits, radix_digits_exec};
use crate::parse::{c_to_rust, c_to_rust_spec};
use crate::parse::enums::{bit_at, bit_value, bitpos_is_power_of_two, copy_enum, copy_opt, extension_enum_effect, extension_enum_fits, in_i64, is_negative_dir, offset_fits, offset_value, opt_i64, opt_string, or_empty, parse_extension_enum, parse_i64_or, resolve_value_spec, str_opt_eq};
use crate::parse::registry::{CommandModel, ConstantModel, EnumModel, EnumValueModel, Extension, ExtensionModel, Feature, FeatureModel, Registry, RequireBlock, RequireBlockModel, VkCommand, VkConstant, VkEnum, VkEnumValue, copy_command, opt_view, strings_view};
use crate::parse::tables::{command_map_entries, command_map_get, command_map_insert, entries_get, entries_insert, enum_map_entries, enum_map_get, enum_map_insert, insert_then_get};
use crate::parse::xml::{NodeModel, XmlDocument, attr, children_of, has_tag};
use crate::text::{chars_of, contains, ends_with, push_chars, push_str, replace, replace_exec, split_char, split_char_exec, starts_with, str_eq, string_of, trim, trim_exec};
use indexmap::IndexMap;
use vstd::arithmetic::power2::pow2;
use vstd::prelude::*;

verus! {

broadcast use vstd::string::group_string_axioms;

// ---------------------------------------------------------------------------
// Walking `<require>` blocks
// ---------------------------------------------------------------------------

/// The elements among `kids`, in order.
pub open spec fn elements_of(doc: Seq<NodeModel>, kids: Seq<int>) -> Seq<int>
    decreases kids.len(),
{
    if kids.len() == 0 {
        Seq::empty()
    } else {
        let p = elements_of(doc, kids.drop_last());
        let k = kids.last();
        if 0 <= k < doc.len() && doc[k].is_element {
            p.push(k)
        } else {
            p
        }
    }
}

/// The elements inside the `<require>` blocks among `kids`, in order.
pub open spec fn items_from(doc: Seq<NodeModel>, kids: Seq<int>) -> Seq<int>
    decreases kids.len(),
{
    if kids.len() == 0 {
        Seq::empty()
    } else {
        let p = items_from(doc, kids.drop_last());
        let k = kids.last();
        if 0 <= k < doc.len() && has_tag(doc[k], "require"@) {
            p + elements_of(doc, children_of(doc, k))
        } else {
            p
        }
    }
}

/// The `name` attributes (empty when missing) of the items tagged `tag`.
pub open spec fn tagged_names(doc: Seq<NodeModel>, its: Seq<int>, tag: Seq<char>) -> Seq<Seq<char>>
    decreases its.len(),
{
    if its.len() == 0 {
        Seq::empty()
    } else {
        let p = tagged_names(doc, its.drop_last(), tag);
        let k = its.last();
        if 0 <= k < doc.len() && doc[k].tag == tag {
            p.push(or_empty(attr(doc[k], "name"@)))
        } else {
            p
        }
    }
}

/// The value an enum element gives under extension number `extnumber`:
/// its `value`, its `bitpos`, or its `offset` (under its own `extnumber`
/// if it has one); `None` when it has none of the three. Numbers that do
/// not parse count as 0 (an `extnumber` that does not parse as the given one).
pub open spec fn numbered_value_spec(n: NodeModel, extnumber: i64) -> Option<i64> {
    match attr(n, "value"@) {
        Some(v) => Some(opt_i64(parse_i64_spec(trim(v), 10), 0)),
        None => match attr(n, "bitpos"@) {
            Some(b) => Some(
                bit_value(
                    match parse_unsigned(b, 10, 0xffff_ffff) {
                        Some(k) => k,
                        None => 0,
                    },
                ),
            ),
            None => match attr(n, "offset"@) {
                Some(o) => {
                    let off = opt_i64(parse_i64_spec(o, 10), 0);
                    let ext = match attr(n, "extnumber"@) {
                        Some(e) => opt_i64(parse_i64_spec(e, 10), extnumber),
                        None => extnumber,
                    };
                    Some(offset_value(ext as int, off as int, is_negative_dir(n)) as i64)
                },
                None => None,
            },
        },
    }
}

/// An enum element of an extension placed by bit position `k` (and with no
/// `value`) gives the single bit `k`, `2^k`, whatever the extension number.
pub proof fn numbered_bitpos_is_power_of_two(n: NodeModel, b: Seq<char>, k: nat, extnumber: i64)
    requires
        attr(n, "value"@) is None,
        attr(n, "bitpos"@) == Some(b),
        parse_unsigned(b, 10, 0xffff_ffff) == Some(k),
        k < 63,
    ensures
        numbered_value_spec(n, extnumber) matches Some(v) && v as int == pow2(k),
{
    bitpos_is_power_of_two(n, b, k);
}

/// An enum element of extension number `extnumber` gives its `value` when it
/// has one. Without `value` or `bitpos`, an element with `offset` `off` gives
/// `1000000000 + (ext - 1) * 1000 + off`, negated when `dir="-"`, where `ext`
/// is its own `extnumber` if it has one and `extnumber` otherwise; an element
/// with none of the three gives nothing.
pub proof fn numbered_value_by_kind(n: NodeModel, extnumber: i64, off: int, ext: int)
    requires
        attr(n, "value"@) is None ==> attr(n, "bitpos"@) is None,
        attr(n, "value"@) is None ==> match attr(n, "offset"@) {
            Some(o) => parse_i64_spec(o, 10) == Some(off) && match attr(n, "extnumber"@) {
                Some(e) => parse_i64_spec(e, 10) == Some(ext),
                None => ext == extnumber,
            } && offset_fits(ext, off, is_negative_dir(n)),
            None => true,
        },
    ensures
        attr(n, "value"@) matches Some(v) ==> (parse_i64_spec(trim(v), 10) matches Some(x) ==> (numbered_value_spec(
            n,
            extnumber,
        ) == Some(x as i64) && x == x as i64)),
        attr(n, "value"@) is None && attr(n, "offset"@) is Some && attr(n, "dir"@) != Some("-"@) ==> (numbered_value_spec(
            n,
            extnumber,
        ) matches Some(v) && v == 1_000_000_000 + (ext - 1) * 1000 + off),
        attr(n, "value"@) is None && attr(n, "offset"@) is Some && attr(n, "dir"@) == Some("-"@) ==> (numbered_value_spec(
            n,
            extnumber,
        ) matches Some(v) && v == -(1_000_000_000 + (ext - 1) * 1000 + off)),
        attr(n, "value"@) is None && attr(n, "offset"@) is None ==> numbered_value_spec(n, extnumber) is None,
{
    match attr(n, "value"@) {
        Some(v) => {
            assert(parse_i64_spec(trim(v), 10) matches Some(x) ==> in_i64(x));
        },
        None => {
            match attr(n, "offset"@) {
                Some(o) => {
                    assert(parse_i64_spec(o, 10) matches Some(x) ==> in_i64(x));
                    match attr(n, "extnumber"@) {
                        Some(e) => assert(parse_i64_spec(e, 10) matches Some(x) ==> in_i64(x)),
                        None => {},
                    }
                },
                None => {},
            }
        },
    }
}

/// Computing [`numbered_value_spec`] neither shifts by 64 or more nor overflows.
pub open spec fn numbered_fits(n: NodeModel, extnumber: i64) -> bool {
    match attr(n, "value"@) {
        Some(_) => true,
        None => match attr(n, "bitpos"@) {
            Some(b) => match parse_unsigned(b, 10, 0xffff_ffff) {
                Some(k) => k < 64,
                None => true,
            },
            None => match attr(n, "offset"@) {
                Some(o) => {
                    let off = opt_i64(parse_i64_spec(o, 10), 0);
                    let ext = match attr(n, "extnumber"@) {
                        Some(e) => opt_i64(parse_i64_spec(e, 10), extnumber),
                        None => extnumber,
                    };
                    offset_fits(ext as int, off as int, is_negative_dir(n))
                },
                None => true,
            },
        },
    }
}

/// The enums after `n`, an enum element of extension `ext` (number
/// `extnumber`), adds its value to the enum it extends; unchanged when it
/// extends nothing known or gives no value.
pub open spec fn numbered_enum_effect(
    e: Seq<(Seq<char>, EnumModel)>,
    n: NodeModel,
    extnumber: i64,
    ext: Seq<char>,
) -> Seq<(Seq<char>, EnumModel)> {
    match attr(n, "extends"@) {
        None => e,
        Some(x) => match entries_get(e, x) {
            None => e,
            Some(en) => match numbered_value_spec(n, extnumber) {
                None => e,
                Some(v) => entries_insert(
                    e,
                    x,
                    EnumModel {
                        values: en.values.push(
                            EnumValueModel {
                                name: or_empty(attr(n, "name"@)),
                                value: v,
                                comment: attr(n, "comment"@),
                                extension: Some(ext),
                            },
                        ),
                        ..en
                    },
                ),
            },
        },
    }
}

/// What adding the value of `n` needs to compute it without panicking.
pub open spec fn numbered_enum_fits(e: Seq<(Seq<char>, EnumModel)>, n: NodeModel, extnumber: i64) -> bool {
    match attr(n, "extends"@) {
        Some(x) => entries_get(e, x) is Some ==> numbered_fits(n, extnumber),
        None => true,
    }
}

/// One `<enum>` item of a `<require>` block: read as a core feature's
/// (`numbered` is `None`) or as extension `numbered.1`'s, of number `numbered.0`.
pub open spec fn enum_step(
    e: Seq<(Seq<char>, EnumModel)>,
    n: NodeModel,
    numbered: Option<(i64, Seq<char>)>,
) -> Seq<(Seq<char>, EnumModel)> {
    match numbered {
        None => extension_enum_effect(e, n, None),
        Some((num, ext)) => numbered_enum_effect(e, n, num, ext),
    }
}

/// What reading one `<enum>` item needs to compute its value without panicking.
pub open spec fn enum_step_fits(
    e: Seq<(Seq<char>, EnumModel)>,
    n: NodeModel,
    numbered: Option<(i64, Seq<char>)>,
) -> bool {
    match numbered {
        None => extension_enum_fits(e, n),
        Some((num, _)) => numbered_enum_fits(e, n, num),
    }
}

/// The enums after the `<enum>` items among `its` add their values.
pub open spec fn require_enum_effects(
    doc: Seq<NodeModel>,
    its: Seq<int>,
    e: Seq<(Seq<char>, EnumModel)>,
    numbered: Option<(i64, Seq<char>)>,
) -> Seq<(Seq<char>, EnumModel)>
    decreases its.len(),
{
    if its.len() == 0 {
        e
    } else {
        let p = require_enum_effects(doc, its.drop_last(), e, numbered);
        let k = its.last();
        if 0 <= k < doc.len() && doc[k].tag == "enum"@ {
            enum_step(p, doc[k], numbered)
        } else {
            p
        }
    }
}

/// Adding those values computes every one without panicking.
pub open spec fn require_enum_fits(
    doc: Seq<NodeModel>,
    its: Seq<int>,
    e: Seq<(Seq<char>, EnumModel)>,
    numbered: Option<(i64, Seq<char>)>,
) -> bool
    decreases its.len(),
{
    if its.len() == 0 {
        true
    } else {
        let k = its.last();
        &&& require_enum_fits(doc, its.drop_last(), e, numbered)
        &&& (0 <= k < doc.len() && doc[k].tag == "enum"@ ==> enum_step_fits(
            require_enum_effects(doc, its.drop_last(), e, numbered),
            doc[k],
            numbered,
        ))
    }
}

/// The commands after those named in `names` get version `version`;
/// unknown names are skipped.
pub open spec fn set_versions(
    c: Seq<(Seq<char>, CommandModel)>,
    names: Seq<Seq<char>>,
    version: Option<Seq<char>>,
) -> Seq<(Seq<char>, CommandModel)>
    decreases names.len(),
{
    if names.len() == 0 {
        c
    } else {
        let p = set_versions(c, names.drop_last(), version);
        match entries_get(p, names.last()) {
            Some(cmd) => entries_insert(p, names.last(), CommandModel { version, ..cmd }),
            None => p,
        }
    }
}

/// What reading a feature does to the commands: a command the feature
/// names takes the feature's version, every other command is as it was,
/// and no command is added.
pub proof fn set_versions_marks(
    c: Seq<(Seq<char>, CommandModel)>,
    names: Seq<Seq<char>>,
    version: Option<Seq<char>>,
    name: Seq<char>,
)
    ensures
        entries_get(set_versions(c, names, version), name) == match entries_get(c, name) {
            Some(cmd) => Some(
                if names.contains(name) {
                    CommandModel { version, ..cmd }
                } else {
                    cmd
                },
            ),
            None => None,
        },
    decreases names.len(),
{
    if names.len() > 0 {
        let p = set_versions(c, names.drop_last(), version);
        set_versions_marks(c, names.drop_last(), version, name);
        assert(names.contains(name) <==> (names.drop_last().contains(name) || names.last() == name)) by {
            if names.contains(name) {
                let k = choose|k: int| 0 <= k < names.len() && names[k] == name;
                if k < names.len() - 1 {
                    assert(names.drop_last()[k] == name);
                }
            }
            if names.drop_last().contains(name) {
                let k = choose|k: int| 0 <= k < names.drop_last().len() && names.drop_last()[k] == name;
                assert(names[k] == name);
            }
            if names.last() == name {
                assert(names[names.len() - 1] == name);
            }
        }
        match entries_get(p, names.last()) {
            Some(cmd) => {
                insert_then_get(p, names.last(), CommandModel { version, ..cmd }, name);
            },
            None => {},
        }
    } else {
        assert(!names.contains(name));
    }
}

/// `"1.2"` → `"v1_2"`.
pub open spec fn version_spec(number: Option<Seq<char>>) -> Option<Seq<char>> {
    match number {
        Some(n) => Some("v"@ + replace(n, "."@, "_"@)),
        None => None,
    }
}

/// The feature a `<feature>` element describes.
pub open spec fn feature_spec(doc: Seq<NodeModel>, node: int) -> FeatureModel {
    let its = items_from(doc, children_of(doc, node));
    FeatureModel {
        name: or_empty(attr(doc[node], "name"@)),
        version: version_spec(attr(doc[node], "number"@)),
        required_types: tagged_names(doc, its, "type"@),
        required_commands: tagged_names(doc, its, "command"@),
    }
}

// ---------------------------------------------------------------------------
// Checking ahead that the enum values can be computed
// ---------------------------------------------------------------------------

/// Adding enum values never adds or removes an enum.
proof fn lemma_effects_keep_keys(
    doc: Seq<NodeModel>,
    its: Seq<int>,
    e: Seq<(Seq<char>, EnumModel)>,
    numbered: Option<(i64, Seq<char>)>,
    x: Seq<char>,
)
    ensures
        entries_get(require_enum_effects(doc, its, e, numbered), x) is Some <==> entries_get(e, x) is Some,
    decreases its.len(),
{
    if its.len() > 0 {
        let p = require_enum_effects(doc, its.drop_last(), e, numbered);
        lemma_effects_keep_keys(doc, its.drop_last(), e, numbered, x);
        let k = its.last();
        if 0 <= k < doc.len() && doc[k].tag == "enum"@ {
            let n = doc[k];
            match attr(n, "extends"@) {
                Some(y) => match entries_get(p, y) {
                    Some(en) => {
                        match numbered {
                            None => {
                                let v = EnumModel {
                                    values: en.values.push(
                                        EnumValueModel {
                                            name: or_empty(attr(n, "name"@)),
                                            value: resolve_value_spec(n),
                                            comment: attr(n, "comment"@),
                                            extension: None,
                                        },
                                    ),
                                    ..en
                                };
                                insert_then_get(p, y, v, x);
                            },
                            Some((num, ext)) => match numbered_value_spec(n, num) {
                                Some(val) => {
                                    let v = EnumModel {
                                        values: en.values.push(
                                            EnumValueModel {
                                                name: or_empty(attr(n, "name"@)),
                                                value: val,
                                                comment: attr(n, "comment"@),
                                                extension: Some(ext),
                                            },
                                        ),
                                        ..en
                                    };
                                    insert_then_get(p, y, v, x);
                                },
                                None => {},
                            },
                        }
                    },
                    None => {},
                },
                None => {},
            }
        }
    }
}

/// Whether an `<enum>` item `n` that extends a known enum of `e` has a
/// value that can be computed under extension number `extnumber`.
pub open spec fn item_fits(e: Seq<(Seq<char>, EnumModel)>, n: NodeModel, extnumber: i64) -> bool {
    match attr(n, "extends"@) {
        Some(x) => entries_get(e, x) is Some ==> numbered_fits(n, extnumber),
        None => true,
    }
}

/// Every `<enum>` item among `its` fits.
pub open spec fn all_items_fit(doc: Seq<NodeModel>, its: Seq<int>, e: Seq<(Seq<char>, EnumModel)>, extnumber: i64) -> bool
    decreases its.len(),
{
    if its.len() == 0 {
        true
    } else {
        let k = its.last();
        &&& all_items_fit(doc, its.drop_last(), e, extnumber)
        &&& (0 <= k < doc.len() && doc[k].tag == "enum"@ ==> item_fits(e, doc[k], extnumber))
    }
}

/// The number under which `numbered` reads offsets by default.
pub open spec fn default_extnumber(numbered: Option<(i64, Seq<char>)>) -> i64 {
    match numbered {
        Some((num, _)) => num,
        None => 1,
    }
}

/// Reading the items in turn fits exactly when every item fits against the
/// enums as they were at the start.
proof fn lemma_fits_all_items(
    doc: Seq<NodeModel>,
    its: Seq<int>,
    e: Seq<(Seq<char>, EnumModel)>,
    numbered: Option<(i64, Seq<char>)>,
)
    ensures
        require_enum_fits(doc, its, e, numbered) == all_items_fit(doc, its, e, default_extnumber(numbered)),
    decreases its.len(),
{
    if its.len() > 0 {
        lemma_fits_all_items(doc, its.drop_last(), e, numbered);
        let k = its.last();
        if 0 <= k < doc.len() && doc[k].tag == "enum"@ {
            match attr(doc[k], "extends"@) {
                Some(x) => {
                    lemma_effects_keep_keys(doc, its.drop_last(), e, numbered, x);
                },
                None => {},
            }
        }
    }
}

proof fn lemma_all_items_fit_add(
    doc: Seq<NodeModel>,
    a: Seq<int>,
    b: Seq<int>,
    e: Seq<(Seq<char>, EnumModel)>,
    extnumber: i64,
)
    ensures
        all_items_fit(doc, a + b, e, extnumber) == (all_items_fit(doc, a, e, extnumber) && all_items_fit(
            doc,
            b,
            e,
            extnumber,
        )),
    decreases b.len(),
{
    if b.len() == 0 {
        assert(a + b =~= a);
    } else {
        lemma_all_items_fit_add(doc, a, b.drop_last(), e, extnumber);
        assert((a + b).drop_last() =~= a + b.drop_last());
        assert((a + b).last() == b.last());
    }
}

/// Whether the offset arithmetic of an enum value stays within `i64`.
fn offset_fits_exec(ext: i64, off: i64, negative: bool) -> (r: bool)
    ensures
        r == offset_fits(ext as int, off as int, negative),
{
    let a: i128 = ext as i128 - 1;
    let b: i128 = a * 1000;
    let c: i128 = 1_000_000_000 + b;
    let d: i128 = c + off as i128;
    let lo: i128 = i64::MIN as i128;
    let hi: i128 = i64::MAX as i128;
    lo <= a && a <= hi && lo <= b && b <= hi && lo <= c && c <= hi && lo <= d && d <= hi && (!negative || (
    lo <= -d && -d <= hi))
}

/// Whether the value of enum element `node` can be computed under
/// extension number `extnumber`.
fn numbered_fits_exec(doc: &XmlDocument, node: usize, extnumber: i64) -> (r: bool)
    requires
        node < doc@.len(),
    ensures
        r == numbered_fits(doc@[node as int], extnumber),
{
    if doc.attribute(node, "value").is_some() {
        return true;
    }
    if let Some(b) = doc.attribute(node, "bitpos") {
        return match parse_u32(b) {
            Some(k) => k < 64,
            None => true,
        };
    }
    if let Some(o) = doc.attribute(node, "offset") {
        let off = parse_i64_or(Some(o), 0);
        let ext = parse_i64_or(doc.attribute(node, "extnumber"), extnumber);
        return offset_fits_exec(ext, off, str_opt_eq(doc.attribute(node, "dir"), "-"));
    }
    true
}

/// Whether every `<enum>` item of the `<require>` blocks of `node` fits.
fn require_items_fit(doc: &XmlDocument, node: usize, enums: &IndexMap<String, VkEnum>, extnumber: i64) -> (r: bool)
    requires
        node < doc@.len(),
    ensures
        r == all_items_fit(doc@, items_from(doc@, children_of(doc@, node as int)), enum_map_entries(*enums), extnumber),
{
    let ghost e = enum_map_entries(*enums);
    let kids = doc.children(node);
    let ghost ks = children_of(doc@, node as int);
    let mut ok = true;
    let mut i: usize = 0;
    assert(ks.take(0) =~= Seq::<int>::empty());
    while i < kids.len()
        invariant
            i <= kids.len(),
            e == enum_map_entries(*enums),
            ks == children_of(doc@, node as int),
            kids@.map_values(|x: usize| x as int) == ks,
            forall|m: int| 0 <= m < kids@.len() ==> (#[trigger] kids@[m]) < doc@.len(),
            ok == all_items_fit(doc@, items_from(doc@, ks.take(i as int)), e, extnumber),
        decreases kids.len() - i,
    {
        let req = kids[i];
        assert(ks[i as int] == req as int);
        assert(ks.take(i + 1).drop_last() =~= ks.take(i as int));
        assert(ks.take(i + 1).last() == req as int);
        if doc.has_tag_name(req, "require") {
            let inner = doc.children(req);
            let ghost js = children_of(doc@, req as int);
            let mut block_ok = true;
            let mut j: usize = 0;
            assert(js.take(0) =~= Seq::<int>::empty());
            while j < inner.len()
                invariant
                    j <= inner.len(),
                    e == enum_map_entries(*enums),
                    js == children_of(doc@, req as int),
                    inner@.map_values(|x: usize| x as int) == js,
                    forall|m: int| 0 <= m < inner@.len() ==> (#[trigger] inner@[m]) < doc@.len(),
                    block_ok == all_items_fit(doc@, elements_of(doc@, js.take(j as int)), e, extnumber),
                decreases inner.len() - j,
            {
                let child = inner[j];
                assert(js[j as int] == child as int);
                assert(js.take(j + 1).drop_last() =~= js.take(j as int));
                assert(js.take(j + 1).last() == child as int);
                if doc.is_element(child) {
                    let ghost prev = elements_of(doc@, js.take(j as int));
                    assert(elements_of(doc@, js.take(j + 1)) == prev.push(child as int));
                    assert(prev.push(child as int).drop_last() =~= prev);
                    let mut fits = true;
                    if str_eq(doc.tag_name(child), "enum") {
                        if let Some(x) = doc.attribute(child, "extends") {
                            if enum_map_get(enums, x).is_some() {
                                fits = numbered_fits_exec(doc, child, extnumber);
                            }
                        }
                    }
                    block_ok = block_ok && fits;
                }
                j += 1;
            }
            assert(js.take(j as int) =~= js);
            proof {
                lemma_all_items_fit_add(
                    doc@,
                    items_from(doc@, ks.take(i as int)),
                    elements_of(doc@, js),
                    e,
                    extnumber,
                );
            }
            ok = ok && block_ok;
        }
        i += 1;
    }
    assert(ks.take(i as int) =~= ks);
    ok
}

/// Whether the enum values a `<feature>` element adds can all be computed,
/// as [`parse_feature`] needs.
pub fn feature_enums_fit(doc: &XmlDocument, node: usize, enums: &IndexMap<String, VkEnum>) -> (r: bool)
    requires
        node < doc@.len(),
    ensures
        r == require_enum_fits(doc@, items_from(doc@, children_of(doc@, node as int)), enum_map_entries(*enums), None),
{
    proof {
        lemma_fits_all_items(doc@, items_from(doc@, children_of(doc@, node as int)), enum_map_entries(*enums), None);
    }
    require_items_fit(doc, node, enums, 1)
}

/// Whether the enum values an `<extension>` element adds can all be
/// computed, as [`parse_extension`] needs.
pub fn extension_enums_fit(doc: &XmlDocument, node: usize, enums: &IndexMap<String, VkEnum>) -> (r: bool)
    requires
        node < doc@.len(),
    ensures
        r == require_enum_fits(
            doc@,
            items_from(doc@, children_of(doc@, node as int)),
            enum_map_entries(*enums),
            Some((extension_number(doc@[node as int]), or_empty(attr(doc@[node as int], "name"@)))),
        ),
{
    let number = parse_i64_or(doc.attribute(node, "number"), 1);
    proof {
        lemma_fits_all_items(
            doc@,
            items_from(doc@, children_of(doc@, node as int)),
            enum_map_entries(*enums),
            Some((extension_number(doc@[node as int]), or_empty(attr(doc@[node as int], "name"@)))),
        );
    }
    require_items_fit(doc, node, enums, number)
}

/// Gives every command named in `names` the version `version`.
fn set_command_versions(
    commands: &mut IndexMap<String, VkCommand>,
    names: &Vec<String>,
    version: &Option<String>,
)
    ensures
        command_map_entries(*final(commands)) == set_versions(
            command_map_entries(*old(commands)),
            strings_view(names@),
            opt_view(*version),
        ),
{
    let ghost ns = strings_view(names@);
    let ghost c0 = command_map_entries(*commands);
    let mut i: usize = 0;
    assert(ns.take(0) =~= Seq::<Seq<char>>::empty());
    while i < names.len()
        invariant
            i <= names.len(),
            ns == strings_view(names@),
            command_map_entries(*commands) == set_versions(c0, ns.take(i as int), opt_view(*version)),
        decreases names.len() - i,
    {
        assert(ns.take(i + 1).drop_last() =~= ns.take(i as int));
        assert(ns.take(i + 1).last() == names@[i as int]@);
        let found = match command_map_get(commands, names[i].as_str()) {
            Some(cmd) => Some(copy_command(cmd)),
            None => None,
        };
        if let Some(mut cmd) = found {
            cmd.version = copy_opt(version);
            command_map_insert(commands, names[i].clone(), cmd);
        }
        i += 1;
    }
    assert(ns.take(i as int) =~= ns);
}

/// Appends the element children of `req` to the names and enums of a
/// feature; returns them, in order.
fn read_feature_require(
    doc: &XmlDocument,
    req: usize,
    feature: &mut Feature,
    enums: &mut IndexMap<String, VkEnum>,
    Ghost(e0): Ghost<Seq<(Seq<char>, EnumModel)>>,
    Ghost(done): Ghost<Seq<int>>,
)
    requires
        req < doc@.len(),
        enum_map_entries(*old(enums)) == require_enum_effects(doc@, done, e0, None),
        require_enum_fits(doc@, done + elements_of(doc@, children_of(doc@, req as int)), e0, None),
    ensures
        strings_view(final(feature).required_types@) == strings_view(old(feature).required_types@)
            + tagged_names(doc@, elements_of(doc@, children_of(doc@, req as int)), "type"@),
        strings_view(final(feature).required_commands@) == strings_view(old(feature).required_commands@)
            + tagged_names(doc@, elements_of(doc@, children_of(doc@, req as int)), "command"@),
        final(feature).name == old(feature).name,
        final(feature).version == old(feature).version,
        enum_map_entries(*final(enums)) == require_enum_effects(
            doc@,
            done + elements_of(doc@, children_of(doc@, req as int)),
            e0, None),
{
    let kids = doc.children(req);
    let ghost ks = children_of(doc@, req as int);
    let ghost t0 = strings_view(feature.required_types@);
    let ghost c0 = strings_view(feature.required_commands@);
    let mut j: usize = 0;
    assert(ks.take(0) =~= Seq::<int>::empty());
    assert(done + elements_of(doc@, ks.take(0)) =~= done);
    assert(t0 + tagged_names(doc@, elements_of(doc@, ks.take(0)), "type"@) =~= t0);
    assert(c0 + tagged_names(doc@, elements_of(doc@, ks.take(0)), "command"@) =~= c0);
    while j < kids.len()
        invariant
            j <= kids.len(),
            req < doc@.len(),
            ks == children_of(doc@, req as int),
            kids@.map_values(|x: usize| x as int) == ks,
            forall|m: int| 0 <= m < kids@.len() ==> (#[trigger] kids@[m]) < doc@.len(),
            require_enum_fits(doc@, done + elements_of(doc@, ks), e0, None),
            strings_view(feature.required_types@) == t0 + tagged_names(doc@, elements_of(doc@, ks.take(j as int)), "type"@),
            strings_view(feature.required_commands@) == c0 + tagged_names(
                doc@,
                elements_of(doc@, ks.take(j as int)),
                "command"@,
            ),
            feature.name == old(feature).name,
            feature.version == old(feature).version,
            enum_map_entries(*enums) == require_enum_effects(doc@, done + elements_of(doc@, ks.take(j as int)), e0, None),
        decreases kids.len() - j,
    {
        let child = kids[j];
        assert(ks[j as int] == child as int);
        assert(ks.take(j + 1).drop_last() =~= ks.take(j as int));
        let ghost prev = elements_of(doc@, ks.take(j as int));
        if doc.is_element(child) {
            let ghost now = elements_of(doc@, ks.take(j + 1));
            assert(now == prev.push(child as int));
            assert(now.drop_last() =~= prev);
            assert((done + now).drop_last() =~= done + prev);
            proof {
                lemma_fits_prefix(doc@, done + elements_of(doc@, ks), e0, None, j as int, ks, done);
            }
            let tag = doc.tag_name(child);
            let name = match doc.attribute(child, "name") {
                Some(n) => n,
                None => "",
            };
            proof {
                reveal_strlit("");
                reveal_strlit("type");
                reveal_strlit("command");
                reveal_strlit("enum");
                assert((done + now).last() == child as int);
                assert("type"@[0] != "enum"@[0]);
                assert("type"@.len() != "command"@.len());
                assert("command"@.len() != "enum"@.len());
            }
            let ghost ty0 = strings_view(feature.required_types@);
            let ghost cm0 = strings_view(feature.required_commands@);
            assert(name@ == or_empty(attr(doc@[child as int], "name"@)));
            assert(now.last() == child as int);
            assert(tagged_names(doc@, now, "type"@) == if doc@[child as int].tag == "type"@ {
                tagged_names(doc@, prev, "type"@).push(name@)
            } else {
                tagged_names(doc@, prev, "type"@)
            });
            assert(tagged_names(doc@, now, "command"@) == if doc@[child as int].tag == "command"@ {
                tagged_names(doc@, prev, "command"@).push(name@)
            } else {
                tagged_names(doc@, prev, "command"@)
            });
            if str_eq(tag, "type") {
                feature.required_types.push(name.to_string());
                assert(strings_view(feature.required_types@) =~= ty0.push(name@));
            } else if str_eq(tag, "command") {
                feature.required_commands.push(name.to_string());
                assert(strings_view(feature.required_commands@) =~= cm0.push(name@));
            } else if str_eq(tag, "enum") {
                parse_extension_enum(doc, child, enums, None);
            }
            assert(t0 + tagged_names(doc@, prev, "type"@).push(name@) =~= (t0 + tagged_names(doc@, prev, "type"@)).push(name@));
            assert(c0 + tagged_names(doc@, prev, "command"@).push(name@) =~= (c0 + tagged_names(doc@, prev, "command"@)).push(name@));
        } else {
            assert(ks.take(j + 1).last() == child as int);
            assert(elements_of(doc@, ks.take(j + 1)) == prev);
        }
        j += 1;
    }
    assert(ks.take(j as int) =~= ks);
}

/// Feasibility of the enum steps carries to every prefix of the items.
proof fn lemma_fits_prefix(
    doc: Seq<NodeModel>,
    all: Seq<int>,
    e0: Seq<(Seq<char>, EnumModel)>,
    numbered: Option<(i64, Seq<char>)>,
    j: int,
    ks: Seq<int>,
    done: Seq<int>,
)
    requires
        0 <= j < ks.len(),
        all == done + elements_of(doc, ks),
        require_enum_fits(doc, all, e0, numbered),
    ensures
        require_enum_fits(doc, done + elements_of(doc, ks.take(j + 1)), e0, numbered),
{
    lemma_elements_prefix(doc, ks, j + 1);
    lemma_fits_take(doc, all, e0, numbered, (done + elements_of(doc, ks.take(j + 1))).len() as int);
    assert(all.take((done + elements_of(doc, ks.take(j + 1))).len() as int) =~= done + elements_of(
        doc,
        ks.take(j + 1),
    ));
}

/// The elements of a prefix are a prefix of the elements.
proof fn lemma_elements_prefix(doc: Seq<NodeModel>, ks: Seq<int>, j: int)
    requires
        0 <= j <= ks.len(),
    ensures
        elements_of(doc, ks.take(j)).is_prefix_of(elements_of(doc, ks)),
    decreases ks.len() - j,
{
    if j < ks.len() {
        lemma_elements_prefix(doc, ks, j + 1);
        assert(ks.take(j + 1).drop_last() =~= ks.take(j));
    } else {
        assert(ks.take(j) =~= ks);
    }
}

proof fn lemma_fits_take(
    doc: Seq<NodeModel>,
    its: Seq<int>,
    e0: Seq<(Seq<char>, EnumModel)>,
    numbered: Option<(i64, Seq<char>)>,
    n: int,
)
    requires
        0 <= n <= its.len(),
        require_enum_fits(doc, its, e0, numbered),
    ensures
        require_enum_fits(doc, its.take(n), e0, numbered),
    decreases its.len() - n,
{
    if n < its.len() {
        assert(its.take(n + 1).drop_last() =~= its.take(n));
        lemma_fits_take(doc, its, e0, numbered, n + 1);
    } else {
        assert(its.take(n) =~= its);
    }
}

/// Reads a `<feature>` element: its required types and commands are
/// recorded, its enum values added, its commands given its version, and
/// the feature appended to the registry.
pub fn parse_feature(doc: &XmlDocument, node: usize, registry: &mut Registry)
    requires
        node < doc@.len(),
        require_enum_fits(
            doc@,
            items_from(doc@, children_of(doc@, node as int)),
            enum_map_entries(old(registry).enums),
            None,
        ),
    ensures
        final(registry).features@.map_values(|f: Feature| f@) == old(registry).features@.map_values(|f: Feature| f@).push(
            feature_spec(doc@, node as int),
        ),
        enum_map_entries(final(registry).enums) == require_enum_effects(
            doc@,
            items_from(doc@, children_of(doc@, node as int)),
            enum_map_entries(old(registry).enums),
            None,
        ),
        command_map_entries(final(registry).commands) == set_versions(
            command_map_entries(old(registry).commands),
            feature_spec(doc@, node as int).required_commands,
            feature_spec(doc@, node as int).version,
        ),
        final(registry).types == old(registry).types,
        final(registry).constants == old(registry).constants,
        final(registry).extensions == old(registry).extensions,
        final(registry).stypes == old(registry).stypes,
{
    let ghost e0 = enum_map_entries(registry.enums);
    let ghost all = items_from(doc@, children_of(doc@, node as int));
    let name = match doc.attribute(node, "name") {
        Some(n) => n.to_string(),
        None => String::new(),
    };
    let version = match doc.attribute(node, "number") {
        Some(n) => {
            let empty_fix = replace_exec(&chars_of(n), &chars_of("."), &chars_of("_"));
            let mut v = String::new();
            push_str(&mut v, "v");
            push_chars(&mut v, &empty_fix, 0, empty_fix.len());
            assert(empty_fix@.subrange(0, empty_fix@.len() as int) =~= empty_fix@);
            Some(v)
        },
        None => None,
    };
    let mut feature = Feature {
        name,
        version: copy_opt(&version),
        required_types: Vec::new(),
        required_commands: Vec::new(),
    };
    let kids = doc.children(node);
    let ghost ks = children_of(doc@, node as int);
    let ghost done: Seq<int> = Seq::empty();
    let mut i: usize = 0;
    assert(ks.take(0) =~= Seq::<int>::empty());
    assert(strings_view(feature.required_types@) =~= tagged_names(doc@, items_from(doc@, ks.take(0)), "type"@));
    assert(strings_view(feature.required_commands@) =~= tagged_names(doc@, items_from(doc@, ks.take(0)), "command"@));
    while i < kids.len()
        invariant
            i <= kids.len(),
            node < doc@.len(),
            ks == children_of(doc@, node as int),
            all == items_from(doc@, ks),
            kids@.map_values(|x: usize| x as int) == ks,
            forall|m: int| 0 <= m < kids@.len() ==> (#[trigger] kids@[m]) < doc@.len(),
            require_enum_fits(doc@, all, e0, None),
            strings_view(feature.required_types@) == tagged_names(doc@, items_from(doc@, ks.take(i as int)), "type"@),
            strings_view(feature.required_commands@) == tagged_names(
                doc@,
                items_from(doc@, ks.take(i as int)),
                "command"@,
            ),
            feature.name@ == or_empty(attr(doc@[node as int], "name"@)),
            opt_view(feature.version) == version_spec(attr(doc@[node as int], "number"@)),
            opt_view(version) == version_spec(attr(doc@[node as int], "number"@)),
            enum_map_entries(registry.enums) == require_enum_effects(doc@, items_from(doc@, ks.take(i as int)), e0, None),
            registry.types == old(registry).types,
            registry.commands == old(registry).commands,
            registry.constants == old(registry).constants,
            registry.extensions == old(registry).extensions,
            registry.features == old(registry).features,
            registry.stypes == old(registry).stypes,
        decreases kids.len() - i,
    {
        let child = kids[i];
        assert(ks[i as int] == child as int);
        assert(ks.take(i + 1).drop_last() =~= ks.take(i as int));
        if doc.has_tag_name(child, "require") {
            let ghost d = items_from(doc@, ks.take(i as int));
            proof {
                lemma_items_prefix(doc@, ks, i + 1);
                assert(items_from(doc@, ks.take(i + 1)) == d + elements_of(doc@, children_of(doc@, child as int)));
                lemma_fits_take(doc@, all, e0, None, items_from(doc@, ks.take(i + 1)).len() as int);
                assert(all.take(items_from(doc@, ks.take(i + 1)).len() as int) =~= items_from(doc@, ks.take(i + 1)));
            }
            read_feature_require(doc, child, &mut feature, &mut registry.enums, Ghost(e0), Ghost(d));
            proof {
                lemma_tagged_names_add(doc@, d, elements_of(doc@, children_of(doc@, child as int)), "type"@);
                lemma_tagged_names_add(doc@, d, elements_of(doc@, children_of(doc@, child as int)), "command"@);
            }
        }
        i += 1;
    }
    assert(ks.take(i as int) =~= ks);
    set_command_versions(&mut registry.commands, &feature.required_commands, &version);
    registry.features.push(feature);
    assert(registry.features@.map_values(|f: Feature| f@) =~= old(registry).features@.map_values(|f: Feature| f@).push(
        feature_spec(doc@, node as int),
    ));
}

/// The items of a prefix of the blocks are a prefix of the items.
proof fn lemma_items_prefix(doc: Seq<NodeModel>, ks: Seq<int>, j: int)
    requires
        0 <= j <= ks.len(),
    ensures
        items_from(doc, ks.take(j)).is_prefix_of(items_from(doc, ks)),
    decreases ks.len() - j,
{
    if j < ks.len() {
        lemma_items_prefix(doc, ks, j + 1);
        assert(ks.take(j + 1).drop_last() =~= ks.take(j));
    } else {
        assert(ks.take(j) =~= ks);
    }
}

/// The names of two runs of items are the names of each run, in order.
proof fn lemma_tagged_names_add(doc: Seq<NodeModel>, a: Seq<int>, b: Seq<int>, tag: Seq<char>)
    ensures
        tagged_names(doc, a + b, tag) == tagged_names(doc, a, tag) + tagged_names(doc, b, tag),
    decreases b.len(),
{
    if b.len() == 0 {
        assert(a + b =~= a);
        assert(tagged_names(doc, a, tag) + tagged_names(doc, b, tag) =~= tagged_names(doc, a, tag));
    } else {
        lemma_tagged_names_add(doc, a, b.drop_last(), tag);
        assert((a + b).drop_last() =~= a + b.drop_last());
        assert((a + b).last() == b.last());
        let x = tagged_names(doc, a, tag);
        let y = tagged_names(doc, b.drop_last(), tag);
        let k = b.last();
        if 0 <= k < doc.len() && doc[k].tag == tag {
            assert(x + y.push(or_empty(attr(doc[k], "name"@))) =~= (x + y).push(or_empty(attr(doc[k], "name"@))));
        }
    }
}

// ---------------------------------------------------------------------------
// Extensions
// ---------------------------------------------------------------------------

/// Adds the value of `node`, an enum element of extension `extension_name`
/// (number `extnumber`), to the enum it extends.
fn parse_extension_enum_with_number(
    doc: &XmlDocument,
    node: usize,
    extnumber: i64,
    extension_name: &str,
    enums: &mut IndexMap<String, VkEnum>,
)
    requires
        node < doc@.len(),
        numbered_enum_fits(enum_map_entries(*old(enums)), doc@[node as int], extnumber),
    ensures
        enum_map_entries(*final(enums)) == numbered_enum_effect(
            enum_map_entries(*old(enums)),
            doc@[node as int],
            extnumber,
            extension_name@,
        ),
{
    let name = match doc.attribute(node, "name") {
        Some(n) => n,
        None => "",
    };
    proof {
        reveal_strlit("");
    }
    let extends = match doc.attribute(node, "extends") {
        Some(e) => e,
        None => return ,
    };
    let mut en = match enum_map_get(enums, extends) {
        Some(e) => copy_enum(e),
        None => return ,
    };
    let value: i64 = if let Some(val) = doc.attribute(node, "value") {
        let t = trim_exec(&chars_of(val));
        let ts = string_of(&t, 0, t.len());
        assert(ts@ =~= t@);
        match parse_i64(ts.as_str(), 10) {
            Some(v) => v,
            None => 0,
        }
    } else if let Some(bitpos) = doc.attribute(node, "bitpos") {
        let k: u32 = match parse_u32(bitpos) {
            Some(k) => k,
            None => 0,
        };
        bit_at(k)
    } else if let Some(offset) = doc.attribute(node, "offset") {
        let offset = parse_i64_or(Some(offset), 0);
        let ext_nr = parse_i64_or(doc.attribute(node, "extnumber"), extnumber);
        let base = 1_000_000_000 + (ext_nr - 1) * 1000 + offset;
        if str_opt_eq(doc.attribute(node, "dir"), "-") {
            -base
        } else {
            base
        }
    } else {
        return ;
    };
    assert(numbered_value_spec(doc@[node as int], extnumber) == Some(value));
    let ghost before = en@;
    en.values.push(
        VkEnumValue {
            name: name.to_string(),
            value,
            comment: opt_string(doc.attribute(node, "comment")),
            extension: Some(extension_name.to_string()),
        },
    );
    assert(en@.values =~= before.values.push(en@.values.last()));
    let ghost nv = EnumValueModel {
        name: or_empty(attr(doc@[node as int], "name"@)),
        value,
        comment: attr(doc@[node as int], "comment"@),
        extension: Some(extension_name@),
    };
    assert(en@.values.last().name == nv.name);
    assert(en@.values.last().value == nv.value);
    assert(en@.values.last().comment == nv.comment);
    assert(en@.values.last().extension == nv.extension);
    assert(en@.values.last() == nv);
    assert(en@ == EnumModel { values: before.values.push(nv), ..before });
    let key = extends.to_string();
    enum_map_insert(enums, key, en);
}

/// Whether element `k` is an `<enum>` whose name ends in `_SPEC_VERSION`.
pub open spec fn is_spec_version_enum(doc: Seq<NodeModel>, k: int) -> bool {
    &&& 0 <= k < doc.len()
    &&& has_tag(doc[k], "enum"@)
    &&& match attr(doc[k], "name"@) {
        Some(n) => "_SPEC_VERSION"@.is_suffix_of(n),
        None => false,
    }
}

/// The first such element among `kids`.
pub open spec fn first_spec_version_enum(doc: Seq<NodeModel>, kids: Seq<int>) -> Option<int>
    decreases kids.len(),
{
    if kids.len() == 0 {
        None
    } else if is_spec_version_enum(doc, kids[0]) {
        Some(kids[0])
    } else {
        first_spec_version_enum(doc, kids.drop_first())
    }
}

/// The spec version the `<require>` blocks among `kids` give: each block
/// whose first spec-version enum has a `value` sets it (0 when that does
/// not parse as a `u32`); 0 when none does.
pub open spec fn spec_version_from(doc: Seq<NodeModel>, kids: Seq<int>) -> u32
    decreases kids.len(),
{
    if kids.len() == 0 {
        0
    } else {
        let p = spec_version_from(doc, kids.drop_last());
        let k = kids.last();
        if 0 <= k < doc.len() && has_tag(doc[k], "require"@) {
            match first_spec_version_enum(doc, children_of(doc, k)) {
                Some(c) => match attr(doc[c], "value"@) {
                    Some(v) => match parse_unsigned(v, 10, 0xffff_ffff) {
                        Some(x) => x as u32,
                        None => 0,
                    },
                    None => p,
                },
                None => p,
            }
        } else {
            p
        }
    }
}

/// The block a `<require>` element of an extension describes.
pub open spec fn require_block_spec(doc: Seq<NodeModel>, k: int) -> RequireBlockModel {
    let its = elements_of(doc, children_of(doc, k));
    RequireBlockModel {
        feature_guard: attr(doc[k], "feature"@),
        types: tagged_names(doc, its, "type"@),
        commands: tagged_names(doc, its, "command"@),
    }
}

/// The blocks of the `<require>` elements among `kids`, in order.
pub open spec fn require_blocks_from(doc: Seq<NodeModel>, kids: Seq<int>) -> Seq<RequireBlockModel>
    decreases kids.len(),
{
    if kids.len() == 0 {
        Seq::empty()
    } else {
        let p = require_blocks_from(doc, kids.drop_last());
        let k = kids.last();
        if 0 <= k < doc.len() && has_tag(doc[k], "require"@) {
            p.push(require_block_spec(doc, k))
        } else {
            p
        }
    }
}

/// The commands after those named in `names` are marked as coming from
/// extension `ext`; unknown names are skipped.
pub open spec fn set_extensions(
    c: Seq<(Seq<char>, CommandModel)>,
    names: Seq<Seq<char>>,
    ext: Seq<char>,
) -> Seq<(Seq<char>, CommandModel)>
    decreases names.len(),
{
    if names.len() == 0 {
        c
    } else {
        let p = set_extensions(c, names.drop_last(), ext);
        match entries_get(p, names.last()) {
            Some(cmd) => entries_insert(p, names.last(), CommandModel { extension: Some(ext), ..cmd }),
            None => p,
        }
    }
}

/// What reading an extension does to the commands: a command one of its
/// blocks names is marked as coming from the extension, every other
/// command is as it was, and no command is added.
pub proof fn set_extensions_marks(
    c: Seq<(Seq<char>, CommandModel)>,
    names: Seq<Seq<char>>,
    ext: Seq<char>,
    name: Seq<char>,
)
    ensures
        entries_get(set_extensions(c, names, ext), name) == match entries_get(c, name) {
            Some(cmd) => Some(
                if names.contains(name) {
                    CommandModel { extension: Some(ext), ..cmd }
                } else {
                    cmd
                },
            ),
            None => None,
        },
    decreases names.len(),
{
    if names.len() > 0 {
        let p = set_extensions(c, names.drop_last(), ext);
        set_extensions_marks(c, names.drop_last(), ext, name);
        assert(names.contains(name) <==> (names.drop_last().contains(name) || names.last() == name)) by {
            if names.contains(name) {
                let k = choose|k: int| 0 <= k < names.len() && names[k] == name;
                if k < names.len() - 1 {
                    assert(names.drop_last()[k] == name);
                }
            }
            if names.drop_last().contains(name) {
                let k = choose|k: int| 0 <= k < names.drop_last().len() && names.drop_last()[k] == name;
                assert(names[k] == name);
            }
            if names.last() == name {
                assert(names[names.len() - 1] == name);
            }
        }
        match entries_get(p, names.last()) {
            Some(cmd) => {
                insert_then_get(p, names.last(), CommandModel { extension: Some(ext), ..cmd }, name);
            },
            None => {},
        }
    } else {
        assert(!names.contains(name));
    }
}

/// The `number` of an extension; 1 when missing or not an `i64`.
pub open spec fn extension_number(n: NodeModel) -> i64 {
    match attr(n, "number"@) {
        Some(s) => opt_i64(parse_i64_spec(s, 10), 1),
        None => 1,
    }
}

/// The extension an `<extension>` element describes.
pub open spec fn extension_spec(doc: Seq<NodeModel>, node: int) -> ExtensionModel {
    let n = doc[node];
    let kids = children_of(doc, node);
    ExtensionModel {
        name: or_empty(attr(n, "name"@)),
        number: extension_number(n),
        spec_version: spec_version_from(doc, kids),
        requires: match attr(n, "requires"@) {
            Some(r) => split_char(r, ','),
            None => Seq::empty(),
        },
        require_blocks: require_blocks_from(doc, kids),
        deprecated_by: attr(n, "deprecatedby"@),
        disabled: attr(n, "supported"@) == Some("disabled"@),
        typ: or_empty(attr(n, "type"@)),
    }
}

/// The first `<enum>` child of `req` whose name ends in `_SPEC_VERSION`.
fn find_spec_version_enum(doc: &XmlDocument, req: usize) -> (r: Option<usize>)
    requires
        req < doc@.len(),
    ensures
        match r {
            Some(c) => c < doc@.len() && first_spec_version_enum(doc@, children_of(doc@, req as int)) == Some(
                c as int,
            ),
            None => first_spec_version_enum(doc@, children_of(doc@, req as int)) is None,
        },
{
    let kids = doc.children(req);
    let ghost ks = children_of(doc@, req as int);
    let suffix = chars_of("_SPEC_VERSION");
    let mut j: usize = 0;
    assert(ks.skip(0) =~= ks);
    while j < kids.len()
        invariant
            j <= kids.len(),
            ks == children_of(doc@, req as int),
            kids@.map_values(|x: usize| x as int) == ks,
            forall|m: int| 0 <= m < kids@.len() ==> (#[trigger] kids@[m]) < doc@.len(),
            suffix@ == "_SPEC_VERSION"@,
            first_spec_version_enum(doc@, ks) == first_spec_version_enum(doc@, ks.skip(j as int)),
        decreases kids.len() - j,
    {
        let child = kids[j];
        assert(ks[j as int] == child as int);
        assert(ks.skip(j as int)[0] == child as int);
        assert(ks.skip(j as int).drop_first() =~= ks.skip(j + 1));
        if doc.has_tag_name(child, "enum") {
            if let Some(n) = doc.attribute(child, "name") {
                if ends_with(&chars_of(n), &suffix) {
                    return Some(child);
                }
            }
        }
        j += 1;
    }
    assert(ks.skip(j as int) =~= Seq::<int>::empty());
    None
}

/// Reads a `<require>` block of extension `ext_name` (number `number`):
/// returns its guard, types and commands; marks its commands as the
/// extension's and adds its enum values.
fn read_extension_require(
    doc: &XmlDocument,
    req: usize,
    number: i64,
    ext_name: &str,
    commands: &mut IndexMap<String, VkCommand>,
    enums: &mut IndexMap<String, VkEnum>,
    Ghost(e0): Ghost<Seq<(Seq<char>, EnumModel)>>,
    Ghost(done): Ghost<Seq<int>>,
) -> (r: RequireBlock)
    requires
        req < doc@.len(),
        enum_map_entries(*old(enums)) == require_enum_effects(doc@, done, e0, Some((number, ext_name@))),
        require_enum_fits(
            doc@,
            done + elements_of(doc@, children_of(doc@, req as int)),
            e0,
            Some((number, ext_name@)),
        ),
    ensures
        r@ == require_block_spec(doc@, req as int),
        command_map_entries(*final(commands)) == set_extensions(
            command_map_entries(*old(commands)),
            tagged_names(doc@, elements_of(doc@, children_of(doc@, req as int)), "command"@),
            ext_name@,
        ),
        enum_map_entries(*final(enums)) == require_enum_effects(
            doc@,
            done + elements_of(doc@, children_of(doc@, req as int)),
            e0,
            Some((number, ext_name@)),
        ),
{
    let ghost numbered = Some((number, ext_name@));
    let ghost c0 = command_map_entries(*commands);
    let mut block = RequireBlock {
        feature_guard: opt_string(doc.attribute(req, "feature")),
        types: Vec::new(),
        commands: Vec::new(),
    };
    let kids = doc.children(req);
    let ghost ks = children_of(doc@, req as int);
    let mut j: usize = 0;
    assert(ks.take(0) =~= Seq::<int>::empty());
    assert(done + elements_of(doc@, ks.take(0)) =~= done);
    assert(strings_view(block.types@) =~= tagged_names(doc@, elements_of(doc@, ks.take(0)), "type"@));
    assert(strings_view(block.commands@) =~= tagged_names(doc@, elements_of(doc@, ks.take(0)), "command"@));
    while j < kids.len()
        invariant
            j <= kids.len(),
            req < doc@.len(),
            numbered == Some((number, ext_name@)),
            ks == children_of(doc@, req as int),
            kids@.map_values(|x: usize| x as int) == ks,
            forall|m: int| 0 <= m < kids@.len() ==> (#[trigger] kids@[m]) < doc@.len(),
            require_enum_fits(doc@, done + elements_of(doc@, ks), e0, numbered),
            opt_view(block.feature_guard) == attr(doc@[req as int], "feature"@),
            strings_view(block.types@) == tagged_names(doc@, elements_of(doc@, ks.take(j as int)), "type"@),
            strings_view(block.commands@) == tagged_names(doc@, elements_of(doc@, ks.take(j as int)), "command"@),
            command_map_entries(*commands) == set_extensions(
                c0,
                tagged_names(doc@, elements_of(doc@, ks.take(j as int)), "command"@),
                ext_name@,
            ),
            enum_map_entries(*enums) == require_enum_effects(
                doc@,
                done + elements_of(doc@, ks.take(j as int)),
                e0,
                numbered,
            ),
        decreases kids.len() - j,
    {
        let child = kids[j];
        assert(ks[j as int] == child as int);
        assert(ks.take(j + 1).drop_last() =~= ks.take(j as int));
        let ghost prev = elements_of(doc@, ks.take(j as int));
        if doc.is_element(child) {
            let ghost now = elements_of(doc@, ks.take(j + 1));
            assert(now == prev.push(child as int));
            assert(now.drop_last() =~= prev);
            assert((done + now).drop_last() =~= done + prev);
            proof {
                lemma_fits_prefix(doc@, done + elements_of(doc@, ks), e0, numbered, j as int, ks, done);
            }
            let tag = doc.tag_name(child);
            let name = match doc.attribute(child, "name") {
                Some(n) => n,
                None => "",
            };
            proof {
                reveal_strlit("");
                reveal_strlit("type");
                reveal_strlit("command");
                reveal_strlit("enum");
                assert((done + now).last() == child as int);
                assert("type"@[0] != "enum"@[0]);
                assert("type"@.len() != "command"@.len());
                assert("command"@.len() != "enum"@.len());
            }
            let ghost ty0 = tagged_names(doc@, prev, "type"@);
            let ghost cm0 = tagged_names(doc@, prev, "command"@);
            assert(name@ == or_empty(attr(doc@[child as int], "name"@)));
            assert(now.last() == child as int);
            assert(tagged_names(doc@, now, "type"@) == if doc@[child as int].tag == "type"@ {
                ty0.push(name@)
            } else {
                ty0
            });
            assert(tagged_names(doc@, now, "command"@) == if doc@[child as int].tag == "command"@ {
                cm0.push(name@)
            } else {
                cm0
            });
            if str_eq(tag, "type") {
                block.types.push(name.to_string());
                assert(strings_view(block.types@) =~= ty0.push(name@));
            } else if str_eq(tag, "command") {
                assert(cm0.push(name@).drop_last() =~= cm0);
                let found = match command_map_get(commands, name) {
                    Some(cmd) => Some(copy_command(cmd)),
                    None => None,
                };
                if let Some(mut cmd) = found {
                    cmd.extension = Some(ext_name.to_string());
                    command_map_insert(commands, name.to_string(), cmd);
                }
                block.commands.push(name.to_string());
                assert(strings_view(block.commands@) =~= cm0.push(name@));
            } else if str_eq(tag, "enum") {
                parse_extension_enum_with_number(doc, child, number, ext_name, enums);
            }
        } else {
            assert(ks.take(j + 1).last() == child as int);
            assert(elements_of(doc@, ks.take(j + 1)) == prev);
        }
        j += 1;
    }
    assert(ks.take(j as int) =~= ks);
    block
}

/// Reads an `<extension>` element: its attributes and spec version are
/// recorded with its `<require>` blocks, its commands marked as its own,
/// its enum values added, and the extension appended to the registry.
pub fn parse_extension(doc: &XmlDocument, node: usize, registry: &mut Registry)
    requires
        node < doc@.len(),
        require_enum_fits(
            doc@,
            items_from(doc@, children_of(doc@, node as int)),
            enum_map_entries(old(registry).enums),
            Some((extension_number(doc@[node as int]), or_empty(attr(doc@[node as int], "name"@)))),
        ),
    ensures
        final(registry).extensions@.map_values(|x: Extension| x@) == old(registry).extensions@.map_values(
            |x: Extension| x@,
        ).push(extension_spec(doc@, node as int)),
        enum_map_entries(final(registry).enums) == require_enum_effects(
            doc@,
            items_from(doc@, children_of(doc@, node as int)),
            enum_map_entries(old(registry).enums),
            Some((extension_number(doc@[node as int]), or_empty(attr(doc@[node as int], "name"@)))),
        ),
        command_map_entries(final(registry).commands) == set_extensions(
            command_map_entries(old(registry).commands),
            tagged_names(doc@, items_from(doc@, children_of(doc@, node as int)), "command"@),
            or_empty(attr(doc@[node as int], "name"@)),
        ),
        final(registry).types == old(registry).types,
        final(registry).constants == old(registry).constants,
        final(registry).features == old(registry).features,
        final(registry).stypes == old(registry).stypes,
{
    let name = match doc.attribute(node, "name") {
        Some(n) => n.to_string(),
        None => String::new(),
    };
    let number: i64 = parse_i64_or(doc.attribute(node, "number"), 1);
    let deprecated_by = opt_string(doc.attribute(node, "deprecatedby"));
    let typ = match doc.attribute(node, "type") {
        Some(t) => t.to_string(),
        None => String::new(),
    };
    let ghost numbered = Some((number, name@));
    let ghost e0 = enum_map_entries(registry.enums);
    let ghost c0 = command_map_entries(registry.commands);
    let ghost all = items_from(doc@, children_of(doc@, node as int));
    let kids = doc.children(node);
    let ghost ks = children_of(doc@, node as int);

    let mut spec_version: u32 = 0;
    let mut i: usize = 0;
    assert(ks.take(0) =~= Seq::<int>::empty());
    while i < kids.len()
        invariant
            i <= kids.len(),
            node < doc@.len(),
            ks == children_of(doc@, node as int),
            kids@.map_values(|x: usize| x as int) == ks,
            forall|m: int| 0 <= m < kids@.len() ==> (#[trigger] kids@[m]) < doc@.len(),
            spec_version == spec_version_from(doc@, ks.take(i as int)),
        decreases kids.len() - i,
    {
        let child = kids[i];
        assert(ks[i as int] == child as int);
        assert(ks.take(i + 1).drop_last() =~= ks.take(i as int));
        if doc.has_tag_name(child, "require") {
            if let Some(c) = find_spec_version_enum(doc, child) {
                if let Some(val) = doc.attribute(c, "value") {
                    spec_version = match parse_u32(val) {
                        Some(v) => v,
                        None => 0,
                    };
                }
            }
        }
        i += 1;
    }
    assert(ks.take(i as int) =~= ks);

    let required = match doc.attribute(node, "requires") {
        Some(r) => split_char_exec(r, ','),
        None => Vec::new(),
    };
    let mut ext = Extension {
        name: name.clone(),
        number,
        spec_version,
        requires: required,
        require_blocks: Vec::new(),
        deprecated_by,
        disabled: str_opt_eq(doc.attribute(node, "supported"), "disabled"),
        typ,
    };
    assert(strings_view(ext.requires@) =~= match attr(doc@[node as int], "requires"@) {
        Some(r) => split_char(r, ','),
        None => Seq::empty(),
    });

    let mut i: usize = 0;
    assert(ext.require_blocks@.map_values(|b: RequireBlock| b@) =~= require_blocks_from(doc@, ks.take(0)));
    assert(tagged_names(doc@, items_from(doc@, ks.take(0)), "command"@) =~= Seq::<Seq<char>>::empty());
    while i < kids.len()
        invariant
            i <= kids.len(),
            node < doc@.len(),
            numbered == Some((number, name@)),
            ks == children_of(doc@, node as int),
            all == items_from(doc@, ks),
            kids@.map_values(|x: usize| x as int) == ks,
            forall|m: int| 0 <= m < kids@.len() ==> (#[trigger] kids@[m]) < doc@.len(),
            require_enum_fits(doc@, all, e0, numbered),
            ext@.name == name@,
            ext.number == number,
            number == extension_number(doc@[node as int]),
            name@ == or_empty(attr(doc@[node as int], "name"@)),
            ext@.spec_version == spec_version_from(doc@, ks),
            ext@.requires == match attr(doc@[node as int], "requires"@) {
                Some(r) => split_char(r, ','),
                None => Seq::empty(),
            },
            ext@.deprecated_by == attr(doc@[node as int], "deprecatedby"@),
            ext@.disabled == (attr(doc@[node as int], "supported"@) == Some("disabled"@)),
            ext@.typ == or_empty(attr(doc@[node as int], "type"@)),
            ext@.require_blocks == require_blocks_from(doc@, ks.take(i as int)),
            enum_map_entries(registry.enums) == require_enum_effects(doc@, items_from(doc@, ks.take(i as int)), e0, numbered),
            command_map_entries(registry.commands) == set_extensions(
                c0,
                tagged_names(doc@, items_from(doc@, ks.take(i as int)), "command"@),
                name@,
            ),
            registry.types == old(registry).types,
            registry.constants == old(registry).constants,
            registry.extensions == old(registry).extensions,
            registry.features == old(registry).features,
            registry.stypes == old(registry).stypes,
        decreases kids.len() - i,
    {
        let child = kids[i];
        assert(ks[i as int] == child as int);
        assert(ks.take(i + 1).drop_last() =~= ks.take(i as int));
        if doc.has_tag_name(child, "require") {
            let ghost d = items_from(doc@, ks.take(i as int));
            let ghost b = elements_of(doc@, children_of(doc@, child as int));
            proof {
                lemma_items_prefix(doc@, ks, i + 1);
                assert(items_from(doc@, ks.take(i + 1)) == d + b);
                lemma_fits_take(doc@, all, e0, numbered, items_from(doc@, ks.take(i + 1)).len() as int);
                assert(all.take(items_from(doc@, ks.take(i + 1)).len() as int) =~= items_from(doc@, ks.take(i + 1)));
            }
            let ghost blocks0 = ext.require_blocks@.map_values(|x: RequireBlock| x@);
            let block = read_extension_require(
                doc,
                child,
                number,
                name.as_str(),
                &mut registry.commands,
                &mut registry.enums,
                Ghost(e0),
                Ghost(d),
            );
            ext.require_blocks.push(block);
            assert(ext.require_blocks@.map_values(|x: RequireBlock| x@) =~= blocks0.push(
                require_block_spec(doc@, child as int),
            ));
            proof {
                lemma_tagged_names_add(doc@, d, b, "command"@);
                lemma_set_extensions_add(c0, tagged_names(doc@, d, "command"@), tagged_names(doc@, b, "command"@), name@);
            }
        }
        i += 1;
    }
    assert(ks.take(i as int) =~= ks);
    assert(ext@ == extension_spec(doc@, node as int));
    registry.extensions.push(ext);
    assert(registry.extensions@.map_values(|x: Extension| x@) =~= old(registry).extensions@.map_values(
        |x: Extension| x@,
    ).push(extension_spec(doc@, node as int)));
}

/// Marking two runs of names is marking their concatenation.
proof fn lemma_set_extensions_add(
    c: Seq<(Seq<char>, CommandModel)>,
    a: Seq<Seq<char>>,
    b: Seq<Seq<char>>,
    ext: Seq<char>,
)
    ensures
        set_extensions(set_extensions(c, a, ext), b, ext) == set_extensions(c, a + b, ext),
    decreases b.len(),
{
    if b.len() == 0 {
        assert(a + b =~= a);
    } else {
        lemma_set_extensions_add(c, a, b.drop_last(), ext);
        assert((a + b).drop_last() =~= a + b.drop_last());
        assert((a + b).last() == b.last());
    }
}

// ---------------------------------------------------------------------------
// Video extensions
// ---------------------------------------------------------------------------

/// The value spelling of a video constant: a hexadecimal literal is
/// rewritten as `0x` and its upper-case digits (0 when they do not parse
/// as a `u64`); any other value is kept.
pub open spec fn video_value_spec(v: Seq<char>) -> Seq<char> {
    if "0x"@.is_prefix_of(v) || "0X"@.is_prefix_of(v) {
        "0x"@ + radix_digits(
            match parse_unsigned(v.skip(2), 16, 0xffff_ffff_ffff_ffff) {
                Some(x) => x,
                None => 0,
            },
            16,
        )
    } else {
        v
    }
}

/// The constant an `<enum>` of a video extension defines, when it has a
/// name, a value and a type.
pub open spec fn video_constant_spec(n: NodeModel) -> Option<ConstantModel> {
    match (attr(n, "name"@), attr(n, "value"@), attr(n, "type"@)) {
        (Some(name), Some(value), Some(ty)) => Some(
            ConstantModel {
                name: const_name_spec(name),
                ty: c_to_rust_spec(ty),
                value: video_value_spec(value),
                comment: attr(n, "comment"@),
            },
        ),
        _ => None,
    }
}

/// The constants of the `<enum>` elements among `kids`, in order.
pub open spec fn video_require_constants(doc: Seq<NodeModel>, kids: Seq<int>) -> Seq<ConstantModel>
    decreases kids.len(),
{
    if kids.len() == 0 {
        Seq::empty()
    } else {
        let p = video_require_constants(doc, kids.drop_last());
        let k = kids.last();
        if 0 <= k < doc.len() && has_tag(doc[k], "enum"@) {
            match video_constant_spec(doc[k]) {
                Some(c) => p.push(c),
                None => p,
            }
        } else {
            p
        }
    }
}

/// The constants of the `<require>` blocks among `kids`, in order.
pub open spec fn video_extension_constants(doc: Seq<NodeModel>, kids: Seq<int>) -> Seq<ConstantModel>
    decreases kids.len(),
{
    if kids.len() == 0 {
        Seq::empty()
    } else {
        let p = video_extension_constants(doc, kids.drop_last());
        let k = kids.last();
        if 0 <= k < doc.len() && has_tag(doc[k], "require"@) {
            p + video_require_constants(doc, children_of(doc, k))
        } else {
            p
        }
    }
}

/// The constants of the supported `<extension>` elements among `kids`, in order.
pub open spec fn video_constants_from(doc: Seq<NodeModel>, kids: Seq<int>) -> Seq<ConstantModel>
    decreases kids.len(),
{
    if kids.len() == 0 {
        Seq::empty()
    } else {
        let p = video_constants_from(doc, kids.drop_last());
        let k = kids.last();
        if 0 <= k < doc.len() && has_tag(doc[k], "extension"@) && attr(doc[k], "supported"@) != Some(
            "disabled"@,
        ) {
            p + video_extension_constants(doc, children_of(doc, k))
        } else {
            p
        }
    }
}

/// The value spelling of a video constant.
fn video_value(value: &str) -> (r: String)
    ensures
        r@ == video_value_spec(value@),
{
    let v = chars_of(value);
    if starts_with(&v, &chars_of("0x")) || starts_with(&v, &chars_of("0X")) {
        proof {
            reveal_strlit("0x");
            reveal_strlit("0X");
        }
        let digits = string_of(&v, 2, v.len());
        assert(digits@ =~= value@.skip(2));
        let n: u64 = match parse_u64_hex(digits.as_str()) {
            Some(x) => x,
            None => 0,
        };
        let hex = radix_digits_exec(n, 16);
        let mut r = String::new();
        push_str(&mut r, "0x");
        push_str(&mut r, hex.as_str());
        r
    } else {
        value.to_string()
    }
}

/// Appends the constants of the `<enum>` children of `req`.
fn read_video_require(doc: &XmlDocument, req: usize, constants: &mut Vec<VkConstant>)
    requires
        req < doc@.len(),
    ensures
        final(constants)@.map_values(|c: VkConstant| c@) == old(constants)@.map_values(|c: VkConstant| c@)
            + video_require_constants(doc@, children_of(doc@, req as int)),
{
    let ghost c0 = constants@.map_values(|c: VkConstant| c@);
    let kids = doc.children(req);
    let ghost ks = children_of(doc@, req as int);
    let mut j: usize = 0;
    assert(ks.take(0) =~= Seq::<int>::empty());
    assert(c0 + video_require_constants(doc@, ks.take(0)) =~= c0);
    while j < kids.len()
        invariant
            j <= kids.len(),
            ks == children_of(doc@, req as int),
            kids@.map_values(|x: usize| x as int) == ks,
            forall|m: int| 0 <= m < kids@.len() ==> (#[trigger] kids@[m]) < doc@.len(),
            constants@.map_values(|c: VkConstant| c@) == c0 + video_require_constants(doc@, ks.take(j as int)),
        decreases kids.len() - j,
    {
        let child = kids[j];
        assert(ks[j as int] == child as int);
        assert(ks.take(j + 1).drop_last() =~= ks.take(j as int));
        assert(ks.take(j + 1).last() == child as int);
        if doc.has_tag_name(child, "enum") {
            let name = doc.attribute(child, "name");
            let value = doc.attribute(child, "value");
            let ty = doc.attribute(child, "type");
            if let (Some(name), Some(value), Some(ty)) = (name, value, ty) {
                let ghost before = constants@.map_values(|c: VkConstant| c@);
                let c = VkConstant {
                    name: const_name(name).to_string(),
                    ty: c_to_rust(ty).to_string(),
                    value: video_value(value),
                    comment: opt_string(doc.attribute(child, "comment")),
                };
                assert(Some(c@) == video_constant_spec(doc@[child as int]));
                constants.push(c);
                assert(constants@.map_values(|c: VkConstant| c@) =~= before.push(c@));
            }
        }
        j += 1;
    }
    assert(ks.take(j as int) =~= ks);
}

/// Appends the constants of the `<require>` blocks of `ext`.
fn read_video_extension(doc: &XmlDocument, ext: usize, constants: &mut Vec<VkConstant>)
    requires
        ext < doc@.len(),
    ensures
        final(constants)@.map_values(|c: VkConstant| c@) == old(constants)@.map_values(|c: VkConstant| c@)
            + video_extension_constants(doc@, children_of(doc@, ext as int)),
{
    let ghost c0 = constants@.map_values(|c: VkConstant| c@);
    let kids = doc.children(ext);
    let ghost ks = children_of(doc@, ext as int);
    let mut j: usize = 0;
    assert(ks.take(0) =~= Seq::<int>::empty());
    assert(c0 + video_extension_constants(doc@, ks.take(0)) =~= c0);
    while j < kids.len()
        invariant
            j <= kids.len(),
            ks == children_of(doc@, ext as int),
            kids@.map_values(|x: usize| x as int) == ks,
            forall|m: int| 0 <= m < kids@.len() ==> (#[trigger] kids@[m]) < doc@.len(),
            constants@.map_values(|c: VkConstant| c@) == c0 + video_extension_constants(doc@, ks.take(j as int)),
        decreases kids.len() - j,
    {
        let child = kids[j];
        assert(ks[j as int] == child as int);
        assert(ks.take(j + 1).drop_last() =~= ks.take(j as int));
        assert(ks.take(j + 1).last() == child as int);
        if doc.has_tag_name(child, "require") {
            let ghost p = video_extension_constants(doc@, ks.take(j as int));
            read_video_require(doc, child, constants);
            assert(c0 + p + video_require_constants(doc@, children_of(doc@, child as int)) =~= c0 + (p
                + video_require_constants(doc@, children_of(doc@, child as int))));
        }
        j += 1;
    }
    assert(ks.take(j as int) =~= ks);
}

/// Reads the `<extensions>` element of the video registry: every `<enum>`
/// with a name, a value and a type in a `<require>` block of a supported
/// extension becomes a constant, appended in document order.
pub fn parse_video_extensions(doc: &XmlDocument, node: usize, reg: &mut Registry)
    requires
        node < doc@.len(),
    ensures
        final(reg).constants@.map_values(|c: VkConstant| c@) == old(reg).constants@.map_values(|c: VkConstant| c@)
            + video_constants_from(doc@, children_of(doc@, node as int)),
        final(reg).types == old(reg).types,
        final(reg).enums == old(reg).enums,
        final(reg).commands == old(reg).commands,
        final(reg).extensions == old(reg).extensions,
        final(reg).features == old(reg).features,
        final(reg).stypes == old(reg).stypes,
{
    let ghost c0 = reg.constants@.map_values(|c: VkConstant| c@);
    let kids = doc.children(node);
    let ghost ks = children_of(doc@, node as int);
    let mut j: usize = 0;
    assert(ks.take(0) =~= Seq::<int>::empty());
    assert(c0 + video_constants_from(doc@, ks.take(0)) =~= c0);
    while j < kids.len()
        invariant
            j <= kids.len(),
            ks == children_of(doc@, node as int),
            kids@.map_values(|x: usize| x as int) == ks,
            forall|m: int| 0 <= m < kids@.len() ==> (#[trigger] kids@[m]) < doc@.len(),
            reg.constants@.map_values(|c: VkConstant| c@) == c0 + video_constants_from(doc@, ks.take(j as int)),
            reg.types == old(reg).types,
            reg.enums == old(reg).enums,
            reg.commands == old(reg).commands,
            reg.extensions == old(reg).extensions,
            reg.features == old(reg).features,
            reg.stypes == old(reg).stypes,
        decreases kids.len() - j,
    {
        let child = kids[j];
        assert(ks[j as int] == child as int);
        assert(ks.take(j + 1).drop_last() =~= ks.take(j as int));
        assert(ks.take(j + 1).last() == child as int);
        if doc.has_tag_name(child, "extension") && !str_opt_eq(doc.attribute(child, "supported"), "disabled") {
            let ghost p = video_constants_from(doc@, ks.take(j as int));
            read_video_extension(doc, child, &mut reg.constants);
            assert(c0 + p + video_extension_constants(doc@, children_of(doc@, child as int)) =~= c0 + (p
                + video_extension_constants(doc@, children_of(doc@, child as int))));
        }
        j += 1;
    }
    assert(ks.take(j as int) =~= ks);
}

} // verus!
