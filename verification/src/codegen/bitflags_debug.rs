//! `Display` and `Debug` impls for the bitflag types.
use crate::codegen::{Writer, file_header, file_header_lines, render_lines, rust_name, rust_name_spec};
use crate::codegen::bitflags::{binary_literal_spec, bitflag_value_lines, bitflags_type_lines, const_names, covered_at, distinct_consts, first_indices, first_indices_dedup, refpage_line, value_const_name_spec};
use crate::parse::registry::{EnumModel, Registry, TypeKind, TypeKindModel, TypeModel, VkEnum};
use crate::parse::tables::{entries_get, enum_map_entries, enum_map_get, type_map_entries, type_map_get_index, type_map_len};
use crate::text::{contains, push_str};
use vstd::prelude::*;

verus! {

broadcast use vstd::string::group_string_axioms;

/// The entry of the `BITS` table for constant `cn` of struct `sn`.
pub open spec fn bits_entry_line(sn: Seq<char>, cn: Seq<char>) -> Seq<char> {
    "            ("@ + sn + "::"@ + cn + ", \""@ + cn + "\"),"@
}

/// The `BITS` table lines of the values at `idx`.
pub open spec fn bits_entries_lines(en: EnumModel, idx: Seq<int>) -> Seq<Seq<char>>
    decreases idx.len(),
{
    if idx.len() == 0 {
        Seq::empty()
    } else {
        bits_entries_lines(en, idx.drop_last()) + seq![
            bits_entry_line(rust_name_spec(en.name), value_const_name_spec(en.name, en.values[idx.last()].name)),
        ]
    }
}

/// The names of the constants the flags type of `en` declares, in order.
pub open spec fn flag_const_names(en: EnumModel) -> Seq<Seq<char>> {
    first_indices(en.name, en.values).map_values(|i: int| value_const_name_spec(en.name, en.values[i].name))
}

proof fn lemma_bits_entries_map(en: EnumModel, idx: Seq<int>)
    ensures
        bits_entries_lines(en, idx) == idx.map_values(
            |i: int| bits_entry_line(rust_name_spec(en.name), value_const_name_spec(en.name, en.values[i].name)),
        ),
    decreases idx.len(),
{
    if idx.len() > 0 {
        lemma_bits_entries_map(en, idx.drop_last());
        assert(idx.map_values(
            |i: int| bits_entry_line(rust_name_spec(en.name), value_const_name_spec(en.name, en.values[i].name)),
        ) =~= idx.drop_last().map_values(
            |i: int| bits_entry_line(rust_name_spec(en.name), value_const_name_spec(en.name, en.values[i].name)),
        ) + seq![bits_entry_line(rust_name_spec(en.name), value_const_name_spec(en.name, en.values[idx.last()].name))]);
    }
}

/// The `Display` table of a flags type lists exactly its constants, in
/// order: entry `a` of the table names the `a`-th constant the flags type
/// declares (the last line written for that value); no two entries share a
/// name, and every value of the enum has the name of one of them.
pub proof fn display_table_matches_flags(en: EnumModel)
    ensures
        bits_entries_lines(en, first_indices(en.name, en.values)) == flag_const_names(en).map_values(
            |n: Seq<char>| bits_entry_line(rust_name_spec(en.name), n),
        ),
        forall|a: int|
            0 <= a < flag_const_names(en).len() ==> #[trigger] bitflag_value_lines(
                en,
                first_indices(en.name, en.values)[a],
            ).last() == "pub const "@ + flag_const_names(en)[a] + ": Self = Self("@ + binary_literal_spec(
                en.values[first_indices(en.name, en.values)[a]].value as u32,
            ) + ");"@,
        forall|a: int, b: int|
            0 <= a < b < flag_const_names(en).len() ==> #[trigger] flag_const_names(en)[a]
                != #[trigger] flag_const_names(en)[b],
        forall|k: int|
            0 <= k < en.values.len() ==> flag_const_names(en).contains(
                #[trigger] value_const_name_spec(en.name, en.values[k].name),
            ),
{
    let idx = first_indices(en.name, en.values);
    let names = const_names(en.name, en.values);
    first_indices_dedup(en.name, en.values);
    lemma_bits_entries_map(en, idx);
    assert(bits_entries_lines(en, idx) =~= flag_const_names(en).map_values(
        |n: Seq<char>| bits_entry_line(rust_name_spec(en.name), n),
    ));
    assert forall|a: int, b: int| 0 <= a < b < flag_const_names(en).len() implies #[trigger] flag_const_names(
        en,
    )[a] != #[trigger] flag_const_names(en)[b] by {
        assert(names[idx[a]] != names[idx[b]]);
    }
    assert forall|k: int| 0 <= k < en.values.len() implies flag_const_names(en).contains(
        #[trigger] value_const_name_spec(en.name, en.values[k].name),
    ) by {
        assert(covered_at(names, idx, k));
        let a = choose|a: int| 0 <= a < idx.len() && #[trigger] idx[a] <= k && names[k] == names[idx[a]];
        assert(flag_const_names(en)[a] == names[idx[a]]);
        assert(names[k] == value_const_name_spec(en.name, en.values[k].name));
    }
}

/// The body of `fmt` for the flags type of `en`.
pub open spec fn display_body_lines(en: EnumModel) -> Seq<Seq<char>> {
    let sn = rust_name_spec(en.name);
    if en.values.len() == 0 {
        seq!["        f.write_str(\"0\")"@]
    } else {
        seq!["        const BITS: &[("@ + sn + ", &str)] = &["@] + bits_entries_lines(
            en,
            first_indices(en.name, en.values),
        ) + display_loop_lines()
    }
}

/// The loop that prints the set flags.
pub open spec fn display_loop_lines() -> Seq<Seq<char>> {
    seq![
        "        ];"@,
        Seq::empty(),
        "        let mut first = true;"@,
        "        for &(flag, name) in BITS {"@,
        "            if self.contains(flag) {"@,
        "                if !first { f.write_str(\" | \")?; }"@,
        "                f.write_str(name)?;"@,
        "                first = false;"@,
        "            }"@,
        "        }"@,
        "        if first { f.write_str(\"0\")?; }"@,
        "        Ok(())"@,
    ]
}

/// What `fmt` prints for a flags type. With no values it writes `0`. With
/// values it declares the `BITS` table, one entry per constant, and then
/// walks the table in order: an entry's name is written exactly when the
/// value contains that entry's flag, names are joined by ` | `, and `0` is
/// written when no name was.
pub proof fn display_writes_the_set_flags(en: EnumModel)
    ensures
        en.values.len() == 0 ==> display_body_lines(en) == seq!["        f.write_str(\"0\")"@],
        en.values.len() > 0 ==> display_body_lines(en).len() == first_indices(en.name, en.values).len() + 13,
        en.values.len() > 0 ==> display_body_lines(en)[0] == "        const BITS: &[("@ + rust_name_spec(
            en.name,
        ) + ", &str)] = &["@,
        en.values.len() > 0 ==> forall|a: int|
            0 <= a < first_indices(en.name, en.values).len() ==> #[trigger] display_body_lines(en)[a + 1]
                == bits_entry_line(rust_name_spec(en.name), flag_const_names(en)[a]),
        en.values.len() > 0 ==> display_body_lines(en).skip(first_indices(en.name, en.values).len() as int + 1)
            == seq![
            "        ];"@,
            Seq::<char>::empty(),
            "        let mut first = true;"@,
            "        for &(flag, name) in BITS {"@,
            "            if self.contains(flag) {"@,
            "                if !first { f.write_str(\" | \")?; }"@,
            "                f.write_str(name)?;"@,
            "                first = false;"@,
            "            }"@,
            "        }"@,
            "        if first { f.write_str(\"0\")?; }"@,
            "        Ok(())"@,
        ],
{
    let idx = first_indices(en.name, en.values);
    lemma_bits_entries_map(en, idx);
    display_table_matches_flags(en);
    if en.values.len() > 0 {
        let head = seq!["        const BITS: &[("@ + rust_name_spec(en.name) + ", &str)] = &["@];
        let body = display_body_lines(en);
        assert(body == head + bits_entries_lines(en, idx) + display_loop_lines());
        assert(body.skip(idx.len() as int + 1) =~= display_loop_lines());
        assert forall|a: int| 0 <= a < idx.len() implies #[trigger] body[a + 1] == bits_entry_line(
            rust_name_spec(en.name),
            flag_const_names(en)[a],
        ) by {
            assert(body[a + 1] == bits_entries_lines(en, idx)[a]);
            assert(flag_const_names(en).map_values(|n: Seq<char>| bits_entry_line(rust_name_spec(en.name), n))[a]
                == bits_entry_line(rust_name_spec(en.name), flag_const_names(en)[a]));
        }
    }
}

/// The end of the `Display` impl and the `Debug` impl that delegates to it.
pub open spec fn debug_impl_lines(sn: Seq<char>) -> Seq<Seq<char>> {
    seq![
        "    }"@,
        "}"@,
        Seq::empty(),
        "impl Debug for "@ + sn + " {"@,
        "    fn fmt(&self, f: &mut Formatter<'_>) -> Result {"@,
        "        Display::fmt(self, f)"@,
        "    }"@,
        "}"@,
        Seq::empty(),
    ]
}

/// The lines of the `Display` and `Debug` impls of the flags type of `en`:
/// the names of the set flags joined by ` | `, or `0` when none is set.
pub open spec fn display_impl_lines(en: EnumModel) -> Seq<Seq<char>> {
    let sn = rust_name_spec(en.name);
    seq![
        "impl Display for "@ + sn + " {"@,
        "    fn fmt(&self, f: &mut Formatter<'_>) -> Result {"@,
    ] + display_body_lines(en) + debug_impl_lines(sn)
}

fn write_display_loop(w: &mut Writer)
    ensures
        final(w)@ == old(w)@ + display_loop_lines(),
{
    w.ln("        ];");
    w.blank();
    w.ln("        let mut first = true;");
    w.ln("        for &(flag, name) in BITS {");
    w.ln("            if self.contains(flag) {");
    w.ln("                if !first { f.write_str(\" | \")?; }");
    w.ln("                f.write_str(name)?;");
    w.ln("                first = false;");
    w.ln("            }");
    w.ln("        }");
    w.ln("        if first { f.write_str(\"0\")?; }");
    w.ln("        Ok(())");
    assert(w@ =~= old(w)@ + display_loop_lines());
}

fn write_debug_impl(w: &mut Writer, sn: &str)
    ensures
        final(w)@ == old(w)@ + debug_impl_lines(sn@),
{
    w.ln("    }");
    w.ln("}");
    w.blank();
    let mut l = String::new();
    push_str(&mut l, "impl Debug for ");
    push_str(&mut l, sn);
    push_str(&mut l, " {");
    w.ln(l.as_str());
    w.ln("    fn fmt(&self, f: &mut Formatter<'_>) -> Result {");
    w.ln("        Display::fmt(self, f)");
    w.ln("    }");
    w.ln("}");
    w.blank();
    assert(w@ =~= old(w)@ + debug_impl_lines(sn@));
}

fn write_display_body(w: &mut Writer, en: &VkEnum, struct_name: &str)
    requires
        struct_name@ == rust_name_spec(en@.name),
    ensures
        final(w)@ == old(w)@ + display_body_lines(en@),
{
    if en.values.len() == 0 {
        w.ln("        f.write_str(\"0\")");
        assert(w@ =~= old(w)@ + display_body_lines(en@));
        return;
    }
    let variants = distinct_consts(en);
    let ghost idx = first_indices(en@.name, en@.values);
    let mut l = String::new();
    push_str(&mut l, "        const BITS: &[(");
    push_str(&mut l, struct_name);
    push_str(&mut l, ", &str)] = &[");
    w.ln(l.as_str());
    let ghost start = w@;
    let mut k: usize = 0;
    assert(idx.take(0) =~= Seq::<int>::empty());
    assert(w@ =~= start + bits_entries_lines(en@, idx.take(0)));
    while k < variants.len()
        invariant
            k <= variants.len(),
            struct_name@ == rust_name_spec(en@.name),
            variants@.map_values(|p: (usize, String)| p.0 as int) == idx,
            forall|m: int|
                0 <= m < variants@.len() ==> (#[trigger] variants@[m]).0 < en.values@.len()
                    && variants@[m].1@ == value_const_name_spec(en@.name, en@.values[variants@[m].0 as int].name),
            w@ == start + bits_entries_lines(en@, idx.take(k as int)),
        decreases variants.len() - k,
    {
        let cn = variants[k].1.as_str();
        assert(idx[k as int] == variants@[k as int].0 as int);
        let mut l = String::new();
        push_str(&mut l, "            (");
        push_str(&mut l, struct_name);
        push_str(&mut l, "::");
        push_str(&mut l, cn);
        push_str(&mut l, ", \"");
        push_str(&mut l, cn);
        push_str(&mut l, "\"),");
        w.ln(l.as_str());
        assert(idx.take(k + 1).drop_last() =~= idx.take(k as int));
        assert(w@ =~= start + bits_entries_lines(en@, idx.take(k + 1)));
        k += 1;
    }
    assert(idx.take(k as int) =~= idx);
    write_display_loop(w);
    assert(w@ =~= old(w)@ + display_body_lines(en@));
}

/// Writes the `Display` and `Debug` impls of the flags type of `en`.
pub fn write_display_impl(w: &mut Writer, en: &VkEnum)
    ensures
        final(w)@ == old(w)@ + display_impl_lines(en@),
{
    let struct_name = rust_name(en.name.as_str());
    let mut l = String::new();
    push_str(&mut l, "impl Display for ");
    push_str(&mut l, struct_name.as_str());
    push_str(&mut l, " {");
    w.ln(l.as_str());
    w.ln("    fn fmt(&self, f: &mut Formatter<'_>) -> Result {");
    write_display_body(w, en, struct_name.as_str());
    write_debug_impl(w, struct_name.as_str());
    assert(w@ =~= old(w)@ + display_impl_lines(en@));
}

/// The lines a registry type contributes: impls only for flags types whose
/// bits enum is known.
pub open spec fn display_type_lines(enums: Seq<(Seq<char>, EnumModel)>, ty: TypeModel) -> Seq<Seq<char>> {
    match ty.kind {
        TypeKindModel::Bitmask { bits_enum, repr } => match bits_enum {
            Some(name) => match entries_get(enums, name) {
                Some(e) => display_impl_lines(e),
                None => Seq::empty(),
            },
            None => Seq::empty(),
        },
        TypeKindModel::Other => Seq::empty(),
    }
}

/// The two generated files agree on every flags type. When its bits enum is
/// known, `vk/bitflags.rs` declares the struct named after that enum, whether
/// or not the enum has values, and the `Display` impl is for that struct.
/// Only when the bits enum is absent or unknown is the type an alias of its
/// representation, and then no impl is written for it.
pub proof fn display_impls_name_declared_structs(enums: Seq<(Seq<char>, EnumModel)>, ty: TypeModel)
    ensures
        match ty.kind {
            TypeKindModel::Bitmask { bits_enum, repr } => match (
                match bits_enum {
                    Some(b) => entries_get(enums, b),
                    None => None,
                }
            ) {
                Some(e) => {
                    &&& bitflags_type_lines(enums, ty).len() >= 6
                    &&& bitflags_type_lines(enums, ty)[0] == refpage_line(e.name)
                    &&& bitflags_type_lines(enums, ty)[1] == "#[repr(transparent)]"@
                    &&& bitflags_type_lines(enums, ty)[2] == "#[derive(Clone, Copy, Hash, PartialEq, Eq)]"@
                    &&& bitflags_type_lines(enums, ty)[3] == "pub struct "@ + rust_name_spec(e.name)
                        + "(pub(crate) "@ + repr + ");"@
                    &&& bitflags_type_lines(enums, ty)[4] == "vk_bitflags_wrapped!("@ + rust_name_spec(e.name)
                        + ", "@ + repr + ");"@
                    &&& display_type_lines(enums, ty)[0] == "impl Display for "@ + rust_name_spec(e.name) + " {"@
                },
                None => {
                    &&& bitflags_type_lines(enums, ty) == seq![
                        refpage_line(ty.name),
                        "pub type "@ + rust_name_spec(ty.name) + " = "@ + repr + ";"@,
                        Seq::<char>::empty(),
                    ]
                    &&& display_type_lines(enums, ty).len() == 0
                },
            },
            TypeKindModel::Other => bitflags_type_lines(enums, ty).len() == 0 && display_type_lines(
                enums,
                ty,
            ).len() == 0,
        },
{
}

/// The lines written for the bitmask types among `types` whose bits enum is known.
pub open spec fn display_types_lines(
    enums: Seq<(Seq<char>, EnumModel)>,
    types: Seq<(Seq<char>, TypeModel)>,
) -> Seq<Seq<char>>
    decreases types.len(),
{
    if types.len() == 0 {
        Seq::empty()
    } else {
        display_types_lines(enums, types.drop_last()) + display_type_lines(enums, types.last().1)
    }
}

/// The lines of the file of `Display` impls.
pub open spec fn display_file_lines(
    enums: Seq<(Seq<char>, EnumModel)>,
    types: Seq<(Seq<char>, TypeModel)>,
) -> Seq<Seq<char>> {
    file_header_lines("generated Display impls for bitflag types"@) + seq![
        "use crate::vk::*;"@,
        "use core::fmt::{Formatter, Debug, Display, Result};"@,
        Seq::empty(),
    ] + display_types_lines(enums, types)
}

/// The text of the file of `Display` and `Debug` impls: one pair for every
/// flags type of the registry whose bits enum is known, in order.
pub fn generate(registry: &Registry) -> (r: String)
    ensures
        r@ == render_lines(
            display_file_lines(enum_map_entries(registry.enums), type_map_entries(registry.types)),
        ),
{
    let ghost enums = enum_map_entries(registry.enums);
    let ghost types = type_map_entries(registry.types);
    let mut w = Writer::new();
    file_header(&mut w, "generated Display impls for bitflag types");
    w.ln("use crate::vk::*;");
    w.ln("use core::fmt::{Formatter, Debug, Display, Result};");
    w.blank();
    let ghost start = w@;
    let n = type_map_len(&registry.types);
    let mut i: usize = 0;
    assert(types.take(0) =~= Seq::<(Seq<char>, TypeModel)>::empty());
    assert(w@ =~= start + display_types_lines(enums, types.take(0)));
    while i < n
        invariant
            i <= n,
            n == types.len(),
            types == type_map_entries(registry.types),
            enums == enum_map_entries(registry.enums),
            w@ == start + display_types_lines(enums, types.take(i as int)),
        decreases n - i,
    {
        let ghost before = w@;
        match type_map_get_index(&registry.types, i) {
            Some((_, ty)) => {
                assert(types[i as int].1 == ty@);
                match &ty.kind {
                    TypeKind::Bitmask { bits_enum, repr: _ } => {
                        let found = match bits_enum {
                            Some(name) => enum_map_get(&registry.enums, name.as_str()),
                            None => None,
                        };
                        match found {
                            Some(en) => write_display_impl(&mut w, en),
                            None => {},
                        }
                    },
                    TypeKind::Other => {},
                }
                assert(w@ =~= before + display_type_lines(enums, ty@));
            },
            None => {},
        }
        assert(types.take(i + 1).drop_last() =~= types.take(i as int));
        assert(w@ =~= start + display_types_lines(enums, types.take(i + 1)));
        i += 1;
    }
    assert(types.take(i as int) =~= types);
    assert(w@ =~= display_file_lines(enums, types));
    w.into_string()
}

} // verus!
