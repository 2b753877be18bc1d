//! How the extension modules are laid out: one folder per vendor, one
//! module per extension.
use crate::codegen::{const_name, const_name_spec};
use crate::parse::registry::{Extension, ExtensionModel, Registry, copy_strings, strings_view};
use crate::parse::tables::{entries_get, entries_insert, folder_map_entries, folder_map_get, folder_map_insert, folder_map_new};
use crate::text::{chars_of, find_char_exec, leading_digits, leading_digits_len, push_chars, push_str, slice_of, split_once_char, string_of, without_prefix, without_prefix_exec};
use indexmap::IndexMap;
use vstd::prelude::*;

verus! {

broadcast use vstd::string::group_string_axioms;

/// A name whose leading digits are moved behind the rest, joined by `_`
/// (a `_` right after the digits is dropped); a name that does not start
/// with a digit, or is digits only, is kept.
pub open spec fn module_name_spec(s: Seq<char>) -> Seq<char> {
    let d = leading_digits(s);
    if d.len() == 0 || d.len() == s.len() {
        s
    } else {
        without_prefix(s.skip(d.len() as int), "_"@) + "_"@ + d
    }
}

/// Turns an extension name stem into a valid module name.
///
/// - `"8bit_storage"` → `"bit_storage_8"`
/// - `"maintenance1"` → `"maintenance1"`
pub fn move_digits_to_end(s: &str) -> (r: String)
    ensures
        r@ == module_name_spec(s@),
{
    let cs = chars_of(s);
    let i = leading_digits_len(&cs, 0);
    assert(cs@.skip(0) =~= cs@);
    if i == 0 || i == cs.len() {
        return s.to_string();
    }
    let rest = slice_of(&cs, i, cs.len());
    let rest = without_prefix_exec(&rest, &chars_of("_"));
    let mut r = string_of(&rest, 0, rest.len());
    push_str(&mut r, "_");
    push_chars(&mut r, &cs, 0, i);
    assert(rest@.subrange(0, rest@.len() as int) =~= rest@);
    assert(cs@.skip(i as int) =~= cs@.subrange(i as int, cs@.len() as int));
    r
}

/// The vendor folder of extension `name`: its name without `VK_`, up to
/// the first `_`.
pub open spec fn vendor_of(name: Seq<char>) -> Seq<char> {
    split_once_char(const_name_spec(name), '_')->Some_0.0
}

/// The module of extension `name` inside its vendor folder: the rest of
/// its name after the vendor, its leading digits moved behind.
pub open spec fn extension_module_spec(name: Seq<char>) -> Seq<char> {
    module_name_spec(split_once_char(const_name_spec(name), '_')->Some_0.1)
}

/// Whether the name of an extension, without `VK_`, holds a `_`.
pub open spec fn has_vendor(name: Seq<char>) -> bool {
    split_once_char(const_name_spec(name), '_') is Some
}

/// Whether the name of an extension, without `VK_`, holds a `_`, as
/// [`extension_module_name`] and [`extension_folders`] need.
pub fn extension_has_vendor(name: &str) -> (r: bool)
    ensures
        r == has_vendor(name@),
{
    let cs = chars_of(const_name(name));
    find_char_exec(&cs, '_', 0).is_some()
}

/// The characters of `name` without `VK_`, and the position of their first `_`.
fn vendor_split(name: &str) -> (r: (Vec<char>, usize))
    requires
        has_vendor(name@),
    ensures
        r.0@ == const_name_spec(name@),
        r.1 < r.0@.len(),
        split_once_char(r.0@, '_') == Some((r.0@.take(r.1 as int), r.0@.skip(r.1 + 1))),
{
    let cs = chars_of(const_name(name));
    let i = match find_char_exec(&cs, '_', 0) {
        Some(i) => i,
        None => {
            assert(false);
            0
        },
    };
    (cs, i)
}

/// The module name of extension `name` inside its vendor folder.
///
/// `"VK_KHR_8bit_storage"` → `"bit_storage_8"`
pub fn extension_module_name(name: &str) -> (r: String)
    requires
        has_vendor(name@),
    ensures
        r@ == extension_module_spec(name@),
{
    let (cs, i) = vendor_split(name);
    let stem = string_of(&cs, i + 1, cs.len());
    assert(stem@ =~= cs@.skip(i + 1));
    move_digits_to_end(stem.as_str())
}

/// The vendor folders after the supported extensions among `exts` are
/// filed, each under its vendor, in order; folders in order of first use.
pub open spec fn folders_from(exts: Seq<ExtensionModel>) -> Seq<(Seq<char>, Seq<Seq<char>>)>
    decreases exts.len(),
{
    if exts.len() == 0 {
        Seq::empty()
    } else {
        let p = folders_from(exts.drop_last());
        let x = exts.last();
        if x.disabled {
            p
        } else {
            let v = vendor_of(x.name);
            let listed = match entries_get(p, v) {
                Some(l) => l,
                None => Seq::empty(),
            };
            entries_insert(p, v, listed.push(x.name))
        }
    }
}

/// Files the supported extensions of the registry by vendor: each vendor
/// (the part of the name without `VK_` before the first `_`) gets the
/// names of its extensions in registry order; vendors come in the order
/// of their first extension.
pub fn extension_folders(registry: &Registry) -> (r: IndexMap<String, Vec<String>>)
    requires
        forall|i: int|
            0 <= i < registry.extensions@.len() && !(#[trigger] registry.extensions@[i]).disabled ==> has_vendor(
                registry.extensions@[i].name@,
            ),
    ensures
        folder_map_entries(r) == folders_from(registry.extensions@.map_values(|x: Extension| x@)),
{
    let ghost exts = registry.extensions@.map_values(|x: Extension| x@);
    let mut folders = folder_map_new();
    let mut i: usize = 0;
    assert(exts.take(0) =~= Seq::<ExtensionModel>::empty());
    while i < registry.extensions.len()
        invariant
            i <= registry.extensions@.len(),
            exts == registry.extensions@.map_values(|x: Extension| x@),
            forall|k: int|
                0 <= k < registry.extensions@.len() && !(#[trigger] registry.extensions@[k]).disabled
                    ==> has_vendor(registry.extensions@[k].name@),
            folder_map_entries(folders) == folders_from(exts.take(i as int)),
        decreases registry.extensions.len() - i,
    {
        let ext = &registry.extensions[i];
        assert(exts.take(i + 1).drop_last() =~= exts.take(i as int));
        assert(exts.take(i + 1).last() == ext@);
        if !ext.disabled {
            let (cs, k) = vendor_split(ext.name.as_str());
            let vendor = string_of(&cs, 0, k);
            assert(vendor@ =~= cs@.take(k as int));
            assert(vendor@ == vendor_of(ext.name@));
            let ghost p = folders_from(exts.take(i as int));
            let mut listed: Vec<String> = match folder_map_get(&folders, vendor.as_str()) {
                Some(l) => {
                    let c = copy_strings(l);
                    assert(strings_view(l@) == l@.map_values(|s: String| s@));
                    c
                },
                None => Vec::new(),
            };
            assert(strings_view(listed@) == match entries_get(p, vendor@) {
                Some(l) => l,
                None => Seq::empty(),
            });
            let ghost before = strings_view(listed@);
            listed.push(ext.name.clone());
            assert(strings_view(listed@) =~= before.push(ext.name@));
            assert(listed@.map_values(|s: String| s@) == strings_view(listed@));
            folder_map_insert(&mut folders, vendor, listed);
        }
        i += 1;
    }
    assert(exts.take(i as int) =~= exts);
    folders
}

} // verus!
