//! Names of the command dispatch tables.
use crate::casing::{snake_case, to_snake_case};
use crate::codegen::{Writer};
use crate::codegen::bitflags::{split_vendor_rejoins, split_vendor_spec, split_vendor_suffix};
use crate::parse::registry::{CommandModel, VkCommand};
use crate::parse::tables::{string_set_entries, string_set_get_index, string_set_len};
use crate::text::{chars_of, contains, find_exec, lemma_replace_absent, push_chars, push_str, replace, replace_exec, str_eq, string_of, without_prefix, without_prefix_exec};
use indexmap::IndexSet;
use vstd::prelude::*;

verus! {

broadcast use vstd::string::group_string_axioms;

/// `vkCmdFooFnBar` → `FooBar`: without `vk`, without `Cmd`, every `Fn` removed.
pub open spec fn fn_field_stem_spec(vk_name: Seq<char>) -> Seq<char> {
    replace(without_prefix(without_prefix(vk_name, "vk"@), "Cmd"@), "Fn"@, Seq::empty())
}

/// A table field is named after the command without its `vk` prefix and, for
/// a command recorded into command buffers, without `Cmd` too: for a rest `x`
/// that holds no `Fn`, `vkCmd` + `x` and (when `x` does not start with `Cmd`)
/// `vk` + `x` both give the stem `x`.
pub proof fn field_stem_drops_prefixes(x: Seq<char>)
    requires
        !contains(x, "Fn"@),
    ensures
        fn_field_stem_spec("vkCmd"@ + x) == x,
        !"Cmd"@.is_prefix_of(x) ==> fn_field_stem_spec("vk"@ + x) == x,
{
    reveal_strlit("vk");
    reveal_strlit("Cmd");
    reveal_strlit("vkCmd");
    lemma_replace_absent(x, "Fn"@, Seq::empty());
    let a = "vkCmd"@ + x;
    assert("vk"@.is_prefix_of(a));
    assert(a.skip(2) =~= "Cmd"@ + x);
    assert("Cmd"@.is_prefix_of("Cmd"@ + x));
    assert(("Cmd"@ + x).skip(3) =~= x);
    let b = "vk"@ + x;
    assert("vk"@.is_prefix_of(b));
    assert(b.skip(2) =~= x);
}

/// The stem of a dispatch-table field name, before snake-casing.
pub fn fn_field_stem(vk_name: &str) -> (r: String)
    ensures
        r@ == fn_field_stem_spec(vk_name@),
{
    let v = chars_of(vk_name);
    let name = without_prefix_exec(&v, &chars_of("vk"));
    let name = without_prefix_exec(&name, &chars_of("Cmd"));
    let empty: Vec<char> = Vec::new();
    let name = replace_exec(&name, &chars_of("Fn"), &empty);
    assert(empty@ =~= Seq::<char>::empty());
    string_of(&name, 0, name.len())
}

/// The field name of a command in a dispatch table.
///
/// `"vkCreateInstance"` → `"create_instance"`
pub fn fn_field(vk_name: &str) -> (r: String)
    ensures
        r@ == snake_case(fn_field_stem_spec(vk_name@)),
{
    let stem = fn_field_stem(vk_name);
    to_snake_case(stem.as_str())
}

/// The command name with the handle type `self_name` removed (kept whole for
/// `Device` commands on buffers, images and memory), then without `vk`,
/// without `Cmd`, every `Fn` removed, and without a trailing vendor tag.
pub open spec fn fn_sig_stem_spec(vk_name: Seq<char>, self_name: Seq<char>) -> Seq<char> {
    let name = if (contains(vk_name, "Buffer"@) || contains(vk_name, "Image"@) || contains(
        vk_name,
        "Memory"@,
    )) && self_name == "Device"@ {
        vk_name
    } else {
        replace(vk_name, self_name, Seq::empty())
    };
    let name = replace(without_prefix(without_prefix(name, "vk"@), "Cmd"@), "Fn"@, Seq::empty());
    split_vendor_spec(name).0
}

/// A wrapper method is named as the command's dispatch-table field, less a
/// trailing vendor tag, whenever nothing is taken out for the handle: for a
/// `Device` command on a buffer, an image or memory (whose name keeps
/// `Device`), and for a command whose name does not hold the handle's name.
/// Without a vendor tag the two names are then the same.
pub proof fn wrapper_named_as_field(vk_name: Seq<char>, self_name: Seq<char>)
    requires
        (self_name == "Device"@ && (contains(vk_name, "Buffer"@) || contains(vk_name, "Image"@) || contains(
            vk_name,
            "Memory"@,
        ))) || !contains(vk_name, self_name),
    ensures
        fn_sig_stem_spec(vk_name, self_name) == split_vendor_spec(fn_field_stem_spec(vk_name)).0,
        split_vendor_spec(fn_field_stem_spec(vk_name)).1.len() == 0 ==> snake_case(
            fn_sig_stem_spec(vk_name, self_name),
        ) == snake_case(fn_field_stem_spec(vk_name)),
{
    if !((contains(vk_name, "Buffer"@) || contains(vk_name, "Image"@) || contains(vk_name, "Memory"@))
        && self_name == "Device"@) {
        lemma_replace_absent(vk_name, self_name, Seq::empty());
    }
    split_vendor_rejoins(fn_field_stem_spec(vk_name));
    let f = fn_field_stem_spec(vk_name);
    if split_vendor_spec(f).1.len() == 0 {
        assert(split_vendor_spec(f).0 + split_vendor_spec(f).1 =~= split_vendor_spec(f).0);
    }
}

/// The stem of a wrapper method name, before snake-casing.
pub fn fn_sig_stem(vk_name: &str, self_name: &str) -> (r: String)
    ensures
        r@ == fn_sig_stem_spec(vk_name@, self_name@),
{
    let v = chars_of(vk_name);
    let empty: Vec<char> = Vec::new();
    assert(empty@ =~= Seq::<char>::empty());
    let keep = (find_exec(&v, &chars_of("Buffer")).is_some() || find_exec(
        &v,
        &chars_of("Image"),
    ).is_some() || find_exec(&v, &chars_of("Memory")).is_some()) && str_eq(self_name, "Device");
    let name = if keep {
        v
    } else {
        replace_exec(&v, &chars_of(self_name), &empty)
    };
    let name = without_prefix_exec(&name, &chars_of("vk"));
    let name = without_prefix_exec(&name, &chars_of("Cmd"));
    let name = replace_exec(&name, &chars_of("Fn"), &empty);
    let name_s = string_of(&name, 0, name.len());
    assert(name_s@ =~= name@);
    let (rname, _) = split_vendor_suffix(name_s.as_str());
    rname.to_string()
}

/// The method name of a command's wrapper on handle type `self_name`.
///
/// `"vkCmdSetPrimitiveRestartIndexEXT"`, `"CommandBuffer"` → `"set_primitive_restart_index"`
pub fn fn_sig(vk_name: &str, self_name: &str) -> (r: String)
    ensures
        r@ == snake_case(fn_sig_stem_spec(vk_name@, self_name@)),
{
    let stem = fn_sig_stem(vk_name, self_name);
    to_snake_case(stem.as_str())
}

/// `"v1_1"` → `"API_VERSION_1_1"`.
pub open spec fn version_const_name_spec(depends: Seq<char>) -> Seq<char> {
    "API_VERSION_"@ + without_prefix(depends, "v"@)
}

/// The name of the API version constant of a core version group.
pub fn version_const_name(depends_str: &str) -> (r: String)
    ensures
        r@ == version_const_name_spec(depends_str@),
{
    let v = chars_of(depends_str);
    let rest = without_prefix_exec(&v, &chars_of("v"));
    let mut r = String::new();
    push_str(&mut r, "API_VERSION_");
    push_chars(&mut r, &rest, 0, rest.len());
    assert(rest@.subrange(0, rest@.len() as int) =~= rest@);
    r
}

/// Whether the first parameter of `cmd` has the type `ty`.
pub open spec fn first_param_is(cmd: CommandModel, ty: Seq<char>) -> bool {
    cmd.params.len() > 0 && cmd.params[0].ty == ty
}

fn first_param_is_exec(cmd: &VkCommand, ty: &str) -> (r: bool)
    ensures
        r == first_param_is(cmd@, ty@),
{
    if cmd.params.len() == 0 {
        false
    } else {
        str_eq(cmd.params[0].ty.as_str(), ty)
    }
}

/// Whether the first parameter of `cmd` is an instance.
pub fn is_instance_command(cmd: &VkCommand) -> (r: bool)
    ensures
        r == first_param_is(cmd@, "vkInstance"@),
{
    first_param_is_exec(cmd, "vkInstance")
}

/// Whether the first parameter of `cmd` is a physical device.
pub fn is_physical_device_command(cmd: &VkCommand) -> (r: bool)
    ensures
        r == first_param_is(cmd@, "vkPhysicalDevice"@),
{
    first_param_is_exec(cmd, "vkPhysicalDevice")
}

/// Whether the first parameter of `cmd` is a device.
pub fn is_device_command(cmd: &VkCommand) -> (r: bool)
    ensures
        r == first_param_is(cmd@, "vkDevice"@),
{
    first_param_is_exec(cmd, "vkDevice")
}

/// Whether the first parameter of `cmd` is a queue.
pub fn is_queue_command(cmd: &VkCommand) -> (r: bool)
    ensures
        r == first_param_is(cmd@, "vkQueue"@),
{
    first_param_is_exec(cmd, "vkQueue")
}

/// Whether the first parameter of `cmd` is a command buffer.
pub fn is_cmd_command(cmd: &VkCommand) -> (r: bool)
    ensures
        r == first_param_is(cmd@, "vkCommandBuffer"@),
{
    first_param_is_exec(cmd, "vkCommandBuffer")
}

/// The field of a dispatch table that holds dispatch group `group`.
pub open spec fn table_field_line(group: Seq<char>) -> Seq<char> {
    "    pub "@ + snake_case(fn_field_stem_spec(group)) + ": "@ + group + ","@
}

/// The initialiser of that field in the table's `load`.
pub open spec fn table_load_line(group: Seq<char>) -> Seq<char> {
    snake_case(fn_field_stem_spec(group)) + ": "@ + group + "::load(&mut loader, api_version, extensions),"@
}

/// The field lines of a dispatch table, one per group.
pub open spec fn table_field_lines(groups: Seq<Seq<char>>) -> Seq<Seq<char>>
    decreases groups.len(),
{
    if groups.len() == 0 {
        Seq::empty()
    } else {
        table_field_lines(groups.drop_last()).push(table_field_line(groups.last()))
    }
}

/// The load lines of a dispatch table, one per group.
pub open spec fn table_load_lines(groups: Seq<Seq<char>>) -> Seq<Seq<char>>
    decreases groups.len(),
{
    if groups.len() == 0 {
        Seq::empty()
    } else {
        table_load_lines(groups.drop_last()).push(table_load_line(groups.last()))
    }
}

/// The lines of dispatch table `struct_name` made of the dispatch groups
/// `groups`: a field per group, and a `load` that loads every group.
pub open spec fn dispatch_table_lines(struct_name: Seq<char>, groups: Seq<Seq<char>>) -> Seq<Seq<char>> {
    seq!["#[derive(Clone)]"@, "pub struct "@ + struct_name + " {"@] + table_field_lines(groups)
        + seq![
        "}"@,
        Seq::empty(),
        "impl "@ + struct_name + " {"@,
        "    pub fn load<F: FnMut(&CStr) -> *const c_void>("@,
        "        mut loader: F,"@,
        "        api_version: u32,"@,
        "        extensions: &[*const c_char],"@,
        "    ) -> Self {"@,
        "debug_assert!(api_version >= API_VERSION_1_0);"@,
        "Self {"@,
    ] + table_load_lines(groups) + seq!["        }"@, "    }"@, "}"@, Seq::empty()]
}

/// Writes dispatch table `struct_name` over the dispatch groups `groups`, in order.
pub fn write_dispatch_table(w: &mut Writer, struct_name: &str, groups: IndexSet<String>)
    ensures
        final(w)@ == old(w)@ + dispatch_table_lines(struct_name@, string_set_entries(groups)),
{
    let ghost gs = string_set_entries(groups);
    w.ln("#[derive(Clone)]");
    let mut l = String::new();
    push_str(&mut l, "pub struct ");
    push_str(&mut l, struct_name);
    push_str(&mut l, " {");
    w.ln(l.as_str());
    let n = string_set_len(&groups);
    let ghost s1 = w@;
    let mut i: usize = 0;
    assert(gs.take(0) =~= Seq::<Seq<char>>::empty());
    assert(w@ =~= s1 + table_field_lines(gs.take(0)));
    while i < n
        invariant
            i <= n,
            n == gs.len(),
            gs == string_set_entries(groups),
            w@ == s1 + table_field_lines(gs.take(i as int)),
        decreases n - i,
    {
        if let Some(group) = string_set_get_index(&groups, i) {
            let field = fn_field(group.as_str());
            let mut l = String::new();
            push_str(&mut l, "    pub ");
            push_str(&mut l, field.as_str());
            push_str(&mut l, ": ");
            push_str(&mut l, group.as_str());
            push_str(&mut l, ",");
            w.ln(l.as_str());
        }
        assert(gs.take(i + 1).drop_last() =~= gs.take(i as int));
        assert(w@ =~= s1 + table_field_lines(gs.take(i + 1)));
        i += 1;
    }
    assert(gs.take(i as int) =~= gs);
    w.ln("}");
    w.blank();
    let mut l = String::new();
    push_str(&mut l, "impl ");
    push_str(&mut l, struct_name);
    push_str(&mut l, " {");
    w.ln(l.as_str());
    w.ln("    pub fn load<F: FnMut(&CStr) -> *const c_void>(");
    w.ln("        mut loader: F,");
    w.ln("        api_version: u32,");
    w.ln("        extensions: &[*const c_char],");
    w.ln("    ) -> Self {");
    w.ln("debug_assert!(api_version >= API_VERSION_1_0);");
    w.ln("Self {");
    let ghost s2 = w@;
    let mut i: usize = 0;
    assert(w@ =~= s2 + table_load_lines(gs.take(0)));
    while i < n
        invariant
            i <= n,
            n == gs.len(),
            gs == string_set_entries(groups),
            w@ == s2 + table_load_lines(gs.take(i as int)),
        decreases n - i,
    {
        if let Some(group) = string_set_get_index(&groups, i) {
            let field = fn_field(group.as_str());
            let mut l = String::new();
            push_str(&mut l, field.as_str());
            push_str(&mut l, ": ");
            push_str(&mut l, group.as_str());
            push_str(&mut l, "::load(&mut loader, api_version, extensions),");
            w.ln(l.as_str());
        }
        assert(gs.take(i + 1).drop_last() =~= gs.take(i as int));
        assert(w@ =~= s2 + table_load_lines(gs.take(i + 1)));
        i += 1;
    }
    assert(gs.take(i as int) =~= gs);
    w.ln("        }");
    w.ln("    }");
    w.ln("}");
    w.blank();
    assert(w@ =~= old(w)@ + dispatch_table_lines(struct_name@, gs));
}

} // verus!
