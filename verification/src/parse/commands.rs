//! Commands of the registry and their parameters.
use crate::codegen::{rust_name, rust_name_spec};
use crate::parse::{c_to_rust, c_to_rust_spec};
use crate::parse::enums::{opt_string, or_empty};
use crate::parse::registry::{CommandModel, Registry, VkCommand, strings_view};
use crate::parse::tables::{command_map_entries, entries_insert, set_insert, string_set_contains, string_set_entries, string_set_insert, string_set_new};
use crate::parse::xml::{NodeModel, XmlDocument, attr, children_of, has_tag};
use crate::text::{chars_of, contains, count_char, count_char_exec, find_exec, push_str, split_char, split_char_exec, str_eq, string_of, trim, trim_exec};
use indexmap::{IndexMap, IndexSet};
use vstd::prelude::*;

verus! {

/// A command parameter.
#[derive(Debug, Clone, Hash, PartialEq, Eq)]
pub struct Param {
    pub name: String,
    pub ty: String,
    pub optional: bool,
    pub len: Option<String>,
    pub pointer_depth: u32,
    pub is_const: bool,
}

/// A parameter as the contracts see it.
pub struct ParamModel {
    pub name: Seq<char>,
    pub ty: Seq<char>,
    pub optional: bool,
    pub len: Option<Seq<char>>,
    pub pointer_depth: u32,
    pub is_const: bool,
}

impl View for Param {
    type V = ParamModel;

    open spec fn view(&self) -> ParamModel {
        ParamModel {
            name: self.name@,
            ty: self.ty@,
            optional: self.optional,
            len: match self.len {
                Some(l) => Some(l@),
                None => None,
            },
            pointer_depth: self.pointer_depth,
            is_const: self.is_const,
        }
    }
}

// ---------------------------------------------------------------------------
// Members: `<proto>` and `<param>` elements
// ---------------------------------------------------------------------------

/// What reading the children of a `<proto>` or `<param>` element gathers:
/// the C type text before the name, the (Rust) base type, the name, and
/// whether the name was passed.
#[verifier::ext_equal]
pub struct MemberModel {
    pub full: Seq<char>,
    pub ty: Seq<char>,
    pub name: Seq<char>,
    pub past_name: bool,
}

/// One child read: a `<type>` sets the base type (and extends the type
/// text before the name), a `<name>` sets the trimmed name, and the text
/// of a node that is no element extends the type text before the name.
pub open spec fn member_step(m: MemberModel, n: NodeModel) -> MemberModel {
    if n.tag == "type"@ {
        let ty = c_to_rust_spec(or_empty(n.text));
        MemberModel {
            full: if m.past_name {
                m.full
            } else {
                m.full + ty
            },
            ty,
            ..m
        }
    } else if n.tag == "name"@ {
        MemberModel { name: trim(or_empty(n.text)), past_name: true, ..m }
    } else if n.tag.len() == 0 {
        match n.text {
            Some(t) => if m.past_name {
                m
            } else {
                MemberModel { full: m.full + t, ..m }
            },
            None => m,
        }
    } else {
        m
    }
}

/// The children `kids` read in order.
pub open spec fn member_fold(doc: Seq<NodeModel>, kids: Seq<int>) -> MemberModel
    decreases kids.len(),
{
    if kids.len() == 0 {
        MemberModel { full: Seq::empty(), ty: Seq::empty(), name: Seq::empty(), past_name: false }
    } else {
        let p = member_fold(doc, kids.drop_last());
        let k = kids.last();
        if 0 <= k < doc.len() {
            member_step(p, doc[k])
        } else {
            p
        }
    }
}

/// The full C type (trimmed), the Rust base type and the name of a member.
pub open spec fn member_spec(doc: Seq<NodeModel>, node: int) -> (Seq<char>, Seq<char>, Seq<char>) {
    let m = member_fold(doc, children_of(doc, node));
    (trim(m.full), m.ty, m.name)
}

/// Reads the type and name of a `<proto>` or `<param>` element.
fn parse_member(doc: &XmlDocument, node: usize) -> (r: (String, String, String))
    requires
        node < doc@.len(),
    ensures
        (r.0@, r.1@, r.2@) == member_spec(doc@, node as int),
{
    let mut full_ty = String::new();
    let mut ty = String::new();
    let mut name = String::new();
    let mut past_name = false;
    let kids = doc.children(node);
    let ghost ks = children_of(doc@, node as int);
    let mut j: usize = 0;
    assert(ks.take(0) =~= Seq::<int>::empty());
    while j < kids.len()
        invariant
            j <= kids.len(),
            ks == children_of(doc@, node as int),
            kids@.map_values(|x: usize| x as int) == ks,
            forall|m: int| 0 <= m < kids@.len() ==> (#[trigger] kids@[m]) < doc@.len(),
            member_fold(doc@, ks.take(j as int)) == (MemberModel {
                full: full_ty@,
                ty: ty@,
                name: name@,
                past_name,
            }),
        decreases kids.len() - j,
    {
        let child = kids[j];
        assert(ks[j as int] == child as int);
        assert(ks.take(j + 1).drop_last() =~= ks.take(j as int));
        assert(ks.take(j + 1).last() == child as int);
        let tag = doc.tag_name(child);
        let text = match doc.text(child) {
            Some(t) => t,
            None => "",
        };
        proof {
            reveal_strlit("");
            reveal_strlit("type");
            reveal_strlit("name");
            assert("type"@[0] != "name"@[0]);
            assert(""@ =~= Seq::<char>::empty());
        }
        assert(text@ == or_empty(doc@[child as int].text));
        let ghost before = MemberModel { full: full_ty@, ty: ty@, name: name@, past_name };
        let ghost after = member_step(before, doc@[child as int]);
        if str_eq(tag, "type") {
            ty = c_to_rust(text).to_string();
            if !past_name {
                push_str(&mut full_ty, ty.as_str());
            }
            assert(after.ty == ty@ && after.full == full_ty@ && after.name == name@);
        } else if str_eq(tag, "name") {
            let t = trim_exec(&chars_of(text));
            name = string_of(&t, 0, t.len());
            assert(name@ =~= trim(text@));
            past_name = true;
            assert(after.ty == ty@ && after.full == full_ty@ && after.name == name@);
        } else if str_eq(tag, "") {
            if let Some(t) = doc.text(child) {
                if !past_name {
                    push_str(&mut full_ty, t);
                }
            }
            assert(after.ty == ty@ && after.full == full_ty@ && after.name == name@);
        } else {
            proof {
                if doc@[child as int].tag.len() == 0 {
                    assert(doc@[child as int].tag =~= ""@);
                }
            }
            assert(after == before);
        }
        assert(member_step(before, doc@[child as int]) =~= (MemberModel {
            full: full_ty@,
            ty: ty@,
            name: name@,
            past_name,
        }));
        j += 1;
    }
    assert(ks.take(j as int) =~= ks);
    let t = trim_exec(&chars_of(full_ty.as_str()));
    let full = string_of(&t, 0, t.len());
    assert(full@ =~= trim(full_ty@));
    (full, ty, name)
}

/// The Rust spelling of a parameter type: the base type behind as many
/// pointers as the C type has (`const` ones when the C type says `const`);
/// a deeper pointer is spelled as one mutable pointer.
pub open spec fn param_type_spec(rust_base: Seq<char>, depth: u32, is_const: bool) -> Seq<char> {
    if depth == 0 {
        rust_base
    } else if depth == 1 {
        if is_const {
            "*const "@ + rust_base
        } else {
            "*mut "@ + rust_base
        }
    } else if depth == 2 {
        if is_const {
            "*const *const "@ + rust_base
        } else {
            "*mut *mut "@ + rust_base
        }
    } else {
        "*mut "@ + rust_base
    }
}

/// The parameter a `<param>` element describes.
pub open spec fn param_spec(doc: Seq<NodeModel>, node: int) -> ParamModel {
    let (full, base, name) = member_spec(doc, node);
    let is_const = contains(full, "const"@);
    let depth = count_char(full, '*') as u32;
    ParamModel {
        name,
        ty: param_type_spec(rust_name_spec(base), depth, is_const),
        optional: match attr(doc[node], "optional"@) {
            Some(v) => contains(v, "true"@),
            None => false,
        },
        len: attr(doc[node], "len"@),
        pointer_depth: depth,
        is_const,
    }
}

proof fn lemma_count_char_add(a: Seq<char>, b: Seq<char>, c: char)
    ensures
        count_char(a + b, c) == count_char(a, c) + count_char(b, c),
    decreases b.len(),
{
    if b.len() == 0 {
        assert(a + b =~= a);
    } else {
        lemma_count_char_add(a, b.drop_last(), c);
        assert((a + b).drop_last() =~= a + b.drop_last());
        assert((a + b).last() == b.last());
    }
}

/// A parameter's Rust type has one pointer level for every `*` of its C type
/// (up to two levels), each `*const` when the C type says `const` and `*mut`
/// otherwise, in front of the Rust name of its base type; a deeper C pointer
/// is spelled as a single `*mut`. Its `pointer_depth` is the number of `*`,
/// and it is `const` exactly when its C type says `const`.
pub proof fn param_pointer_levels(doc: Seq<NodeModel>, node: int)
    ensures
        param_spec(doc, node).is_const == contains(member_spec(doc, node).0, "const"@),
        count_char(member_spec(doc, node).0, '*') <= 2 ==> param_spec(doc, node).pointer_depth == count_char(
            member_spec(doc, node).0,
            '*',
        ),
        count_char(member_spec(doc, node).0, '*') == 0 ==> param_spec(doc, node).ty == rust_name_spec(
            member_spec(doc, node).1,
        ),
        count_char(member_spec(doc, node).0, '*') == 1 ==> param_spec(doc, node).ty == (if param_spec(
            doc,
            node,
        ).is_const {
            "*const "@
        } else {
            "*mut "@
        }) + rust_name_spec(member_spec(doc, node).1),
        count_char(member_spec(doc, node).0, '*') == 2 ==> param_spec(doc, node).ty == (if param_spec(
            doc,
            node,
        ).is_const {
            "*const "@
        } else {
            "*mut "@
        }) + (if param_spec(doc, node).is_const {
            "*const "@
        } else {
            "*mut "@
        }) + rust_name_spec(member_spec(doc, node).1),
        2 < count_char(member_spec(doc, node).0, '*') <= 0xffff_ffff ==> param_spec(doc, node).pointer_depth
            == count_char(member_spec(doc, node).0, '*') && param_spec(doc, node).ty == "*mut "@ + rust_name_spec(
            member_spec(doc, node).1,
        ),
        count_char(member_spec(doc, node).0, '*') <= 2 ==> count_char(param_spec(doc, node).ty, '*')
            == count_char(member_spec(doc, node).0, '*') + count_char(rust_name_spec(member_spec(doc, node).1), '*'),
{
    reveal_strlit("*const ");
    reveal_strlit("*mut ");
    reveal_strlit("*const *const ");
    reveal_strlit("*mut *mut ");
    reveal_with_fuel(count_char, 8);
    let w1 = "*const "@;
    let w2 = "*mut "@;
    assert(count_char(w1, '*') == 1);
    assert(count_char(w2, '*') == 1);
    assert("*const *const "@ =~= w1 + w1);
    assert("*mut *mut "@ =~= w2 + w2);
    let b = rust_name_spec(member_spec(doc, node).1);
    lemma_count_char_add(w1, b, '*');
    lemma_count_char_add(w2, b, '*');
    lemma_count_char_add(w1, w1 + b, '*');
    lemma_count_char_add(w2, w2 + b, '*');
    assert(w1 + w1 + b =~= w1 + (w1 + b));
    assert(w2 + w2 + b =~= w2 + (w2 + b));
}

/// Reads a `<param>` element; `None` when a parameter of the same name was
/// already read (recorded in `other_params`), else the parameter, whose
/// name is then recorded.
pub fn parse_param(doc: &XmlDocument, node: usize, other_params: &mut IndexSet<String>) -> (r: Option<Param>)
    requires
        node < doc@.len(),
    ensures
        string_set_entries(*final(other_params)) == set_insert(
            string_set_entries(*old(other_params)),
            member_spec(doc@, node as int).2,
        ),
        match r {
            Some(p) => !string_set_entries(*old(other_params)).contains(member_spec(doc@, node as int).2) && p@
                == param_spec(doc@, node as int),
            None => string_set_entries(*old(other_params)).contains(member_spec(doc@, node as int).2),
        },
{
    let (full_ty, base_ty, name) = parse_member(doc, node);
    if string_set_contains(other_params, name.as_str()) {
        return None;
    } else {
        string_set_insert(other_params, name.clone());
    }
    let full = chars_of(full_ty.as_str());
    let is_const = find_exec(&full, &chars_of("const")).is_some();
    let count = count_char_exec(&full, '*');
    let pointer_depth = count as u32;
    let rust_base = rust_name(base_ty.as_str());
    let ty = if pointer_depth == 0 {
        rust_base
    } else if pointer_depth == 1 {
        let mut t = String::new();
        if is_const {
            push_str(&mut t, "*const ");
        } else {
            push_str(&mut t, "*mut ");
        }
        push_str(&mut t, rust_base.as_str());
        t
    } else if pointer_depth == 2 {
        let mut t = String::new();
        if is_const {
            push_str(&mut t, "*const *const ");
        } else {
            push_str(&mut t, "*mut *mut ");
        }
        push_str(&mut t, rust_base.as_str());
        t
    } else {
        let mut t = String::new();
        push_str(&mut t, "*mut ");
        push_str(&mut t, rust_base.as_str());
        t
    };
    let optional = match doc.attribute(node, "optional") {
        Some(v) => find_exec(&chars_of(v), &chars_of("true")).is_some(),
        None => false,
    };
    let len = opt_string(doc.attribute(node, "len"));
    let p = Param { name, ty, optional, len, pointer_depth, is_const };
    assert(p@.len == attr(doc@[node as int], "len"@));
    Some(p)
}

// ---------------------------------------------------------------------------
// Commands
// ---------------------------------------------------------------------------

/// The first element among `kids` tagged `tag`.
pub open spec fn first_tagged(doc: Seq<NodeModel>, kids: Seq<int>, tag: Seq<char>) -> Option<int>
    decreases kids.len(),
{
    if kids.len() == 0 {
        None
    } else if 0 <= kids[0] < doc.len() && has_tag(doc[kids[0]], tag) {
        Some(kids[0])
    } else {
        first_tagged(doc, kids.drop_first(), tag)
    }
}

/// The parameters of the `<param>` elements among `kids`, each name kept
/// once (the first), with the names seen so far, starting from `seen`.
pub open spec fn params_from(doc: Seq<NodeModel>, kids: Seq<int>, seen: Seq<Seq<char>>) -> (
    Seq<ParamModel>,
    Seq<Seq<char>>,
)
    decreases kids.len(),
{
    if kids.len() == 0 {
        (Seq::empty(), seen)
    } else {
        let (ps, s) = params_from(doc, kids.drop_last(), seen);
        let k = kids.last();
        if 0 <= k < doc.len() && has_tag(doc[k], "param"@) {
            let name = member_spec(doc, k).2;
            if s.contains(name) {
                (ps, s)
            } else {
                (ps.push(param_spec(doc, k)), s.push(name))
            }
        } else {
            (ps, s)
        }
    }
}

/// The type of the first of `params`, when there is one.
pub open spec fn first_param_type(params: Seq<ParamModel>) -> Option<Seq<char>> {
    if params.len() > 0 {
        Some(params[0].ty)
    } else {
        None
    }
}

/// A comma-separated attribute as a list; empty when missing.
pub open spec fn comma_list(o: Option<Seq<char>>) -> Seq<Seq<char>> {
    match o {
        Some(s) => split_char(s, ','),
        None => Seq::empty(),
    }
}

/// The command a `<command>` element defines: an alias (when it has a
/// non-empty name), or a command with a `<proto>` whose name is not empty.
pub open spec fn command_spec(doc: Seq<NodeModel>, node: int) -> Option<CommandModel> {
    let n = doc[node];
    let kids = children_of(doc, node);
    match attr(n, "alias"@) {
        Some(alias) => {
            let name = or_empty(attr(n, "name"@));
            if name.len() == 0 {
                None
            } else {
                Some(
                    CommandModel {
                        name,
                        return_type: alias,
                        params: Seq::empty(),
                        target: None,
                        alias: Some(alias),
                        success_codes: Seq::empty(),
                        error_codes: Seq::empty(),
                        version: None,
                        extension: None,
                        conditional_rendering: false,
                        renderpass: None,
                        queues: Seq::empty(),
                        cmd_buffer_level: Seq::empty(),
                        tasks: Seq::empty(),
                    },
                )
            }
        },
        None => match first_tagged(doc, kids, "proto"@) {
            None => None,
            Some(proto) => {
                let (return_type, _, name) = member_spec(doc, proto);
                if name.len() == 0 {
                    None
                } else {
                    Some(
                        CommandModel {
                            name,
                            return_type,
                            params: params_from(doc, kids, Seq::empty()).0,
                            target: first_param_type(params_from(doc, kids, Seq::empty()).0),
                            alias: None,
                            success_codes: comma_list(attr(n, "successcodes"@)),
                            error_codes: comma_list(attr(n, "errorcodes"@)),
                            version: None,
                            extension: None,
                            conditional_rendering: or_empty(attr(n, "conditionalrendering"@)) == "true"@,
                            renderpass: attr(n, "renderpass"@),
                            queues: comma_list(attr(n, "queues"@)),
                            cmd_buffer_level: or_empty(attr(n, "cmdbufferlevel"@)),
                            tasks: comma_list(attr(n, "tasks"@)),
                        },
                    )
                }
            },
        },
    }
}

/// The commands after the `<command>` elements among `kids` are recorded,
/// each under its name (a later one of the same name replaces it in place).
pub open spec fn commands_from(
    doc: Seq<NodeModel>,
    kids: Seq<int>,
    c: Seq<(Seq<char>, CommandModel)>,
) -> Seq<(Seq<char>, CommandModel)>
    decreases kids.len(),
{
    if kids.len() == 0 {
        c
    } else {
        let p = commands_from(doc, kids.drop_last(), c);
        let k = kids.last();
        if 0 <= k < doc.len() && has_tag(doc[k], "command"@) {
            match command_spec(doc, k) {
                Some(cmd) => entries_insert(p, cmd.name, cmd),
                None => p,
            }
        } else {
            p
        }
    }
}

/// The first `<proto>` child of `node`.
fn find_proto(doc: &XmlDocument, node: usize) -> (r: Option<usize>)
    requires
        node < doc@.len(),
    ensures
        match r {
            Some(p) => p < doc@.len() && first_tagged(doc@, children_of(doc@, node as int), "proto"@) == Some(
                p as int,
            ),
            None => first_tagged(doc@, children_of(doc@, node as int), "proto"@) is None,
        },
{
    let kids = doc.children(node);
    let ghost ks = children_of(doc@, node as int);
    let mut j: usize = 0;
    assert(ks.skip(0) =~= ks);
    while j < kids.len()
        invariant
            j <= kids.len(),
            ks == children_of(doc@, node as int),
            kids@.map_values(|x: usize| x as int) == ks,
            forall|m: int| 0 <= m < kids@.len() ==> (#[trigger] kids@[m]) < doc@.len(),
            first_tagged(doc@, ks, "proto"@) == first_tagged(doc@, ks.skip(j as int), "proto"@),
        decreases kids.len() - j,
    {
        let child = kids[j];
        assert(ks[j as int] == child as int);
        assert(ks.skip(j as int)[0] == child as int);
        assert(ks.skip(j as int).drop_first() =~= ks.skip(j + 1));
        if doc.has_tag_name(child, "proto") {
            return Some(child);
        }
        j += 1;
    }
    assert(ks.skip(j as int) =~= Seq::<int>::empty());
    None
}

/// The parameters of the `<param>` children of `node`, each name once.
fn read_params(doc: &XmlDocument, node: usize) -> (r: Vec<Param>)
    requires
        node < doc@.len(),
    ensures
        r@.map_values(|p: Param| p@) == params_from(doc@, children_of(doc@, node as int), Seq::empty()).0,
{
    let mut other_params = string_set_new();
    let mut params: Vec<Param> = Vec::new();
    let kids = doc.children(node);
    let ghost ks = children_of(doc@, node as int);
    let mut j: usize = 0;
    assert(ks.take(0) =~= Seq::<int>::empty());
    assert(params@.map_values(|p: Param| p@) =~= Seq::<ParamModel>::empty());
    while j < kids.len()
        invariant
            j <= kids.len(),
            ks == children_of(doc@, node as int),
            kids@.map_values(|x: usize| x as int) == ks,
            forall|m: int| 0 <= m < kids@.len() ==> (#[trigger] kids@[m]) < doc@.len(),
            params_from(doc@, ks.take(j as int), Seq::empty()) == (
                params@.map_values(|p: Param| p@),
                string_set_entries(other_params),
            ),
        decreases kids.len() - j,
    {
        let child = kids[j];
        assert(ks[j as int] == child as int);
        assert(ks.take(j + 1).drop_last() =~= ks.take(j as int));
        assert(ks.take(j + 1).last() == child as int);
        if doc.has_tag_name(child, "param") {
            let ghost before = params@.map_values(|p: Param| p@);
            if let Some(p) = parse_param(doc, child, &mut other_params) {
                params.push(p);
                assert(params@.map_values(|p: Param| p@) =~= before.push(param_spec(doc@, child as int)));
            }
        }
        j += 1;
    }
    assert(ks.take(j as int) =~= ks);
    params
}

/// A comma-separated attribute value as a list; empty when missing.
fn comma_list_exec(o: Option<&str>) -> (r: Vec<String>)
    ensures
        strings_view(r@) == comma_list(
            match o {
                Some(s) => Some(s@),
                None => None,
            },
        ),
{
    match o {
        Some(s) => split_char_exec(s, ','),
        None => Vec::new(),
    }
}

/// The command a `<command>` element defines.
fn read_command(doc: &XmlDocument, node: usize) -> (r: Option<VkCommand>)
    requires
        node < doc@.len(),
    ensures
        match r {
            Some(c) => command_spec(doc@, node as int) == Some(c@),
            None => command_spec(doc@, node as int) is None,
        },
{
    if let Some(alias) = doc.attribute(node, "alias") {
        let name = match doc.attribute(node, "name") {
            Some(n) => n.to_string(),
            None => String::new(),
        };
        if str_eq(name.as_str(), "") {
            proof {
                reveal_strlit("");
            }
            return None;
        }
        let ghost nm = name@;
        let cmd = VkCommand {
            name,
            return_type: alias.to_string(),
            params: Vec::new(),
            target: None,
            alias: Some(alias.to_string()),
            success_codes: Vec::new(),
            error_codes: Vec::new(),
            version: None,
            extension: None,
            conditional_rendering: false,
            renderpass: None,
            queues: Vec::new(),
            cmd_buffer_level: String::new(),
            tasks: Vec::new(),
        };
        proof {
            reveal_strlit("");
            if nm.len() == 0 {
                assert(nm =~= ""@);
            }
            assert(cmd@ =~= command_spec(doc@, node as int)->Some_0);
        }
        return Some(cmd);
    }
    let proto = match find_proto(doc, node) {
        Some(p) => p,
        None => return None,
    };
    let (return_type, _base, name) = parse_member(doc, proto);
    if str_eq(name.as_str(), "") {
        proof {
            reveal_strlit("");
        }
        return None;
    }
    let params = read_params(doc, node);
    let target = if params.len() > 0 {
        Some(params[0].ty.clone())
    } else {
        None
    };
    let conditional_rendering = match doc.attribute(node, "conditionalrendering") {
        Some(v) => str_eq(v, "true"),
        None => false,
    };
    let cmd_buffer_level = match doc.attribute(node, "cmdbufferlevel") {
        Some(v) => v.to_string(),
        None => String::new(),
    };
    let cmd = VkCommand {
        name,
        return_type,
        params,
        target,
        alias: None,
        success_codes: comma_list_exec(doc.attribute(node, "successcodes")),
        error_codes: comma_list_exec(doc.attribute(node, "errorcodes")),
        version: None,
        extension: None,
        conditional_rendering,
        renderpass: opt_string(doc.attribute(node, "renderpass")),
        queues: comma_list_exec(doc.attribute(node, "queues")),
        cmd_buffer_level,
        tasks: comma_list_exec(doc.attribute(node, "tasks")),
    };
    proof {
        reveal_strlit("");
        if cmd.name@.len() == 0 {
            assert(cmd.name@ =~= ""@);
        }
        reveal_strlit("true");
        assert(Seq::<char>::empty() != "true"@) by {
            assert("true"@.len() == 4);
        }
        assert(cmd@ =~= command_spec(doc@, node as int)->Some_0);
    }
    Some(cmd)
}

/// Reads the `<commands>` element: every `<command>` child that defines a
/// command is recorded under its name.
pub fn parse_into(doc: &XmlDocument, node: usize, reg: &mut Registry)
    requires
        node < doc@.len(),
    ensures
        command_map_entries(final(reg).commands) == commands_from(
            doc@,
            children_of(doc@, node as int),
            command_map_entries(old(reg).commands),
        ),
        final(reg).types == old(reg).types,
        final(reg).enums == old(reg).enums,
        final(reg).constants == old(reg).constants,
        final(reg).extensions == old(reg).extensions,
        final(reg).features == old(reg).features,
        final(reg).stypes == old(reg).stypes,
{
    let ghost c0 = command_map_entries(reg.commands);
    let kids = doc.children(node);
    let ghost ks = children_of(doc@, node as int);
    let mut j: usize = 0;
    assert(ks.take(0) =~= Seq::<int>::empty());
    while j < kids.len()
        invariant
            j <= kids.len(),
            ks == children_of(doc@, node as int),
            kids@.map_values(|x: usize| x as int) == ks,
            forall|m: int| 0 <= m < kids@.len() ==> (#[trigger] kids@[m]) < doc@.len(),
            command_map_entries(reg.commands) == commands_from(doc@, ks.take(j as int), c0),
            reg.types == old(reg).types,
            reg.enums == old(reg).enums,
            reg.constants == old(reg).constants,
            reg.extensions == old(reg).extensions,
            reg.features == old(reg).features,
            reg.stypes == old(reg).stypes,
        decreases kids.len() - j,
    {
        let child = kids[j];
        assert(ks[j as int] == child as int);
        assert(ks.take(j + 1).drop_last() =~= ks.take(j as int));
        assert(ks.take(j + 1).last() == child as int);
        if doc.has_tag_name(child, "command") {
            if let Some(cmd) = read_command(doc, child) {
                reg.add_command(cmd);
            }
        }
        j += 1;
    }
    assert(ks.take(j as int) =~= ks);
}

} // verus!
