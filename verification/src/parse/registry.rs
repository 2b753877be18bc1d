//! The registry's data, as the parsers fill it and the generators read it.
use crate::parse::commands::{Param, ParamModel};
use crate::parse::tables::{command_map_entries, command_map_insert, command_map_new, entries_insert, enum_map_entries, enum_map_insert, enum_map_new, stype_map_entries, stype_map_insert, stype_map_new, type_map_entries, type_map_insert, type_map_new};
use indexmap::{IndexMap, IndexSet};
use vstd::prelude::*;

verus! {

/// An optional string by its characters.
pub open spec fn opt_view(o: Option<String>) -> Option<Seq<char>> {
    match o {
        Some(s) => Some(s@),
        None => None,
    }
}

/// A list of strings by their characters.
pub open spec fn strings_view(v: Seq<String>) -> Seq<Seq<char>> {
    v.map_values(|s: String| s@)
}

// ---------------------------------------------------------------------------
// Commands
// ---------------------------------------------------------------------------

/// A command of the registry.
pub struct VkCommand {
    pub name: String,
    pub return_type: String,
    pub params: Vec<Param>,
    /// The type of the first parameter (`None` without parameters): the
    /// handle type whose method the command becomes.
    pub target: Option<String>,
    pub alias: Option<String>,
    pub success_codes: Vec<String>,
    pub error_codes: Vec<String>,
    pub version: Option<String>,
    pub extension: Option<String>,
    pub conditional_rendering: bool,
    /// The `renderpass` attribute as written: whether the command may be
    /// recorded inside a render pass (`None` when the registry says nothing).
    pub renderpass: Option<String>,
    pub queues: Vec<String>,
    pub cmd_buffer_level: String,
    /// The `tasks` attribute, split at `,`: the kinds of work the command does.
    pub tasks: Vec<String>,
}

/// A command as the contracts see it.
#[verifier::ext_equal]
pub struct CommandModel {
    pub name: Seq<char>,
    pub return_type: Seq<char>,
    pub params: Seq<ParamModel>,
    pub target: Option<Seq<char>>,
    pub alias: Option<Seq<char>>,
    pub success_codes: Seq<Seq<char>>,
    pub error_codes: Seq<Seq<char>>,
    pub version: Option<Seq<char>>,
    pub extension: Option<Seq<char>>,
    pub conditional_rendering: bool,
    pub renderpass: Option<Seq<char>>,
    pub queues: Seq<Seq<char>>,
    pub cmd_buffer_level: Seq<char>,
    pub tasks: Seq<Seq<char>>,
}

impl View for VkCommand {
    type V = CommandModel;

    open spec fn view(&self) -> CommandModel {
        CommandModel {
            name: self.name@,
            return_type: self.return_type@,
            params: self.params@.map_values(|p: Param| p@),
            target: opt_view(self.target),
            alias: opt_view(self.alias),
            success_codes: strings_view(self.success_codes@),
            error_codes: strings_view(self.error_codes@),
            version: opt_view(self.version),
            extension: opt_view(self.extension),
            conditional_rendering: self.conditional_rendering,
            renderpass: opt_view(self.renderpass),
            queues: strings_view(self.queues@),
            cmd_buffer_level: self.cmd_buffer_level@,
            tasks: strings_view(self.tasks@),
        }
    }
}

// ---------------------------------------------------------------------------
// Enums
// ---------------------------------------------------------------------------

/// A value of an enum, with its value already resolved.
pub struct VkEnumValue {
    pub name: String,
    pub value: i64,
    pub comment: Option<String>,
    pub extension: Option<String>,
}

/// An enum value as the contracts see it.
pub struct EnumValueModel {
    pub name: Seq<char>,
    pub value: i64,
    pub comment: Option<Seq<char>>,
    pub extension: Option<Seq<char>>,
}

impl View for VkEnumValue {
    type V = EnumValueModel;

    open spec fn view(&self) -> EnumValueModel {
        EnumValueModel {
            name: self.name@,
            value: self.value,
            comment: opt_view(self.comment),
            extension: opt_view(self.extension),
        }
    }
}

/// An enum or bitmask enum of the registry.
pub struct VkEnum {
    pub name: String,
    pub is_bitmask: bool,
    pub bitwidth_64: bool,
    pub values: Vec<VkEnumValue>,
}

/// An enum as the contracts see it.
pub struct EnumModel {
    pub name: Seq<char>,
    pub is_bitmask: bool,
    pub bitwidth_64: bool,
    pub values: Seq<EnumValueModel>,
}

impl View for VkEnum {
    type V = EnumModel;

    open spec fn view(&self) -> EnumModel {
        EnumModel {
            name: self.name@,
            is_bitmask: self.is_bitmask,
            bitwidth_64: self.bitwidth_64,
            values: self.values@.map_values(|v: VkEnumValue| v@),
        }
    }
}

// ---------------------------------------------------------------------------
// Types
// ---------------------------------------------------------------------------

/// What kind of type a registry type is, as far as the generators need it.
pub enum TypeKind {
    /// A flags type, with the enum that names its bits and its integer type.
    Bitmask { bits_enum: Option<String>, repr: String },
    Other,
}

/// A type kind as the contracts see it.
pub enum TypeKindModel {
    Bitmask { bits_enum: Option<Seq<char>>, repr: Seq<char> },
    Other,
}

impl View for TypeKind {
    type V = TypeKindModel;

    open spec fn view(&self) -> TypeKindModel {
        match self {
            TypeKind::Bitmask { bits_enum, repr } => TypeKindModel::Bitmask {
                bits_enum: opt_view(*bits_enum),
                repr: repr@,
            },
            TypeKind::Other => TypeKindModel::Other,
        }
    }
}

/// A type of the registry.
pub struct VkType {
    pub name: String,
    pub kind: TypeKind,
}

/// A type as the contracts see it.
pub struct TypeModel {
    pub name: Seq<char>,
    pub kind: TypeKindModel,
}

impl View for VkType {
    type V = TypeModel;

    open spec fn view(&self) -> TypeModel {
        TypeModel { name: self.name@, kind: self.kind@ }
    }
}

// ---------------------------------------------------------------------------
// Constants, features and extensions
// ---------------------------------------------------------------------------

/// A constant of the registry, with its Rust type and value spelling.
pub struct VkConstant {
    pub name: String,
    pub ty: String,
    pub value: String,
    pub comment: Option<String>,
}

/// A constant as the contracts see it.
pub struct ConstantModel {
    pub name: Seq<char>,
    pub ty: Seq<char>,
    pub value: Seq<char>,
    pub comment: Option<Seq<char>>,
}

impl View for VkConstant {
    type V = ConstantModel;

    open spec fn view(&self) -> ConstantModel {
        ConstantModel {
            name: self.name@,
            ty: self.ty@,
            value: self.value@,
            comment: opt_view(self.comment),
        }
    }
}

/// A core API version and what it requires.
pub struct Feature {
    pub name: String,
    pub version: Option<String>,
    pub required_types: Vec<String>,
    pub required_commands: Vec<String>,
}

/// A feature as the contracts see it.
pub struct FeatureModel {
    pub name: Seq<char>,
    pub version: Option<Seq<char>>,
    pub required_types: Seq<Seq<char>>,
    pub required_commands: Seq<Seq<char>>,
}

impl View for Feature {
    type V = FeatureModel;

    open spec fn view(&self) -> FeatureModel {
        FeatureModel {
            name: self.name@,
            version: opt_view(self.version),
            required_types: strings_view(self.required_types@),
            required_commands: strings_view(self.required_commands@),
        }
    }
}

/// One `<require>` block of an extension.
pub struct RequireBlock {
    pub feature_guard: Option<String>,
    pub types: Vec<String>,
    pub commands: Vec<String>,
}

/// A `<require>` block as the contracts see it.
pub struct RequireBlockModel {
    pub feature_guard: Option<Seq<char>>,
    pub types: Seq<Seq<char>>,
    pub commands: Seq<Seq<char>>,
}

impl View for RequireBlock {
    type V = RequireBlockModel;

    open spec fn view(&self) -> RequireBlockModel {
        RequireBlockModel {
            feature_guard: opt_view(self.feature_guard),
            types: strings_view(self.types@),
            commands: strings_view(self.commands@),
        }
    }
}

/// An extension of the registry.
pub struct Extension {
    pub name: String,
    pub number: i64,
    pub spec_version: u32,
    pub requires: Vec<String>,
    pub require_blocks: Vec<RequireBlock>,
    pub deprecated_by: Option<String>,
    pub disabled: bool,
    pub typ: String,
}

/// An extension as the contracts see it.
pub struct ExtensionModel {
    pub name: Seq<char>,
    pub number: i64,
    pub spec_version: u32,
    pub requires: Seq<Seq<char>>,
    pub require_blocks: Seq<RequireBlockModel>,
    pub deprecated_by: Option<Seq<char>>,
    pub disabled: bool,
    pub typ: Seq<char>,
}

impl View for Extension {
    type V = ExtensionModel;

    open spec fn view(&self) -> ExtensionModel {
        ExtensionModel {
            name: self.name@,
            number: self.number,
            spec_version: self.spec_version,
            requires: strings_view(self.requires@),
            require_blocks: self.require_blocks@.map_values(|b: RequireBlock| b@),
            deprecated_by: opt_view(self.deprecated_by),
            disabled: self.disabled,
            typ: self.typ@,
        }
    }
}

// ---------------------------------------------------------------------------
// The registry
// ---------------------------------------------------------------------------

/// Everything read from the registry.
pub struct Registry {
    pub types: IndexMap<String, VkType>,
    pub enums: IndexMap<String, VkEnum>,
    pub commands: IndexMap<String, VkCommand>,
    pub constants: Vec<VkConstant>,
    pub extensions: Vec<Extension>,
    pub features: Vec<Feature>,
    /// Structure-type lookup: normalised key → (struct name, used).
    pub stypes: IndexMap<String, (String, bool)>,
}

impl Registry {
    /// An empty registry.
    pub fn new() -> (r: Registry)
        ensures
            type_map_entries(r.types) == Seq::<(Seq<char>, TypeModel)>::empty(),
            enum_map_entries(r.enums) == Seq::<(Seq<char>, EnumModel)>::empty(),
            command_map_entries(r.commands) == Seq::<(Seq<char>, CommandModel)>::empty(),
            r.constants@ == Seq::<VkConstant>::empty(),
            r.extensions@ == Seq::<Extension>::empty(),
            r.features@ == Seq::<Feature>::empty(),
            stype_map_entries(r.stypes) == Seq::<(Seq<char>, (Seq<char>, bool))>::empty(),
    {
        Registry {
            types: type_map_new(),
            enums: enum_map_new(),
            commands: command_map_new(),
            constants: Vec::new(),
            extensions: Vec::new(),
            features: Vec::new(),
            stypes: stype_map_new(),
        }
    }

    /// Records a type under its name; a type of the same name is replaced in place.
    pub fn add_type(&mut self, ty: VkType)
        ensures
            type_map_entries(final(self).types) == entries_insert(type_map_entries(old(self).types), ty.name@, ty@),
            final(self).enums == old(self).enums,
            final(self).commands == old(self).commands,
            final(self).constants == old(self).constants,
            final(self).extensions == old(self).extensions,
            final(self).features == old(self).features,
            final(self).stypes == old(self).stypes,
    {
        let name = ty.name.clone();
        type_map_insert(&mut self.types, name, ty);
    }

    /// Records the struct name for a structure-type key, not yet used.
    pub fn add_structure_type(&mut self, key: String, struct_name: String)
        ensures
            stype_map_entries(final(self).stypes) == entries_insert(
                stype_map_entries(old(self).stypes),
                key@,
                (struct_name@, false),
            ),
            final(self).types == old(self).types,
            final(self).enums == old(self).enums,
            final(self).commands == old(self).commands,
            final(self).constants == old(self).constants,
            final(self).extensions == old(self).extensions,
            final(self).features == old(self).features,
    {
        stype_map_insert(&mut self.stypes, key, (struct_name, false));
    }

    /// Records an enum under its name; an enum of the same name is replaced in place.
    pub fn add_enum(&mut self, en: VkEnum)
        ensures
            enum_map_entries(final(self).enums) == entries_insert(enum_map_entries(old(self).enums), en.name@, en@),
            final(self).types == old(self).types,
            final(self).commands == old(self).commands,
            final(self).constants == old(self).constants,
            final(self).extensions == old(self).extensions,
            final(self).features == old(self).features,
            final(self).stypes == old(self).stypes,
    {
        let name = en.name.clone();
        enum_map_insert(&mut self.enums, name, en);
    }

    /// Records a command under its name; a command of the same name is replaced in place.
    pub fn add_command(&mut self, cmd: VkCommand)
        ensures
            command_map_entries(final(self).commands) == entries_insert(
                command_map_entries(old(self).commands),
                cmd.name@,
                cmd@,
            ),
            final(self).types == old(self).types,
            final(self).enums == old(self).enums,
            final(self).constants == old(self).constants,
            final(self).extensions == old(self).extensions,
            final(self).features == old(self).features,
            final(self).stypes == old(self).stypes,
    {
        let name = cmd.name.clone();
        command_map_insert(&mut self.commands, name, cmd);
    }
}

/// A copy of a list of strings.
pub fn copy_strings(v: &Vec<String>) -> (r: Vec<String>)
    ensures
        strings_view(r@) == strings_view(v@),
{
    let mut r: Vec<String> = Vec::new();
    let mut i: usize = 0;
    while i < v.len()
        invariant
            i <= v.len(),
            strings_view(r@) == strings_view(v@.take(i as int)),
        decreases v.len() - i,
    {
        let ghost before = r@;
        r.push(v[i].clone());
        assert(strings_view(r@) =~= strings_view(before).push(v@[i as int]@));
        assert(strings_view(v@.take(i + 1)) =~= strings_view(v@.take(i as int)).push(v@[i as int]@));
        i += 1;
    }
    assert(v@.take(i as int) =~= v@);
    r
}

/// A copy of a list of parameters.
pub fn copy_params(v: &Vec<Param>) -> (r: Vec<Param>)
    ensures
        r@.map_values(|p: Param| p@) == v@.map_values(|p: Param| p@),
{
    let mut r: Vec<Param> = Vec::new();
    let mut i: usize = 0;
    while i < v.len()
        invariant
            i <= v.len(),
            r@.map_values(|p: Param| p@) == v@.take(i as int).map_values(|p: Param| p@),
        decreases v.len() - i,
    {
        let p = &v[i];
        let ghost before = r@;
        let len = match &p.len {
            Some(l) => Some(l.clone()),
            None => None,
        };
        r.push(
            Param {
                name: p.name.clone(),
                ty: p.ty.clone(),
                optional: p.optional,
                len,
                pointer_depth: p.pointer_depth,
                is_const: p.is_const,
            },
        );
        assert(r@.last()@ == p@);
        assert(r@.map_values(|p: Param| p@) =~= before.map_values(|p: Param| p@).push(p@));
        assert(v@.take(i + 1).map_values(|p: Param| p@) =~= v@.take(i as int).map_values(|p: Param| p@).push(
            v@[i as int]@,
        ));
        i += 1;
    }
    assert(v@.take(i as int) =~= v@);
    r
}

/// A copy of a command.
pub fn copy_command(c: &VkCommand) -> (r: VkCommand)
    ensures
        r@ == c@,
{
    let alias = match &c.alias {
        Some(a) => Some(a.clone()),
        None => None,
    };
    let version = match &c.version {
        Some(a) => Some(a.clone()),
        None => None,
    };
    let extension = match &c.extension {
        Some(a) => Some(a.clone()),
        None => None,
    };
    let target = match &c.target {
        Some(a) => Some(a.clone()),
        None => None,
    };
    let renderpass = match &c.renderpass {
        Some(a) => Some(a.clone()),
        None => None,
    };
    VkCommand {
        name: c.name.clone(),
        return_type: c.return_type.clone(),
        params: copy_params(&c.params),
        target,
        alias,
        success_codes: copy_strings(&c.success_codes),
        error_codes: copy_strings(&c.error_codes),
        version,
        extension,
        conditional_rendering: c.conditional_rendering,
        renderpass,
        queues: copy_strings(&c.queues),
        cmd_buffer_level: c.cmd_buffer_level.clone(),
        tasks: copy_strings(&c.tasks),
    }
}

} // verus!
