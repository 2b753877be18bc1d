use indexmap::{IndexMap, IndexSet};
use pyronyx_gen::codegen::bitflags::generate as generate_bitflags;
use pyronyx_gen::codegen::bitflags_debug::generate as generate_display;
use pyronyx_gen::codegen::commands::{
    fn_field, fn_sig, is_cmd_command, is_device_command, is_instance_command,
    is_physical_device_command, is_queue_command, version_const_name, write_dispatch_table,
};
use pyronyx_gen::codegen::constants::{generate as generate_constants, infer_type, parse_bitnot_expr, to_rust_value};
use pyronyx_gen::codegen::enums::{generate as generate_enums, variant_name};
use pyronyx_gen::codegen::extensions::{
    extension_folders, extension_has_vendor, extension_module_name, move_digits_to_end as module_name,
};
use pyronyx_gen::codegen::{file_header, Writer};
use pyronyx_gen::parse::commands::Param;
use pyronyx_gen::parse::registry::{
    Extension, Registry, TypeKind, VkCommand, VkConstant, VkEnum, VkEnumValue, VkType,
};

fn value(name: &str, v: i64, comment: Option<&str>) -> VkEnumValue {
    VkEnumValue { name: name.to_string(), value: v, comment: comment.map(str::to_string), extension: None }
}

fn bitmask_type(name: &str, bits: Option<&str>, repr: &str) -> VkType {
    VkType {
        name: name.to_string(),
        kind: TypeKind::Bitmask { bits_enum: bits.map(str::to_string), repr: repr.to_string() },
    }
}

fn command_with_first(ty: Option<&str>) -> VkCommand {
    let params = match ty {
        Some(t) => vec![Param {
            name: "h".to_string(),
            ty: t.to_string(),
            optional: false,
            len: None,
            pointer_depth: 0,
            is_const: false,
        }],
        None => vec![],
    };
    VkCommand {
        name: "vkDoIt".to_string(),
        return_type: "c_void".to_string(),
        params,
        target: None,
        alias: None,
        success_codes: vec![],
        error_codes: vec![],
        version: None,
        extension: None,
        conditional_rendering: false,
        renderpass: None,
        queues: vec![],
        cmd_buffer_level: String::new(),
        tasks: vec![],
    }
}

fn extension(name: &str, disabled: bool) -> Extension {
    Extension {
        name: name.to_string(),
        number: 1,
        spec_version: 1,
        requires: vec![],
        require_blocks: vec![],
        deprecated_by: None,
        disabled,
        typ: String::new(),
    }
}

#[test]
fn writer_renders_each_line_with_a_newline() {
    let mut w = Writer::new();
    assert_eq!(w.len(), 0);
    w.ln("a");
    w.blank();
    w.ln("b");
    assert_eq!(w.len(), 3);
    assert_eq!(w.into_string(), "a\n\nb\n");
    assert_eq!(Writer::new().into_string(), "");
}

#[test]
fn file_header_opens_with_a_banner() {
    let mut w = Writer::new();
    file_header(&mut w, "vk/x.rs");
    assert_eq!(w.len(), 4);
    let text = w.into_string();
    let lines: Vec<&str> = text.lines().collect();
    assert_eq!(lines[0], format!("// {}", "!".repeat(63)));
    assert_eq!(lines[3], lines[0]);
    assert!(lines[1].ends_with(" \u{2014} vk/x.rs"));
    assert_eq!(lines[2], "// Do not Edit! Execute `cargo run pyronyx-gen`");
}

#[test]
fn dispatch_field_names() {
    assert_eq!(fn_field("vkCreateInstance"), "create_instance");
    assert_eq!(fn_field("vkCmdDrawIndexed"), "draw_indexed");
    assert_eq!(fn_field("vkGetInstanceProcAddr"), "get_instance_proc_addr");
    assert_eq!(fn_field("InstanceFn"), "instance");
}

#[test]
fn method_names_drop_handle_and_vendor() {
    assert_eq!(fn_sig("vkCreateDevice", "Device"), "create");
    assert_eq!(fn_sig("vkAllocateMemory", "Device"), "allocate_memory");
    assert_eq!(fn_sig("vkCmdDrawIndirectCountKHR", "CommandBuffer"), "draw_indirect_count");
    assert_eq!(fn_sig("vkQueueSubmit", "Queue"), "submit");
}

#[test]
fn version_constants() {
    assert_eq!(version_const_name("v1_2"), "API_VERSION_1_2");
    assert_eq!(version_const_name("1_3"), "API_VERSION_1_3");
}

#[test]
fn commands_by_first_parameter() {
    assert!(is_instance_command(&command_with_first(Some("vkInstance"))));
    assert!(is_physical_device_command(&command_with_first(Some("vkPhysicalDevice"))));
    assert!(is_device_command(&command_with_first(Some("vkDevice"))));
    assert!(is_queue_command(&command_with_first(Some("vkQueue"))));
    assert!(is_cmd_command(&command_with_first(Some("vkCommandBuffer"))));
    assert!(!is_device_command(&command_with_first(Some("vkQueue"))));
    assert!(!is_instance_command(&command_with_first(None)));
}

#[test]
fn dispatch_table_lines() {
    let mut groups = IndexSet::new();
    groups.insert("InstanceFn".to_string());
    groups.insert("PhysicalDeviceFn".to_string());
    let mut w = Writer::new();
    write_dispatch_table(&mut w, "InstanceVTable", groups);
    let text = w.into_string();
    assert!(text.starts_with("#[derive(Clone)]\npub struct InstanceVTable {\n"));
    assert!(text.contains("    pub instance: InstanceFn,\n    pub physical_device: PhysicalDeviceFn,\n}\n\n"));
    assert!(text.contains("physical_device: PhysicalDeviceFn::load(&mut loader, api_version, extensions),\n"));
    assert!(text.ends_with("        }\n    }\n}\n\n"));
}

#[test]
fn constant_types() {
    assert_eq!(infer_type("1000.0F"), "f32");
    assert_eq!(infer_type("2.5"), "f32");
    assert_eq!(infer_type("(~0ULL)"), "u64");
    assert_eq!(infer_type("(~0U-1)"), "u32");
    assert_eq!(infer_type("5ULL"), "u64");
    assert_eq!(infer_type("0x123456789"), "u64");
    assert_eq!(infer_type("0x12345678"), "u32");
    assert_eq!(infer_type("7u64"), "u64");
    assert_eq!(infer_type(" 3 "), "u32");
}

#[test]
fn bit_inversions_in_rust_syntax() {
    assert_eq!(parse_bitnot_expr("0U"), "!0u32");
    assert_eq!(parse_bitnot_expr("0ULL"), "!0u64");
    assert_eq!(parse_bitnot_expr("2U"), "!2u32");
    assert_eq!(parse_bitnot_expr("2ULL"), "!2u64");
    assert_eq!(parse_bitnot_expr("0U-1"), "!0u32 - 1");
    assert_eq!(parse_bitnot_expr("0U-2"), "!0u32 - 2");
    assert_eq!(parse_bitnot_expr("0U-x"), "!0u32 - 0");
    assert_eq!(parse_bitnot_expr("0"), "!0");
}

#[test]
fn constant_values_in_rust_syntax() {
    assert_eq!(to_rust_value("(~0U)"), "!0u32");
    assert_eq!(to_rust_value("(~0ULL)"), "!0u64");
    assert_eq!(to_rust_value("(~0U-2)"), "!0u32 - 2");
    assert_eq!(to_rust_value("1000.0F"), "1000.0");
    assert_eq!(to_rust_value("5ULL"), "5");
    assert_eq!(to_rust_value("7u32"), "7");
    assert_eq!(to_rust_value("3UL"), "3");
    assert_eq!(to_rust_value("4U"), "4");
    assert_eq!(to_rust_value("0xAB"), "0xab");
    assert_eq!(to_rust_value(" 12 "), "12");
}

#[test]
fn constants_file() {
    let mut reg = Registry::new();
    reg.constants.push(VkConstant {
        name: "VK_MAX_EXTENSION_NAME_SIZE".to_string(),
        ty: "u32".to_string(),
        value: "256".to_string(),
        comment: Some("c".to_string()),
    });
    reg.constants.push(VkConstant {
        name: "VK_REMAINING_MIP_LEVELS".to_string(),
        ty: "u32".to_string(),
        value: "(~0U)".to_string(),
        comment: None,
    });
    reg.constants.push(VkConstant {
        name: "VK_LOD_CLAMP_NONE".to_string(),
        ty: "f32".to_string(),
        value: "1000.0F".to_string(),
        comment: None,
    });
    let text = generate_constants(&reg);
    let mut header = Writer::new();
    file_header(&mut header, "vk/constants.rs");
    assert!(text.starts_with(&header.into_string()));
    assert!(text.contains("pub const API_VERSION_1_4: u32 = make_api_version(0, 1, 4, 0);\n\n"));
    assert!(text.contains("pub const fn api_version_patch(version: u32) -> u32 {\n    (version) & 0xfffu32\n}\n"));
    assert!(text.ends_with(
        "/// c\npub const MAX_EXTENSION_NAME_SIZE: u32 = 256;\n\
         pub const REMAINING_MIP_LEVELS: u32 = !0u32;\n\
         pub const LOD_CLAMP_NONE: f32 = 1000.0;\n"
    ));
}

fn access_registry() -> Registry {
    let mut reg = Registry::new();
    reg.add_type(bitmask_type("VkAccessFlags", Some("VkAccessFlagBits"), "Flags"));
    reg.add_type(bitmask_type("VkFooFlags", None, "Flags64"));
    reg.add_type(bitmask_type("VkBarFlags", Some("VkBarFlagBits"), "Flags"));
    reg.add_type(VkType { name: "VkThing".to_string(), kind: TypeKind::Other });
    reg.add_enum(VkEnum {
        name: "VkAccessFlagBits".to_string(),
        is_bitmask: true,
        bitwidth_64: false,
        values: vec![
            value("VK_ACCESS_INDIRECT_COMMAND_READ_BIT", 1, Some("c")),
            value("VK_ACCESS_INDEX_READ_BIT", 2, None),
            value("VK_ACCESS_INDEX_READ_BIT", 4, None),
            value("VK_ACCESS_NONE", 0, None),
        ],
    });
    reg
}

#[test]
fn bitflags_file() {
    let reg = access_registry();
    let mut w = Writer::new();
    file_header(&mut w, "vk/bitflags.rs");
    w.ln("#![allow(non_upper_case_globals)]");
    w.ln("use crate::{vk::types::{Flags, Flags64}, vk_bitflags_wrapped};");
    w.blank();
    w.ln("/// <https://docs.vulkan.org/refpages/latest/refpages/source/VkAccessFlagBits.html>");
    w.ln("#[repr(transparent)]");
    w.ln("#[derive(Clone, Copy, Hash, PartialEq, Eq)]");
    w.ln("pub struct AccessFlagBits(pub(crate) Flags);");
    w.ln("vk_bitflags_wrapped!(AccessFlagBits, Flags);");
    w.blank();
    w.ln("impl AccessFlagBits {");
    w.ln("/// c");
    w.ln("pub const IndirectCommandRead: Self = Self(0b1);");
    w.ln("pub const IndexRead: Self = Self(0b10);");
    w.ln("pub const None: Self = Self(0);");
    w.ln("}");
    w.blank();
    w.ln("/// <https://docs.vulkan.org/refpages/latest/refpages/source/VkFooFlags.html>");
    w.ln("pub type FooFlags = Flags64;");
    w.blank();
    w.ln("/// <https://docs.vulkan.org/refpages/latest/refpages/source/VkBarFlags.html>");
    w.ln("pub type BarFlags = Flags;");
    w.blank();
    assert_eq!(generate_bitflags(&reg), w.into_string());
}

#[test]
fn display_impls_for_bitflags() {
    let mut reg = access_registry();
    reg.add_enum(VkEnum {
        name: "VkBarFlagBits".to_string(),
        is_bitmask: true,
        bitwidth_64: false,
        values: vec![],
    });
    let text = generate_display(&reg);
    assert!(text.contains("use core::fmt::{Formatter, Debug, Display, Result};\n\nimpl Display for AccessFlagBits {\n"));
    assert!(text.contains(
        "        const BITS: &[(AccessFlagBits, &str)] = &[\n\
         \x20           (AccessFlagBits::IndirectCommandRead, \"IndirectCommandRead\"),\n\
         \x20           (AccessFlagBits::IndexRead, \"IndexRead\"),\n\
         \x20           (AccessFlagBits::None, \"None\"),\n\
         \x20       ];\n"
    ));
    assert!(text.contains("impl Display for BarFlagBits {\n    fn fmt(&self, f: &mut Formatter<'_>) -> Result {\n        f.write_str(\"0\")\n    }\n}\n"));
    assert!(text.contains("impl Debug for BarFlagBits {\n    fn fmt(&self, f: &mut Formatter<'_>) -> Result {\n        Display::fmt(self, f)\n    }\n}\n\n"));
    assert!(!text.contains("FooFlags"));
}

#[test]
fn variant_names_by_enum() {
    let mut types: IndexMap<String, (String, bool)> = IndexMap::new();
    types.insert("vkapplicationinfo".to_string(), ("VkApplicationInfo".to_string(), false));
    assert_eq!(variant_name("VkImageLayout", "VK_IMAGE_LAYOUT_GENERAL", &mut types), "General");
    assert_eq!(variant_name("VkFormat", "VK_FORMAT_R8G8B8A8_UNORM", &mut types), "R8G8B8A8Unorm");
    assert!(!types["vkapplicationinfo"].1);
    assert_eq!(
        variant_name("VkStructureType", "VK_STRUCTURE_TYPE_APPLICATION_INFO", &mut types),
        "ApplicationInfo"
    );
    assert!(types["vkapplicationinfo"].1);
    assert_eq!(
        variant_name("VkStructureType", "VK_STRUCTURE_TYPE_FOO_BAR_KHR", &mut types),
        "FooBarKHR"
    );
    assert_eq!(types.len(), 1);
}

#[test]
fn enums_file_marks_structure_types_and_writes_aliases() {
    let mut reg = Registry::new();
    reg.add_structure_type("vkapplicationinfo".to_string(), "VkApplicationInfo".to_string());
    reg.add_structure_type("vkunused".to_string(), "VkUnused".to_string());
    reg.add_enum(VkEnum {
        name: "VkStructureType".to_string(),
        is_bitmask: false,
        bitwidth_64: false,
        values: vec![
            value("VK_STRUCTURE_TYPE_APPLICATION_INFO", 0, None),
            value("VK_STRUCTURE_TYPE_FOO_BAR_KHR", 1_000_001_000, None),
        ],
    });
    reg.add_enum(VkEnum {
        name: "VkAccessFlagBits".to_string(),
        is_bitmask: true,
        bitwidth_64: false,
        values: vec![value("VK_ACCESS_A_BIT", 1, None)],
    });
    reg.add_enum(VkEnum {
        name: "VkResult".to_string(),
        is_bitmask: false,
        bitwidth_64: false,
        values: vec![
            value("VK_SUCCESS", 0, Some("ok")),
            value("VK_OK", 0, None),
            value("VK_NOT_READY", 1, None),
        ],
    });
    let text = generate_enums(&mut reg);

    let mut w = Writer::new();
    file_header(&mut w, "vk/enums.rs");
    w.ln("#![allow(non_camel_case_types)]");
    w.blank();
    w.ln("/// <https://docs.vulkan.org/refpages/latest/refpages/source/VkStructureType.html>");
    w.ln("#[repr(C)]");
    w.ln("#[derive(Clone, Copy, Debug, Default, Hash, PartialEq, Eq)]");
    w.ln("pub enum StructureType {");
    w.ln("#[default]");
    w.ln("ApplicationInfo = 0,");
    w.ln("FooBarKHR = 1000001000,");
    w.ln("}");
    w.blank();
    w.blank();
    w.ln("/// <https://docs.vulkan.org/refpages/latest/refpages/source/VkResult.html>");
    w.ln("#[repr(C)]");
    w.ln("#[derive(Clone, Copy, Debug, Default, Hash, PartialEq, Eq)]");
    w.ln("pub enum Result {");
    w.ln("/// ok");
    w.ln("#[default]");
    w.ln("Success = 0,");
    w.ln("NotReady = 1,");
    w.ln("}");
    w.blank();
    w.ln("impl Result {\n    #[allow(non_upper_case_globals)]\n    pub const Success: Result = Result::Ok;\n}");
    w.ln("impl Result {\n    #[allow(non_upper_case_globals)]\n    pub const Ok: Result = Result::Success;\n}");
    w.blank();
    assert_eq!(text, w.into_string());

    let flags: Vec<(&str, bool)> =
        reg.stypes.iter().map(|(k, v)| (k.as_str(), v.1)).collect();
    assert_eq!(flags, vec![("vkapplicationinfo", true), ("vkunused", false)]);
}

#[test]
fn extension_module_names() {
    assert_eq!(module_name("8bit_storage"), "bit_storage_8");
    assert_eq!(module_name("16bit_storage"), "bit_storage_16");
    assert_eq!(module_name("maintenance1"), "maintenance1");
    assert_eq!(module_name("42"), "42");
    assert_eq!(module_name(""), "");
    assert_eq!(extension_module_name("VK_KHR_8bit_storage"), "bit_storage_8");
    assert_eq!(extension_module_name("VK_EXT_debug_utils"), "debug_utils");
    assert!(extension_has_vendor("VK_EXT_debug_utils"));
    assert!(!extension_has_vendor("VK_EXTdebug"));
    assert!(!extension_has_vendor("VK_"));
}

#[test]
fn extensions_are_filed_by_vendor() {
    let mut reg = Registry::new();
    reg.extensions.push(extension("VK_KHR_surface", false));
    reg.extensions.push(extension("VK_EXT_debug_utils", false));
    reg.extensions.push(extension("VK_NV_disabled_thing", true));
    reg.extensions.push(extension("VK_KHR_swapchain", false));
    let folders = extension_folders(&reg);
    let got: Vec<(&str, Vec<&str>)> = folders
        .iter()
        .map(|(k, v)| (k.as_str(), v.iter().map(|s| s.as_str()).collect()))
        .collect();
    assert_eq!(
        got,
        vec![("KHR", vec!["VK_KHR_surface", "VK_KHR_swapchain"]), ("EXT", vec!["VK_EXT_debug_utils"])]
    );
}
