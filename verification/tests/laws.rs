use indexmap::IndexMap;
use pyronyx_gen::codegen::bitflags::{
    enum_name_to_screaming_prefix, split_vendor_suffix, to_binary_literal, value_to_const_name,
};
use pyronyx_gen::codegen::constants::infer_type;
use pyronyx_gen::codegen::enums::variant_name;
use pyronyx_gen::parse::enums::{infer_constant_type, rust_constant_value};
use pyronyx_gen::parse::registry::{Registry, TypeKind, VkType};

#[test]
fn vendor_split_rejoins_to_the_name() {
    for name in ["INDIRECT_COMMAND_READ_BIT_KHR", "FOO_NVX", "FOO_NV", "PLAIN", "", "KHR"] {
        let (base, vendor) = split_vendor_suffix(name);
        assert_eq!(format!("{}{}", base, vendor), name);
        assert_eq!(vendor, vendor.to_uppercase());
    }
    assert_eq!(split_vendor_suffix("FOO_NVX"), ("FOO_", "NVX"));
    assert_eq!(split_vendor_suffix("FOO_NV"), ("FOO_", "NV"));
}

#[test]
fn binary_literals_read_back_as_their_value() {
    for v in [1u32, 2, 15, 16, 255, 256, 0x8000_0000, u32::MAX, 12345] {
        let lit = to_binary_literal(v);
        let digits: String = lit.strip_prefix("0b").unwrap().chars().filter(|&c| c != '_').collect();
        assert_eq!(u32::from_str_radix(&digits, 2).unwrap(), v);
        let groups: Vec<&str> = lit[2..].split('_').collect();
        assert!(groups[1..].iter().all(|g| g.len() == 4));
        assert!((1..=4).contains(&groups[0].len()));
    }
    assert_eq!(to_binary_literal(0), "0");
}

#[test]
fn value_prefixes_end_in_one_underscore() {
    for name in ["VkFormat", "VkAccessFlagBits2KHR", "VkClusterAccelerationStructureOpModeNV", "Vk_"] {
        let p = enum_name_to_screaming_prefix(name);
        assert!(p.ends_with('_'));
        assert!(!p.ends_with("__"));
    }
}

#[test]
fn registry_tables_read_back_what_was_written() {
    let mut reg = Registry::new();
    reg.add_type(VkType { name: "VkA".to_string(), kind: TypeKind::Other });
    reg.add_type(VkType { name: "VkB".to_string(), kind: TypeKind::Other });
    reg.add_type(VkType {
        name: "VkA".to_string(),
        kind: TypeKind::Bitmask { bits_enum: None, repr: "Flags".to_string() },
    });
    let keys: Vec<&str> = reg.types.keys().map(|k| k.as_str()).collect();
    assert_eq!(keys, vec!["VkA", "VkB"]);
    assert!(matches!(reg.types["VkA"].kind, TypeKind::Bitmask { .. }));
    assert!(matches!(reg.types["VkB"].kind, TypeKind::Other));
}

#[test]
fn enum_and_bitflag_code_name_values_alike() {
    let mut types: IndexMap<String, (String, bool)> = IndexMap::new();
    types.insert("vkaccess".to_string(), ("VkAccess".to_string(), false));
    for (e, v) in [
        ("VkImageLayout", "VK_IMAGE_LAYOUT_GENERAL"),
        ("VkAccessFlagBits", "VK_ACCESS_INDEX_READ_BIT_KHR"),
        ("VkAccessFlagBits2KHR", "VK_ACCESS_2_NONE_KHR"),
        ("VkFormat", "VK_FORMAT_ASTC_4x4_UNORM_BLOCK"),
    ] {
        assert_eq!(variant_name(e, v, &mut types), value_to_const_name(e, v));
    }
    assert!(!types["vkaccess"].1);
}

#[test]
fn written_constant_types_match_recorded_ones() {
    for r in ["(~0U)", "(~0ULL)", "(~0U-1)", "(~0U-2)", "256", "0", "5ULL", "1000.0f", "3.f"] {
        assert_eq!(infer_type(&rust_constant_value(r)), infer_constant_type(r), "{r}");
    }
}

#[test]
fn vendor_suffix_carries_into_constant_names() {
    for (e, n) in [
        ("VkAccessFlagBits", "VK_ACCESS_INDEX_READ_BIT"),
        ("VkImageLayout", "VK_IMAGE_LAYOUT_PRESENT_SRC"),
        ("VkFormat", "VK_FORMAT_ASTC_4x4_SFLOAT_BLOCK"),
    ] {
        let with = format!("{n}_KHR");
        assert_eq!(value_to_const_name(e, &with), format!("{}KHR", value_to_const_name(e, n)));
    }
    let e = "VkClusterAccelerationStructureOpModeNV";
    let n = "VK_CLUSTER_ACCELERATION_STRUCTURE_OP_MODE_IMPLICIT_DESTINATIONS";
    assert_eq!(value_to_const_name(e, &format!("{n}_NV")), value_to_const_name(e, n));
}

#[test]
fn enum_vendor_suffix_leaves_value_prefix_alone() {
    for name in ["VkClusterAccelerationStructureOpMode", "VkImageLayout", "VkPresentMode"] {
        let p = enum_name_to_screaming_prefix(name);
        assert_eq!(p, p.to_uppercase());
        for tag in ["KHR", "EXT", "NV", "NVX", "AMD", "QCOM"] {
            assert_eq!(enum_name_to_screaming_prefix(&format!("{name}{tag}")), p);
        }
    }
    assert_eq!(
        enum_name_to_screaming_prefix("VkClusterAccelerationStructureOpModeNV"),
        "VK_CLUSTER_ACCELERATION_STRUCTURE_OP_MODE_"
    );
}
