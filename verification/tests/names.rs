use pyronyx_gen::codegen::bitflags::{
    enum_name_to_screaming_prefix, move_digits_to_end, split_vendor_suffix, to_binary_literal,
    value_to_const_name,
};
use pyronyx_gen::codegen::enums::better_pascal_case;
use pyronyx_gen::codegen::{const_name, rust_name};

#[test]
fn value_names_drop_prefix_and_bit() {
    assert_eq!(
        value_to_const_name("VkAccessFlagBits", "VK_ACCESS_INDIRECT_COMMAND_READ_BIT"),
        "IndirectCommandRead"
    );
}

#[test]
fn value_names_keep_vendor_in_caps() {
    assert_eq!(
        value_to_const_name("VkAccessFlagBits", "VK_ACCESS_INDIRECT_COMMAND_READ_BIT_KHR"),
        "IndirectCommandReadKHR"
    );
}

#[test]
fn value_names_drop_vendor_of_vendor_enum() {
    assert_eq!(
        value_to_const_name(
            "VkClusterAccelerationStructureOpModeNV",
            "VK_CLUSTER_ACCELERATION_STRUCTURE_OP_MODE_IMPLICIT_DESTINATIONS_NV"
        ),
        "ImplicitDestinations"
    );
}

#[test]
fn screaming_prefixes() {
    assert_eq!(enum_name_to_screaming_prefix("VkFormat"), "VK_FORMAT_");
    assert_eq!(enum_name_to_screaming_prefix("VkImageLayout"), "VK_IMAGE_LAYOUT_");
    assert_eq!(
        enum_name_to_screaming_prefix("VkClusterAccelerationStructureOpModeNV"),
        "VK_CLUSTER_ACCELERATION_STRUCTURE_OP_MODE_"
    );
    assert_eq!(enum_name_to_screaming_prefix("VkAccessFlagBits"), "VK_ACCESS_");
    assert_eq!(enum_name_to_screaming_prefix("VkAccessFlagBits2KHR"), "VK_ACCESS_2_");
}

#[test]
fn vendor_suffix_split() {
    assert_eq!(
        split_vendor_suffix("INDIRECT_COMMAND_READ_BIT_KHR"),
        ("INDIRECT_COMMAND_READ_BIT_", "KHR")
    );
    assert_eq!(
        split_vendor_suffix("INDIRECT_COMMAND_READ_BIT"),
        ("INDIRECT_COMMAND_READ_BIT", "")
    );
}

#[test]
fn leading_digits_get_a_type_prefix() {
    assert_eq!(move_digits_to_end("8Bit"), "Type8Bit");
    assert_eq!(move_digits_to_end("R8G8"), "R8G8");
    assert_eq!(move_digits_to_end(""), "");
}

#[test]
fn binary_literals_are_grouped() {
    assert_eq!(to_binary_literal(0), "0");
    assert_eq!(to_binary_literal(1), "0b1");
    assert_eq!(to_binary_literal(0b1111), "0b1111");
    assert_eq!(to_binary_literal(16), "0b1_0000");
    assert_eq!(to_binary_literal(256), "0b1_0000_0000");
    assert_eq!(to_binary_literal(u32::MAX), "0b1111_1111_1111_1111_1111_1111_1111_1111");
}

#[test]
fn format_names_keep_channel_specs() {
    assert_eq!(better_pascal_case("R8G8B8A8_UNORM"), "R8G8B8A8Unorm");
    assert_eq!(better_pascal_case("BC1_RGB_UNORM_BLOCK"), "BC1RgbUnormBlock");
    assert_eq!(better_pascal_case("ASTC_4x4_UNORM_BLOCK"), "Astc4x4UnormBlock");
    assert_eq!(better_pascal_case("R16G16_SFLOAT"), "R16G16Sfloat");
    assert_eq!(better_pascal_case("R8G8B8A8_UNORM_PACK32"), "R8G8B8A8UnormPack32");
    assert_eq!(better_pascal_case("FOO_KHR"), "FooKHR");
    assert_eq!(better_pascal_case("ETC2_R8G8B8_UNORM_BLOCK"), "ETC2R8G8B8UnormBlock");
    assert_eq!(better_pascal_case("PVRTC1_2BPP_UNORM_BLOCK_IMG"), "Pvrtc12BPPUnormBlockIMG");
    assert_eq!(better_pascal_case("G8_B8R8_2PLANE_420_UNORM"), "G8B8R82PLANE420Unorm");
}

#[test]
fn registry_prefixes_are_stripped() {
    assert_eq!(const_name("VK_MAX_EXTENSION_NAME_SIZE"), "MAX_EXTENSION_NAME_SIZE");
    assert_eq!(const_name("MAX"), "MAX");
    assert_eq!(rust_name("VkAccessFlagBits"), "AccessFlagBits");
    assert_eq!(rust_name("uint32_t"), "uint32_t");
}

#[test]
fn block_compressed_channel_specs_keep_their_capitals() {
    assert_eq!(better_pascal_case("BC1_RGB_UNORM_BLOCK"), "BC1RgbUnormBlock");
    assert_eq!(better_pascal_case("BC7_SRGB_BLOCK"), "BC7SrgbBlock");
}
