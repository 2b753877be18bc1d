//! Reading the Vulkan registry.
pub mod commands;
pub mod enums;
pub mod extensions;
pub mod registry;
pub mod tables;
pub mod xml;

use crate::text::{str_eq};
use vstd::prelude::*;

verus! {

broadcast use vstd::string::group_string_axioms;

/// The Rust spelling of a C type name of the registry; other names are kept.
pub open spec fn c_to_rust_spec(ty: Seq<char>) -> Seq<char> {
    if ty == "void"@ {
        "c_void"@
    } else if ty == "char"@ {
        "c_char"@
    } else if ty == "float"@ {
        "f32"@
    } else if ty == "double"@ {
        "f64"@
    } else if ty == "int"@ {
        "c_int"@
    } else if ty == "unsigned int"@ {
        "c_uint"@
    } else if ty == "size_t"@ {
        "usize"@
    } else if ty == "uint8_t"@ {
        "u8"@
    } else if ty == "uint16_t"@ {
        "u16"@
    } else if ty == "uint32_t"@ {
        "u32"@
    } else if ty == "uint64_t"@ {
        "u64"@
    } else if ty == "int8_t"@ {
        "i8"@
    } else if ty == "int16_t"@ {
        "i16"@
    } else if ty == "int32_t"@ {
        "i32"@
    } else if ty == "int64_t"@ {
        "i64"@
    } else if ty == "VkDevice"@ {
        "vkDevice"@
    } else if ty == "VkInstance"@ {
        "vkInstance"@
    } else if ty == "VkPhysicalDevice"@ {
        "vkPhysicalDevice"@
    } else if ty == "VkCommandBuffer"@ {
        "vkCommandBuffer"@
    } else if ty == "VkResult"@ {
        "vkResult"@
    } else if ty == "VkQueue"@ {
        "vkQueue"@
    } else {
        ty
    }
}

/// Maps a C type name of the registry to its Rust spelling.
pub fn c_to_rust(ty: &str) -> (r: &str)
    ensures
        r@ == c_to_rust_spec(ty@),
{
    if str_eq(ty, "void") {
        "c_void"
    } else if str_eq(ty, "char") {
        "c_char"
    } else if str_eq(ty, "float") {
        "f32"
    } else if str_eq(ty, "double") {
        "f64"
    } else if str_eq(ty, "int") {
        "c_int"
    } else if str_eq(ty, "unsigned int") {
        "c_uint"
    } else if str_eq(ty, "size_t") {
        "usize"
    } else if str_eq(ty, "uint8_t") {
        "u8"
    } else if str_eq(ty, "uint16_t") {
        "u16"
    } else if str_eq(ty, "uint32_t") {
        "u32"
    } else if str_eq(ty, "uint64_t") {
        "u64"
    } else if str_eq(ty, "int8_t") {
        "i8"
    } else if str_eq(ty, "int16_t") {
        "i16"
    } else if str_eq(ty, "int32_t") {
        "i32"
    } else if str_eq(ty, "int64_t") {
        "i64"
    } else if str_eq(ty, "VkDevice") {
        "vkDevice"
    } else if str_eq(ty, "VkInstance") {
        "vkInstance"
    } else if str_eq(ty, "VkPhysicalDevice") {
        "vkPhysicalDevice"
    } else if str_eq(ty, "VkCommandBuffer") {
        "vkCommandBuffer"
    } else if str_eq(ty, "VkResult") {
        "vkResult"
    } else if str_eq(ty, "VkQueue") {
        "vkQueue"
    } else {
        ty
    }
}

} // verus!
