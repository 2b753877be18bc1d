use pyronyx_gen::parse::c_to_rust;
use pyronyx_gen::parse::commands::parse_into as parse_commands;
use pyronyx_gen::parse::commands::parse_param;
use pyronyx_gen::parse::enums::{enum_block_fits, parse_into as parse_enums, parse_value_str};
use pyronyx_gen::parse::extensions::{
    extension_enums_fit, feature_enums_fit, parse_extension, parse_feature, parse_video_extensions,
};
use pyronyx_gen::parse::registry::{Registry, VkCommand, VkEnum};
use pyronyx_gen::parse::xml::XmlDocument;

fn doc(text: &str) -> XmlDocument {
    XmlDocument::parse(text).expect("well-formed XML")
}

/// The element children of `parent` tagged `tag`, in order.
fn children_tagged(d: &XmlDocument, parent: usize, tag: &str) -> Vec<usize> {
    d.children(parent)
        .iter()
        .copied()
        .filter(|&c| d.has_tag_name(c, tag))
        .collect()
}

fn root(d: &XmlDocument) -> usize {
    d.root_element().expect("a root element")
}

fn empty_command(name: &str) -> VkCommand {
    VkCommand {
        name: name.to_string(),
        return_type: "c_void".to_string(),
        params: vec![],
        target: None,
        alias: None,
        success_codes: vec![],
        error_codes: vec![],
        version: None,
        extension: None,
        conditional_rendering: false,
        renderpass: None,
        queues: vec![],
        cmd_buffer_level: String::new(),
        tasks: vec![],
    }
}

fn empty_enum(name: &str, is_bitmask: bool) -> VkEnum {
    VkEnum { name: name.to_string(), is_bitmask, bitwidth_64: false, values: vec![] }
}

#[test]
fn malformed_xml_is_refused() {
    assert!(XmlDocument::parse("<registry><enums></registry>").is_none());
}

#[test]
fn xml_nodes_keep_document_order() {
    let d = doc("<r a=\"1\"><b/>text<c x=\"y\"/></r>");
    let r = root(&d);
    assert_eq!(d.tag_name(r), "r");
    assert_eq!(d.attribute(r, "a"), Some("1"));
    assert_eq!(d.attribute(r, "missing"), None);
    let kids = d.children(r).clone();
    assert_eq!(kids.len(), 3);
    assert!(d.has_tag_name(kids[0], "b"));
    assert!(!d.is_element(kids[1]));
    assert_eq!(d.text(kids[1]), Some("text"));
    assert_eq!(d.tag_name(kids[1]), "");
    assert_eq!(d.attribute(kids[2], "x"), Some("y"));
}

#[test]
fn c_types_map_to_rust() {
    assert_eq!(c_to_rust("uint32_t"), "u32");
    assert_eq!(c_to_rust("void"), "c_void");
    assert_eq!(c_to_rust("unsigned int"), "c_uint");
    assert_eq!(c_to_rust("VkDevice"), "vkDevice");
    assert_eq!(c_to_rust("VkBuffer"), "VkBuffer");
}

#[test]
fn value_literals() {
    assert_eq!(parse_value_str(" 0x10 "), Some(16));
    assert_eq!(parse_value_str("0X7fffffff"), Some(0x7fff_ffff));
    assert_eq!(parse_value_str("-3"), Some(-3));
    assert_eq!(parse_value_str("abc"), None);
    assert_eq!(parse_value_str(""), None);
}

#[test]
fn enum_blocks_are_recorded() {
    let d = doc(
        "<registry>\
           <enums name=\"VkResult\" type=\"enum\">\
             <enum name=\"VK_SUCCESS\" value=\"0\" comment=\"ok\"/>\
             <enum name=\"VK_ERROR_OUT_OF_HOST_MEMORY\" value=\"-1\"/>\
             <enum name=\"VK_HEX\" value=\"0x10\"/>\
             <enum name=\"VK_ALIASED\" alias=\"VK_SUCCESS\"/>\
             <unused/>\
           </enums>\
           <enums name=\"VkAccessFlagBits\" type=\"bitmask\" bitwidth=\"64\">\
             <enum name=\"VK_ACCESS_A_BIT\" bitpos=\"3\"/>\
             <enum name=\"VK_ACCESS_NONE\" value=\"0\"/>\
             <enum name=\"VK_ACCESS_BAD\" bitpos=\"x\"/>\
           </enums>\
         </registry>",
    );
    let r = root(&d);
    let mut reg = Registry::new();
    for e in children_tagged(&d, r, "enums") {
        parse_enums(&d, e, &mut reg);
    }
    let result = &reg.enums["VkResult"];
    assert!(!result.is_bitmask);
    let got: Vec<(&str, i64)> = result.values.iter().map(|v| (v.name.as_str(), v.value)).collect();
    assert_eq!(got, vec![("VK_SUCCESS", 0), ("VK_ERROR_OUT_OF_HOST_MEMORY", -1), ("VK_HEX", 16)]);
    assert_eq!(result.values[0].comment.as_deref(), Some("ok"));
    let access = &reg.enums["VkAccessFlagBits"];
    assert!(access.is_bitmask);
    assert!(access.bitwidth_64);
    let got: Vec<(&str, i64)> = access.values.iter().map(|v| (v.name.as_str(), v.value)).collect();
    assert_eq!(got, vec![("VK_ACCESS_A_BIT", 8), ("VK_ACCESS_NONE", 0)]);
}

#[test]
fn enum_block_replaces_values_in_place() {
    let d = doc(
        "<registry>\
           <enums name=\"VkA\" type=\"enum\"><enum name=\"VK_A_X\" value=\"1\"/></enums>\
           <enums name=\"VkB\" type=\"enum\"><enum name=\"VK_B_X\" value=\"2\"/></enums>\
           <enums name=\"VkA\" type=\"bitmask\" bitwidth=\"64\"><enum name=\"VK_A_Y\" bitpos=\"1\"/></enums>\
         </registry>",
    );
    let r = root(&d);
    let mut reg = Registry::new();
    for e in children_tagged(&d, r, "enums") {
        parse_enums(&d, e, &mut reg);
    }
    let keys: Vec<&str> = reg.enums.keys().map(|k| k.as_str()).collect();
    assert_eq!(keys, vec!["VkA", "VkB"]);
    let a = &reg.enums["VkA"];
    // The kind stays as first recorded; values and width are replaced.
    assert!(!a.is_bitmask);
    assert!(a.bitwidth_64);
    assert_eq!(a.values.len(), 1);
    assert_eq!(a.values[0].name, "VK_A_Y");
    assert_eq!(a.values[0].value, 2);
}

#[test]
fn api_constants_get_rust_types_and_values() {
    let d = doc(
        "<registry><enums name=\"API Constants\">\
           <enum name=\"VK_MAX_EXTENSION_NAME_SIZE\" value=\"256\" type=\"uint32_t\"/>\
           <enum name=\"VK_LOD_CLAMP_NONE\" value=\"1000.0F\" comment=\"clamp\"/>\
           <enum name=\"VK_REMAINING_MIP_LEVELS\" value=\"(~0U)\"/>\
           <enum name=\"VK_WHOLE_SIZE\" value=\"(~0ULL)\"/>\
           <enum name=\"VK_QUEUE_FAMILY_EXTERNAL\" value=\"(~0U-1)\"/>\
           <enum name=\"VK_BIG\" value=\"5ULL\"/>\
           <enum name=\"VK_FLOAT\" value=\"2.5f\"/>\
           <enum name=\"VK_NO_VALUE\"/>\
         </enums></registry>",
    );
    let r = root(&d);
    let mut reg = Registry::new();
    for e in children_tagged(&d, r, "enums") {
        parse_enums(&d, e, &mut reg);
    }
    assert_eq!(reg.enums.len(), 0);
    let got: Vec<(&str, &str, &str)> = reg
        .constants
        .iter()
        .map(|c| (c.name.as_str(), c.ty.as_str(), c.value.as_str()))
        .collect();
    assert_eq!(
        got,
        vec![
            ("VK_MAX_EXTENSION_NAME_SIZE", "u32", "256"),
            ("VK_LOD_CLAMP_NONE", "f32", "1000.0F"),
            ("VK_REMAINING_MIP_LEVELS", "u32", "!0u32"),
            ("VK_WHOLE_SIZE", "u64", "!0u64"),
            ("VK_QUEUE_FAMILY_EXTERNAL", "u32", "!0u32 - 1"),
            ("VK_BIG", "u64", "5u64"),
            ("VK_FLOAT", "f32", "2.5f32"),
        ]
    );
    assert_eq!(reg.constants[1].comment.as_deref(), Some("clamp"));
}

const COMMANDS_XML: &str = "<registry><commands>\
  <command successcodes=\"VK_SUCCESS,VK_INCOMPLETE\" errorcodes=\"VK_ERROR_OUT_OF_HOST_MEMORY\" \
     queues=\"graphics,compute\" cmdbufferlevel=\"primary\" conditionalrendering=\"true\" \
     renderpass=\"outside\" tasks=\"action,state\">\
    <proto><type>VkResult</type> <name>vkCreateThing</name></proto>\
    <param><type>VkDevice</type> <name>device</name></param>\
    <param>const <type>VkThingCreateInfo</type>* <name>pCreateInfo</name></param>\
    <param optional=\"false,true\" len=\"count\"><type>VkThing</type>* <name>pThing</name></param>\
    <param><type>uint32_t</type> <name>pThing</name></param>\
    <param>const <type>char</type>* const* <name>ppNames</name></param>\
    <param><type>void</type>*** <name>pDeep</name></param>\
  </command>\
  <command name=\"vkCreateThingKHR\" alias=\"vkCreateThing\"/>\
  <command name=\"\" alias=\"vkNothing\"/>\
  <command><proto><type>void</type> <name></name></proto></command>\
  <command><param><type>int</type> <name>x</name></param></command>\
  <command><proto><type>void</type> <name>vkDestroyThing</name></proto></command>\
</commands></registry>";

#[test]
fn commands_are_read_with_their_parameters() {
    let d = doc(COMMANDS_XML);
    let r = root(&d);
    let mut reg = Registry::new();
    for c in children_tagged(&d, r, "commands") {
        parse_commands(&d, c, &mut reg);
    }
    let keys: Vec<&str> = reg.commands.keys().map(|k| k.as_str()).collect();
    assert_eq!(keys, vec!["vkCreateThing", "vkCreateThingKHR", "vkDestroyThing"]);

    let cmd = &reg.commands["vkCreateThing"];
    assert_eq!(cmd.return_type, "vkResult");
    assert_eq!(cmd.alias, None);
    assert_eq!(cmd.success_codes, vec!["VK_SUCCESS", "VK_INCOMPLETE"]);
    assert_eq!(cmd.error_codes, vec!["VK_ERROR_OUT_OF_HOST_MEMORY"]);
    assert_eq!(cmd.queues, vec!["graphics", "compute"]);
    assert_eq!(cmd.cmd_buffer_level, "primary");
    assert!(cmd.conditional_rendering);
    assert_eq!(cmd.target.as_deref(), Some("vkDevice"));
    assert_eq!(cmd.renderpass.as_deref(), Some("outside"));
    assert_eq!(cmd.tasks, vec!["action", "state"]);
    let params: Vec<(&str, &str, u32, bool, bool)> = cmd
        .params
        .iter()
        .map(|p| (p.name.as_str(), p.ty.as_str(), p.pointer_depth, p.is_const, p.optional))
        .collect();
    assert_eq!(
        params,
        vec![
            ("device", "vkDevice", 0, false, false),
            ("pCreateInfo", "*const ThingCreateInfo", 1, true, false),
            ("pThing", "*mut Thing", 1, false, true),
            ("ppNames", "*const *const c_char", 2, true, false),
            ("pDeep", "*mut c_void", 3, false, false),
        ]
    );
    assert_eq!(cmd.params[2].len.as_deref(), Some("count"));

    let alias = &reg.commands["vkCreateThingKHR"];
    assert_eq!(alias.return_type, "vkCreateThing");
    assert_eq!(alias.alias.as_deref(), Some("vkCreateThing"));
    assert!(alias.params.is_empty());
    assert_eq!(alias.target, None);
    assert_eq!(alias.renderpass, None);
    assert!(alias.tasks.is_empty());

    let destroy = &reg.commands["vkDestroyThing"];
    assert_eq!(destroy.return_type, "c_void");
    assert!(destroy.success_codes.is_empty());
    assert!(!destroy.conditional_rendering);
    assert_eq!(destroy.cmd_buffer_level, "");
    assert_eq!(destroy.target, None);
    assert_eq!(destroy.renderpass, None);
    assert!(destroy.tasks.is_empty());
}

#[test]
fn repeated_parameter_names_are_skipped() {
    let d = doc("<r><param><type>int</type> <name>a</name></param></r>");
    let r = root(&d);
    let p = children_tagged(&d, r, "param")[0];
    let mut seen = indexmap::IndexSet::new();
    let first = parse_param(&d, p, &mut seen).expect("a new name");
    assert_eq!(first.name, "a");
    assert_eq!(first.ty, "c_int");
    assert!(parse_param(&d, p, &mut seen).is_none());
    assert_eq!(seen.len(), 1);
}

const FEATURE_XML: &str = "<registry>\
  <feature api=\"vulkan\" name=\"VK_VERSION_1_1\" number=\"1.1\">\
    <require>\
      <type name=\"VkThing\"/>\
      <command name=\"vkCreateThing\"/>\
      <command name=\"vkUnknown\"/>\
      <enum extends=\"VkResult\" name=\"VK_ERROR_X\" offset=\"3\" dir=\"-\" comment=\"x\"/>\
      <enum extends=\"VkMissing\" name=\"VK_NOTHING\" value=\"1\"/>\
      <enum name=\"VK_PLAIN\" value=\"1\"/>\
    </require>\
    <remove><command name=\"vkOther\"/></remove>\
    <require><type name=\"VkOther\"/></require>\
  </feature>\
</registry>";

#[test]
fn features_give_their_commands_a_version() {
    let d = doc(FEATURE_XML);
    let r = root(&d);
    let mut reg = Registry::new();
    reg.add_command(empty_command("vkCreateThing"));
    reg.add_command(empty_command("vkOther"));
    reg.add_enum(empty_enum("VkResult", false));
    for f in children_tagged(&d, r, "feature") {
        parse_feature(&d, f, &mut reg);
    }
    assert_eq!(reg.features.len(), 1);
    let f = &reg.features[0];
    assert_eq!(f.name, "VK_VERSION_1_1");
    assert_eq!(f.version.as_deref(), Some("v1_1"));
    assert_eq!(f.required_types, vec!["VkThing", "VkOther"]);
    assert_eq!(f.required_commands, vec!["vkCreateThing", "vkUnknown"]);
    assert_eq!(reg.commands["vkCreateThing"].version.as_deref(), Some("v1_1"));
    assert_eq!(reg.commands["vkOther"].version, None);
    assert!(!reg.commands.contains_key("vkUnknown"));
    let values = &reg.enums["VkResult"].values;
    assert_eq!(values.len(), 1);
    assert_eq!(values[0].name, "VK_ERROR_X");
    assert_eq!(values[0].value, -1_000_000_003);
    assert_eq!(values[0].comment.as_deref(), Some("x"));
    assert_eq!(values[0].extension, None);
    assert!(!reg.enums.contains_key("VkMissing"));
}

const EXTENSION_XML: &str = "<registry><extensions>\
  <extension name=\"VK_KHR_thing\" number=\"2\" type=\"device\" requires=\"VK_KHR_a,VK_KHR_b\" \
     deprecatedby=\"VK_KHR_thing2\" supported=\"vulkan\">\
    <require>\
      <enum value=\"3\" name=\"VK_KHR_THING_SPEC_VERSION\"/>\
      <enum value=\"&quot;VK_KHR_thing&quot;\" name=\"VK_KHR_THING_EXTENSION_NAME\"/>\
      <type name=\"VkThingKHR\"/>\
      <command name=\"vkCreateThing\"/>\
      <enum extends=\"VkResult\" name=\"VK_ERROR_THING\" offset=\"3\" dir=\"-\"/>\
      <enum extends=\"VkResult\" name=\"VK_OTHER_EXT\" offset=\"1\" extnumber=\"5\"/>\
      <enum extends=\"VkAccessFlagBits\" name=\"VK_ACCESS_THING_BIT\" bitpos=\"4\"/>\
      <enum extends=\"VkResult\" name=\"VK_SPACED\" value=\" 7 \"/>\
      <enum extends=\"VkResult\" name=\"VK_HEX_VALUE\" value=\"0x10\"/>\
      <enum extends=\"VkResult\" name=\"VK_ALIAS_ONLY\" alias=\"VK_SPACED\"/>\
    </require>\
    <require feature=\"VK_VERSION_1_1\">\
      <command name=\"vkOtherThing\"/>\
    </require>\
  </extension>\
  <extension name=\"VK_NV_off\" number=\"x\" supported=\"disabled\"/>\
</extensions></registry>";

#[test]
fn extensions_mark_their_commands_and_number_their_enums() {
    let d = doc(EXTENSION_XML);
    let r = root(&d);
    let exts = children_tagged(&d, r, "extensions")[0];
    let mut reg = Registry::new();
    reg.add_command(empty_command("vkCreateThing"));
    reg.add_command(empty_command("vkUntouched"));
    reg.add_enum(empty_enum("VkResult", false));
    reg.add_enum(empty_enum("VkAccessFlagBits", true));
    for e in children_tagged(&d, exts, "extension") {
        parse_extension(&d, e, &mut reg);
    }
    assert_eq!(reg.extensions.len(), 2);
    let x = &reg.extensions[0];
    assert_eq!(x.name, "VK_KHR_thing");
    assert_eq!(x.number, 2);
    assert_eq!(x.spec_version, 3);
    assert_eq!(x.requires, vec!["VK_KHR_a", "VK_KHR_b"]);
    assert_eq!(x.deprecated_by.as_deref(), Some("VK_KHR_thing2"));
    assert!(!x.disabled);
    assert_eq!(x.typ, "device");
    assert_eq!(x.require_blocks.len(), 2);
    assert_eq!(x.require_blocks[0].feature_guard, None);
    assert_eq!(x.require_blocks[0].types, vec!["VkThingKHR"]);
    assert_eq!(x.require_blocks[0].commands, vec!["vkCreateThing"]);
    assert_eq!(x.require_blocks[1].feature_guard.as_deref(), Some("VK_VERSION_1_1"));
    assert_eq!(x.require_blocks[1].commands, vec!["vkOtherThing"]);

    assert_eq!(reg.commands["vkCreateThing"].extension.as_deref(), Some("VK_KHR_thing"));
    assert_eq!(reg.commands["vkUntouched"].extension, None);
    assert!(!reg.commands.contains_key("vkOtherThing"));

    let got: Vec<(&str, i64)> =
        reg.enums["VkResult"].values.iter().map(|v| (v.name.as_str(), v.value)).collect();
    // A decimal value is read after trimming; a hexadecimal one does not parse and counts as 0;
    // an element with none of value, bitpos and offset adds nothing.
    assert_eq!(
        got,
        vec![
            ("VK_ERROR_THING", -1_000_001_003),
            ("VK_OTHER_EXT", 1_000_004_001),
            ("VK_SPACED", 7),
            ("VK_HEX_VALUE", 0),
        ]
    );
    assert!(reg.enums["VkResult"]
        .values
        .iter()
        .all(|v| v.extension.as_deref() == Some("VK_KHR_thing")));
    let access = &reg.enums["VkAccessFlagBits"].values;
    assert_eq!(access.len(), 1);
    assert_eq!(access[0].value, 16);

    let off = &reg.extensions[1];
    assert_eq!(off.name, "VK_NV_off");
    assert_eq!(off.number, 1);
    assert_eq!(off.spec_version, 0);
    assert!(off.disabled);
    assert!(off.requires.is_empty());
    assert_eq!(off.typ, "");
}

#[test]
fn spec_version_comes_from_the_last_block_that_names_one() {
    let d = doc(
        "<extension name=\"VK_EXT_v\" number=\"1\">\
           <require><enum name=\"VK_EXT_V_SPEC_VERSION\" value=\"2\"/><enum name=\"VK_B_SPEC_VERSION\" value=\"9\"/></require>\
           <require><enum name=\"VK_EXT_V_SPEC_VERSION\"/></require>\
           <require><enum name=\"VK_EXT_V_SPEC_VERSION\" value=\"x\"/></require>\
         </extension>",
    );
    let r = root(&d);
    let mut reg = Registry::new();
    parse_extension(&d, r, &mut reg);
    assert_eq!(reg.extensions[0].spec_version, 0);

    let d = doc(
        "<extension name=\"VK_EXT_v\" number=\"1\">\
           <require><enum name=\"VK_EXT_V_SPEC_VERSION\" value=\"2\"/><enum name=\"VK_B_SPEC_VERSION\" value=\"9\"/></require>\
           <require><enum name=\"VK_EXT_V_SPEC_VERSION\"/></require>\
         </extension>",
    );
    let r = root(&d);
    let mut reg = Registry::new();
    parse_extension(&d, r, &mut reg);
    assert_eq!(reg.extensions[0].spec_version, 2);
}

#[test]
fn video_extension_constants() {
    let d = doc(
        "<registry><extensions>\
           <extension name=\"vulkan_video_codec_h264std\" supported=\"vulkan\">\
             <require>\
               <enum name=\"VK_STD_VULKAN_VIDEO_CODEC_H264_DECODE_SPEC_VERSION\" value=\"0x1f\" type=\"uint32_t\"/>\
               <enum name=\"STD_VIDEO_H264_CPB_CNT_LIST_SIZE\" value=\"32\" type=\"uint32_t\" comment=\"c\"/>\
               <enum name=\"VK_NAME_ONLY\" value=\"&quot;x&quot;\"/>\
               <enum name=\"VK_BAD_HEX\" value=\"0xZZ\" type=\"uint8_t\"/>\
               <type name=\"StdVideoH264\"/>\
             </require>\
           </extension>\
           <extension name=\"vulkan_video_codecs_common\" supported=\"disabled\">\
             <require><enum name=\"VK_HIDDEN\" value=\"1\" type=\"uint32_t\"/></require>\
           </extension>\
         </extensions></registry>",
    );
    let r = root(&d);
    let exts = children_tagged(&d, r, "extensions")[0];
    let mut reg = Registry::new();
    parse_video_extensions(&d, exts, &mut reg);
    let got: Vec<(&str, &str, &str)> = reg
        .constants
        .iter()
        .map(|c| (c.name.as_str(), c.ty.as_str(), c.value.as_str()))
        .collect();
    assert_eq!(
        got,
        vec![
            ("STD_VULKAN_VIDEO_CODEC_H264_DECODE_SPEC_VERSION", "u32", "0x1F"),
            ("STD_VIDEO_H264_CPB_CNT_LIST_SIZE", "u32", "32"),
            ("BAD_HEX", "u8", "0x0"),
        ]
    );
    assert_eq!(reg.constants[1].comment.as_deref(), Some("c"));
}

#[test]
fn enum_values_that_cannot_be_computed_are_found_ahead() {
    let d = doc(
        "<r>\
           <enums name=\"VkA\" type=\"bitmask\"><enum name=\"VK_A\" bitpos=\"64\"/></enums>\
           <enums name=\"VkB\" type=\"enum\"><enum name=\"VK_B\" bitpos=\"64\"/></enums>\
           <feature name=\"F\"><require><enum extends=\"VkResult\" name=\"X\" bitpos=\"64\"/></require></feature>\
           <feature name=\"G\"><require><enum extends=\"VkOther\" name=\"X\" bitpos=\"64\"/></require></feature>\
           <extension name=\"VK_KHR_big\" number=\"9223372036854775807\">\
             <require><enum extends=\"VkResult\" name=\"Y\" offset=\"0\"/></require></extension>\
           <extension name=\"VK_KHR_ok\" number=\"3\">\
             <require><enum extends=\"VkResult\" name=\"Y\" offset=\"0\" dir=\"-\"/></require></extension>\
         </r>",
    );
    let r = root(&d);
    let blocks = children_tagged(&d, r, "enums");
    assert!(!enum_block_fits(&d, blocks[0]));
    assert!(enum_block_fits(&d, blocks[1]));
    let mut reg = Registry::new();
    reg.add_enum(empty_enum("VkResult", false));
    let features = children_tagged(&d, r, "feature");
    assert!(!feature_enums_fit(&d, features[0], &reg.enums));
    assert!(feature_enums_fit(&d, features[1], &reg.enums));
    let exts = children_tagged(&d, r, "extension");
    assert!(!extension_enums_fit(&d, exts[0], &reg.enums));
    assert!(extension_enums_fit(&d, exts[1], &reg.enums));
    parse_extension(&d, exts[1], &mut reg);
    assert_eq!(reg.enums["VkResult"].values[0].value, -1_000_002_000);
}
