//! Source emission for the Vulkan bindings: shared naming rules and the
//! line writer that every generator fills.
pub mod bitflags;
pub mod bitflags_debug;
pub mod commands;
pub mod constants;
pub mod enums;
pub mod extensions;

use crate::text::{all_ascii, chars_of, is_lower, is_upper, push_str, starts_with, string_of, without_prefix, without_prefix_exec};
use vstd::prelude::*;

verus! {

broadcast use vstd::string::group_string_axioms;

/// The vendor tags of the registry, in the order in which suffixes are tried.
///
/// This list is this library's own: the registry's author tags (those whose
/// names appear as suffixes of commands, types and values), spelled with an
/// upper-case first letter and the rest lower-case, so that a tag can be found
/// both at the end of a SCREAMING_SNAKE name (upper-cased) and at the end of
/// a PascalCase one (as spelled).
pub open spec fn vendor_tags() -> Seq<Seq<char>> {
    seq![
        "Khr"@, "Ext"@, "Nvx"@, "Nv"@, "Amdx"@, "Amd"@, "Arm"@, "Qcom"@, "Sec"@, "Img"@,
        "Intel"@, "Google"@, "Android"@, "Huawei"@, "Valve"@, "Mesa"@, "Lunarg"@, "Msft"@,
        "Qnx"@, "Fuchsia"@, "Ggp"@, "Mvk"@, "Nn"@, "Fb"@, "Sony"@, "Ohos"@, "Brcm"@, "Viv"@,
        "Vsi"@, "Kdab"@, "Nzxt"@, "Samsung"@, "Chromium"@, "Fsl"@, "Nxp"@, "Tizen"@,
        "Renderdoc"@, "Juice"@,
    ]
}

/// Every vendor tag is a non-empty ASCII word.
pub proof fn lemma_vendor_tags_ascii()
    ensures
        forall|i: int|
            0 <= i < vendor_tags().len() ==> all_ascii(#[trigger] vendor_tags()[i])
                && vendor_tags()[i].len() > 0,
{
    reveal_strlit("Khr");
    reveal_strlit("Ext");
    reveal_strlit("Nvx");
    reveal_strlit("Nv");
    reveal_strlit("Amdx");
    reveal_strlit("Amd");
    reveal_strlit("Arm");
    reveal_strlit("Qcom");
    reveal_strlit("Sec");
    reveal_strlit("Img");
    reveal_strlit("Intel");
    reveal_strlit("Google");
    reveal_strlit("Android");
    reveal_strlit("Huawei");
    reveal_strlit("Valve");
    reveal_strlit("Mesa");
    reveal_strlit("Lunarg");
    reveal_strlit("Msft");
    reveal_strlit("Qnx");
    reveal_strlit("Fuchsia");
    reveal_strlit("Ggp");
    reveal_strlit("Mvk");
    reveal_strlit("Nn");
    reveal_strlit("Fb");
    reveal_strlit("Sony");
    reveal_strlit("Ohos");
    reveal_strlit("Brcm");
    reveal_strlit("Viv");
    reveal_strlit("Vsi");
    reveal_strlit("Kdab");
    reveal_strlit("Nzxt");
    reveal_strlit("Samsung");
    reveal_strlit("Chromium");
    reveal_strlit("Fsl");
    reveal_strlit("Nxp");
    reveal_strlit("Tizen");
    reveal_strlit("Renderdoc");
    reveal_strlit("Juice");
}

/// Every character of every vendor tag is an ASCII letter.
pub proof fn lemma_vendor_tags_letters()
    ensures
        forall|i: int, j: int|
            0 <= i < vendor_tags().len() && 0 <= j < vendor_tags()[i].len() ==> is_upper(
                #[trigger] vendor_tags()[i][j],
            ) || is_lower(vendor_tags()[i][j]),
{
    reveal_strlit("Khr");
    reveal_strlit("Ext");
    reveal_strlit("Nvx");
    reveal_strlit("Nv");
    reveal_strlit("Amdx");
    reveal_strlit("Amd");
    reveal_strlit("Arm");
    reveal_strlit("Qcom");
    reveal_strlit("Sec");
    reveal_strlit("Img");
    reveal_strlit("Intel");
    reveal_strlit("Google");
    reveal_strlit("Android");
    reveal_strlit("Huawei");
    reveal_strlit("Valve");
    reveal_strlit("Mesa");
    reveal_strlit("Lunarg");
    reveal_strlit("Msft");
    reveal_strlit("Qnx");
    reveal_strlit("Fuchsia");
    reveal_strlit("Ggp");
    reveal_strlit("Mvk");
    reveal_strlit("Nn");
    reveal_strlit("Fb");
    reveal_strlit("Sony");
    reveal_strlit("Ohos");
    reveal_strlit("Brcm");
    reveal_strlit("Viv");
    reveal_strlit("Vsi");
    reveal_strlit("Kdab");
    reveal_strlit("Nzxt");
    reveal_strlit("Samsung");
    reveal_strlit("Chromium");
    reveal_strlit("Fsl");
    reveal_strlit("Nxp");
    reveal_strlit("Tizen");
    reveal_strlit("Renderdoc");
    reveal_strlit("Juice");
}

/// The vendor tags (`VENDORS`).
pub fn vendors() -> (v: Vec<&'static str>)
    ensures
        v@.len() == vendor_tags().len(),
        forall|i: int| 0 <= i < v@.len() ==> (#[trigger] v@[i])@ == vendor_tags()[i],
{
    let v = vec![
        "Khr", "Ext", "Nvx", "Nv", "Amdx", "Amd", "Arm", "Qcom", "Sec", "Img", "Intel", "Google",
        "Android", "Huawei", "Valve", "Mesa", "Lunarg", "Msft", "Qnx", "Fuchsia", "Ggp", "Mvk",
        "Nn", "Fb", "Sony", "Ohos", "Brcm", "Viv", "Vsi", "Kdab", "Nzxt", "Samsung", "Chromium",
        "Fsl", "Nxp", "Tizen", "Renderdoc", "Juice",
    ];
    v
}

/// `VK_FOO` → `FOO`: a registry name without its `VK_` prefix.
pub open spec fn const_name_spec(s: Seq<char>) -> Seq<char> {
    without_prefix(s, "VK_"@)
}

/// `VkFoo` → `Foo`: a registry type name without its `Vk` prefix.
pub open spec fn rust_name_spec(s: Seq<char>) -> Seq<char> {
    without_prefix(s, "Vk"@)
}

/// Strips the `VK_` prefix of a registry constant or extension name.
pub fn const_name(s: &str) -> (r: &str)
    ensures
        r@ == const_name_spec(s@),
{
    let cs = chars_of(s);
    let p = chars_of("VK_");
    if starts_with(&cs, &p) {
        s.substring_char(p.len(), cs.len())
    } else {
        s
    }
}

/// Strips the `Vk` prefix of a registry type name.
pub fn rust_name(s: &str) -> (r: String)
    ensures
        r@ == rust_name_spec(s@),
{
    let cs = chars_of(s);
    let p = chars_of("Vk");
    let r = without_prefix_exec(&cs, &p);
    string_of(&r, 0, r.len())
}

/// The text of a file made of `lines`: each line followed by a newline.
pub open spec fn render_lines(lines: Seq<Seq<char>>) -> Seq<char>
    decreases lines.len(),
{
    if lines.len() == 0 {
        Seq::empty()
    } else {
        render_lines(lines.drop_last()) + lines.last() + "\n"@
    }
}

/// An output file under construction, as a sequence of lines.
pub struct Writer {
    lines: Vec<String>,
}

impl View for Writer {
    type V = Seq<Seq<char>>;

    closed spec fn view(&self) -> Seq<Seq<char>> {
        self.lines@.map_values(|l: String| l@)
    }
}

impl Writer {
    /// An empty file.
    pub fn new() -> (w: Writer)
        ensures
            w@ == Seq::<Seq<char>>::empty(),
    {
        let w = Writer { lines: Vec::new() };
        assert(w@ =~= Seq::<Seq<char>>::empty());
        w
    }

    /// Appends one line.
    pub fn ln(&mut self, s: &str)
        ensures
            final(self)@ == old(self)@.push(s@),
    {
        let ghost before = self@;
        self.lines.push(s.to_string());
        assert(self@ =~= before.push(s@));
    }

    /// Appends an empty line.
    pub fn blank(&mut self)
        ensures
            final(self)@ == old(self)@.push(Seq::<char>::empty()),
    {
        let ghost before = self@;
        self.lines.push(String::new());
        assert(self@ =~= before.push(Seq::<char>::empty()));
    }

    /// The number of lines written so far.
    pub fn len(&self) -> (n: usize)
        ensures
            n == self@.len(),
    {
        self.lines.len()
    }

    /// The file's text.
    pub fn into_string(self) -> (s: String)
        ensures
            s@ == render_lines(self@),
    {
        let mut s = String::new();
        let mut i: usize = 0;
        while i < self.lines.len()
            invariant
                i <= self.lines.len(),
                s@ == render_lines(self@.take(i as int)),
            decreases self.lines.len() - i,
        {
            push_str(&mut s, self.lines[i].as_str());
            push_str(&mut s, "\n");
            assert(self@.take(i + 1).drop_last() =~= self@.take(i as int));
            i += 1;
        }
        assert(self@.take(self.lines.len() as int) =~= self@);
        s
    }
}

/// The banner that opens every emitted file.
pub open spec fn file_header_lines(title: Seq<char>) -> Seq<Seq<char>> {
    seq![
        "// !!!!!!!!!!!!!!!!!!!!!!!!!!!!!!!!!!!!!!!!!!!!!!!!!!!!!!!!!!!!!!!"@,
        "// Auto generated from pyronyx-gen — "@ + title,
        "// Do not Edit! Execute `cargo run pyronyx-gen`"@,
        "// !!!!!!!!!!!!!!!!!!!!!!!!!!!!!!!!!!!!!!!!!!!!!!!!!!!!!!!!!!!!!!!"@,
    ]
}

/// Writes the banner of an emitted file.
pub fn file_header(w: &mut Writer, title: &str)
    ensures
        final(w)@ == old(w)@ + file_header_lines(title@),
{
    w.ln("// !!!!!!!!!!!!!!!!!!!!!!!!!!!!!!!!!!!!!!!!!!!!!!!!!!!!!!!!!!!!!!!");
    let mut t = String::new();
    push_str(&mut t, "// Auto generated from pyronyx-gen — ");
    push_str(&mut t, title);
    w.ln(t.as_str());
    w.ln("// Do not Edit! Execute `cargo run pyronyx-gen`");
    w.ln("// !!!!!!!!!!!!!!!!!!!!!!!!!!!!!!!!!!!!!!!!!!!!!!!!!!!!!!!!!!!!!!!");
    assert(w@ =~= old(w)@ + file_header_lines(title@));
}

} // verus!
