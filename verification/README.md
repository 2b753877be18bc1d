# pyronyx_gen

Reads the Vulkan XML registry and emits the Rust sources of the pyronyx
bindings: constants, enums, bitflag types and their `Display` impls, and
the naming rules of dispatch tables and extension modules.

Scope: the program writes four files, `constants.rs`, `enums.rs`,
`bitflags.rs` and `bitflags_debug.rs`. The command dispatch tables, the
function-pointer types and the per-extension modules are not generated here;
of them the library holds only the naming rules (table names, extension
folders and module names) and the command reader.

The library is verified with Verus: every function carries a contract stated
over mathematical models (`Seq`, entry sequences of the maps, views of each
registry type), and all but the small wrappers around calls into `heck`,
`indexmap`, `roxmltree` and a few `std` functions are proved against it.

- `src/text.rs`, `src/number.rs` — string and integer-literal operations with
  their specifications (`trim`, `replace`, `split`, `from_str_radix`, `{:X}`).
- `src/casing.rs` — the word-case conversions of `heck`, as named results.
- `src/parse/` — the XML document (read with `roxmltree`), the registry
  tables (`indexmap`, seen as entry sequences in insertion order), and the
  readers of `<enums>`, `<commands>`, `<feature>`, `<extension>` and the
  video registry.
- `src/codegen/` — the generators; each returns the text of its file, stated
  exactly as the rendering of a sequence of lines.
- `app/main.rs` — the command-line program: reads the files, checks the
  preconditions of the readers, and writes the generated sources.
