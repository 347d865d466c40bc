//! Code structure helpers: the node kinds each language chunks on, the names
//! chunks and entities get from node kinds, and the line slicing that
//! chunks and signatures are cut with.
use vstd::prelude::*;

use crate::text::{
    chars_eq_str, contains_seq, contains_vec, from_chars, join_lines, str_views, to_chars,
    trim, trim_chars, string_of, push_str, append_chars, is_one_of,
};

verus! {

// ─── Public types ─────────────────────────────────────────────────────────────

/// A single semantic chunk produced by syntax-aware splitting.
#[derive(Debug, Clone)]
pub struct AstChunk {
    pub content: String,
    /// 1-indexed, inclusive
    pub line_start: usize,
    /// 1-indexed, inclusive
    pub line_end: usize,
    /// E.g. "function", "impl", "struct", "class", "import_block", "module_level"
    pub chunk_type: String,
    /// Identifier name when available (fn name, struct name, …)
    pub name: Option<String>,
}

/// A code entity extracted from the syntax tree (function, struct, class, …).
#[derive(Debug, Clone)]
pub struct CodeEntity {
    pub name: String,
    pub entity_type: String,
    /// The signature line (first line of the definition).
    pub description: String,
    pub file_path: String,
    pub line_start: usize,
    pub line_end: usize,
}

/// A directed relationship between code entities.
#[derive(Debug, Clone)]
pub struct CodeRelationship {
    pub source: String,
    pub target: String,
    /// One of: "calls", "imports", "implements", "extends", "contains", "uses_type"
    pub relation: String,
    pub file_path: String,
}

// ─── Node kinds ───────────────────────────────────────────────────────────────

/// The top-level node kinds chunked on their own, per file extension.
pub open spec fn spec_top_level_kinds(ext: Seq<char>) -> Seq<Seq<char>> {
    if ext == "rs"@ {
        seq!["function_item"@, "impl_item"@, "struct_item"@, "enum_item"@, "trait_item"@, "mod_item"@, "use_declaration"@, "const_item"@, "static_item"@, "type_item"@, "macro_definition"@, "attribute_item"@]
    } else if ext == "py"@ {
        seq!["function_definition"@, "class_definition"@, "import_statement"@, "import_from_statement"@, "decorated_definition"@]
    } else if ext == "js"@ || ext == "jsx"@ {
        seq!["function_declaration"@, "class_declaration"@, "export_statement"@, "import_statement"@, "lexical_declaration"@, "variable_declaration"@]
    } else if ext == "ts"@ || ext == "tsx"@ {
        seq!["function_declaration"@, "class_declaration"@, "export_statement"@, "import_statement"@, "lexical_declaration"@, "variable_declaration"@, "interface_declaration"@, "type_alias_declaration"@, "enum_declaration"@]
    } else if ext == "go"@ {
        seq!["function_declaration"@, "method_declaration"@, "type_declaration"@, "import_declaration"@, "const_declaration"@, "var_declaration"@]
    } else if ext == "c"@ || ext == "h"@ {
        seq!["function_definition"@, "struct_specifier"@, "enum_specifier"@, "type_definition"@, "preproc_include"@, "declaration"@]
    } else if ext == "cpp"@ || ext == "cc"@ || ext == "cxx"@ || ext == "hpp"@ || ext == "hh"@ {
        seq!["function_definition"@, "struct_specifier"@, "enum_specifier"@, "type_definition"@, "preproc_include"@, "declaration"@, "class_specifier"@, "namespace_definition"@, "template_declaration"@]
    } else if ext == "cs"@ {
        seq!["class_declaration"@, "method_declaration"@, "namespace_declaration"@, "interface_declaration"@, "enum_declaration"@, "struct_declaration"@, "using_directive"@]
    } else if ext == "java"@ {
        seq!["class_declaration"@, "method_declaration"@, "interface_declaration"@, "enum_declaration"@, "import_declaration"@, "package_declaration"@]
    } else if ext == "rb"@ {
        seq!["method"@, "class"@, "module"@, "assignment"@]
    } else if ext == "php"@ {
        seq!["function_definition"@, "class_declaration"@, "method_declaration"@, "namespace_definition"@, "use_declaration"@]
    } else if ext == "sh"@ || ext == "bash"@ {
        seq!["function_definition"@, "command"@]
    } else if ext == "kt"@ || ext == "kts"@ {
        seq!["function_declaration"@, "class_declaration"@, "object_declaration"@, "interface_declaration"@, "import_header"@]
    } else if ext == "swift"@ {
        seq!["function_declaration"@, "class_declaration"@, "struct_declaration"@, "enum_declaration"@, "protocol_declaration"@, "import_declaration"@]
    } else if ext == "ex"@ || ext == "exs"@ {
        seq!["call"@]
    } else if ext == "lua"@ {
        seq!["function_declaration"@, "local_function"@, "variable_declaration"@]
    } else if ext == "hs"@ {
        seq!["function"@, "type_synonym"@, "data_declaration"@, "class_declaration"@, "instance_declaration"@, "import_declaration"@]
    } else if ext == "ml"@ || ext == "mli"@ {
        seq!["let_binding"@, "type_definition"@, "module_definition"@, "open_statement"@]
    } else if ext == "dart"@ {
        seq!["function_signature"@, "class_declaration"@, "method_signature"@, "import_or_export"@, "enum_declaration"@]
    } else {
        Seq::empty()
    }
}

fn static_list(a: &[&'static str]) -> (r: Vec<&'static str>)
    ensures
        r@ == a@,
{
    let mut v: Vec<&'static str> = Vec::new();
    let mut i: usize = 0;
    while i < a.len()
        invariant
            i <= a.len(),
            v@ == a@.take(i as int),
        decreases a.len() - i,
    {
        v.push(a[i]);
        assert(a@.take(i + 1) =~= a@.take(i as int).push(a@[i as int]));
        i = i + 1;
    }
    assert(a@.take(a.len() as int) =~= a@);
    v
}

/// The node kinds that are chunked on their own, for a file extension
/// (empty for languages chunked as a whole or not supported).
pub fn top_level_kinds(file_ext: &str) -> (r: Vec<&'static str>)
    ensures
        str_views(r@) == spec_top_level_kinds(file_ext@),
{
    let ext = file_ext;
    let ec = to_chars(file_ext);
    if chars_eq_str(&ec, "rs") {
        let a: [&'static str; 12] = ["function_item", "impl_item", "struct_item", "enum_item", "trait_item", "mod_item", "use_declaration", "const_item", "static_item", "type_item", "macro_definition", "attribute_item"];
        let v = static_list(&a);
        assert(str_views(v@) =~= spec_top_level_kinds(ext@));
        v
    } else if chars_eq_str(&ec, "py") {
        let a: [&'static str; 5] = ["function_definition", "class_definition", "import_statement", "import_from_statement", "decorated_definition"];
        let v = static_list(&a);
        assert(str_views(v@) =~= spec_top_level_kinds(ext@));
        v
    } else if chars_eq_str(&ec, "js") || chars_eq_str(&ec, "jsx") {
        let a: [&'static str; 6] = ["function_declaration", "class_declaration", "export_statement", "import_statement", "lexical_declaration", "variable_declaration"];
        let v = static_list(&a);
        assert(str_views(v@) =~= spec_top_level_kinds(ext@));
        v
    } else if chars_eq_str(&ec, "ts") || chars_eq_str(&ec, "tsx") {
        let a: [&'static str; 9] = ["function_declaration", "class_declaration", "export_statement", "import_statement", "lexical_declaration", "variable_declaration", "interface_declaration", "type_alias_declaration", "enum_declaration"];
        let v = static_list(&a);
        assert(str_views(v@) =~= spec_top_level_kinds(ext@));
        v
    } else if chars_eq_str(&ec, "go") {
        let a: [&'static str; 6] = ["function_declaration", "method_declaration", "type_declaration", "import_declaration", "const_declaration", "var_declaration"];
        let v = static_list(&a);
        assert(str_views(v@) =~= spec_top_level_kinds(ext@));
        v
    } else if chars_eq_str(&ec, "c") || chars_eq_str(&ec, "h") {
        let a: [&'static str; 6] = ["function_definition", "struct_specifier", "enum_specifier", "type_definition", "preproc_include", "declaration"];
        let v = static_list(&a);
        assert(str_views(v@) =~= spec_top_level_kinds(ext@));
        v
    } else if chars_eq_str(&ec, "cpp") || chars_eq_str(&ec, "cc") || chars_eq_str(&ec, "cxx") || chars_eq_str(&ec, "hpp") || chars_eq_str(&ec, "hh") {
        let a: [&'static str; 9] = ["function_definition", "struct_specifier", "enum_specifier", "type_definition", "preproc_include", "declaration", "class_specifier", "namespace_definition", "template_declaration"];
        let v = static_list(&a);
        assert(str_views(v@) =~= spec_top_level_kinds(ext@));
        v
    } else if chars_eq_str(&ec, "cs") {
        let a: [&'static str; 7] = ["class_declaration", "method_declaration", "namespace_declaration", "interface_declaration", "enum_declaration", "struct_declaration", "using_directive"];
        let v = static_list(&a);
        assert(str_views(v@) =~= spec_top_level_kinds(ext@));
        v
    } else if chars_eq_str(&ec, "java") {
        let a: [&'static str; 6] = ["class_declaration", "method_declaration", "interface_declaration", "enum_declaration", "import_declaration", "package_declaration"];
        let v = static_list(&a);
        assert(str_views(v@) =~= spec_top_level_kinds(ext@));
        v
    } else if chars_eq_str(&ec, "rb") {
        let a: [&'static str; 4] = ["method", "class", "module", "assignment"];
        let v = static_list(&a);
        assert(str_views(v@) =~= spec_top_level_kinds(ext@));
        v
    } else if chars_eq_str(&ec, "php") {
        let a: [&'static str; 5] = ["function_definition", "class_declaration", "method_declaration", "namespace_definition", "use_declaration"];
        let v = static_list(&a);
        assert(str_views(v@) =~= spec_top_level_kinds(ext@));
        v
    } else if chars_eq_str(&ec, "sh") || chars_eq_str(&ec, "bash") {
        let a: [&'static str; 2] = ["function_definition", "command"];
        let v = static_list(&a);
        assert(str_views(v@) =~= spec_top_level_kinds(ext@));
        v
    } else if chars_eq_str(&ec, "kt") || chars_eq_str(&ec, "kts") {
        let a: [&'static str; 5] = ["function_declaration", "class_declaration", "object_declaration", "interface_declaration", "import_header"];
        let v = static_list(&a);
        assert(str_views(v@) =~= spec_top_level_kinds(ext@));
        v
    } else if chars_eq_str(&ec, "swift") {
        let a: [&'static str; 6] = ["function_declaration", "class_declaration", "struct_declaration", "enum_declaration", "protocol_declaration", "import_declaration"];
        let v = static_list(&a);
        assert(str_views(v@) =~= spec_top_level_kinds(ext@));
        v
    } else if chars_eq_str(&ec, "ex") || chars_eq_str(&ec, "exs") {
        let a: [&'static str; 1] = ["call"];
        let v = static_list(&a);
        assert(str_views(v@) =~= spec_top_level_kinds(ext@));
        v
    } else if chars_eq_str(&ec, "lua") {
        let a: [&'static str; 3] = ["function_declaration", "local_function", "variable_declaration"];
        let v = static_list(&a);
        assert(str_views(v@) =~= spec_top_level_kinds(ext@));
        v
    } else if chars_eq_str(&ec, "hs") {
        let a: [&'static str; 6] = ["function", "type_synonym", "data_declaration", "class_declaration", "instance_declaration", "import_declaration"];
        let v = static_list(&a);
        assert(str_views(v@) =~= spec_top_level_kinds(ext@));
        v
    } else if chars_eq_str(&ec, "ml") || chars_eq_str(&ec, "mli") {
        let a: [&'static str; 4] = ["let_binding", "type_definition", "module_definition", "open_statement"];
        let v = static_list(&a);
        assert(str_views(v@) =~= spec_top_level_kinds(ext@));
        v
    } else if chars_eq_str(&ec, "dart") {
        let a: [&'static str; 5] = ["function_signature", "class_declaration", "method_signature", "import_or_export", "enum_declaration"];
        let v = static_list(&a);
        assert(str_views(v@) =~= spec_top_level_kinds(ext@));
        v
    } else {
        let v: Vec<&'static str> = Vec::new();
        assert(str_views(v@) =~= spec_top_level_kinds(ext@));
        v
    }
}

/// The node kinds that open an import block.
pub open spec fn import_kinds() -> Seq<Seq<char>> {
    seq![
        "use_declaration"@, "import_statement"@, "import_from_statement"@, "import_declaration"@,
        "using_directive"@, "preproc_include"@, "package_declaration"@, "import_header"@,
        "import_or_export"@, "open_statement"@,
    ]
}

/// Whether a node kind is an import (`use`, `import`, `#include`, …).
pub fn is_import_kind(kind: &str) -> (r: bool)
    ensures
        r == import_kinds().contains(kind@),
{
    let a: [&str; 10] = [
        "use_declaration", "import_statement", "import_from_statement", "import_declaration",
        "using_directive", "preproc_include", "package_declaration", "import_header",
        "import_or_export", "open_statement",
    ];
    assert(str_views(a@) =~= import_kinds());
    let kc = to_chars(kind);
    is_one_of(&kc, &a)
}

/// The node kinds of functions and methods.
pub open spec fn function_kinds() -> Seq<Seq<char>> {
    seq!["function_item"@, "function_definition"@, "function_declaration"@, "method_declaration"@, "method"@, "local_function"@, "function_signature"@, "method_signature"@]
}

/// The node kinds of structs.
pub open spec fn struct_kinds() -> Seq<Seq<char>> {
    seq!["struct_item"@, "struct_specifier"@, "struct_declaration"@]
}

/// The node kinds of enums.
pub open spec fn enum_kinds() -> Seq<Seq<char>> {
    seq!["enum_item"@, "enum_declaration"@, "enum_specifier"@]
}

/// The node kinds of modules and namespaces.
pub open spec fn module_kinds() -> Seq<Seq<char>> {
    seq!["mod_item"@, "module"@, "namespace_definition"@, "namespace_declaration"@]
}

/// The node kinds of classes and objects.
pub open spec fn class_kinds() -> Seq<Seq<char>> {
    seq!["class_definition"@, "class_declaration"@, "class_specifier"@, "object_declaration"@]
}

/// The node kinds of type aliases and declarations.
pub open spec fn type_kinds() -> Seq<Seq<char>> {
    seq!["type_item"@, "type_alias_declaration"@, "type_declaration"@, "interface_declaration"@, "type_definition"@, "type_synonym"@, "data_declaration"@, "protocol_declaration"@]
}

/// The node kinds of constants and variables.
pub open spec fn constant_kinds() -> Seq<Seq<char>> {
    seq!["const_item"@, "static_item"@, "const_declaration"@, "var_declaration"@, "lexical_declaration"@, "variable_declaration"@, "assignment"@, "local_variable_declaration"@]
}

/// The chunk type of a node kind.
pub open spec fn spec_kind_to_chunk_type(kind: Seq<char>) -> Seq<char> {
    if function_kinds().contains(kind) {
        "function"@
    } else if kind == "impl_item"@ {
        "impl"@
    } else if struct_kinds().contains(kind) {
        "struct"@
    } else if enum_kinds().contains(kind) {
        "enum"@
    } else if kind == "trait_item"@ {
        "trait"@
    } else if module_kinds().contains(kind) {
        "module"@
    } else if class_kinds().contains(kind) {
        "class"@
    } else if type_kinds().contains(kind) {
        "type_alias"@
    } else if constant_kinds().contains(kind) {
        "constant"@
    } else if kind == "macro_definition"@ {
        "macro"@
    } else if kind == "export_statement"@ {
        "export"@
    } else if kind == "template_declaration"@ {
        "template"@
    } else if import_kinds().contains(kind) {
        "import"@
    } else {
        "module_level"@
    }
}

/// Every chunk type other than the import one is spelled differently.
proof fn lemma_chunk_type_import(kind: Seq<char>)
    requires
        spec_kind_to_chunk_type(kind) == "import"@,
    ensures
        import_kinds().contains(kind),
{
    reveal_strlit("import");
    reveal_strlit("function");
    assert("function"@.len() != 6 || "function"@[0] != 'i');
    reveal_strlit("impl");
    assert("impl"@.len() != 6 || "impl"@[0] != 'i');
    reveal_strlit("struct");
    assert("struct"@.len() != 6 || "struct"@[0] != 'i');
    reveal_strlit("enum");
    assert("enum"@.len() != 6 || "enum"@[0] != 'i');
    reveal_strlit("trait");
    assert("trait"@.len() != 6 || "trait"@[0] != 'i');
    reveal_strlit("module");
    assert("module"@.len() != 6 || "module"@[0] != 'i');
    reveal_strlit("class");
    assert("class"@.len() != 6 || "class"@[0] != 'i');
    reveal_strlit("type_alias");
    assert("type_alias"@.len() != 6 || "type_alias"@[0] != 'i');
    reveal_strlit("constant");
    assert("constant"@.len() != 6 || "constant"@[0] != 'i');
    reveal_strlit("macro");
    assert("macro"@.len() != 6 || "macro"@[0] != 'i');
    reveal_strlit("export");
    assert("export"@.len() != 6 || "export"@[0] != 'i');
    reveal_strlit("template");
    assert("template"@.len() != 6 || "template"@[0] != 'i');
    reveal_strlit("module_level");
    assert("module_level"@.len() != 6 || "module_level"@[0] != 'i');
}

/// The import kinds occur in no earlier branch of the chunk-type mapping.
proof fn lemma_import_chunk_type(i: int)
    requires
        0 <= i < import_kinds().len(),
    ensures
        spec_kind_to_chunk_type(import_kinds()[i]) == "import"@,
{
    reveal_strlit("use_declaration");
    reveal_strlit("import_statement");
    reveal_strlit("import_from_statement");
    reveal_strlit("import_declaration");
    reveal_strlit("using_directive");
    reveal_strlit("preproc_include");
    reveal_strlit("package_declaration");
    reveal_strlit("import_header");
    reveal_strlit("import_or_export");
    reveal_strlit("open_statement");
    reveal_strlit("function_item");
    reveal_strlit("function_definition");
    reveal_strlit("function_declaration");
    reveal_strlit("method_declaration");
    reveal_strlit("method");
    reveal_strlit("local_function");
    reveal_strlit("function_signature");
    reveal_strlit("method_signature");
    reveal_strlit("function");
    reveal_strlit("impl_item");
    reveal_strlit("impl");
    reveal_strlit("struct_item");
    reveal_strlit("struct_specifier");
    reveal_strlit("struct_declaration");
    reveal_strlit("struct");
    reveal_strlit("enum_item");
    reveal_strlit("enum_declaration");
    reveal_strlit("enum_specifier");
    reveal_strlit("enum");
    reveal_strlit("trait_item");
    reveal_strlit("trait");
    reveal_strlit("mod_item");
    reveal_strlit("module");
    reveal_strlit("namespace_definition");
    reveal_strlit("namespace_declaration");
    reveal_strlit("class_definition");
    reveal_strlit("class_declaration");
    reveal_strlit("class_specifier");
    reveal_strlit("object_declaration");
    reveal_strlit("class");
    reveal_strlit("type_item");
    reveal_strlit("type_alias_declaration");
    reveal_strlit("type_declaration");
    reveal_strlit("interface_declaration");
    reveal_strlit("type_definition");
    reveal_strlit("type_synonym");
    reveal_strlit("data_declaration");
    reveal_strlit("protocol_declaration");
    reveal_strlit("type_alias");
    reveal_strlit("const_item");
    reveal_strlit("static_item");
    reveal_strlit("const_declaration");
    reveal_strlit("var_declaration");
    reveal_strlit("lexical_declaration");
    reveal_strlit("variable_declaration");
    reveal_strlit("assignment");
    reveal_strlit("local_variable_declaration");
    reveal_strlit("constant");
    reveal_strlit("macro_definition");
    reveal_strlit("macro");
    reveal_strlit("export_statement");
    reveal_strlit("export");
    reveal_strlit("template_declaration");
    reveal_strlit("template");
    reveal_strlit("import");
    reveal_strlit("module_level");
    assert("use_declaration"@.len() == 15 && "use_declaration"@[0] == 'u');
    assert("import_statement"@.len() == 16 && "import_statement"@[0] == 'i');
    assert("import_from_statement"@.len() == 21 && "import_from_statement"@[1] == 'm');
    assert("import_declaration"@.len() == 18 && "import_declaration"@[0] == 'i');
    assert("using_directive"@.len() == 15 && "using_directive"@[0] == 'u');
    assert("preproc_include"@.len() == 15 && "preproc_include"@[0] == 'p');
    assert("package_declaration"@.len() == 19 && "package_declaration"@[0] == 'p');
    assert("import_header"@.len() == 13 && "import_header"@[0] == 'i');
    assert("import_or_export"@.len() == 16 && "import_or_export"@[0] == 'i');
    assert("open_statement"@.len() == 14 && "open_statement"@[0] == 'o');
    assert("function_item"@.len() == 13 && "function_item"@[0] == 'f');
    assert("function_definition"@.len() == 19 && "function_definition"@[0] == 'f');
    assert("function_declaration"@.len() == 20 && "function_declaration"@[0] == 'f');
    assert("method_declaration"@.len() == 18 && "method_declaration"@[0] == 'm');
    assert("method"@.len() == 6 && "method"@[0] == 'm');
    assert("local_function"@.len() == 14 && "local_function"@[0] == 'l');
    assert("function_signature"@.len() == 18 && "function_signature"@[0] == 'f');
    assert("method_signature"@.len() == 16 && "method_signature"@[0] == 'm');
    assert("function"@.len() == 8 && "function"@[0] == 'f');
    assert("impl_item"@.len() == 9 && "impl_item"@[0] == 'i');
    assert("impl"@.len() == 4 && "impl"@[0] == 'i');
    assert("struct_item"@.len() == 11 && "struct_item"@[0] == 's');
    assert("struct_specifier"@.len() == 16 && "struct_specifier"@[0] == 's');
    assert("struct_declaration"@.len() == 18 && "struct_declaration"@[0] == 's');
    assert("struct"@.len() == 6 && "struct"@[0] == 's');
    assert("enum_item"@.len() == 9 && "enum_item"@[0] == 'e');
    assert("enum_declaration"@.len() == 16 && "enum_declaration"@[0] == 'e');
    assert("enum_specifier"@.len() == 14 && "enum_specifier"@[0] == 'e');
    assert("enum"@.len() == 4 && "enum"@[0] == 'e');
    assert("trait_item"@.len() == 10 && "trait_item"@[0] == 't');
    assert("trait"@.len() == 5 && "trait"@[0] == 't');
    assert("mod_item"@.len() == 8 && "mod_item"@[0] == 'm');
    assert("module"@.len() == 6 && "module"@[0] == 'm');
    assert("namespace_definition"@.len() == 20 && "namespace_definition"@[0] == 'n');
    assert("namespace_declaration"@.len() == 21 && "namespace_declaration"@[0] == 'n');
    assert("class_definition"@.len() == 16 && "class_definition"@[0] == 'c');
    assert("class_declaration"@.len() == 17 && "class_declaration"@[0] == 'c');
    assert("class_specifier"@.len() == 15 && "class_specifier"@[0] == 'c');
    assert("object_declaration"@.len() == 18 && "object_declaration"@[0] == 'o');
    assert("class"@.len() == 5 && "class"@[0] == 'c');
    assert("type_item"@.len() == 9 && "type_item"@[0] == 't');
    assert("type_alias_declaration"@.len() == 22 && "type_alias_declaration"@[0] == 't');
    assert("type_declaration"@.len() == 16 && "type_declaration"@[0] == 't');
    assert("interface_declaration"@.len() == 21 && "interface_declaration"@[1] == 'n');
    assert("type_definition"@.len() == 15 && "type_definition"@[0] == 't');
    assert("type_synonym"@.len() == 12 && "type_synonym"@[0] == 't');
    assert("data_declaration"@.len() == 16 && "data_declaration"@[0] == 'd');
    assert("protocol_declaration"@.len() == 20 && "protocol_declaration"@[0] == 'p');
    assert("type_alias"@.len() == 10 && "type_alias"@[0] == 't');
    assert("const_item"@.len() == 10 && "const_item"@[0] == 'c');
    assert("static_item"@.len() == 11 && "static_item"@[0] == 's');
    assert("const_declaration"@.len() == 17 && "const_declaration"@[0] == 'c');
    assert("var_declaration"@.len() == 15 && "var_declaration"@[0] == 'v');
    assert("lexical_declaration"@.len() == 19 && "lexical_declaration"@[0] == 'l');
    assert("variable_declaration"@.len() == 20 && "variable_declaration"@[0] == 'v');
    assert("assignment"@.len() == 10 && "assignment"@[0] == 'a');
    assert("local_variable_declaration"@.len() == 26 && "local_variable_declaration"@[0] == 'l');
    assert("constant"@.len() == 8 && "constant"@[0] == 'c');
    assert("macro_definition"@.len() == 16 && "macro_definition"@[0] == 'm');
    assert("macro"@.len() == 5 && "macro"@[0] == 'm');
    assert("export_statement"@.len() == 16 && "export_statement"@[0] == 'e');
    assert("export"@.len() == 6 && "export"@[0] == 'e');
    assert("template_declaration"@.len() == 20 && "template_declaration"@[0] == 't');
    assert("template"@.len() == 8 && "template"@[0] == 't');
    assert("import"@.len() == 6 && "import"@[0] == 'i');
    assert("module_level"@.len() == 12 && "module_level"@[0] == 'm');
    let x = import_kinds()[i];
    if i == 0 {
        assert(x == "use_declaration"@);
        assert(!function_kinds().contains(x));
        assert(!struct_kinds().contains(x));
        assert(!enum_kinds().contains(x));
        assert(!module_kinds().contains(x));
        assert(!class_kinds().contains(x));
        assert(!type_kinds().contains(x));
        assert(!constant_kinds().contains(x));
    } else if i == 1 {
        assert(x == "import_statement"@);
        assert(!function_kinds().contains(x));
        assert(!struct_kinds().contains(x));
        assert(!enum_kinds().contains(x));
        assert(!module_kinds().contains(x));
        assert(!class_kinds().contains(x));
        assert(!type_kinds().contains(x));
        assert(!constant_kinds().contains(x));
    } else if i == 2 {
        assert(x == "import_from_statement"@);
        assert(!function_kinds().contains(x));
        assert(!struct_kinds().contains(x));
        assert(!enum_kinds().contains(x));
        assert(!module_kinds().contains(x));
        assert(!class_kinds().contains(x));
        assert(!type_kinds().contains(x));
        assert(!constant_kinds().contains(x));
    } else if i == 3 {
        assert(x == "import_declaration"@);
        assert(!function_kinds().contains(x));
        assert(!struct_kinds().contains(x));
        assert(!enum_kinds().contains(x));
        assert(!module_kinds().contains(x));
        assert(!class_kinds().contains(x));
        assert(!type_kinds().contains(x));
        assert(!constant_kinds().contains(x));
    } else if i == 4 {
        assert(x == "using_directive"@);
        assert(!function_kinds().contains(x));
        assert(!struct_kinds().contains(x));
        assert(!enum_kinds().contains(x));
        assert(!module_kinds().contains(x));
        assert(!class_kinds().contains(x));
        assert(!type_kinds().contains(x));
        assert(!constant_kinds().contains(x));
    } else if i == 5 {
        assert(x == "preproc_include"@);
        assert(!function_kinds().contains(x));
        assert(!struct_kinds().contains(x));
        assert(!enum_kinds().contains(x));
        assert(!module_kinds().contains(x));
        assert(!class_kinds().contains(x));
        assert(!type_kinds().contains(x));
        assert(!constant_kinds().contains(x));
    } else if i == 6 {
        assert(x == "package_declaration"@);
        assert(!function_kinds().contains(x));
        assert(!struct_kinds().contains(x));
        assert(!enum_kinds().contains(x));
        assert(!module_kinds().contains(x));
        assert(!class_kinds().contains(x));
        assert(!type_kinds().contains(x));
        assert(!constant_kinds().contains(x));
    } else if i == 7 {
        assert(x == "import_header"@);
        assert(!function_kinds().contains(x));
        assert(!struct_kinds().contains(x));
        assert(!enum_kinds().contains(x));
        assert(!module_kinds().contains(x));
        assert(!class_kinds().contains(x));
        assert(!type_kinds().contains(x));
        assert(!constant_kinds().contains(x));
    } else if i == 8 {
        assert(x == "import_or_export"@);
        assert(!function_kinds().contains(x));
        assert(!struct_kinds().contains(x));
        assert(!enum_kinds().contains(x));
        assert(!module_kinds().contains(x));
        assert(!class_kinds().contains(x));
        assert(!type_kinds().contains(x));
        assert(!constant_kinds().contains(x));
    } else if i == 9 {
        assert(x == "open_statement"@);
        assert(!function_kinds().contains(x));
        assert(!struct_kinds().contains(x));
        assert(!enum_kinds().contains(x));
        assert(!module_kinds().contains(x));
        assert(!class_kinds().contains(x));
        assert(!type_kinds().contains(x));
        assert(!constant_kinds().contains(x));
    }
}

/// A node kind opens an import block exactly when its chunk type is
/// "import".
pub proof fn law_import_chunk_type(kind: Seq<char>)
    ensures
        import_kinds().contains(kind) <==> spec_kind_to_chunk_type(kind) == "import"@,
{
    if import_kinds().contains(kind) {
        let i = choose|i: int| 0 <= i < import_kinds().len() && import_kinds()[i] == kind;
        lemma_import_chunk_type(i);
    }
    if spec_kind_to_chunk_type(kind) == "import"@ {
        lemma_chunk_type_import(kind);
    }
}

/// Maps a node kind to a human-readable chunk type.
pub fn kind_to_chunk_type(kind: &str) -> (r: String)
    ensures
        r@ == spec_kind_to_chunk_type(kind@),
{
    let kc = to_chars(kind);
    let f: [&str; 8] = ["function_item", "function_definition", "function_declaration", "method_declaration", "method", "local_function", "function_signature", "method_signature"];
    let s: [&str; 3] = ["struct_item", "struct_specifier", "struct_declaration"];
    let e: [&str; 3] = ["enum_item", "enum_declaration", "enum_specifier"];
    let m: [&str; 4] = ["mod_item", "module", "namespace_definition", "namespace_declaration"];
    let c: [&str; 4] = ["class_definition", "class_declaration", "class_specifier", "object_declaration"];
    let t: [&str; 8] = ["type_item", "type_alias_declaration", "type_declaration", "interface_declaration", "type_definition", "type_synonym", "data_declaration", "protocol_declaration"];
    let k: [&str; 8] = ["const_item", "static_item", "const_declaration", "var_declaration", "lexical_declaration", "variable_declaration", "assignment", "local_variable_declaration"];
    assert(str_views(f@) =~= function_kinds());
    assert(str_views(s@) =~= struct_kinds());
    assert(str_views(e@) =~= enum_kinds());
    assert(str_views(m@) =~= module_kinds());
    assert(str_views(c@) =~= class_kinds());
    assert(str_views(t@) =~= type_kinds());
    assert(str_views(k@) =~= constant_kinds());
    if is_one_of(&kc, &f) {
        string_of("function")
    } else if chars_eq_str(&kc, "impl_item") {
        string_of("impl")
    } else if is_one_of(&kc, &s) {
        string_of("struct")
    } else if is_one_of(&kc, &e) {
        string_of("enum")
    } else if chars_eq_str(&kc, "trait_item") {
        string_of("trait")
    } else if is_one_of(&kc, &m) {
        string_of("module")
    } else if is_one_of(&kc, &c) {
        string_of("class")
    } else if is_one_of(&kc, &t) {
        string_of("type_alias")
    } else if is_one_of(&kc, &k) {
        string_of("constant")
    } else if chars_eq_str(&kc, "macro_definition") {
        string_of("macro")
    } else if chars_eq_str(&kc, "export_statement") {
        string_of("export")
    } else if chars_eq_str(&kc, "template_declaration") {
        string_of("template")
    } else if is_import_kind(kind) {
        string_of("import")
    } else {
        string_of("module_level")
    }
}

/// The entity type the generic extractor gives a node kind.
pub open spec fn spec_generic_entity_type(k: Seq<char>) -> Seq<char> {
    if contains_seq(k, "function"@) || contains_seq(k, "method"@) || k == "def"@ || k == "defp"@ {
        "function"@
    } else if contains_seq(k, "class"@) {
        "class"@
    } else if contains_seq(k, "interface"@) {
        "interface"@
    } else if contains_seq(k, "struct"@) {
        "struct"@
    } else if contains_seq(k, "enum"@) {
        "enum"@
    } else if contains_seq(k, "namespace"@) || contains_seq(k, "module"@) || k == "defmodule"@ {
        "module"@
    } else if contains_seq(k, "template"@) {
        "template"@
    } else if contains_seq(k, "type"@) {
        "type_alias"@
    } else if contains_seq(k, "protocol"@) {
        "protocol"@
    } else if contains_seq(k, "object"@) {
        "object"@
    } else {
        "declaration"@
    }
}

fn has(kc: &Vec<char>, p: &str) -> (r: bool)
    ensures
        r == contains_seq(kc@, p@),
{
    let pc = to_chars(p);
    contains_vec(kc, &pc)
}

/// Maps a node kind to a simple entity type for the generic extractor.
pub fn generic_kind_to_entity_type(kind: &str) -> (r: String)
    ensures
        r@ == spec_generic_entity_type(kind@),
{
    let k = to_chars(kind);
    if has(&k, "function") || has(&k, "method") || chars_eq_str(&k, "def") || chars_eq_str(&k, "defp") {
        string_of("function")
    } else if has(&k, "class") {
        string_of("class")
    } else if has(&k, "interface") {
        string_of("interface")
    } else if has(&k, "struct") {
        string_of("struct")
    } else if has(&k, "enum") {
        string_of("enum")
    } else if has(&k, "namespace") || has(&k, "module") || chars_eq_str(&k, "defmodule") {
        string_of("module")
    } else if has(&k, "template") {
        string_of("template")
    } else if has(&k, "type") {
        string_of("type_alias")
    } else if has(&k, "protocol") {
        string_of("protocol")
    } else if has(&k, "object") {
        string_of("object")
    } else {
        string_of("declaration")
    }
}

// ─── Lines ────────────────────────────────────────────────────────────────────

/// The 0-indexed first line of a 1-indexed start.
pub open spec fn line_index(start: int) -> int {
    if start > 0 {
        start - 1
    } else {
        0
    }
}

/// Extracts the text of lines `start..=end` (1-indexed, `end` capped at the
/// number of lines), joined with `'\n'`.
pub fn slice_lines(lines: &[&str], start: usize, end: usize) -> (r: String)
    requires
        line_index(start as int) <= (if end < lines@.len() { end as int } else { lines@.len() as int }),
    ensures
        r@ == join_lines(str_views(lines@).subrange(
            line_index(start as int),
            if end < lines@.len() { end as int } else { lines@.len() as int },
        )),
{
    let s = if start > 0 { start - 1 } else { 0 };
    let e = if end < lines.len() { end } else { lines.len() };
    let ghost all = str_views(lines@);
    let mut out: Vec<char> = Vec::new();
    let mut i = s;
    while i < e
        invariant
            s <= i <= e <= lines.len(),
            all == str_views(lines@),
            out@ == join_lines(all.subrange(s as int, i as int)),
        decreases e - i,
    {
        let ghost before = all.subrange(s as int, i as int);
        let ghost after = all.subrange(s as int, i + 1);
        assert(after.drop_last() == before);
        if i > s {
            out.push('\n');
        }
        let lc = to_chars(lines[i]);
        append_chars(&mut out, &lc);
        assert(out@ =~= join_lines(after));
        i = i + 1;
    }
    from_chars(&out)
}

/// The given 1-indexed line, trimmed; empty when there is no such line.
pub fn first_line(lines: &[&str], line_1indexed: usize) -> (r: String)
    ensures
        r@ == if line_index(line_1indexed as int) < lines@.len() {
            trim(lines@[line_index(line_1indexed as int)]@)
        } else {
            Seq::empty()
        },
{
    let i = if line_1indexed > 0 { line_1indexed - 1 } else { 0 };
    if i < lines.len() {
        let lc = to_chars(lines[i]);
        let t = trim_chars(&lc);
        from_chars(&t)
    } else {
        let v: Vec<char> = Vec::new();
        from_chars(&v)
    }
}

} // verus!
