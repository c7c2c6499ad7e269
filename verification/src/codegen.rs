//! Sigil to TypeScript code generation.
//!
//! Every function becomes an `async function`; mockable functions get an
//! implementation and a wrapper that consults the mock table; tests become
//! `__test_` functions listed in `__sigil_tests`; a small mock runtime is
//! emitted first.

use crate::ast::{
    ConstDecl, Declaration, ExternDecl, ExternMember, FunctionDecl, ImportDecl, Param, Program,
    TestDecl,
};
use crate::json::{concat_all, concat_texts, decimal, join_texts, join_with, push_text, strings_view, u64_text};
use vstd::prelude::*;

verus! {

/// A code generation failure.
#[derive(Debug)]
pub enum CodegenError {
    General(String),
}

/// Where the generated code comes from and goes.
#[derive(Debug)]
pub struct CodegenOptions {
    pub source_file: Option<String>,
    pub output_file: Option<String>,
    pub project_root: Option<String>,
}

impl Default for CodegenOptions {
    /// No file names and no project root.
    fn default() -> (r: Self)
        ensures
            r.source_file is None,
            r.output_file is None,
            r.project_root is None,
    {
        Self { source_file: None, output_file: None, project_root: None }
    }
}

/// The TypeScript generator: the lines emitted so far, the indentation, and
/// the tests met.
pub struct TypeScriptGenerator {
    indent: usize,
    output: Vec<String>,
    source_file: Option<String>,
    output_file: Option<String>,
    project_root: Option<String>,
    test_meta_entries: Vec<String>,
    mockable_functions: Vec<String>,
}

// ---------------------------------------------------------------------------
// The text generated
// ---------------------------------------------------------------------------

/// Two spaces per level.
pub open spec fn indentation(level: nat) -> Seq<char>
    decreases level,
{
    if level == 0 {
        Seq::empty()
    } else {
        indentation((level - 1) as nat) + "  "@
    }
}

/// A line at an indentation level, with its line feed.
pub open spec fn line_at(level: nat, text: Seq<char>) -> Seq<char> {
    indentation(level) + text + "\n"@
}

/// The lines of the mock runtime emitted before the program.
pub open spec fn mock_runtime_pieces() -> Seq<Seq<char>> {
    seq![
        line_at(0, "// Sigil Mock Runtime"@),
        line_at(0, "const __sigil_mocks = new Map();"@),
        line_at(0, ""@),
        line_at(0, "function __sigil_call(name, impl, ...args) {"@),
        line_at(1, "if (__sigil_mocks.has(name)) {"@),
        line_at(2, "return __sigil_mocks.get(name)(...args);"@),
        line_at(1, "}"@),
        line_at(1, "return impl(...args);"@),
        line_at(0, "}"@),
        line_at(0, ""@),
        line_at(0, "function __sigil_with_mock(name, replacement, body) {"@),
        line_at(1, "__sigil_mocks.set(name, replacement);"@),
        line_at(1, "try {"@),
        line_at(2, "return body();"@),
        line_at(1, "} finally {"@),
        line_at(2, "__sigil_mocks.delete(name);"@),
        line_at(1, "}"@),
        line_at(0, "}"@),
        line_at(0, ""@),
    ]
}

/// The parameter names of a function.
pub open spec fn param_names(params: Seq<Param>) -> Seq<Seq<char>> {
    Seq::new(params.len(), |i: int| params[i].name@)
}

/// A function is exported when it is marked so or is `main`.
pub open spec fn function_exported(f: FunctionDecl) -> bool {
    f.is_exported || f.name@ == "main"@
}

/// The name of the implementation of a function: prefixed when mockable.
pub open spec fn impl_name_of(f: FunctionDecl) -> Seq<char> {
    if f.is_mockable {
        "__sigil_impl_"@ + f.name@
    } else {
        f.name@
    }
}

/// The lines of a function: its implementation, and for a mockable one a
/// wrapper that calls it through the mock table.
pub open spec fn function_pieces(f: FunctionDecl) -> Seq<Seq<char>> {
    let params = join_with(param_names(f.params@), ", "@);
    let keyword = if function_exported(f) {
        "export async function"@
    } else {
        "async function"@
    };
    let body = seq![
        line_at(0, keyword + " "@ + impl_name_of(f) + "("@ + params + ") {"@),
        line_at(1, "return "@ + "null"@ + ";"@),
        line_at(0, "}"@),
    ];
    if f.is_mockable {
        let export_keyword = if function_exported(f) {
            "export "@
        } else {
            ""@
        };
        let args = if f.params@.len() == 0 {
            ""@
        } else {
            ", "@ + params
        };
        body + seq![
            line_at(0, ""@),
            line_at(0, export_keyword + "async function "@ + f.name@ + "("@ + params + ") {"@),
            line_at(
                1,
                "return await __sigil_call('"@ + f.name@ + "', "@ + impl_name_of(f) + args + ");"@,
            ),
            line_at(0, "}"@),
        ]
    } else {
        body
    }
}

/// The line of a constant.
pub open spec fn const_pieces(c: ConstDecl) -> Seq<Seq<char>> {
    let export_keyword = if c.is_exported {
        "export "@
    } else {
        ""@
    };
    seq![line_at(0, export_keyword + "const "@ + c.name@ + " = "@ + "null"@ + ";"@)]
}

/// The line of an import of a Sigil module.
pub open spec fn import_pieces(i: ImportDecl) -> Seq<Seq<char>> {
    let segments = strings_view(i.path_segments@);
    seq![
        line_at(
            0,
            "import * as "@ + segments.last() + " from './"@ + join_with(segments, "/"@) + ".js';"@,
        ),
    ]
}

/// The names of extern members.
pub open spec fn member_names(ms: Seq<ExternMember>) -> Seq<Seq<char>> {
    Seq::new(ms.len(), |i: int| ms[i].name@)
}

/// The line of an extern module.
pub open spec fn extern_pieces(e: ExternDecl) -> Seq<Seq<char>> {
    let segments = strings_view(e.path_segments@);
    let path = join_with(segments, "/"@);
    match e.members {
        Some(ms) => seq![
            line_at(
                0,
                "import { "@ + join_with(member_names(ms@), ", "@) + " } from '"@ + path + "';"@,
            ),
        ],
        None => seq![line_at(0, "import * as "@ + segments.last() + " from '"@ + path + "';"@)],
    }
}

/// What `char::is_alphanumeric` returns: the character is alphabetic or
/// numeric in Unicode's sense.
pub uninterp spec fn alphanumeric(c: char) -> bool;

/// What `str::to_lowercase` returns: the text under Unicode's lowercase
/// mapping.
pub uninterp spec fn lowercase(text: Seq<char>) -> Seq<char>;

/// A character that a test name keeps.
pub open spec fn name_char(c: char) -> bool {
    alphanumeric(c) || c == '_'
}

/// The name of a test: the letters, digits and underscores of its
/// description, in lower case; `test_` and the number of tests before it
/// when that leaves nothing.
pub open spec fn test_name_of(description: Seq<char>, tests_before: nat) -> Seq<char> {
    let kept = lowercase(description.filter(|c: char| name_char(c)));
    if kept.len() == 0 {
        "test_"@ + decimal(tests_before as int)
    } else {
        kept
    }
}

/// The description with each double quote escaped by a backslash.
pub open spec fn escape_quotes(s: Seq<char>) -> Seq<char>
    decreases s.len(),
{
    if s.len() == 0 {
        Seq::empty()
    } else if s.last() == '"' {
        escape_quotes(s.drop_last()) + "\\\""@
    } else {
        escape_quotes(s.drop_last()).push(s.last())
    }
}

/// The lines of a test function.
pub open spec fn test_pieces(t: TestDecl, tests_before: nat) -> Seq<Seq<char>> {
    let name = test_name_of(t.description@, tests_before);
    seq![
        line_at(0, "async function __test_"@ + name + "() {"@),
        line_at(1, "return "@ + "null"@ + ";"@),
        line_at(0, "}"@),
    ]
}

/// The entry of a test in `__sigil_tests`.
pub open spec fn test_entry(t: TestDecl, tests_before: nat) -> Seq<char> {
    let name = test_name_of(t.description@, tests_before);
    "{ name: '"@ + name + "', description: '"@ + escape_quotes(t.description@) + "', fn: __test_"@
        + name + " }"@
}

/// The lines of a declaration, and the test entry it adds.
pub open spec fn declaration_output(d: Declaration, tests_before: nat) -> (
    Seq<Seq<char>>,
    Seq<Seq<char>>,
) {
    match d {
        Declaration::Function(f) => (function_pieces(f), Seq::empty()),
        Declaration::Type(_) => (Seq::empty(), Seq::empty()),
        Declaration::Const(c) => (const_pieces(c), Seq::empty()),
        Declaration::Import(i) => (import_pieces(i), Seq::empty()),
        Declaration::Extern(e) => (extern_pieces(e), Seq::empty()),
        Declaration::Test(t) => (test_pieces(t, tests_before), seq![test_entry(t, tests_before)]),
    }
}

/// The lines of the declarations, each followed by a blank line, and the
/// test entries met on the way.
pub open spec fn declarations_output(ds: Seq<Declaration>) -> (Seq<Seq<char>>, Seq<Seq<char>>)
    decreases ds.len(),
{
    if ds.len() == 0 {
        (Seq::empty(), Seq::empty())
    } else {
        let before = declarations_output(ds.drop_last());
        let d = declaration_output(ds.last(), before.1.len());
        (before.0 + d.0 + seq!["\n"@], before.1 + d.1)
    }
}

/// Each test entry as a line of the test list.
pub open spec fn entry_lines(entries: Seq<Seq<char>>) -> Seq<Seq<char>> {
    Seq::new(entries.len(), |i: int| line_at(1, entries[i] + ","@))
}

/// The lines of a whole program: the mock runtime, the declarations, and
/// the list of tests when there are tests.
pub open spec fn program_pieces(ds: Seq<Declaration>) -> Seq<Seq<char>> {
    let out = declarations_output(ds);
    let tests = if out.1.len() > 0 {
        seq![line_at(0, "export const __sigil_tests = ["@)] + entry_lines(out.1) + seq![
            line_at(0, "];"@),
            "\n"@,
        ]
    } else {
        Seq::empty()
    };
    mock_runtime_pieces() + out.0 + tests
}

/// The generated TypeScript of a program.
pub open spec fn program_text(ds: Seq<Declaration>) -> Seq<char> {
    concat_all(program_pieces(ds))
}

/// The declarations that code generation can handle: imports, and
/// externs without a member list, name at least one path segment.
pub open spec fn declaration_generable(d: Declaration) -> bool {
    match d {
        Declaration::Import(i) => i.path_segments@.len() > 0,
        Declaration::Extern(e) => e.members is None ==> e.path_segments@.len() > 0,
        _ => true,
    }
}

/// Every declaration of the program can be generated.
pub open spec fn program_generable(p: Program) -> bool {
    forall|i: int| 0 <= i < p.declarations@.len() ==> #[trigger] declaration_generable(
        p.declarations@[i],
    )
}

/// `d` declares a mockable function named `n`.
pub open spec fn declares_mockable(d: Declaration, n: Seq<char>) -> bool {
    match d {
        Declaration::Function(f) => f.is_mockable && f.name@ == n,
        _ => false,
    }
}

/// The names of the mockable functions among the declarations.
pub open spec fn mockable_names(ds: Seq<Declaration>) -> Set<Seq<char>> {
    Set::new(
        |n: Seq<char>|
            exists|i: int| 0 <= i < ds.len() && #[trigger] declares_mockable(ds[i], n),
    )
}

// ---------------------------------------------------------------------------
// Outside character functions
// ---------------------------------------------------------------------------

/// `char::is_alphanumeric`.
#[verifier::external_body]
fn is_alphanumeric(c: char) -> (r: bool)
    ensures
        r == alphanumeric(c),
{
    c.is_alphanumeric()
}

/// `str::to_lowercase`.
#[verifier::external_body]
fn to_lowercase(text: &String) -> (r: String)
    ensures
        r@ == lowercase(text@),
{
    text.to_lowercase()
}

/// The character at position `i` of `s`, as a string of its own.
fn char_text(s: &str, i: usize, n: usize) -> (r: &str)
    requires
        i < n,
        n == s@.len(),
    ensures
        r@ == seq![s@[i as int]],
{
    let piece = s.substring_char(i, i + 1);
    proof {
        assert(piece@ =~= seq![s@[i as int]]);
    }
    piece
}

/// The letters, digits and underscores of `description`, in order.
fn name_chars(description: &String) -> (r: String)
    ensures
        r@ == description@.filter(|c: char| name_char(c)),
{
    let s = description.as_str();
    let n = s.unicode_len();
    let mut out = String::new();
    let mut i: usize = 0;
    while i < n
        invariant
            n == s@.len(),
            s@ == description@,
            i <= n,
            out@ == s@.take(i as int).filter(|c: char| name_char(c)),
        decreases n - i,
    {
        let c = s.get_char(i);
        proof {
            let pre = s@.take(i + 1);
            assert(pre.drop_last() =~= s@.take(i as int));
            assert(pre.last() == c);
            reveal(Seq::filter);
        }
        if is_alphanumeric(c) || c == '_' {
            out.append(char_text(s, i, n));
        }
        i += 1;
    }
    proof {
        assert(s@.take(n as int) =~= s@);
    }
    out
}

/// The description with each double quote escaped.
fn escaped_description(description: &String) -> (r: String)
    ensures
        r@ == escape_quotes(description@),
{
    let s = description.as_str();
    let n = s.unicode_len();
    let mut out = String::new();
    let mut i: usize = 0;
    while i < n
        invariant
            n == s@.len(),
            s@ == description@,
            i <= n,
            out@ == escape_quotes(s@.take(i as int)),
        decreases n - i,
    {
        let c = s.get_char(i);
        proof {
            let pre = s@.take(i + 1);
            assert(pre.drop_last() =~= s@.take(i as int));
            assert(pre.last() == c);
        }
        if c == '"' {
            out.append("\\\"");
        } else {
            let ghost before = out@;
            out.append(char_text(s, i, n));
            proof {
                assert(out@ =~= before.push(c));
            }
        }
        i += 1;
    }
    proof {
        assert(s@.take(n as int) =~= s@);
    }
    out
}

/// Two strings joined.
fn cat(a: &str, b: &str) -> (r: String)
    ensures
        r@ == a@ + b@,
{
    String::from_str(a).concat(b)
}

impl TypeScriptGenerator {
    /// The text emitted so far.
    pub closed spec fn emitted(&self) -> Seq<Seq<char>> {
        strings_view(self.output@)
    }

    /// The test entries met so far.
    pub closed spec fn entries(&self) -> Seq<Seq<char>> {
        strings_view(self.test_meta_entries@)
    }

    /// The names of the mockable functions met.
    pub closed spec fn mockables(&self) -> Set<Seq<char>> {
        strings_view(self.mockable_functions@).to_set()
    }

    /// The source file, output file and project root it was made with.
    pub closed spec fn files(&self) -> (Option<String>, Option<String>, Option<String>) {
        (self.source_file, self.output_file, self.project_root)
    }

    /// The current indentation level.
    pub closed spec fn indent_level(&self) -> nat {
        self.indent as nat
    }

    /// A generator for the given files, with nothing emitted, at no
    /// indentation.
    pub fn new(options: CodegenOptions) -> (r: Self)
        ensures
            r.emitted() == Seq::<Seq<char>>::empty(),
            r.entries() == Seq::<Seq<char>>::empty(),
            r.mockables() == Set::<Seq<char>>::empty(),
            r.files() == (options.source_file, options.output_file, options.project_root),
            r.indent_level() == 0,
    {
        let r = Self {
            indent: 0,
            output: Vec::new(),
            source_file: options.source_file,
            output_file: options.output_file,
            project_root: options.project_root,
            test_meta_entries: Vec::new(),
            mockable_functions: Vec::new(),
        };
        proof {
            assert(r.emitted() =~= Seq::<Seq<char>>::empty());
            assert(r.entries() =~= Seq::<Seq<char>>::empty());
            assert(r.mockables() =~= Set::<Seq<char>>::empty());
        }
        r
    }

    /// The names of the mockable functions of the last program generated.
    pub fn mockable_functions(&self) -> (r: &Vec<String>)
        ensures
            strings_view(r@).to_set() == self.mockables(),
    {
        &self.mockable_functions
    }

    /// Emits a line at the current indentation.
    fn emit(&mut self, line: &str)
        requires
            old(self).indent < 100,
        ensures
            final(self).files() == old(self).files(),
            final(self).output@.len() == old(self).output@.len() + 1,
            final(self).emitted() == old(self).emitted().push(line_at(old(self).indent as nat, line@)),
            final(self).indent == old(self).indent,
            final(self).test_meta_entries == old(self).test_meta_entries,
            final(self).mockable_functions == old(self).mockable_functions,
    {
        let mut text = String::new();
        let mut level: usize = 0;
        while level < self.indent
            invariant
                level <= self.indent,
                text@ == indentation(level as nat),
            decreases self.indent - level,
        {
            text.append("  ");
            level += 1;
        }
        text.append(line);
        text.append("\n");
        let ghost before = self.emitted();
        let ghost piece = text@;
        self.output.push(text);
        proof {
            assert(self.emitted() =~= before.push(piece));
        }
    }

    /// Emits a raw piece of text.
    fn push_raw(&mut self, piece: &str)
        ensures
            final(self).files() == old(self).files(),
            final(self).emitted() == old(self).emitted().push(piece@),
            final(self).indent == old(self).indent,
            final(self).test_meta_entries == old(self).test_meta_entries,
            final(self).mockable_functions == old(self).mockable_functions,
    {
        let ghost before = self.emitted();
        self.output.push(String::from_str(piece));
        proof {
            assert(self.emitted() =~= before.push(piece@));
        }
    }

    fn emit_mock_runtime_helpers(&mut self)
        requires
            old(self).indent == 0,
        ensures
            final(self).files() == old(self).files(),
            final(self).emitted() == old(self).emitted() + mock_runtime_pieces(),
            final(self).indent == 0,
            final(self).test_meta_entries == old(self).test_meta_entries,
            final(self).mockable_functions == old(self).mockable_functions,
    {
        let ghost start = self.emitted();
        self.emit("// Sigil Mock Runtime");
        self.emit("const __sigil_mocks = new Map();");
        self.emit("");
        self.emit("function __sigil_call(name, impl, ...args) {");
        self.indent = self.indent + 1;
        self.emit("if (__sigil_mocks.has(name)) {");
        self.indent = self.indent + 1;
        self.emit("return __sigil_mocks.get(name)(...args);");
        self.indent = self.indent - 1;
        self.emit("}");
        self.emit("return impl(...args);");
        self.indent = self.indent - 1;
        self.emit("}");
        self.emit("");
        self.emit("function __sigil_with_mock(name, replacement, body) {");
        self.indent = self.indent + 1;
        self.emit("__sigil_mocks.set(name, replacement);");
        self.emit("try {");
        self.indent = self.indent + 1;
        self.emit("return body();");
        self.indent = self.indent - 1;
        self.emit("} finally {");
        self.indent = self.indent + 1;
        self.emit("__sigil_mocks.delete(name);");
        self.indent = self.indent - 1;
        self.emit("}");
        self.indent = self.indent - 1;
        self.emit("}");
        self.emit("");
        proof {
            assert(self.emitted() =~= start + mock_runtime_pieces());
        }
    }

    fn generate_function(&mut self, func: &FunctionDecl)
        requires
            old(self).indent == 0,
        ensures
            final(self).files() == old(self).files(),
            final(self).emitted() == old(self).emitted() + function_pieces(*func),
            final(self).indent == 0,
            final(self).test_meta_entries == old(self).test_meta_entries,
            final(self).mockable_functions == old(self).mockable_functions,
    {
        let ghost start = self.emitted();
        let mut names: Vec<String> = Vec::new();
        let mut i: usize = 0;
        while i < func.params.len()
            invariant
                i <= func.params.len(),
                strings_view(names@) =~= param_names(func.params@).take(i as int),
            decreases func.params.len() - i,
        {
            let ghost before = strings_view(names@);
            names.push(func.params[i].name.clone());
            proof {
                assert(strings_view(names@) =~= before.push(func.params@[i as int].name@));
                assert(param_names(func.params@).take(i + 1) =~= param_names(func.params@).take(
                    i as int,
                ).push(func.params@[i as int].name@));
            }
            i += 1;
        }
        proof {
            assert(param_names(func.params@).take(func.params@.len() as int) =~= param_names(
                func.params@,
            ));
        }
        let params_str = join_texts(&names, ", ");
        let impl_name = if func.is_mockable {
            cat("__sigil_impl_", func.name.as_str())
        } else {
            func.name.clone()
        };
        let should_export = func.is_exported || func.name == String::from_str("main");
        let fn_keyword = if should_export {
            "export async function"
        } else {
            "async function"
        };
        let mut header = cat(fn_keyword, " ");
        push_text(&mut header, &impl_name);
        header.append("(");
        push_text(&mut header, &params_str);
        header.append(") {");
        proof {
            let params = join_with(param_names(func.params@), ", "@);
            let keyword = if function_exported(*func) {
                "export async function"@
            } else {
                "async function"@
            };
            assert(header@ =~= keyword + " "@ + impl_name_of(*func) + "("@ + params + ") {"@);
        }
        self.emit(header.as_str());
        self.indent = self.indent + 1;
        let body_code = String::from_str("null");
        let mut ret = cat("return ", body_code.as_str());
        ret.append(";");
        proof {
            assert(ret@ =~= "return "@ + "null"@ + ";"@);
        }
        self.emit(ret.as_str());
        self.indent = self.indent - 1;
        self.emit("}");
        if func.is_mockable {
            self.emit("");
            let export_keyword = if should_export {
                "export "
            } else {
                ""
            };
            let mut wrapper = cat(export_keyword, "async function ");
            push_text(&mut wrapper, &func.name);
            wrapper.append("(");
            push_text(&mut wrapper, &params_str);
            wrapper.append(") {");
            proof {
                let params = join_with(param_names(func.params@), ", "@);
                let export_keyword = if function_exported(*func) {
                    "export "@
                } else {
                    ""@
                };
                assert(wrapper@ =~= export_keyword + "async function "@ + func.name@ + "("@ + params + ") {"@);
            }
            self.emit(wrapper.as_str());
            self.indent = self.indent + 1;
            let args = if names.len() == 0 {
                String::from_str("")
            } else {
                cat(", ", params_str.as_str())
            };
            let mut call = String::from_str("return await __sigil_call('");
            push_text(&mut call, &func.name);
            call.append("', ");
            push_text(&mut call, &impl_name);
            push_text(&mut call, &args);
            call.append(");");
            proof {
                let params = join_with(param_names(func.params@), ", "@);
                let args = if func.params@.len() == 0 {
                    ""@
                } else {
                    ", "@ + params
                };
                assert(call@ =~= "return await __sigil_call('"@ + func.name@ + "', "@ + impl_name_of(*func) + args + ");"@);
            }
            self.emit(call.as_str());
            self.indent = self.indent - 1;
            self.emit("}");
        }
        proof {
            assert(self.emitted() =~= start + function_pieces(*func));
        }
    }

    fn generate_const(&mut self, const_decl: &ConstDecl)
        requires
            old(self).indent == 0,
        ensures
            final(self).files() == old(self).files(),
            final(self).emitted() == old(self).emitted() + const_pieces(*const_decl),
            final(self).indent == 0,
            final(self).test_meta_entries == old(self).test_meta_entries,
            final(self).mockable_functions == old(self).mockable_functions,
    {
        let ghost start = self.emitted();
        let value = String::from_str("null");
        let export_keyword = if const_decl.is_exported {
            "export "
        } else {
            ""
        };
        let mut line = cat(export_keyword, "const ");
        push_text(&mut line, &const_decl.name);
        line.append(" = ");
        push_text(&mut line, &value);
        line.append(";");
        self.emit(line.as_str());
        proof {
            assert(self.emitted() =~= start + const_pieces(*const_decl));
        }
    }

    fn generate_import(&mut self, import: &ImportDecl)
        requires
            old(self).indent == 0,
            import.path_segments@.len() > 0,
        ensures
            final(self).files() == old(self).files(),
            final(self).emitted() == old(self).emitted() + import_pieces(*import),
            final(self).indent == 0,
            final(self).test_meta_entries == old(self).test_meta_entries,
            final(self).mockable_functions == old(self).mockable_functions,
    {
        let ghost start = self.emitted();
        let path = join_texts(&import.path_segments, "/");
        let namespace = &import.path_segments[import.path_segments.len() - 1];
        let mut line = cat("import * as ", namespace.as_str());
        line.append(" from './");
        push_text(&mut line, &path);
        line.append(".js';");
        self.emit(line.as_str());
        proof {
            assert(self.emitted() =~= start + import_pieces(*import));
        }
    }

    fn generate_extern(&mut self, extern_decl: &ExternDecl)
        requires
            old(self).indent == 0,
            extern_decl.members is None ==> extern_decl.path_segments@.len() > 0,
        ensures
            final(self).files() == old(self).files(),
            final(self).emitted() == old(self).emitted() + extern_pieces(*extern_decl),
            final(self).indent == 0,
            final(self).test_meta_entries == old(self).test_meta_entries,
            final(self).mockable_functions == old(self).mockable_functions,
    {
        let ghost start = self.emitted();
        let path = join_texts(&extern_decl.path_segments, "/");
        match &extern_decl.members {
            Some(members) => {
                let mut names: Vec<String> = Vec::new();
                let mut i: usize = 0;
                while i < members.len()
                    invariant
                        i <= members.len(),
                        strings_view(names@) =~= member_names(members@).take(i as int),
                    decreases members.len() - i,
                {
                    let ghost before = strings_view(names@);
                    names.push(members[i].name.clone());
                    proof {
                        assert(strings_view(names@) =~= before.push(members@[i as int].name@));
                        assert(member_names(members@).take(i + 1) =~= member_names(members@).take(
                            i as int,
                        ).push(members@[i as int].name@));
                    }
                    i += 1;
                }
                proof {
                    assert(member_names(members@).take(members@.len() as int) =~= member_names(
                        members@,
                    ));
                }
                let mut line = cat("import { ", join_texts(&names, ", ").as_str());
                line.append(" } from '");
                push_text(&mut line, &path);
                line.append("';");
                self.emit(line.as_str());
            },
            None => {
                let namespace = &extern_decl.path_segments[extern_decl.path_segments.len() - 1];
                let mut line = cat("import * as ", namespace.as_str());
                line.append(" from '");
                push_text(&mut line, &path);
                line.append("';");
                self.emit(line.as_str());
            },
        }
        proof {
            assert(self.emitted() =~= start + extern_pieces(*extern_decl));
        }
    }

    fn generate_test(&mut self, test: &TestDecl)
        requires
            old(self).indent == 0,
        ensures
            final(self).files() == old(self).files(),
            final(self).emitted() == old(self).emitted() + test_pieces(
                *test,
                old(self).entries().len(),
            ),
            final(self).entries() == old(self).entries().push(
                test_entry(*test, old(self).entries().len()),
            ),
            final(self).indent == 0,
            final(self).mockable_functions == old(self).mockable_functions,
    {
        let ghost start = self.emitted();
        let ghost entries_before = self.entries();
        let kept = name_chars(&test.description);
        let lowered = to_lowercase(&kept);
        let test_name = if lowered.unicode_len() == 0 {
            let count: u64 = self.test_meta_entries.len() as u64;
            cat("test_", u64_text(count).as_str())
        } else {
            lowered
        };
        proof {
            assert(test_name@ == test_name_of(test.description@, entries_before.len()));
        }
        let mut header = cat("async function __test_", test_name.as_str());
        header.append("() {");
        self.emit(header.as_str());
        self.indent = self.indent + 1;
        let body = String::from_str("null");
        let mut ret = cat("return ", body.as_str());
        ret.append(";");
        self.emit(ret.as_str());
        self.indent = self.indent - 1;
        self.emit("}");
        let description = escaped_description(&test.description);
        let mut entry = cat("{ name: '", test_name.as_str());
        entry.append("', description: '");
        push_text(&mut entry, &description);
        entry.append("', fn: __test_");
        push_text(&mut entry, &test_name);
        entry.append(" }");
        let ghost piece = entry@;
        self.test_meta_entries.push(entry);
        proof {
            assert(self.emitted() =~= start + test_pieces(*test, entries_before.len()));
            assert(piece == test_entry(*test, entries_before.len()));
            assert(self.entries() =~= entries_before.push(piece));
        }
    }

    fn generate_declaration(&mut self, decl: &Declaration)
        requires
            old(self).indent == 0,
            declaration_generable(*decl),
        ensures
            final(self).files() == old(self).files(),
            final(self).emitted() == old(self).emitted() + declaration_output(
                *decl,
                old(self).entries().len(),
            ).0,
            final(self).entries() == old(self).entries() + declaration_output(
                *decl,
                old(self).entries().len(),
            ).1,
            final(self).indent == 0,
            final(self).mockable_functions == old(self).mockable_functions,
    {
        let ghost e0 = self.entries();
        let ghost o0 = self.emitted();
        match decl {
            Declaration::Function(func) => self.generate_function(func),
            Declaration::Type(_) => {},
            Declaration::Const(const_decl) => self.generate_const(const_decl),
            Declaration::Import(import) => self.generate_import(import),
            Declaration::Extern(extern_decl) => self.generate_extern(extern_decl),
            Declaration::Test(test) => self.generate_test(test),
        }
        proof {
            assert(self.entries() =~= e0 + declaration_output(*decl, e0.len()).1);
            assert(self.emitted() =~= o0 + declaration_output(*decl, e0.len()).0);
        }
    }

    /// The TypeScript of a program: the mock runtime, each declaration
    /// followed by a blank line, and the list of tests when there are any.
    /// The text depends on the program alone, not on what the generator
    /// produced before; the generator keeps its files and ends at no
    /// indentation.
    pub fn generate(&mut self, program: &Program) -> (r: Result<String, CodegenError>)
        requires
            program_generable(*program),
        ensures
            r matches Ok(text) && text@ == program_text(program.declarations@),
            final(self).mockables() == mockable_names(program.declarations@),
            final(self).files() == old(self).files(),
            final(self).indent_level() == 0,
    {
        self.output = Vec::new();
        self.indent = 0;
        self.test_meta_entries = Vec::new();
        self.mockable_functions = Vec::new();
        proof {
            assert(self.mockables() =~= mockable_names(program.declarations@.take(0)));
        }
        let ghost decls = program.declarations@;
        let ghost files0 = old(self).files();
        let mut i: usize = 0;
        while i < program.declarations.len()
            invariant
                i <= program.declarations.len(),
                decls == program.declarations@,
                self.files() == files0,
                self.mockables() == mockable_names(decls.take(i as int)),
                self.output@.len() == 0,
                self.test_meta_entries@.len() == 0,
                self.indent == 0,
            decreases program.declarations.len() - i,
        {
            let ghost old_list = strings_view(self.mockable_functions@);
            let ghost old_names = mockable_names(decls.take(i as int));
            match &program.declarations[i] {
                Declaration::Function(func) => {
                    if func.is_mockable {
                        self.mockable_functions.push(func.name.clone());
                        proof {
                            assert(strings_view(self.mockable_functions@) =~= old_list.push(func.name@));
                        }
                    }
                },
                _ => {},
            }
            proof {
                let new_names = mockable_names(decls.take(i + 1));
                let new_list = strings_view(self.mockable_functions@);
                assert(decls.take(i + 1)[i as int] == decls[i as int]);
                assert forall|n: Seq<char>| #[trigger] new_names.contains(n) implies self.mockables().contains(n) by {
                    let k = choose|k: int|
                        0 <= k < decls.take(i + 1).len() && #[trigger] declares_mockable(decls.take(i + 1)[k], n);
                    if k < i {
                        assert(decls.take(i as int)[k] == decls.take(i + 1)[k]);
                        assert(old_names.contains(n));
                        assert(old_list.to_set().contains(n));
                        let j = choose|j: int| 0 <= j < old_list.len() && old_list[j] == n;
                        assert(new_list[j] == n);
                    } else {
                        assert(new_list[new_list.len() - 1] == n);
                    }
                }
                assert forall|n: Seq<char>| #[trigger] self.mockables().contains(n) implies new_names.contains(n) by {
                    let j = choose|j: int| 0 <= j < new_list.len() && new_list[j] == n;
                    if j < old_list.len() {
                        assert(old_list[j] == n);
                        assert(old_list.to_set().contains(n));
                        assert(old_names.contains(n));
                        let k = choose|k: int|
                            0 <= k < decls.take(i as int).len() && #[trigger] declares_mockable(decls.take(i as int)[k], n);
                        assert(decls.take(i + 1)[k] == decls.take(i as int)[k]);
                    } else {
                        assert(declares_mockable(decls.take(i + 1)[i as int], n));
                    }
                }
                assert(new_names =~= self.mockables());
            }
            i += 1;
        }
        proof {
            assert(decls.take(decls.len() as int) =~= decls);
            assert(self.emitted() =~= Seq::<Seq<char>>::empty());
            assert(self.entries() =~= Seq::<Seq<char>>::empty());
        }
        self.emit_mock_runtime_helpers();
        let ghost after_helpers = self.emitted();
        let mut i: usize = 0;
        while i < program.declarations.len()
            invariant
                i <= program.declarations.len(),
                decls == program.declarations@,
                program_generable(*program),
                self.indent == 0,
                self.files() == files0,
                self.mockables() == mockable_names(decls),
                after_helpers == mock_runtime_pieces(),
                self.emitted() == after_helpers + declarations_output(decls.take(i as int)).0,
                self.entries() == declarations_output(decls.take(i as int)).1,
            decreases program.declarations.len() - i,
        {
            proof {
                let pre = decls.take(i + 1);
                assert(pre.drop_last() =~= decls.take(i as int));
                assert(pre.last() == decls[i as int]);
                assert(declaration_generable(decls[i as int]));
            }
            let ghost before = self.emitted();
            self.generate_declaration(&program.declarations[i]);
            self.push_raw("\n");
            proof {
                let pre = decls.take(i + 1);
                assert(self.emitted() =~= after_helpers + declarations_output(pre).0);
                assert(self.entries() =~= declarations_output(pre).1);
            }
            i += 1;
        }
        proof {
            assert(decls.take(decls.len() as int) =~= decls);
        }
        let ghost out = declarations_output(decls);
        if self.test_meta_entries.len() > 0 {
            self.emit("export const __sigil_tests = [");
            self.indent = self.indent + 1;
            let entries = self.clone_entries();
            let ghost body_start = self.emitted();
            let mut k: usize = 0;
            while k < entries.len()
                invariant
                    k <= entries.len(),
                    self.indent == 1,
                    self.files() == files0,
                    self.mockables() == mockable_names(decls),
                    strings_view(entries@) == out.1,
                    self.emitted() == body_start + entry_lines(out.1).take(k as int),
                decreases entries.len() - k,
            {
                let mut line = entries[k].clone();
                line.append(",");
                self.emit(line.as_str());
                proof {
                    assert(entry_lines(out.1).take(k + 1) =~= entry_lines(out.1).take(
                        k as int,
                    ).push(line_at(1, out.1[k as int] + ","@)));
                }
                k += 1;
            }
            proof {
                assert(entry_lines(out.1).take(entries@.len() as int) =~= entry_lines(out.1));
            }
            self.indent = self.indent - 1;
            self.emit("];");
            self.push_raw("\n");
        }
        proof {
            assert(self.emitted() =~= program_pieces(decls));
        }
        Ok(concat_texts(&self.output))
    }

    fn clone_entries(&self) -> (r: Vec<String>)
        ensures
            strings_view(r@) == self.entries(),
    {
        let mut r: Vec<String> = Vec::new();
        let mut i: usize = 0;
        while i < self.test_meta_entries.len()
            invariant
                i <= self.test_meta_entries.len(),
                strings_view(r@) =~= self.entries().take(i as int),
            decreases self.test_meta_entries.len() - i,
        {
            let ghost before = strings_view(r@);
            r.push(self.test_meta_entries[i].clone());
            proof {
                assert(strings_view(r@) =~= before.push(self.entries()[i as int]));
                assert(self.entries().take(i + 1) =~= self.entries().take(i as int).push(
                    self.entries()[i as int],
                ));
            }
            i += 1;
        }
        proof {
            assert(self.entries().take(self.entries().len() as int) =~= self.entries());
        }
        r
    }
}

// ---------------------------------------------------------------------------
// What every generated text begins with
// ---------------------------------------------------------------------------

proof fn lemma_concat_all_append(a: Seq<Seq<char>>, b: Seq<Seq<char>>)
    ensures
        concat_all(a + b) == concat_all(a) + concat_all(b),
    decreases b.len(),
{
    if b.len() == 0 {
        assert(a + b =~= a);
        assert(concat_all(a) + concat_all(b) =~= concat_all(a));
    } else {
        lemma_concat_all_append(a, b.drop_last());
        assert((a + b).drop_last() =~= a + b.drop_last());
        assert((a + b).last() == b.last());
        assert(concat_all(a) + concat_all(b) =~= concat_all(a) + concat_all(b.drop_last()) + b.last());
    }
}

/// Every generated program starts with the mock runtime, whose first line
/// is `// Sigil Mock Runtime`.
pub proof fn law_generated_text_starts_with_mock_runtime(ds: Seq<Declaration>)
    ensures
        concat_all(mock_runtime_pieces()).is_prefix_of(program_text(ds)),
        ("// Sigil Mock Runtime\n"@).is_prefix_of(program_text(ds)),
{
    let m = mock_runtime_pieces();
    let out = declarations_output(ds);
    let tests = if out.1.len() > 0 {
        seq![line_at(0, "export const __sigil_tests = ["@)] + entry_lines(out.1) + seq![
            line_at(0, "];"@),
            "\n"@,
        ]
    } else {
        Seq::empty()
    };
    lemma_concat_all_append(m, out.0 + tests);
    assert(program_pieces(ds) =~= m + (out.0 + tests));
    let whole = program_text(ds);
    let head = concat_all(m);
    assert(whole =~= head + concat_all(out.0 + tests));
    assert(head.is_prefix_of(whole)) by {
        assert(whole.subrange(0, head.len() as int) =~= head);
    }
    let first = line_at(0, "// Sigil Mock Runtime"@);
    lemma_concat_all_append(seq![first], m.drop_first());
    assert(m =~= seq![first] + m.drop_first());
    assert(concat_all(seq![first]) =~= first) by {
        assert(seq![first].drop_last() =~= Seq::<Seq<char>>::empty());
        assert(concat_all(Seq::<Seq<char>>::empty()) == Seq::<char>::empty());
        assert(seq![first].last() == first);
        assert(Seq::<char>::empty() + first =~= first);
    }
    assert(first =~= "// Sigil Mock Runtime\n"@) by {
        reveal_strlit("// Sigil Mock Runtime");
        reveal_strlit("\n");
        reveal_strlit("// Sigil Mock Runtime\n");
    }
    assert(head =~= first + concat_all(m.drop_first()));
    assert(("// Sigil Mock Runtime\n"@).is_prefix_of(whole)) by {
        assert(whole.subrange(0, first.len() as int) =~= first);
    }
}

/// A mockable function's wrapper forwards exactly its parameters: the
/// implementation `__sigil_impl_<name>` and the wrapper `<name>` both take
/// the parameter names joined by `, `, and the wrapper's call passes the
/// implementation followed by those same names, in the same order.
pub proof fn law_mockable_wrapper_forwards_its_parameters(f: FunctionDecl)
    requires
        f.is_mockable,
    ensures
        ({
            let ps = function_pieces(f);
            let names = join_with(param_names(f.params@), ", "@);
            let args = if f.params@.len() == 0 {
                ""@
            } else {
                ", "@ + names
            };
            let impl_keyword = if function_exported(f) {
                "export async function __sigil_impl_"@
            } else {
                "async function __sigil_impl_"@
            };
            let wrapper_keyword = if function_exported(f) {
                "export async function "@
            } else {
                "async function "@
            };
            &&& ps.len() == 7
            &&& ps[0] == line_at(0, impl_keyword + f.name@ + "("@ + names + ") {"@)
            &&& ps[4] == line_at(0, wrapper_keyword + f.name@ + "("@ + names + ") {"@)
            &&& ps[5] == line_at(
                1,
                "return await __sigil_call('"@ + f.name@ + "', __sigil_impl_"@ + f.name@ + args
                    + ");"@,
            )
        }),
{
    reveal_strlit("export async function __sigil_impl_");
    reveal_strlit("async function __sigil_impl_");
    reveal_strlit("export async function");
    reveal_strlit("async function");
    reveal_strlit(" ");
    reveal_strlit("__sigil_impl_");
    reveal_strlit("export async function ");
    reveal_strlit("async function ");
    reveal_strlit("export ");
    reveal_strlit("");
    reveal_strlit("', __sigil_impl_");
    reveal_strlit("', ");
    let ps = function_pieces(f);
    let names = join_with(param_names(f.params@), ", "@);
    let args = if f.params@.len() == 0 {
        ""@
    } else {
        ", "@ + names
    };
    let exported = function_exported(f);
    let keyword = if exported {
        "export async function"@
    } else {
        "async function"@
    };
    let impl_keyword = if exported {
        "export async function __sigil_impl_"@
    } else {
        "async function __sigil_impl_"@
    };
    let export_keyword = if exported {
        "export "@
    } else {
        ""@
    };
    let wrapper_keyword = if exported {
        "export async function "@
    } else {
        "async function "@
    };
    assert(impl_keyword + f.name@ + "("@ + names + ") {"@ =~= keyword + " "@ + impl_name_of(f)
        + "("@ + names + ") {"@);
    assert(wrapper_keyword + f.name@ + "("@ + names + ") {"@ =~= export_keyword
        + "async function "@ + f.name@ + "("@ + names + ") {"@);
    assert("return await __sigil_call('"@ + f.name@ + "', __sigil_impl_"@ + f.name@ + args + ");"@
        =~= "return await __sigil_call('"@ + f.name@ + "', "@ + impl_name_of(f) + args + ");"@);
}

} // verus!
