//! The command-line commands: the reports they print and the files they
//! derive, from what the front end and the child process produced.

use crate::ast::Program;
use crate::codegen::{program_generable, program_text, CodegenOptions, TypeScriptGenerator};
use crate::json::{
    concat_all, decimal, i64_text, join_with, json_quoted, json_string, push_text, u64_text,
};
use crate::paths::{
    ends_with, file_stem, has_suffix, path_file_stem, path_with_extension, replace, replace_all,
    with_extension,
};
use crate::surface_form::{program_errors, validate_surface_form};
use vstd::prelude::*;

verus! {

/// A failed command.
#[derive(Debug)]
pub enum CliError {
    Io(std::io::Error),
    Lexer(String),
    Parser(String),
    Validation(String),
    Type(String),
    Codegen(String),
    Runtime(String),
}

/// The message of a command failure that carries text.
pub open spec fn cli_error_text(e: CliError) -> Seq<char> {
    match e {
        CliError::Io(_) => "IO error: "@,
        CliError::Lexer(m) => "Lexer error: "@ + m@,
        CliError::Parser(m) => "Parser error: "@ + m@,
        CliError::Validation(m) => "Validation error: "@ + m@,
        CliError::Type(m) => "Type error: "@ + m@,
        CliError::Codegen(m) => "Codegen error: "@ + m@,
        CliError::Runtime(m) => "Runtime error: "@ + m@,
    }
}

/// The text of an I/O error, as its `Display` shows it.
#[verifier::external_body]
fn io_text(error: &std::io::Error) -> String {
    error.to_string()
}

/// Two strings joined.
fn cat(a: &str, b: &str) -> (r: String)
    ensures
        r@ == a@ + b@,
{
    String::from_str(a).concat(b)
}

impl CliError {
    /// The human-readable message: the phase that failed and what it said.
    /// An I/O failure is followed by the text of the I/O error.
    pub fn message(&self) -> (r: String)
        ensures
            self is Io ==> cli_error_text(*self).is_prefix_of(r@),
            !(self is Io) ==> r@ == cli_error_text(*self),
    {
        match self {
            CliError::Io(e) => {
                let mut text = String::from_str("IO error: ");
                let ghost head = text@;
                push_text(&mut text, &io_text(e));
                proof {
                    assert(text@.subrange(0, head.len() as int) =~= head);
                }
                text
            },
            CliError::Lexer(m) => cat("Lexer error: ", m.as_str()),
            CliError::Parser(m) => cat("Parser error: ", m.as_str()),
            CliError::Validation(m) => cat("Validation error: ", m.as_str()),
            CliError::Type(m) => cat("Type error: ", m.as_str()),
            CliError::Codegen(m) => cat("Codegen error: ", m.as_str()),
            CliError::Runtime(m) => cat("Runtime error: ", m.as_str()),
        }
    }
}

// ---------------------------------------------------------------------------
// Lexing
// ---------------------------------------------------------------------------

/// A token as the lexer reports it: its type, its text and where it starts.
#[derive(Debug)]
pub struct TokenInfo {
    pub token_type: String,
    pub value: String,
    pub line: usize,
    pub column: usize,
    pub offset: usize,
}

/// The human-readable line of a token.
pub open spec fn token_line(t: TokenInfo) -> Seq<char> {
    t.token_type@ + "("@ + t.value@ + ") at "@ + decimal(t.line as int) + ":"@ + decimal(
        t.column as int,
    ) + "\n"@
}

/// The JSON object of a token.
pub open spec fn token_json(t: TokenInfo) -> Seq<char> {
    "{\"lexeme\":"@ + json_quoted(t.value@) + ",\"start\":{\"column\":"@ + decimal(t.column as int)
        + ",\"line\":"@ + decimal(t.line as int) + ",\"offset\":"@ + decimal(t.offset as int)
        + "},\"type\":"@ + json_quoted(t.token_type@) + "}"@
}

pub open spec fn token_lines(ts: Seq<TokenInfo>) -> Seq<Seq<char>> {
    Seq::new(ts.len(), |i: int| token_line(ts[i]))
}

pub open spec fn token_jsons(ts: Seq<TokenInfo>) -> Seq<Seq<char>> {
    Seq::new(ts.len(), |i: int| token_json(ts[i]))
}

/// What `sigilc lex` prints for the tokens of a file.
pub open spec fn lex_report(file: Seq<char>, ts: Seq<TokenInfo>, human: bool) -> Seq<char> {
    if human {
        "sigilc lex OK phase=lexer\n"@ + concat_all(token_lines(ts))
    } else {
        "{\"command\":\"sigilc lex\",\"data\":{\"file\":"@ + json_quoted(file) + ",\"summary\":{\"tokens\":"@
            + decimal(ts.len() as int) + "},\"tokens\":["@ + join_with(token_jsons(ts), ","@)
            + "]},\"formatVersion\":1,\"ok\":true,\"phase\":\"lexer\"}"@ + "\n"@
    }
}

/// The text of a `usize`.
fn usize_text(n: usize) -> (r: String)
    ensures
        r@ == decimal(n as int),
{
    u64_text(n as u64)
}

fn token_line_text(t: &TokenInfo) -> (r: String)
    ensures
        r@ == token_line(*t),
{
    let mut s = t.token_type.clone();
    s.append("(");
    push_text(&mut s, &t.value);
    s.append(") at ");
    push_text(&mut s, &usize_text(t.line));
    s.append(":");
    push_text(&mut s, &usize_text(t.column));
    s.append("\n");
    proof {
        assert(s@ =~= token_line(*t));
    }
    s
}

fn token_json_text(t: &TokenInfo) -> (r: String)
    ensures
        r@ == token_json(*t),
{
    let mut s = String::from_str("{\"lexeme\":");
    push_text(&mut s, &json_string(t.value.as_str()));
    s.append(",\"start\":{\"column\":");
    push_text(&mut s, &usize_text(t.column));
    s.append(",\"line\":");
    push_text(&mut s, &usize_text(t.line));
    s.append(",\"offset\":");
    push_text(&mut s, &usize_text(t.offset));
    s.append("},\"type\":");
    push_text(&mut s, &json_string(t.token_type.as_str()));
    s.append("}");
    proof {
        assert(s@ =~= token_json(*t));
    }
    s
}

/// Tokenizes a Sigil file: given the file's name and what the lexer gave
/// (the tokens, or the text of its error), the text `sigilc lex` prints, as
/// human-readable lines or as a JSON document.
pub fn lex_command(
    file_name: &String,
    lexed: Result<Vec<TokenInfo>, String>,
    human: bool,
) -> (r: Result<String, CliError>)
    ensures
        match lexed {
            Err(e) => r matches Err(CliError::Lexer(m)) && m@ == e@,
            Ok(ts) => r matches Ok(text) && text@ == lex_report(file_name@, ts@, human),
        },
{
    let tokens = match lexed {
        Ok(tokens) => tokens,
        Err(e) => {
            return Err(CliError::Lexer(e));
        },
    };
    if human {
        let mut out = String::from_str("sigilc lex OK phase=lexer\n");
        let ghost head = out@;
        let mut i: usize = 0;
        while i < tokens.len()
            invariant
                i <= tokens.len(),
                head == "sigilc lex OK phase=lexer\n"@,
                out@ == head + concat_all(token_lines(tokens@.take(i as int))),
            decreases tokens.len() - i,
        {
            push_text(&mut out, &token_line_text(&tokens[i]));
            proof {
                assert(token_lines(tokens@.take(i + 1)).drop_last() =~= token_lines(
                    tokens@.take(i as int),
                ));
            }
            i += 1;
        }
        proof {
            assert(tokens@.take(tokens@.len() as int) =~= tokens@);
        }
        Ok(out)
    } else {
        let mut items = String::new();
        let mut i: usize = 0;
        while i < tokens.len()
            invariant
                i <= tokens.len(),
                items@ == join_with(token_jsons(tokens@.take(i as int)), ","@),
            decreases tokens.len() - i,
        {
            let ghost before = items@;
            if i > 0 {
                items.append(",");
            }
            push_text(&mut items, &token_json_text(&tokens[i]));
            proof {
                let parts = token_jsons(tokens@.take(i + 1));
                assert(parts.drop_last() =~= token_jsons(tokens@.take(i as int)));
                if i == 0 {
                    assert(before =~= Seq::<char>::empty());
                    assert(items@ =~= parts[0]);
                } else {
                    assert(items@ =~= join_with(parts.drop_last(), ","@) + ","@ + parts.last());
                }
            }
            i += 1;
        }
        proof {
            assert(tokens@.take(tokens@.len() as int) =~= tokens@);
        }
        let mut out = String::from_str("{\"command\":\"sigilc lex\",\"data\":{\"file\":");
        push_text(&mut out, &json_string(file_name.as_str()));
        out.append(",\"summary\":{\"tokens\":");
        push_text(&mut out, &usize_text(tokens.len()));
        out.append("},\"tokens\":[");
        push_text(&mut out, &items);
        out.append("]},\"formatVersion\":1,\"ok\":true,\"phase\":\"lexer\"}");
        out.append("\n");
        proof {
            assert(out@ =~= lex_report(file_name@, tokens@, human));
        }
        Ok(out)
    }
}

// ---------------------------------------------------------------------------
// Parsing and validation
// ---------------------------------------------------------------------------

/// What the front end made of a source file: the lexer's error, the
/// parser's error, or the program, its debug rendering and the number of
/// canonical-form violations found in it.
#[derive(Debug)]
pub enum FrontEnd {
    LexError(String),
    ParseError(String),
    Parsed { program: Program, ast_debug: String, canonical_errors: usize },
}

/// The message of a failed validation.
pub open spec fn validation_message(count: nat) -> Seq<char> {
    decimal(count as int) + " validation errors"@
}

fn validation_error(count: usize) -> (r: CliError)
    ensures
        r matches CliError::Validation(m) && m@ == validation_message(count as nat),
{
    let mut m = usize_text(count);
    m.append(" validation errors");
    CliError::Validation(m)
}

/// What `sigilc parse` prints for a program.
pub open spec fn parse_report(
    file: Seq<char>,
    program: Program,
    ast_debug: Seq<char>,
    human: bool,
) -> Seq<char> {
    if human {
        "sigilc parse OK phase=parser\n"@ + ast_debug + "\n"@
    } else {
        "{\"command\":\"sigilc parse\",\"data\":{\"ast\":"@ + json_quoted(ast_debug) + ",\"file\":"@
            + json_quoted(file) + ",\"summary\":{\"declarations\":"@ + decimal(
            program.declarations@.len() as int,
        ) + "}},\"formatVersion\":1,\"ok\":true,\"phase\":\"parser\"}"@ + "\n"@
    }
}

/// The JSON parse report counts every declaration of the program, whatever
/// its kind: its summary is `"declarations":` and the number of
/// declarations.
pub proof fn law_parse_report_counts_every_declaration(
    file: Seq<char>,
    program: Program,
    ast_debug: Seq<char>,
)
    ensures
        ({
            let report = parse_report(file, program, ast_debug, false);
            let count = program.declarations@.len() as int;
            let summary = ",\"summary\":{\"declarations\":"@ + decimal(count) + "}"@;
            exists|i: int|
                0 <= i && i + summary.len() <= report.len() && #[trigger] report.subrange(
                    i,
                    i + summary.len(),
                ) == summary
        }),
{
    let report = parse_report(file, program, ast_debug, false);
    let n = decimal(program.declarations@.len() as int);
    let summary = ",\"summary\":{\"declarations\":"@ + n + "}"@;
    let head = "{\"command\":\"sigilc parse\",\"data\":{\"ast\":"@ + json_quoted(ast_debug)
        + ",\"file\":"@ + json_quoted(file);
    let tail = "}},\"formatVersion\":1,\"ok\":true,\"phase\":\"parser\"}"@ + "\n"@;
    reveal_strlit("}");
    reveal_strlit("}},\"formatVersion\":1,\"ok\":true,\"phase\":\"parser\"}");
    assert(tail[0] == '}');
    assert(report =~= head + summary + tail.subrange(1, tail.len() as int));
    let i: int = head.len() as int;
    assert(report.subrange(i, i + summary.len()) =~= summary);
}

/// The parse report depends on the declarations only through how many
/// there are: programs with as many declarations get the same report.
pub proof fn law_parse_report_depends_only_on_the_declaration_count(
    file: Seq<char>,
    p: Program,
    q: Program,
    ast_debug: Seq<char>,
    human: bool,
)
    requires
        p.declarations@.len() == q.declarations@.len(),
    ensures
        parse_report(file, p, ast_debug, human) == parse_report(file, q, ast_debug, human),
{
}

/// Parses a Sigil file: given the file's name and what the front end made of
/// it, checks the surface form and gives the text `sigilc parse` prints. A
/// lexer or parser error, or missing annotations, fail the command.
pub fn parse_command(file_name: &String, front: FrontEnd, human: bool) -> (r: Result<
    String,
    CliError,
>)
    ensures
        match front {
            FrontEnd::LexError(e) => r matches Err(CliError::Lexer(m)) && m@ == e@,
            FrontEnd::ParseError(e) => r matches Err(CliError::Parser(m)) && m@ == e@,
            FrontEnd::Parsed { program, ast_debug, .. } => if program_errors(
                program.declarations@,
            ).len() > 0 {
                r matches Err(CliError::Validation(m)) && m@ == validation_message(
                    program_errors(program.declarations@).len(),
                )
            } else {
                r matches Ok(text) && text@ == parse_report(file_name@, program, ast_debug@, human)
            },
        },
{
    let (program, ast_debug) = match front {
        FrontEnd::LexError(e) => {
            return Err(CliError::Lexer(e));
        },
        FrontEnd::ParseError(e) => {
            return Err(CliError::Parser(e));
        },
        FrontEnd::Parsed { program, ast_debug, .. } => (program, ast_debug),
    };
    match validate_surface_form(&program) {
        Err(errors) => {
            proof {
                assert(errors@.len() == crate::surface_form::errors_v(errors@).len());
            }
            return Err(validation_error(errors.len()));
        },
        Ok(()) => {},
    }
    if human {
        let mut out = String::from_str("sigilc parse OK phase=parser\n");
        push_text(&mut out, &ast_debug);
        out.append("\n");
        proof {
            assert(out@ =~= parse_report(file_name@, program, ast_debug@, human));
        }
        Ok(out)
    } else {
        let mut out = String::from_str("{\"command\":\"sigilc parse\",\"data\":{\"ast\":");
        push_text(&mut out, &json_string(ast_debug.as_str()));
        out.append(",\"file\":");
        push_text(&mut out, &json_string(file_name.as_str()));
        out.append(",\"summary\":{\"declarations\":");
        push_text(&mut out, &usize_text(program.declarations.len()));
        out.append("}},\"formatVersion\":1,\"ok\":true,\"phase\":\"parser\"}");
        out.append("\n");
        proof {
            assert(out@ =~= parse_report(file_name@, program, ast_debug@, human));
        }
        Ok(out)
    }
}

// ---------------------------------------------------------------------------
// Compiling
// ---------------------------------------------------------------------------

/// The front end accepted the file: it parsed, and neither the surface form
/// nor the canonical form has a violation.
pub open spec fn front_accepted(front: FrontEnd) -> bool {
    match front {
        FrontEnd::Parsed { program, canonical_errors, .. } => program_errors(
            program.declarations@,
        ).len() == 0 && canonical_errors == 0,
        _ => false,
    }
}

/// The failure that a rejected front-end result gives: the lexer's or the
/// parser's error, or the count of surface-form violations, or else of
/// canonical-form ones.
pub open spec fn front_failure(front: FrontEnd, e: CliError) -> bool {
    match front {
        FrontEnd::LexError(m) => e matches CliError::Lexer(x) && x@ == m@,
        FrontEnd::ParseError(m) => e matches CliError::Parser(x) && x@ == m@,
        FrontEnd::Parsed { program, canonical_errors, .. } => if program_errors(
            program.declarations@,
        ).len() > 0 {
            e matches CliError::Validation(x) && x@ == validation_message(
                program_errors(program.declarations@).len(),
            )
        } else {
            e matches CliError::Validation(x) && x@ == validation_message(canonical_errors as nat)
        },
    }
}

/// A front-end result whose program, if any, code generation can handle.
pub open spec fn front_generable(front: FrontEnd) -> bool {
    match front {
        FrontEnd::Parsed { program, .. } => program_generable(program),
        _ => true,
    }
}

/// The program of an accepted front-end result.
fn checked_program(front: FrontEnd) -> (r: Result<Program, CliError>)
    ensures
        r is Ok <==> front_accepted(front),
        match r {
            Ok(p) => front matches FrontEnd::Parsed { program, .. } && p == program,
            Err(e) => front_failure(front, e),
        },
{
    let (program, canonical_errors) = match front {
        FrontEnd::LexError(e) => {
            return Err(CliError::Lexer(e));
        },
        FrontEnd::ParseError(e) => {
            return Err(CliError::Parser(e));
        },
        FrontEnd::Parsed { program, canonical_errors, .. } => (program, canonical_errors),
    };
    match validate_surface_form(&program) {
        Err(errors) => {
            proof {
                assert(errors@.len() == crate::surface_form::errors_v(errors@).len());
            }
            return Err(validation_error(errors.len()));
        },
        Ok(()) => {},
    }
    if canonical_errors > 0 {
        return Err(validation_error(canonical_errors));
    }
    Ok(program)
}

/// Where a compiled file goes by default: under `.local/`, with `.sigil`
/// replaced by `.ts`, for a Sigil source; beside it with `.ts` appended
/// otherwise.
pub open spec fn default_output_path(input: Seq<char>) -> Seq<char> {
    if has_suffix(input, ".sigil"@) {
        ".local/"@ + replace_all(input, ".sigil"@, ".ts"@)
    } else {
        input + ".ts"@
    }
}

/// The default output path of a source file.
pub fn default_output_file(input: &String) -> (r: String)
    ensures
        r@ == default_output_path(input@),
{
    if ends_with(input.as_str(), ".sigil") {
        proof {
            reveal_strlit(".sigil");
        }
        let mut path = String::from_str(".local/");
        push_text(&mut path, &replace(input.as_str(), ".sigil", ".ts"));
        path
    } else {
        cat(input.as_str(), ".ts")
    }
}

/// The generated code of a program.
fn generate_code(program: &Program, source_file: &String, output_file: Option<String>) -> (r: String)
    requires
        program_generable(*program),
    ensures
        r@ == program_text(program.declarations@),
{
    let options = CodegenOptions {
        source_file: Some(source_file.clone()),
        output_file,
        project_root: None,
    };
    let mut generator = TypeScriptGenerator::new(options);
    match generator.generate(program) {
        Ok(code) => code,
        Err(_) => String::new(),
    }
}

/// The outcome of `sigilc compile`: the file to write, its code, and the
/// report to print.
#[derive(Debug)]
pub struct CompileOutput {
    pub output_path: String,
    pub code: String,
    pub report: String,
}

/// What `sigilc compile` prints once the code is written.
pub open spec fn compile_report(file: Seq<char>, output: Seq<char>, human: bool) -> Seq<char> {
    if human {
        "sigilc compile OK phase=codegen\n"@ + "Output: "@ + output + "\n"@
    } else {
        "{\"command\":\"sigilc compile\",\"data\":{\"input\":"@ + json_quoted(file) + ",\"outputs\":{\"rootTs\":"@
            + json_quoted(output) + "},\"typecheck\":{\"inferred\":[],\"ok\":true}},\"formatVersion\":1,\"ok\":true,\"phase\":\"codegen\"}"@
            + "\n"@
    }
}

/// Compiles a Sigil file to TypeScript: given the file's name, what the
/// front end made of it and the output path asked for, the path to write
/// (the one asked for, or the default), the generated code and the report.
/// Inferred types are not reported, whether or not they are asked for.
pub fn compile_command(
    file_name: &String,
    front: FrontEnd,
    output: Option<String>,
    show_types: bool,
    human: bool,
) -> (r: Result<CompileOutput, CliError>)
    requires
        front_accepted(front) ==> front_generable(front),
    ensures
        r is Ok <==> front_accepted(front),
        match r {
            Err(e) => front_failure(front, e),
            Ok(out) => front matches FrontEnd::Parsed { program, .. } && out.code@ == program_text(
                program.declarations@,
            ) && out.output_path@ == (match output {
                Some(p) => p@,
                None => default_output_path(file_name@),
            }) && out.report@ == compile_report(file_name@, out.output_path@, human),
        },
{
    let program = match checked_program(front) {
        Ok(program) => program,
        Err(e) => {
            return Err(e);
        },
    };
    let output_path = match output {
        Some(p) => p,
        None => default_output_file(file_name),
    };
    let code = generate_code(&program, file_name, Some(output_path.clone()));
    let report = if human {
        let mut text = String::from_str("sigilc compile OK phase=codegen\n");
        text.append("Output: ");
        push_text(&mut text, &output_path);
        text.append("\n");
        proof {
            assert(text@ =~= compile_report(file_name@, output_path@, human));
        }
        text
    } else {
        let mut text = String::from_str("{\"command\":\"sigilc compile\",\"data\":{\"input\":");
        push_text(&mut text, &json_string(file_name.as_str()));
        text.append(",\"outputs\":{\"rootTs\":");
        push_text(&mut text, &json_string(output_path.as_str()));
        text.append("},\"typecheck\":{\"inferred\":[],\"ok\":true}},\"formatVersion\":1,\"ok\":true,\"phase\":\"codegen\"}");
        text.append("\n");
        proof {
            assert(text@ =~= compile_report(file_name@, output_path@, human));
        }
        text
    };
    Ok(CompileOutput { output_path, code, report })
}

// ---------------------------------------------------------------------------
// Running
// ---------------------------------------------------------------------------

/// The compiled form of a program about to run: where its code goes and
/// the code.
#[derive(Debug)]
pub struct RunPlan {
    pub output_path: String,
    pub code: String,
}

/// Compiles a Sigil file for running: given the file's name and what the
/// front end made of it, the generated code and where it goes, the default
/// output path.
pub fn run_command(file_name: &String, front: FrontEnd) -> (r: Result<RunPlan, CliError>)
    requires
        front_accepted(front) ==> front_generable(front),
    ensures
        r is Ok <==> front_accepted(front),
        match r {
            Err(e) => front_failure(front, e),
            Ok(plan) => front matches FrontEnd::Parsed { program, .. } && plan.code@ == program_text(
                program.declarations@,
            ) && plan.output_path@ == default_output_path(file_name@),
        },
{
    let program = match checked_program(front) {
        Ok(program) => program,
        Err(e) => {
            return Err(e);
        },
    };
    let output_path = default_output_file(file_name);
    let code = generate_code(&program, file_name, Some(output_path.clone()));
    Ok(RunPlan { output_path, code })
}

/// The runner script of a compiled program: it imports `main` from the
/// module and prints what `main` returns, unless nothing.
pub open spec fn runner_text(module_name: Seq<char>, file: Seq<char>) -> Seq<char> {
    "import { main } from './"@ + module_name
        + "';\n\nif (typeof main !== 'function') {\n  console.error('Error: No main() function found in "@
        + file
        + "');\n  console.error('Add a main() function to make this program runnable.');\n  process.exit(1);\n}\n\n// Call main and handle the result (all Sigil functions are async)\nconst result = await main();\n\n// If main returns a value (not Unit/undefined), show it\nif (result !== undefined) {\n  console.log(result);\n}\n"@
}

/// The runner imports `main` from the compiled module and awaits it
/// before looking at its result: every generated function is `async`, so
/// the value `main` gives is known only once its promise settles.
pub proof fn law_runner_awaits_main(module_name: Seq<char>, file: Seq<char>)
    ensures
        ("import { main } from './"@ + module_name + "';"@).is_prefix_of(
            runner_text(module_name, file),
        ),
        exists|i: int|
            0 <= i && i + 28 <= runner_text(module_name, file).len() && #[trigger] runner_text(
                module_name,
                file,
            ).subrange(i, i + 28) == "const result = await main();"@,
{
    let head = "import { main } from './"@;
    let b1 = "';\n\nif (typeof main !== 'function') {\n  console.error('Error: No main() function found in "@;
    let b2 = "');\n  console.error('Add a main() function to make this program runnable.');\n  process.exit(1);\n}\n\n// Call main and handle the result (all Sigil functions are async)\nconst result = await main();\n\n// If main returns a value (not Unit/undefined), show it\nif (result !== undefined) {\n  console.log(result);\n}\n"@;
    reveal_strlit("import { main } from './");
    reveal_strlit("';\n\nif (typeof main !== 'function') {\n  console.error('Error: No main() function found in ");
    reveal_strlit("');\n  console.error('Add a main() function to make this program runnable.');\n  process.exit(1);\n}\n\n// Call main and handle the result (all Sigil functions are async)\nconst result = await main();\n\n// If main returns a value (not Unit/undefined), show it\nif (result !== undefined) {\n  console.log(result);\n}\n");
    reveal_strlit("';");
    reveal_strlit("const result = await main();");
    let t = runner_text(module_name, file);
    assert(t =~= head + module_name + b1 + file + b2);
    let p = head + module_name + "';"@;
    assert(t.subrange(0, p.len() as int) =~= p);
    let i: int = (head.len() + module_name.len() + b1.len() + file.len() + 166) as int;
    assert(t.subrange(i, i + 28) =~= "const result = await main();"@);
}

/// The runner script for a module compiled from `file`.
pub fn runner_source(module_name: &String, file_name: &String) -> (r: String)
    ensures
        r@ == runner_text(module_name@, file_name@),
{
    let mut text = String::from_str("import { main } from './");
    push_text(&mut text, module_name);
    text.append(
        "';\n\nif (typeof main !== 'function') {\n  console.error('Error: No main() function found in ",
    );
    push_text(&mut text, file_name);
    text.append(
        "');\n  console.error('Add a main() function to make this program runnable.');\n  process.exit(1);\n}\n\n// Call main and handle the result (all Sigil functions are async)\nconst result = await main();\n\n// If main returns a value (not Unit/undefined), show it\nif (result !== undefined) {\n  console.log(result);\n}\n",
    );
    proof {
        assert(text@ =~= runner_text(module_name@, file_name@));
    }
    text
}

/// The runner of a compiled program: its path and its script.
#[derive(Debug)]
pub struct RunnerFiles {
    pub runner_path: String,
    pub runner_code: String,
}

/// The runner beside a compiled file: the compiled path with the extension
/// `run.ts`, importing the module named by the compiled file's stem.
/// `None` where the compiled path has no file name.
pub fn prepare_runner(output_path: &String, file_name: &String) -> (r: Option<RunnerFiles>)
    ensures
        r is Some <==> path_file_stem(output_path@) is Some,
        match r {
            Some(files) => files.runner_path@ == path_with_extension(output_path@, "run.ts"@)
                && files.runner_code@ == runner_text(path_file_stem(output_path@)->0, file_name@),
            None => true,
        },
{
    proof {
        reveal_strlit("run.ts");
        assert(!"run.ts"@.contains('/')) by {
            assert forall|i: int| 0 <= i < "run.ts"@.len() implies "run.ts"@[i] != '/' by {}
        }
    }
    let runner_path = with_extension(output_path, "run.ts");
    let module_name = match file_stem(output_path) {
        Some(stem) => stem,
        None => {
            return None;
        },
    };
    let runner_code = runner_source(&module_name, file_name);
    Some(RunnerFiles { runner_path, runner_code })
}

/// What the child process running a program gave: its exit code (`-1` when
/// killed by a signal), its output streams as text, and how long it ran.
#[derive(Debug)]
pub struct ChildOutcome {
    pub exit_code: i32,
    pub stdout: String,
    pub stderr: String,
    pub duration_ms: u64,
}

/// What `sigilc run` prints on each stream, and whether it failed.
#[derive(Debug)]
pub struct RunReport {
    pub stdout: String,
    pub stderr: String,
    pub result: Result<(), CliError>,
}

/// The JSON document of a failed run.
pub open spec fn run_failure_json(c: ChildOutcome) -> Seq<char> {
    "{\"command\":\"sigilc run\",\"error\":{\"code\":\"SIGIL-RUNTIME-CHILD-EXIT\",\"details\":{\"exitCode\":"@
        + decimal(c.exit_code as int) + ",\"stderr\":"@ + json_quoted(c.stderr@) + ",\"stdout\":"@
        + json_quoted(c.stdout@) + "},\"message\":"@ + json_quoted(
        "child process exited with nonzero status: "@ + decimal(c.exit_code as int),
    ) + ",\"phase\":\"runtime\"},\"formatVersion\":1,\"ok\":false,\"phase\":\"runtime\"}"@
}

/// The JSON document of a successful run.
pub open spec fn run_success_json(
    file: Seq<char>,
    output: Seq<char>,
    runner: Seq<char>,
    c: ChildOutcome,
) -> Seq<char> {
    "{\"command\":\"sigilc run\",\"data\":{\"compile\":{\"input\":"@ + json_quoted(file) + ",\"output\":"@
        + json_quoted(output) + ",\"runnerFile\":"@ + json_quoted(runner)
        + "},\"runtime\":{\"durationMs\":"@ + decimal(c.duration_ms as int)
        + ",\"engine\":\"node+tsx\",\"exitCode\":"@ + decimal(c.exit_code as int) + ",\"stderr\":"@
        + json_quoted(c.stderr@) + ",\"stdout\":"@ + json_quoted(c.stdout@)
        + "}},\"formatVersion\":1,\"ok\":true,\"phase\":\"runtime\"}"@
}

/// The report of a run: on a non-zero exit, the child's error output and a
/// failure line (or the JSON failure document) and a runtime error; on
/// success, the child's output and a success line (or the JSON document).
pub fn run_outcome(
    file_name: &String,
    output_path: &String,
    runner_path: &String,
    outcome: ChildOutcome,
    human: bool,
) -> (r: RunReport)
    ensures
        outcome.exit_code != 0 ==> {
            &&& r.result matches Err(CliError::Runtime(m)) && m@ == "Process exited with code "@
                + decimal(outcome.exit_code as int)
            &&& human ==> r.stdout@ == Seq::<char>::empty() && r.stderr@ == outcome.stderr@ + "\n"@
                + "sigilc run FAIL (exit code: "@ + decimal(outcome.exit_code as int) + ")\n"@
            &&& !human ==> r.stdout@ == run_failure_json(outcome) + "\n"@ && r.stderr@ == Seq::<
                char,
            >::empty()
        },
        outcome.exit_code == 0 ==> {
            &&& r.result is Ok
            &&& human ==> r.stdout@ == outcome.stdout@ + "sigilc run OK phase=runtime\n"@
                && r.stderr@ == outcome.stderr@
            &&& !human ==> r.stdout@ == run_success_json(
                file_name@,
                output_path@,
                runner_path@,
                outcome,
            ) + "\n"@ && r.stderr@ == Seq::<char>::empty()
        },
{
    let code_text = i64_text(outcome.exit_code as i64);
    if outcome.exit_code != 0 {
        let mut message = String::from_str("Process exited with code ");
        push_text(&mut message, &code_text);
        let result = Err(CliError::Runtime(message));
        if human {
            let mut err = outcome.stderr.clone();
            err.append("\n");
            err.append("sigilc run FAIL (exit code: ");
            push_text(&mut err, &code_text);
            err.append(")\n");
            proof {
                assert(err@ =~= outcome.stderr@ + "\n"@ + "sigilc run FAIL (exit code: "@ + decimal(
                    outcome.exit_code as int,
                ) + ")\n"@);
            }
            RunReport { stdout: String::new(), stderr: err, result }
        } else {
            let mut detail = String::from_str("child process exited with nonzero status: ");
            push_text(&mut detail, &code_text);
            let mut out = String::from_str(
                "{\"command\":\"sigilc run\",\"error\":{\"code\":\"SIGIL-RUNTIME-CHILD-EXIT\",\"details\":{\"exitCode\":",
            );
            push_text(&mut out, &code_text);
            out.append(",\"stderr\":");
            push_text(&mut out, &json_string(outcome.stderr.as_str()));
            out.append(",\"stdout\":");
            push_text(&mut out, &json_string(outcome.stdout.as_str()));
            out.append("},\"message\":");
            push_text(&mut out, &json_string(detail.as_str()));
            out.append(",\"phase\":\"runtime\"},\"formatVersion\":1,\"ok\":false,\"phase\":\"runtime\"}");
            out.append("\n");
            proof {
                assert(detail@ =~= "child process exited with nonzero status: "@ + decimal(
                    outcome.exit_code as int,
                ));
                assert(out@ =~= run_failure_json(outcome) + "\n"@);
            }
            RunReport { stdout: out, stderr: String::new(), result }
        }
    } else if human {
        let mut out = outcome.stdout.clone();
        out.append("sigilc run OK phase=runtime\n");
        RunReport { stdout: out, stderr: outcome.stderr.clone(), result: Ok(()) }
    } else {
        let mut out = String::from_str("{\"command\":\"sigilc run\",\"data\":{\"compile\":{\"input\":");
        push_text(&mut out, &json_string(file_name.as_str()));
        out.append(",\"output\":");
        push_text(&mut out, &json_string(output_path.as_str()));
        out.append(",\"runnerFile\":");
        push_text(&mut out, &json_string(runner_path.as_str()));
        out.append("},\"runtime\":{\"durationMs\":");
        push_text(&mut out, &u64_text(outcome.duration_ms));
        out.append(",\"engine\":\"node+tsx\",\"exitCode\":");
        push_text(&mut out, &code_text);
        out.append(",\"stderr\":");
        push_text(&mut out, &json_string(outcome.stderr.as_str()));
        out.append(",\"stdout\":");
        push_text(&mut out, &json_string(outcome.stdout.as_str()));
        out.append("}},\"formatVersion\":1,\"ok\":true,\"phase\":\"runtime\"}");
        out.append("\n");
        proof {
            assert(out@ =~= run_success_json(file_name@, output_path@, runner_path@, outcome) + "\n"@);
        }
        RunReport { stdout: out, stderr: String::new(), result: Ok(()) }
    }
}

} // verus!
