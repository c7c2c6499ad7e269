use sigil::ast::{FunctionDecl, Param, Position, Program, SourceLocation, Declaration};
use sigil::commands::{
    compile_command, default_output_file, lex_command, parse_command, prepare_runner, run_command,
    run_outcome, runner_source, ChildOutcome, CliError, FrontEnd, TokenInfo,
};

fn loc() -> SourceLocation {
    SourceLocation { start: Position { line: 1, column: 1, offset: 0 }, end: Position { line: 1, column: 1, offset: 0 } }
}

fn main_program(annotated: bool) -> Program {
    Program {
        declarations: vec![Declaration::Function(FunctionDecl {
            name: "main".to_string(),
            params: vec![Param { name: "n".to_string(), type_annotation: if annotated { Some("Int".to_string()) } else { None }, location: loc() }],
            return_type: Some("Int".to_string()),
            is_exported: false,
            is_mockable: false,
            location: loc(),
        })],
        location: loc(),
    }
}

fn tokens() -> Vec<TokenInfo> {
    vec![
        TokenInfo { token_type: "Lambda".to_string(), value: "λ".to_string(), line: 1, column: 1, offset: 0 },
        TokenInfo { token_type: "Identifier".to_string(), value: "main".to_string(), line: 1, column: 2, offset: 2 },
    ]
}

#[test]
fn lex_reports_tokens_for_humans() {
    let text = lex_command(&"a.sigil".to_string(), Ok(tokens()), true).unwrap();
    assert_eq!(text, "sigilc lex OK phase=lexer\nLambda(λ) at 1:1\nIdentifier(main) at 1:2\n");
}

#[test]
fn lex_reports_tokens_as_json() {
    let text = lex_command(&"a.sigil".to_string(), Ok(tokens()), false).unwrap();
    assert_eq!(
        text,
        "{\"command\":\"sigilc lex\",\"data\":{\"file\":\"a.sigil\",\"summary\":{\"tokens\":2},\"tokens\":[{\"lexeme\":\"λ\",\"start\":{\"column\":1,\"line\":1,\"offset\":0},\"type\":\"Lambda\"},{\"lexeme\":\"main\",\"start\":{\"column\":2,\"line\":1,\"offset\":2},\"type\":\"Identifier\"}]},\"formatVersion\":1,\"ok\":true,\"phase\":\"lexer\"}\n"
    );
    let parsed: serde_json::Value = serde_json::from_str(&text).unwrap();
    assert_eq!(parsed["data"]["summary"]["tokens"], 2);
}

#[test]
fn lex_errors_fail_the_command() {
    match lex_command(&"a.sigil".to_string(), Err("UnexpectedChar('@')".to_string()), true) {
        Err(CliError::Lexer(m)) => assert_eq!(m, "UnexpectedChar('@')"),
        other => panic!("unexpected {:?}", other),
    }
}

#[test]
fn parse_reports_declarations() {
    let front = FrontEnd::Parsed { program: main_program(true), ast_debug: "Program { .. }".to_string(), canonical_errors: 0 };
    let text = parse_command(&"m.sigil".to_string(), front, false).unwrap();
    assert_eq!(
        text,
        "{\"command\":\"sigilc parse\",\"data\":{\"ast\":\"Program { .. }\",\"file\":\"m.sigil\",\"summary\":{\"declarations\":1}},\"formatVersion\":1,\"ok\":true,\"phase\":\"parser\"}\n"
    );
    let front = FrontEnd::Parsed { program: main_program(true), ast_debug: "AST".to_string(), canonical_errors: 0 };
    assert_eq!(parse_command(&"m.sigil".to_string(), front, true).unwrap(), "sigilc parse OK phase=parser\nAST\n");
}

#[test]
fn parse_rejects_missing_annotations() {
    let front = FrontEnd::Parsed { program: main_program(false), ast_debug: String::new(), canonical_errors: 0 };
    let err = parse_command(&"m.sigil".to_string(), front, true).unwrap_err();
    assert_eq!(err.message(), "Validation error: 1 validation errors");
    let err = parse_command(&"m.sigil".to_string(), FrontEnd::ParseError("eof".to_string()), true).unwrap_err();
    assert_eq!(err.message(), "Parser error: eof");
}

#[test]
fn output_paths_follow_the_source_name() {
    assert_eq!(default_output_file(&"src/main.sigil".to_string()), ".local/src/main.ts");
    assert_eq!(default_output_file(&"a.sigil.b.sigil".to_string()), ".local/a.ts.b.ts");
    assert_eq!(default_output_file(&"script".to_string()), "script.ts");
    assert_eq!(default_output_file(&"x.sigilx".to_string()), "x.sigilx.ts");
}

#[test]
fn compile_writes_code_and_reports() {
    let front = FrontEnd::Parsed { program: main_program(true), ast_debug: String::new(), canonical_errors: 0 };
    let out = compile_command(&"main.sigil".to_string(), front, None, false, false).unwrap();
    assert_eq!(out.output_path, ".local/main.ts");
    assert!(out.code.ends_with("export async function main(n) {\n  return null;\n}\n\n"));
    assert_eq!(
        out.report,
        "{\"command\":\"sigilc compile\",\"data\":{\"input\":\"main.sigil\",\"outputs\":{\"rootTs\":\".local/main.ts\"},\"typecheck\":{\"inferred\":[],\"ok\":true}},\"formatVersion\":1,\"ok\":true,\"phase\":\"codegen\"}\n"
    );
    let front = FrontEnd::Parsed { program: main_program(true), ast_debug: String::new(), canonical_errors: 0 };
    let out = compile_command(&"main.sigil".to_string(), front, Some("out/x.ts".to_string()), true, true).unwrap();
    assert_eq!(out.output_path, "out/x.ts");
    assert_eq!(out.report, "sigilc compile OK phase=codegen\nOutput: out/x.ts\n");
}

#[test]
fn compile_rejects_canonical_violations() {
    let front = FrontEnd::Parsed { program: main_program(true), ast_debug: String::new(), canonical_errors: 2 };
    let err = compile_command(&"main.sigil".to_string(), front, None, false, true).unwrap_err();
    assert_eq!(err.message(), "Validation error: 2 validation errors");
}

#[test]
fn run_prepares_runner_beside_output() {
    let front = FrontEnd::Parsed { program: main_program(true), ast_debug: String::new(), canonical_errors: 0 };
    let plan = run_command(&"demo/main.sigil".to_string(), front).unwrap();
    assert_eq!(plan.output_path, ".local/demo/main.ts");
    let runner = prepare_runner(&plan.output_path, &"demo/main.sigil".to_string()).unwrap();
    assert_eq!(runner.runner_path, ".local/demo/main.run.ts");
    assert_eq!(runner.runner_code, runner_source(&"main".to_string(), &"demo/main.sigil".to_string()));
    assert!(runner.runner_code.starts_with("import { main } from './main';\n\nif (typeof main !== 'function') {\n"));
    assert!(runner.runner_code.contains("No main() function found in demo/main.sigil');\n"));
    assert!(runner.runner_code.ends_with("if (result !== undefined) {\n  console.log(result);\n}\n"));
}

fn outcome(code: i32) -> ChildOutcome {
    ChildOutcome { exit_code: code, stdout: "out\n".to_string(), stderr: "err".to_string(), duration_ms: 12 }
}

#[test]
fn run_success_reports() {
    let r = run_outcome(&"m.sigil".to_string(), &".local/m.ts".to_string(), &".local/m.run.ts".to_string(), outcome(0), true);
    assert!(r.result.is_ok());
    assert_eq!(r.stdout, "out\nsigilc run OK phase=runtime\n");
    assert_eq!(r.stderr, "err");
    let r = run_outcome(&"m.sigil".to_string(), &".local/m.ts".to_string(), &".local/m.run.ts".to_string(), outcome(0), false);
    assert_eq!(
        r.stdout,
        "{\"command\":\"sigilc run\",\"data\":{\"compile\":{\"input\":\"m.sigil\",\"output\":\".local/m.ts\",\"runnerFile\":\".local/m.run.ts\"},\"runtime\":{\"durationMs\":12,\"engine\":\"node+tsx\",\"exitCode\":0,\"stderr\":\"err\",\"stdout\":\"out\\n\"}},\"formatVersion\":1,\"ok\":true,\"phase\":\"runtime\"}\n"
    );
    assert_eq!(r.stderr, "");
}

#[test]
fn run_failure_reports_child_exit() {
    let r = run_outcome(&"m.sigil".to_string(), &".local/m.ts".to_string(), &".local/m.run.ts".to_string(), outcome(-1), true);
    assert_eq!(r.stdout, "");
    assert_eq!(r.stderr, "err\nsigilc run FAIL (exit code: -1)\n");
    match &r.result {
        Err(CliError::Runtime(m)) => assert_eq!(m, "Process exited with code -1"),
        other => panic!("unexpected {:?}", other),
    }
    let r = run_outcome(&"m.sigil".to_string(), &".local/m.ts".to_string(), &".local/m.run.ts".to_string(), outcome(3), false);
    let parsed: serde_json::Value = serde_json::from_str(&r.stdout).unwrap();
    assert_eq!(parsed["command"], "sigilc run");
    assert_eq!(parsed["ok"], false);
    assert_eq!(parsed["error"]["code"], "SIGIL-RUNTIME-CHILD-EXIT");
    assert_eq!(parsed["error"]["details"]["stdout"], "out\n");
    assert_eq!(parsed["error"]["message"], "child process exited with nonzero status: 3");
    assert_eq!(r.result.unwrap_err().message(), "Runtime error: Process exited with code 3");
}
