use sigil::ast::{
    ConstDecl, Declaration, ExternDecl, ExternMember, FunctionDecl, ImportDecl, Param, Position,
    Program, SourceLocation, TestDecl, TypeDecl,
};
use sigil::codegen::{CodegenOptions, TypeScriptGenerator};
use sigil::surface_form::{validate_surface_form, ValidationError};

const RUNTIME: &str = "// Sigil Mock Runtime\nconst __sigil_mocks = new Map();\n\nfunction __sigil_call(name, impl, ...args) {\n  if (__sigil_mocks.has(name)) {\n    return __sigil_mocks.get(name)(...args);\n  }\n  return impl(...args);\n}\n\nfunction __sigil_with_mock(name, replacement, body) {\n  __sigil_mocks.set(name, replacement);\n  try {\n    return body();\n  } finally {\n    __sigil_mocks.delete(name);\n  }\n}\n\n";

fn loc(line: usize) -> SourceLocation {
    SourceLocation {
        start: Position { line, column: 1, offset: 0 },
        end: Position { line, column: 1, offset: 0 },
    }
}

fn param(name: &str, ty: Option<&str>) -> Param {
    Param { name: name.to_string(), type_annotation: ty.map(|t| t.to_string()), location: loc(1) }
}

fn function(name: &str, params: Vec<Param>, exported: bool, mockable: bool) -> Declaration {
    Declaration::Function(FunctionDecl {
        name: name.to_string(),
        params,
        return_type: Some("Int".to_string()),
        is_exported: exported,
        is_mockable: mockable,
        location: loc(1),
    })
}

fn generate(declarations: Vec<Declaration>) -> String {
    let program = Program { declarations, location: loc(1) };
    let mut gen = TypeScriptGenerator::new(CodegenOptions::default());
    gen.generate(&program).unwrap()
}

#[test]
fn test_empty_program() {
    let program = Program { declarations: vec![], location: loc(1) };
    let mut gen = TypeScriptGenerator::new(CodegenOptions::default());
    let result = gen.generate(&program);
    assert!(result.is_ok());
    assert_eq!(result.unwrap(), RUNTIME);
}

#[test]
fn functions_become_async_and_main_is_exported() {
    let code = generate(vec![
        function("add", vec![param("x", Some("Int")), param("y", Some("Int"))], false, false),
        function("main", vec![], false, false),
    ]);
    let expected = format!(
        "{}async function add(x, y) {{\n  return null;\n}}\n\nexport async function main() {{\n  return null;\n}}\n\n",
        RUNTIME
    );
    assert_eq!(code, expected);
}

#[test]
fn mockable_functions_get_a_wrapper() {
    let program = Program {
        declarations: vec![function("fetch", vec![param("url", Some("String"))], true, true)],
        location: loc(1),
    };
    let mut gen = TypeScriptGenerator::new(CodegenOptions::default());
    let code = gen.generate(&program).unwrap();
    let expected = format!(
        "{}export async function __sigil_impl_fetch(url) {{\n  return null;\n}}\n\nexport async function fetch(url) {{\n  return await __sigil_call('fetch', __sigil_impl_fetch, url);\n}}\n\n",
        RUNTIME
    );
    assert_eq!(code, expected);
    assert_eq!(gen.mockable_functions(), &vec!["fetch".to_string()]);
}

#[test]
fn mockable_function_without_params_passes_no_arguments() {
    let code = generate(vec![function("now", vec![], false, true)]);
    assert!(code.contains("async function __sigil_impl_now() {\n"));
    assert!(code.contains("\nasync function now() {\n  return await __sigil_call('now', __sigil_impl_now);\n}\n"));
}

#[test]
fn constants_imports_and_externs() {
    let code = generate(vec![
        Declaration::Const(ConstDecl { name: "answer".to_string(), type_annotation: None, is_exported: true }),
        Declaration::Type(TypeDecl { name: "Color".to_string(), location: loc(1) }),
        Declaration::Import(ImportDecl { path_segments: vec!["stdlib".to_string(), "list".to_string()] }),
        Declaration::Extern(ExternDecl {
            path_segments: vec!["node:fs".to_string()],
            members: Some(vec![
                ExternMember { name: "readFile".to_string() },
                ExternMember { name: "writeFile".to_string() },
            ]),
        }),
        Declaration::Extern(ExternDecl { path_segments: vec!["axios".to_string()], members: None }),
    ]);
    let expected = format!(
        "{}export const answer = null;\n\n\nimport * as list from './stdlib/list.js';\n\nimport {{ readFile, writeFile }} from 'node:fs';\n\nimport * as axios from 'axios';\n\n",
        RUNTIME
    );
    assert_eq!(code, expected);
}

#[test]
fn tests_are_named_and_listed() {
    let code = generate(vec![
        Declaration::Test(TestDecl { description: "Adds \"two\" Numbers!".to_string() }),
        Declaration::Test(TestDecl { description: "???".to_string() }),
    ]);
    let expected = format!(
        "{}async function __test_addstwonumbers() {{\n  return null;\n}}\n\nasync function __test_test_1() {{\n  return null;\n}}\n\nexport const __sigil_tests = [\n  {{ name: 'addstwonumbers', description: 'Adds \\\"two\\\" Numbers!', fn: __test_addstwonumbers }},\n  {{ name: 'test_1', description: '???', fn: __test_test_1 }},\n];\n\n",
        RUNTIME
    );
    assert_eq!(code, expected);
}

#[test]
fn surface_form_reports_missing_annotations_in_order() {
    let program = Program {
        declarations: vec![
            Declaration::Function(FunctionDecl {
                name: "f".to_string(),
                params: vec![param("a", None), param("b", Some("Int")), param("c", None)],
                return_type: None,
                is_exported: false,
                is_mockable: false,
                location: loc(3),
            }),
            function("g", vec![param("x", Some("Int"))], false, false),
        ],
        location: loc(1),
    };
    let errors = validate_surface_form(&program).unwrap_err();
    assert_eq!(errors.len(), 3);
    assert!(matches!(&errors[0], ValidationError::MissingReturnType { function_name, location } if function_name == "f" && location.start.line == 3));
    assert!(matches!(&errors[1], ValidationError::MissingParamType { param_name, .. } if param_name == "a"));
    assert!(matches!(&errors[2], ValidationError::MissingParamType { param_name, .. } if param_name == "c"));
}

#[test]
fn test_valid_surface_form() {
    let program = Program {
        declarations: vec![
            function("add", vec![param("x", Some("ℤ")), param("y", Some("ℤ"))], false, false),
            Declaration::Const(ConstDecl { name: "PI".to_string(), type_annotation: Some("ℝ".to_string()), is_exported: false }),
        ],
        location: loc(1),
    };
    assert!(validate_surface_form(&program).is_ok());
}

#[test]
fn type_names_follow_upper_camel_case() {
    let types = |names: &[&str]| Program {
        declarations: names
            .iter()
            .enumerate()
            .map(|(i, n)| Declaration::Type(TypeDecl { name: n.to_string(), location: loc(i + 1) }))
            .collect(),
        location: loc(1),
    };
    assert!(validate_surface_form(&types(&["Maybe", "Result2", "HttpRequest"])).is_ok());
    let errors = validate_surface_form(&types(&["Good", "bad_type_name", "Bad_Name", ""])).unwrap_err();
    assert_eq!(errors.len(), 3);
    assert!(matches!(&errors[0], ValidationError::InvalidTypeName { name, location } if name == "bad_type_name" && location.start.line == 2));
    assert!(matches!(&errors[1], ValidationError::InvalidTypeName { name, .. } if name == "Bad_Name"));
    assert!(matches!(&errors[2], ValidationError::InvalidTypeName { name, .. } if name.is_empty()));
}

#[test]
fn generating_twice_gives_the_same_text() {
    let program = Program {
        declarations: vec![function("now", vec![], true, true), function("main", vec![], false, false)],
        location: loc(1),
    };
    let other = Program { declarations: vec![function("f", vec![], false, true)], location: loc(1) };
    let mut gen = TypeScriptGenerator::new(CodegenOptions::default());
    let first = gen.generate(&program).unwrap();
    gen.generate(&other).unwrap();
    let again = gen.generate(&program).unwrap();
    assert_eq!(first, again);
    assert!(first.starts_with("// Sigil Mock Runtime\n"));
    assert_eq!(gen.mockable_functions(), &vec!["now".to_string()]);
}
