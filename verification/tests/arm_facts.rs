use sigil::arm_facts::{expr_summary, pattern_summary};
use sigil::ast::{Expr, LiteralPattern, LiteralValue, Pattern, PatternLiteralType, RecordPatternField};

fn float_text(bits: u64) -> String {
    format!("{}", f64::from_bits(bits))
}

fn display_name(path_segments: &Vec<String>, name: &String) -> String {
    if path_segments.is_empty() {
        name.clone()
    } else {
        format!("{}.{}", path_segments.join("::"), name)
    }
}

fn show(pattern: &Pattern) -> String {
    pattern_summary(pattern, &float_text, &display_name)
}

fn lit(literal_type: PatternLiteralType, value: LiteralValue) -> Pattern {
    Pattern::Literal(LiteralPattern { literal_type, value })
}

fn ident(name: &str) -> Pattern {
    Pattern::Identifier(name.to_string())
}

#[test]
fn literal_patterns_are_shown_as_written() {
    assert_eq!(show(&lit(PatternLiteralType::Int, LiteralValue::Int(-42))), "-42");
    assert_eq!(show(&lit(PatternLiteralType::Bool, LiteralValue::Bool(true))), "true");
    assert_eq!(show(&lit(PatternLiteralType::Bool, LiteralValue::Bool(false))), "false");
    assert_eq!(show(&lit(PatternLiteralType::Unit, LiteralValue::Unit)), "()");
    assert_eq!(show(&lit(PatternLiteralType::Float, LiteralValue::Float(2.5f64.to_bits()))), "2.5");
    assert_eq!(show(&lit(PatternLiteralType::String, LiteralValue::String("hi \"you\"".to_string()))), "\"hi \\\"you\\\"\"");
    assert_eq!(show(&lit(PatternLiteralType::Char, LiteralValue::Char('x'))), "'x'");
}

#[test]
fn mismatched_literal_patterns_show_as_wildcards() {
    assert_eq!(show(&lit(PatternLiteralType::Int, LiteralValue::Bool(true))), "_");
    assert_eq!(show(&lit(PatternLiteralType::Unit, LiteralValue::Int(3))), "()");
}

#[test]
fn compound_patterns_join_their_parts() {
    assert_eq!(show(&Pattern::Wildcard), "_");
    assert_eq!(show(&Pattern::Tuple(vec![ident("a"), Pattern::Wildcard])), "(a,_)");
    assert_eq!(show(&Pattern::Tuple(vec![])), "()");
    let list = Pattern::List { patterns: vec![ident("x"), ident("y")], rest: Some("rest".to_string()) };
    assert_eq!(show(&list), "[x,y,.rest]");
    let closed = Pattern::List { patterns: vec![ident("x")], rest: None };
    assert_eq!(show(&closed), "[x]");
    let empty_list = Pattern::List { patterns: vec![], rest: None };
    assert_eq!(show(&empty_list), "[]");
    let only_rest = Pattern::List { patterns: vec![], rest: Some("all".to_string()) };
    assert_eq!(show(&only_rest), "[.rest]");
}

#[test]
fn constructors_and_records() {
    let none = Pattern::Constructor { path_segments: vec![], name: "None".to_string(), patterns: vec![] };
    assert_eq!(show(&none), "None()");
    let some = Pattern::Constructor {
        path_segments: vec!["std".to_string(), "option".to_string()],
        name: "Some".to_string(),
        patterns: vec![lit(PatternLiteralType::Int, LiteralValue::Int(1))],
    };
    assert_eq!(show(&some), "std::option.Some(1)");
    let record = Pattern::Record(vec![
        RecordPatternField { name: "x".to_string(), pattern: Some(Pattern::Wildcard) },
        RecordPatternField { name: "y".to_string(), pattern: None },
    ]);
    assert_eq!(show(&record), "{x:_,y}");
    assert_eq!(show(&Pattern::Record(vec![])), "{}");
}

fn show_expr(expr: &Expr) -> String {
    expr_summary(expr, &float_text)
}

fn name(n: &str) -> Box<Expr> {
    Box::new(Expr::Identifier(n.to_string()))
}

#[test]
fn guard_expressions_are_shown_in_source_form() {
    let cmp = Expr::Binary { left: name("n"), operator: ">".to_string(), right: Box::new(Expr::Literal(LiteralValue::Int(0))) };
    assert_eq!(show_expr(&cmp), "n > 0");
    let neg = Expr::Unary { operator: "¬".to_string(), operand: name("done") };
    assert_eq!(show_expr(&neg), "¬done");
    let field = Expr::FieldAccess { object: name("user"), field: "age".to_string() };
    assert_eq!(show_expr(&field), "user.age");
    let call = Expr::Application { func: name("valid"), args: vec![Expr::Identifier("x".to_string())] };
    assert_eq!(show_expr(&call), "valid(...)");
    let member = Expr::MemberAccess { namespace: vec!["stdlib".to_string(), "list".to_string()], member: "len".to_string() };
    assert_eq!(show_expr(&member), "stdlib::list.len");
    assert_eq!(show_expr(&Expr::TypeAscription(name("x"))), "x");
    assert_eq!(show_expr(&Expr::Other), "<expr>");
}

#[test]
fn literal_expressions() {
    assert_eq!(show_expr(&Expr::Literal(LiteralValue::Int(7))), "7");
    assert_eq!(show_expr(&Expr::Literal(LiteralValue::Float(0.5f64.to_bits()))), "0.5");
    assert_eq!(show_expr(&Expr::Literal(LiteralValue::String("a".to_string()))), "\"a\"");
    assert_eq!(show_expr(&Expr::Literal(LiteralValue::Char('c'))), "'c'");
    assert_eq!(show_expr(&Expr::Literal(LiteralValue::Bool(false))), "false");
    assert_eq!(show_expr(&Expr::Literal(LiteralValue::Unit)), "()");
}
