//! The short texts by which coverage diagnostics name what an arm knows:
//! its pattern and its guard, written back in source-like form.

use crate::ast::{Expr, LiteralPattern, LiteralValue, Pattern, PatternLiteralType, RecordPatternField};
use crate::json::{decimal, i64_text, join_texts, join_with, push_text, strings_view};
use crate::summaries::{char_string, debug_quoted, debug_text, float_renderer, float_texts};
use vstd::prelude::*;

verus! {

/// A renderer of constructor names: callable on every module path and
/// name, and giving one text for each.
pub open spec fn name_renderer<D: Fn(&Vec<String>, &String) -> String>(d: D) -> bool {
    &&& forall|p: &Vec<String>, n: &String| #[trigger] call_requires(d, (p, n))
    &&& forall|p: &Vec<String>, n: &String, s1: String, s2: String|
        #[trigger] call_ensures(d, (p, n), s1) && #[trigger] call_ensures(d, (p, n), s2) ==> s1@
            == s2@
}

/// The text a name renderer gives for a module path and a name.
pub open spec fn display_names<D: Fn(&Vec<String>, &String) -> String>(d: D) -> spec_fn(
    Vec<String>,
    String,
) -> Seq<char> {
    |p: Vec<String>, n: String| (choose|s: String| call_ensures(d, (&p, &n), s))@
}

/// `true` or `false`.
pub open spec fn bool_text(b: bool) -> Seq<char> {
    if b {
        "true"@
    } else {
        "false"@
    }
}

/// A character between single quotes.
pub open spec fn char_text(c: char) -> Seq<char> {
    seq!['\''] + seq![c] + seq!['\'']
}

/// How a literal value is shown: integers in decimal, floats as the
/// renderer shows them, strings in their debug form, characters quoted.
pub open spec fn literal_text(v: LiteralValue, ft: spec_fn(u64) -> Seq<char>) -> Seq<char> {
    match v {
        LiteralValue::Int(i) => decimal(i as int),
        LiteralValue::Float(bits) => ft(bits),
        LiteralValue::String(s) => debug_quoted(s@),
        LiteralValue::Char(c) => char_text(c),
        LiteralValue::Bool(b) => bool_text(b),
        LiteralValue::Unit => "()"@,
    }
}

/// How a literal pattern is shown: as its literal, `()` for unit, and `_`
/// where the value does not fit the type it is written at.
pub open spec fn literal_pattern_text(l: LiteralPattern, ft: spec_fn(u64) -> Seq<char>) -> Seq<char> {
    match (l.literal_type, l.value) {
        (PatternLiteralType::Bool, LiteralValue::Bool(b)) => bool_text(b),
        (PatternLiteralType::Unit, _) => "()"@,
        (PatternLiteralType::Int, LiteralValue::Int(i)) => decimal(i as int),
        (PatternLiteralType::Float, LiteralValue::Float(bits)) => ft(bits),
        (PatternLiteralType::String, LiteralValue::String(s)) => debug_quoted(s@),
        (PatternLiteralType::Char, LiteralValue::Char(c)) => char_text(c),
        _ => "_"@,
    }
}

/// The source-like text of a pattern.
pub open spec fn pattern_text(
    p: Pattern,
    ft: spec_fn(u64) -> Seq<char>,
    dn: spec_fn(Vec<String>, String) -> Seq<char>,
) -> Seq<char>
    decreases p,
{
    match p {
        Pattern::Wildcard => "_"@,
        Pattern::Identifier(n) => n@,
        Pattern::Literal(l) => literal_pattern_text(l, ft),
        Pattern::Tuple(ps) => "("@ + join_with(patterns_text(ps@, ft, dn), ","@) + ")"@,
        Pattern::List { patterns, rest } => {
            let parts = patterns_text(patterns@, ft, dn);
            let all = if rest is Some {
                parts.push(".rest"@)
            } else {
                parts
            };
            "["@ + join_with(all, ","@) + "]"@
        },
        Pattern::Constructor { path_segments, name, patterns } => if patterns@.len() == 0 {
            dn(path_segments, name) + "()"@
        } else {
            dn(path_segments, name) + "("@ + join_with(patterns_text(patterns@, ft, dn), ","@)
                + ")"@
        },
        Pattern::Record(fields) => "{"@ + join_with(fields_text(fields@, ft, dn), ","@) + "}"@,
    }
}

/// The texts of a sequence of patterns.
pub open spec fn patterns_text(
    v: Seq<Pattern>,
    ft: spec_fn(u64) -> Seq<char>,
    dn: spec_fn(Vec<String>, String) -> Seq<char>,
) -> Seq<Seq<char>>
    decreases v,
{
    Seq::new(
        v.len(),
        |i: int|
            if 0 <= i < v.len() {
                pattern_text(v[i], ft, dn)
            } else {
                Seq::empty()
            },
    )
}

/// The texts of the fields of a record pattern: the name, then a colon and
/// the field's pattern where it has one.
pub open spec fn fields_text(
    v: Seq<RecordPatternField>,
    ft: spec_fn(u64) -> Seq<char>,
    dn: spec_fn(Vec<String>, String) -> Seq<char>,
) -> Seq<Seq<char>>
    decreases v,
{
    Seq::new(
        v.len(),
        |i: int|
            if 0 <= i < v.len() {
                match v[i].pattern {
                    Some(p) => v[i].name@ + ":"@ + pattern_text(p, ft, dn),
                    None => v[i].name@,
                }
            } else {
                Seq::empty()
            },
    )
}

/// The text of a literal value.
fn literal_summary<F: Fn(u64) -> String>(value: &LiteralValue, float_text: &F) -> (r: String)
    requires
        float_renderer(*float_text),
    ensures
        r@ == literal_text(*value, float_texts(*float_text)),
{
    match value {
        LiteralValue::Int(i) => i64_text(*i),
        LiteralValue::Float(bits) => float_summary(*bits, float_text),
        LiteralValue::String(text) => debug_text(text),
        LiteralValue::Char(c) => quoted_char(*c),
        LiteralValue::Bool(b) => bool_summary(*b),
        LiteralValue::Unit => String::from_str("()"),
    }
}

/// The text of a float, as the renderer shows it.
fn float_summary<F: Fn(u64) -> String>(bits: u64, float_text: &F) -> (r: String)
    requires
        float_renderer(*float_text),
    ensures
        r@ == float_texts(*float_text)(bits),
{
    let text = float_text(bits);
    proof {
        let chosen = choose|s: String| call_ensures(*float_text, (bits,), s);
        assert(call_ensures(*float_text, (bits,), chosen));
    }
    text
}

/// `true` or `false`.
fn bool_summary(b: bool) -> (r: String)
    ensures
        r@ == bool_text(b),
{
    if b {
        String::from_str("true")
    } else {
        String::from_str("false")
    }
}

/// A character between single quotes.
fn quoted_char(c: char) -> (r: String)
    ensures
        r@ == char_text(c),
{
    let mut text = String::from_str("'");
    push_text(&mut text, &char_string(c));
    text.append("'");
    proof {
        reveal_strlit("'");
        assert(text@ =~= char_text(c));
    }
    text
}

/// The text of a literal pattern.
fn literal_pattern_summary<F: Fn(u64) -> String>(literal: &LiteralPattern, float_text: &F) -> (r: String)
    requires
        float_renderer(*float_text),
    ensures
        r@ == literal_pattern_text(*literal, float_texts(*float_text)),
{
    match (&literal.literal_type, &literal.value) {
        (PatternLiteralType::Bool, LiteralValue::Bool(b)) => bool_summary(*b),
        (PatternLiteralType::Unit, _) => String::from_str("()"),
        (PatternLiteralType::Int, LiteralValue::Int(i)) => i64_text(*i),
        (PatternLiteralType::Float, LiteralValue::Float(bits)) => float_summary(*bits, float_text),
        (PatternLiteralType::String, LiteralValue::String(text)) => debug_text(text),
        (PatternLiteralType::Char, LiteralValue::Char(c)) => quoted_char(*c),
        _ => String::from_str("_"),
    }
}

/// Three texts in a row.
fn concat3(a: &str, b: &String, c: &str) -> (r: String)
    ensures
        r@ == a@ + b@ + c@,
{
    let mut out = String::from_str(a);
    push_text(&mut out, b);
    out.append(c);
    out
}

/// The texts of a sequence of patterns.
fn patterns_summaries<F: Fn(u64) -> String, D: Fn(&Vec<String>, &String) -> String>(
    patterns: &Vec<Pattern>,
    float_text: &F,
    display_name: &D,
) -> (r: Vec<String>)
    requires
        float_renderer(*float_text),
        name_renderer(*display_name),
    ensures
        strings_view(r@) == patterns_text(
            patterns@,
            float_texts(*float_text),
            display_names(*display_name),
        ),
    decreases patterns@, 0nat,
{
    let ghost ft = float_texts(*float_text);
    let ghost dn = display_names(*display_name);
    let mut out: Vec<String> = Vec::new();
    let mut i: usize = 0;
    while i < patterns.len()
        invariant
            i <= patterns@.len(),
            float_renderer(*float_text),
            name_renderer(*display_name),
            ft == float_texts(*float_text),
            dn == display_names(*display_name),
            strings_view(out@) =~= patterns_text(patterns@, ft, dn).take(i as int),
        decreases patterns@.len() - i,
    {
        proof {
            assert(decreases_to!(patterns@ => patterns@[i as int]));
        }
        let text = pattern_summary(&patterns[i], float_text, display_name);
        let ghost before = out@;
        out.push(text);
        proof {
            assert(strings_view(out@) =~= strings_view(before).push(text@));
        }
        i += 1;
    }
    out
}

/// The texts of the fields of a record pattern.
fn fields_summaries<F: Fn(u64) -> String, D: Fn(&Vec<String>, &String) -> String>(
    fields: &Vec<RecordPatternField>,
    float_text: &F,
    display_name: &D,
) -> (r: Vec<String>)
    requires
        float_renderer(*float_text),
        name_renderer(*display_name),
    ensures
        strings_view(r@) == fields_text(
            fields@,
            float_texts(*float_text),
            display_names(*display_name),
        ),
    decreases fields@, 0nat,
{
    let ghost ft = float_texts(*float_text);
    let ghost dn = display_names(*display_name);
    let mut out: Vec<String> = Vec::new();
    let mut i: usize = 0;
    while i < fields.len()
        invariant
            i <= fields@.len(),
            float_renderer(*float_text),
            name_renderer(*display_name),
            ft == float_texts(*float_text),
            dn == display_names(*display_name),
            strings_view(out@) =~= fields_text(fields@, ft, dn).take(i as int),
        decreases fields@.len() - i,
    {
        let field = &fields[i];
        let text = match &field.pattern {
            Some(pattern) => {
                proof {
                    assert(decreases_to!(fields@ => fields@[i as int]));
                }
                let inner = pattern_summary(pattern, float_text, display_name);
                let mut t = field.name.clone();
                t.append(":");
                push_text(&mut t, &inner);
                t
            },
            None => field.name.clone(),
        };
        let ghost before = out@;
        out.push(text);
        proof {
            assert(strings_view(out@) =~= strings_view(before).push(text@));
        }
        i += 1;
    }
    out
}

/// The source-like text of a pattern, as coverage diagnostics list it: `_`,
/// a name, a literal, or a tuple, list, constructor or record of the texts
/// of its parts, joined by commas. Floats are shown by `float_text`, and
/// constructor names by `display_name`, from their module path and name.
pub fn pattern_summary<F: Fn(u64) -> String, D: Fn(&Vec<String>, &String) -> String>(
    pattern: &Pattern,
    float_text: &F,
    display_name: &D,
) -> (r: String)
    requires
        float_renderer(*float_text),
        name_renderer(*display_name),
    ensures
        r@ == pattern_text(*pattern, float_texts(*float_text), display_names(*display_name)),
    decreases *pattern, 1nat,
{
    match pattern {
        Pattern::Wildcard => String::from_str("_"),
        Pattern::Identifier(name) => name.clone(),
        Pattern::Literal(literal) => literal_pattern_summary(literal, float_text),
        Pattern::Tuple(patterns) => {
            let parts = patterns_summaries(patterns, float_text, display_name);
            concat3("(", &join_texts(&parts, ","), ")")
        },
        Pattern::List { patterns, rest } => {
            let mut parts = patterns_summaries(patterns, float_text, display_name);
            let ghost before = parts@;
            if rest.is_some() {
                parts.push(String::from_str(".rest"));
                proof {
                    assert(strings_view(parts@) =~= strings_view(before).push(".rest"@));
                }
            }
            concat3("[", &join_texts(&parts, ","), "]")
        },
        Pattern::Constructor { path_segments, name, patterns } => {
            let shown = display_name(path_segments, name);
            proof {
                let chosen = choose|s: String| call_ensures(*display_name, (path_segments, name), s);
                assert(call_ensures(*display_name, (path_segments, name), chosen));
            }
            if patterns.len() == 0 {
                let mut text = shown;
                text.append("()");
                text
            } else {
                let parts = patterns_summaries(patterns, float_text, display_name);
                let mut text = shown;
                push_text(&mut text, &concat3("(", &join_texts(&parts, ","), ")"));
                text
            }
        },
        Pattern::Record(fields) => {
            let parts = fields_summaries(fields, float_text, display_name);
            concat3("{", &join_texts(&parts, ","), "}")
        },
    }
}

/// The source-like text of an expression, as coverage diagnostics show a
/// guard.
pub open spec fn expr_text(e: Expr, ft: spec_fn(u64) -> Seq<char>) -> Seq<char>
    decreases e,
{
    match e {
        Expr::Literal(v) => literal_text(v, ft),
        Expr::Identifier(n) => n@,
        Expr::Unary { operator, operand } => operator@ + expr_text(*operand, ft),
        Expr::Binary { left, operator, right } => expr_text(*left, ft) + " "@ + operator@ + " "@
            + expr_text(*right, ft),
        Expr::TypeAscription(inner) => expr_text(*inner, ft),
        Expr::FieldAccess { object, field } => expr_text(*object, ft) + "."@ + field@,
        Expr::Application { func, args: _ } => expr_text(*func, ft) + "(...)"@,
        Expr::MemberAccess { namespace, member } => join_with(strings_view(namespace@), "::"@)
            + "."@ + member@,
        Expr::Other => "<expr>"@,
    }
}

/// The source-like text of an expression, as coverage diagnostics show a
/// guard: literals, names, operators between the texts of their operands,
/// field and member accesses, a call with its arguments elided, and
/// `<expr>` for any other form. Floats are shown by `float_text`.
pub fn expr_summary<F: Fn(u64) -> String>(expr: &Expr, float_text: &F) -> (r: String)
    requires
        float_renderer(*float_text),
    ensures
        r@ == expr_text(*expr, float_texts(*float_text)),
    decreases *expr,
{
    match expr {
        Expr::Literal(value) => literal_summary(value, float_text),
        Expr::Identifier(name) => name.clone(),
        Expr::Unary { operator, operand } => {
            let mut text = operator.clone();
            push_text(&mut text, &expr_summary(operand, float_text));
            text
        },
        Expr::Binary { left, operator, right } => {
            let mut text = expr_summary(left, float_text);
            text.append(" ");
            push_text(&mut text, operator);
            text.append(" ");
            push_text(&mut text, &expr_summary(right, float_text));
            text
        },
        Expr::TypeAscription(inner) => expr_summary(inner, float_text),
        Expr::FieldAccess { object, field } => {
            let mut text = expr_summary(object, float_text);
            text.append(".");
            push_text(&mut text, field);
            text
        },
        Expr::Application { func, .. } => {
            let mut text = expr_summary(func, float_text);
            text.append("(...)");
            text
        },
        Expr::MemberAccess { namespace, member } => {
            let mut text = join_texts(namespace, "::");
            text.append(".");
            push_text(&mut text, member);
            text
        },
        Expr::Other => String::from_str("<expr>"),
    }
}

} // verus!
