//! JSON text: string literals as `serde_json` writes them, and the joining
//! of parts into arrays and objects.

use vstd::prelude::*;

verus! {

/// The hexadecimal digit of a value below sixteen, in lower case.
pub open spec fn hex_digit(d: u32) -> char {
    if d < 10 {
        ((d + 48) as u8) as char
    } else {
        ((d + 87) as u8) as char
    }
}

/// How `serde_json` writes one character inside a string literal: quote and
/// backslash escaped, the short escapes for backspace, tab, line feed, form
/// feed and carriage return, `\u00XX` for the other control characters, and
/// every other character as it is.
pub open spec fn json_escape_char(c: char) -> Seq<char> {
    if c == '"' {
        seq!['\\', '"']
    } else if c == '\\' {
        seq!['\\', '\\']
    } else if c == '\x08' {
        seq!['\\', 'b']
    } else if c == '\t' {
        seq!['\\', 't']
    } else if c == '\n' {
        seq!['\\', 'n']
    } else if c == '\x0c' {
        seq!['\\', 'f']
    } else if c == '\r' {
        seq!['\\', 'r']
    } else if (c as u32) < 0x20 {
        seq!['\\', 'u', '0', '0', hex_digit((c as u32) / 16), hex_digit((c as u32) % 16)]
    } else {
        seq![c]
    }
}

/// The escaped body of a string literal.
pub open spec fn json_escape(s: Seq<char>) -> Seq<char>
    decreases s.len(),
{
    if s.len() == 0 {
        Seq::empty()
    } else {
        json_escape(s.drop_last()) + json_escape_char(s.last())
    }
}

/// A JSON string literal holding `s`.
pub open spec fn json_quoted(s: Seq<char>) -> Seq<char> {
    seq!['"'] + json_escape(s) + seq!['"']
}

/// The parts joined, with `sep` between neighbours.
pub open spec fn join_with(parts: Seq<Seq<char>>, sep: Seq<char>) -> Seq<char>
    decreases parts.len(),
{
    if parts.len() == 0 {
        Seq::empty()
    } else if parts.len() == 1 {
        parts[0]
    } else {
        join_with(parts.drop_last(), sep) + sep + parts.last()
    }
}

/// Each string as a JSON string literal.
pub open spec fn quoted_all(items: Seq<Seq<char>>) -> Seq<Seq<char>> {
    Seq::new(items.len(), |i: int| json_quoted(items[i]))
}

/// A JSON array of string literals.
pub open spec fn json_string_array_text(items: Seq<Seq<char>>) -> Seq<char> {
    seq!['['] + join_with(quoted_all(items), seq![',']) + seq![']']
}

/// The views of a list of strings.
pub open spec fn strings_view(v: Seq<String>) -> Seq<Seq<char>> {
    Seq::new(v.len(), |i: int| v[i]@)
}

/// `serde_json::to_string` on a string slice: the JSON string literal, escaped
/// as `format_escaped_str` in `serde_json`'s serializer does. Writing a string
/// into memory cannot fail, so the error arm is never taken.
#[verifier::external_body]
pub(crate) fn json_string(s: &str) -> (r: String)
    ensures
        r@ == json_quoted(s@),
{
    match serde_json::to_string(s) {
        Ok(text) => text,
        Err(_) => String::new(),
    }
}

/// A string appended to another.
pub fn push_text(out: &mut String, piece: &String)
    ensures
        final(out)@ == old(out)@ + piece@,
{
    out.append(piece.as_str());
}

/// A JSON array of the given strings.
pub fn json_string_array(items: &Vec<String>) -> (r: String)
    ensures
        r@ == json_string_array_text(strings_view(items@)),
{
    let mut body = String::new();
    let mut i: usize = 0;
    while i < items.len()
        invariant
            i <= items.len(),
            body@ == join_with(quoted_all(strings_view(items@).take(i as int)), seq![',']),
        decreases items.len() - i,
    {
        let quoted = json_string(items[i].as_str());
        let ghost before = body@;
        if i > 0 {
            body.append(",");
        }
        push_text(&mut body, &quoted);
        proof {
            reveal_strlit(",");
            let parts = quoted_all(strings_view(items@).take(i + 1));
            assert(parts.drop_last() =~= quoted_all(strings_view(items@).take(i as int)));
            assert(parts.last() == quoted@);
            if i == 0 {
                assert(parts.len() == 1);
                assert(before == Seq::<char>::empty());
                assert(body@ =~= parts[0]);
            } else {
                assert(body@ =~= join_with(parts.drop_last(), seq![',']) + seq![','] + parts.last());
            }
        }
        i += 1;
    }
    proof {
        assert(strings_view(items@).take(items@.len() as int) =~= strings_view(items@));
    }
    let mut out = String::from_str("[");
    push_text(&mut out, &body);
    out.append("]");
    proof {
        reveal_strlit("[");
        reveal_strlit("]");
        reveal_strlit(",");
        assert(out@ =~= json_string_array_text(strings_view(items@)));
    }
    out
}

/// The decimal digit character of a value below ten.
pub open spec fn digit_char(d: nat) -> char {
    ((d + 48) as u8) as char
}

/// The decimal digits of a natural number, most significant first, with no
/// leading zero.
pub open spec fn nat_digits(n: nat) -> Seq<char>
    decreases n,
{
    if n < 10 {
        seq![digit_char(n)]
    } else {
        nat_digits(n / 10).push(digit_char(n % 10))
    }
}

/// The decimal text of an integer, with a leading `-` when negative.
pub open spec fn decimal(x: int) -> Seq<char> {
    if x < 0 {
        seq!['-'] + nat_digits((-x) as nat)
    } else {
        nat_digits(x as nat)
    }
}

/// The text of one decimal digit.
fn digit_text(d: u64) -> (r: &'static str)
    requires
        d < 10,
    ensures
        r@ == seq![digit_char(d as nat)],
{
    proof {
        reveal_strlit("0");
        reveal_strlit("1");
        reveal_strlit("2");
        reveal_strlit("3");
        reveal_strlit("4");
        reveal_strlit("5");
        reveal_strlit("6");
        reveal_strlit("7");
        reveal_strlit("8");
        reveal_strlit("9");
    }
    match d {
        0 => "0",
        1 => "1",
        2 => "2",
        3 => "3",
        4 => "4",
        5 => "5",
        6 => "6",
        7 => "7",
        8 => "8",
        _ => "9",
    }
}

/// The decimal digits of `value`, as `Display` for integers writes them.
pub fn u64_text(value: u64) -> (r: String)
    ensures
        r@ == decimal(value as int),
    decreases value,
{
    if value < 10 {
        String::from_str(digit_text(value))
    } else {
        let mut text = u64_text(value / 10);
        text.append(digit_text(value % 10));
        text
    }
}

/// The decimal digits of `value` after a `-` when negative, as `Display`
/// for integers writes them.
pub fn i64_text(value: i64) -> (r: String)
    ensures
        r@ == decimal(value as int),
{
    if value < 0 {
        let magnitude: u64 = if value == i64::MIN {
            9223372036854775808u64
        } else {
            (-value) as u64
        };
        let digits = u64_text(magnitude);
        let mut text = String::from_str("-");
        push_text(&mut text, &digits);
        proof {
            reveal_strlit("-");
            assert(text@ =~= decimal(value as int));
        }
        text
    } else {
        u64_text(value as u64)
    }
}

/// The strings joined, with `sep` between neighbours.
pub fn join_texts(parts: &Vec<String>, sep: &str) -> (r: String)
    ensures
        r@ == join_with(strings_view(parts@), sep@),
{
    let mut out = String::new();
    let mut i: usize = 0;
    while i < parts.len()
        invariant
            i <= parts.len(),
            out@ == join_with(strings_view(parts@).take(i as int), sep@),
        decreases parts.len() - i,
    {
        let ghost before = out@;
        if i > 0 {
            out.append(sep);
        }
        push_text(&mut out, &parts[i]);
        proof {
            let pre = strings_view(parts@).take(i + 1);
            assert(pre.drop_last() =~= strings_view(parts@).take(i as int));
            assert(pre.last() == parts@[i as int]@);
            if i == 0 {
                assert(before == Seq::<char>::empty());
                assert(out@ =~= pre[0]);
            } else {
                assert(out@ =~= join_with(pre.drop_last(), sep@) + sep@ + pre.last());
            }
        }
        i += 1;
    }
    proof {
        assert(strings_view(parts@).take(parts@.len() as int) =~= strings_view(parts@));
    }
    out
}

/// The strings concatenated in order.
pub open spec fn concat_all(parts: Seq<Seq<char>>) -> Seq<char>
    decreases parts.len(),
{
    if parts.len() == 0 {
        Seq::empty()
    } else {
        concat_all(parts.drop_last()) + parts.last()
    }
}

/// The strings concatenated in order.
pub fn concat_texts(parts: &Vec<String>) -> (r: String)
    ensures
        r@ == concat_all(strings_view(parts@)),
{
    let mut out = String::new();
    let mut i: usize = 0;
    while i < parts.len()
        invariant
            i <= parts.len(),
            out@ == concat_all(strings_view(parts@).take(i as int)),
        decreases parts.len() - i,
    {
        push_text(&mut out, &parts[i]);
        proof {
            let pre = strings_view(parts@).take(i + 1);
            assert(pre.drop_last() =~= strings_view(parts@).take(i as int));
        }
        i += 1;
    }
    proof {
        assert(strings_view(parts@).take(parts@.len() as int) =~= strings_view(parts@));
    }
    out
}

} // verus!
