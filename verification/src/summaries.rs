//! Case summaries: short renderings of the values a match space admits,
//! as coverage diagnostics list the cases a match misses.

use crate::atoms::{atoms_view, AtomV, LiteralAtom};
use crate::int_ranges::{IntInterval, IntRangeSet};
use crate::json::{decimal, i64_text, join_texts, join_with, push_text, strings_view};
use crate::space::{
    depth, depths, lemma_depths, lemma_normalize_depth, normalize_space, record_names_v,
    record_spaces_v, space_clone, space_is_empty, spaces_v, spec_is_empty, spec_normalize_space,
    ListSpace, MatchSpace, PrimV, PrimitiveSpace, SpaceV,
};
use vstd::prelude::*;

verus! {

// ---------------------------------------------------------------------------
// Rendering literals
// ---------------------------------------------------------------------------

/// What `format!("{:?}", s)` gives for a string: the string in double
/// quotes, escaped as Rust's `Debug` escapes it.
pub uninterp spec fn debug_quoted(s: Seq<char>) -> Seq<char>;

/// `format!("{:?}", s)` on a string.
#[verifier::external_body]
pub(crate) fn debug_text(s: &String) -> (r: String)
    ensures
        r@ == debug_quoted(s@),
{
    format!("{:?}", s)
}

/// `char::to_string`: the character alone.
#[verifier::external_body]
pub(crate) fn char_string(c: char) -> (r: String)
    ensures
        r@ == seq![c],
{
    c.to_string()
}

/// A float renderer: callable on every bit pattern, and giving equal texts
/// for equal bits.
pub open spec fn float_renderer<F: Fn(u64) -> String>(f: F) -> bool {
    &&& forall|b: u64| call_requires(f, (b,))
    &&& forall|b: u64, s1: String, s2: String|
        #[trigger] call_ensures(f, (b,), s1) && #[trigger] call_ensures(f, (b,), s2) ==> s1@ == s2@
}

/// The text a float renderer gives for some bits.
pub open spec fn float_texts<F: Fn(u64) -> String>(f: F) -> spec_fn(u64) -> Seq<char> {
    |b: u64| (choose|s: String| call_ensures(f, (b,), s))@
}

/// How a literal appears in a summary: a float as the renderer shows it, a
/// string as its debug rendering, a char between single quotes.
pub open spec fn render_atom(a: AtomV, ft: spec_fn(u64) -> Seq<char>) -> Seq<char> {
    match a {
        AtomV::Float(b) => ft(b),
        AtomV::Str(s) => debug_quoted(s),
        AtomV::Char(c) => seq!['\''] + seq![c] + seq!['\''],
    }
}

/// Renders a literal; floats are shown by `float_text`.
pub fn render_literal_atom<F: Fn(u64) -> String>(atom: &LiteralAtom, float_text: &F) -> (r: String)
    requires
        float_renderer(*float_text),
    ensures
        r@ == render_atom(atom@, float_texts(*float_text)),
{
    match atom {
        LiteralAtom::Float(bits) => {
            let text = float_text(*bits);
            proof {
                let chosen = choose|s: String| call_ensures(*float_text, (*bits,), s);
                assert(call_ensures(*float_text, (*bits,), chosen));
            }
            text
        },
        LiteralAtom::String(value) => debug_text(value),
        LiteralAtom::Char(c) => {
            let mut text = String::from_str("'");
            push_text(&mut text, &char_string(*c));
            text.append("'");
            proof {
                reveal_strlit("'");
                assert(text@ =~= seq!['\''] + seq![*c] + seq!['\'']);
            }
            text
        },
    }
}

// ---------------------------------------------------------------------------
// Collecting unique summaries
// ---------------------------------------------------------------------------

/// `v` appended unless already present.
pub open spec fn push_unique_spec(out: Seq<Seq<char>>, v: Seq<char>) -> Seq<Seq<char>> {
    if out.contains(v) {
        out
    } else {
        out.push(v)
    }
}

/// Appends `value` unless it is already present.
pub fn push_unique(out: &mut Vec<String>, value: String)
    ensures
        strings_view(final(out)@) == push_unique_spec(strings_view(old(out)@), value@),
{
    let ghost before = strings_view(out@);
    let mut i: usize = 0;
    while i < out.len()
        invariant
            i <= out.len(),
            before == strings_view(out@),
            forall|k: int| 0 <= k < i ==> before[k] != value@,
        decreases out.len() - i,
    {
        if out[i] == value {
            proof {
                assert(before[i as int] == value@);
            }
            return;
        }
        i += 1;
    }
    let ghost v = value@;
    out.push(value);
    proof {
        assert(strings_view(out@) =~= before.push(v));
    }
}

/// The values appended one at a time, unless present, until `limit` is
/// reached.
pub open spec fn push_all_limited(out: Seq<Seq<char>>, vals: Seq<Seq<char>>, limit: nat) -> Seq<
    Seq<char>,
>
    decreases vals.len(),
{
    if vals.len() == 0 {
        out
    } else {
        let o = push_unique_spec(out, vals[0]);
        if o.len() >= limit {
            o
        } else {
            push_all_limited(o, vals.drop_first(), limit)
        }
    }
}

fn push_all(out: &mut Vec<String>, vals: Vec<String>, limit: usize)
    ensures
        strings_view(final(out)@) == push_all_limited(
            strings_view(old(out)@),
            strings_view(vals@),
            limit as nat,
        ),
{
    let ghost target = push_all_limited(strings_view(out@), strings_view(vals@), limit as nat);
    proof {
        assert(strings_view(vals@).skip(0) =~= strings_view(vals@));
    }
    let mut i: usize = 0;
    while i < vals.len()
        invariant
            i <= vals.len(),
            target == push_all_limited(strings_view(old(out)@), strings_view(vals@), limit as nat),
            push_all_limited(strings_view(out@), strings_view(vals@).skip(i as int), limit as nat)
                == target,
        decreases vals.len() - i,
    {
        let ghost rest = strings_view(vals@).skip(i as int);
        let ghost before = strings_view(out@);
        proof {
            assert(rest[0] == vals@[i as int]@);
            assert(rest.drop_first() =~= strings_view(vals@).skip(i + 1));
            assert(push_all_limited(before, rest, limit as nat) == (if push_unique_spec(before, rest[0]).len() >= limit {
                push_unique_spec(before, rest[0])
            } else {
                push_all_limited(push_unique_spec(before, rest[0]), rest.drop_first(), limit as nat)
            }));
        }
        push_unique(out, vals[i].clone());
        if out.len() >= limit {
            return;
        }
        i += 1;
    }
    proof {
        assert(strings_view(vals@).skip(vals@.len() as int) =~= Seq::<Seq<char>>::empty());
    }
}

// ---------------------------------------------------------------------------
// Integer singletons
// ---------------------------------------------------------------------------

/// The integers from `a` to `b`, in order.
pub open spec fn interval_values(a: int, b: int) -> Seq<int> {
    if a <= b {
        Seq::new((b - a + 1) as nat, |k: int| a + k)
    } else {
        Seq::empty()
    }
}

/// The integers of bounded intervals, in order; `None` when an interval
/// lacks a bound.
pub open spec fn singleton_values(s: Seq<IntInterval>) -> Option<Seq<int>>
    decreases s.len(),
{
    if s.len() == 0 {
        Some(Seq::empty())
    } else {
        match singleton_values(s.drop_last()) {
            None => None,
            Some(vs) => match (s.last().start, s.last().end) {
                (Some(a), Some(b)) => Some(vs + interval_values(a as int, b as int)),
                _ => None,
            },
        }
    }
}

/// The integers of a range set listed one by one, when every interval is
/// bounded and there are at most `limit` of them.
pub open spec fn spec_singletons(s: Seq<IntInterval>, limit: nat) -> Option<Seq<int>> {
    match singleton_values(s) {
        Some(vs) => if vs.len() <= limit {
            Some(vs)
        } else {
            None
        },
        None => None,
    }
}

/// The values of a list of integers.
pub open spec fn ints_view(v: Seq<i64>) -> Seq<int> {
    Seq::new(v.len(), |i: int| v[i] as int)
}

proof fn lemma_singletons_prefix(s: Seq<IntInterval>, k: int)
    requires
        0 <= k <= s.len(),
    ensures
        singleton_values(s.take(k)) is None ==> singleton_values(s) is None,
        singleton_values(s) is Some ==> singleton_values(s.take(k))->0.len() <= singleton_values(s)->0.len(),
    decreases s.len() - k,
{
    if k < s.len() {
        let t = s.take(k + 1);
        assert(t.drop_last() =~= s.take(k));
        lemma_singletons_prefix(s, k + 1);
    } else {
        assert(s.take(k) =~= s);
    }
}

/// The integers of `ranges` one by one, when every interval is bounded and
/// there are at most `limit` of them; `None` otherwise.
pub fn int_range_singletons(ranges: &IntRangeSet, limit: usize) -> (r: Option<Vec<i64>>)
    ensures
        match r {
            Some(v) => spec_singletons(ranges@, limit as nat) == Some(ints_view(v@)),
            None => spec_singletons(ranges@, limit as nat) is None,
        },
{
    let intervals = ranges.intervals();
    let ghost s = ranges@;
    let mut values: Vec<i64> = Vec::new();
    let mut i: usize = 0;
    while i < intervals.len()
        invariant
            s == intervals@,
            s == ranges@,
            i <= intervals.len(),
            values@.len() <= limit,
            singleton_values(s.take(i as int)) == Some(ints_view(values@)),
        decreases intervals.len() - i,
    {
        let interval = intervals[i];
        proof {
            assert(s.take(i + 1).drop_last() =~= s.take(i as int));
            assert(s.take(i + 1).last() == interval);
        }
        let (start, end) = match (interval.start, interval.end) {
            (Some(start), Some(end)) => (start, end),
            _ => {
                proof {
                    assert(singleton_values(s.take(i + 1)) is None);
                    lemma_singletons_prefix(s, i + 1);
                }
                return None;
            },
        };
        if start <= end {
            let width: i128 = end as i128 - start as i128;
            let remaining: i128 = limit as i128 - values.len() as i128;
            if width > remaining {
                proof {
                    assert(interval_values(start as int, end as int).len() == end - start + 1);
                    assert(singleton_values(s.take(i + 1)) == Some(
                        ints_view(values@) + interval_values(start as int, end as int),
                    ));
                    lemma_singletons_prefix(s, i + 1);
                }
                return None;
            }
            let ghost base = values@;
            let mut value: i64 = start;
            loop
                invariant_except_break
                    values@.len() == base.len() + (value - start),
                    ints_view(values@) =~= ints_view(base) + interval_values(start as int, value - 1),
                invariant
                    start <= value <= end,
                    end - start <= limit - base.len(),
                    base.len() <= limit,
                    s == intervals@,
                    s == ranges@,
                    i < intervals@.len(),
                    interval == intervals@[i as int],
                    interval.start == Some(start),
                    interval.end == Some(end),
                    singleton_values(s.take(i as int)) == Some(ints_view(base)),
                    s.take(i + 1).drop_last() == s.take(i as int),
                    s.take(i + 1).last() == interval,
                ensures
                    values@.len() <= limit,
                    ints_view(values@) =~= ints_view(base) + interval_values(start as int, end as int),
                decreases end - value,
            {
                let ghost before = values@;
                values.push(value);
                proof {
                    assert(ints_view(values@) =~= ints_view(before).push(value as int));
                    assert(interval_values(start as int, value as int) =~= interval_values(
                        start as int,
                        value - 1,
                    ).push(value as int));
                }
                if values.len() > limit {
                    proof {
                        assert(interval_values(start as int, end as int).len() == end - start + 1);
                        assert(singleton_values(s.take(i + 1)) == Some(
                            ints_view(base) + interval_values(start as int, end as int),
                        ));
                        lemma_singletons_prefix(s, i + 1);
                    }
                    return None;
                }
                if value == end {
                    proof {
                        assert(ints_view(values@) =~= ints_view(base) + interval_values(
                            start as int,
                            end as int,
                        ));
                    }
                    break;
                }
                value = value + 1;
            }
            proof {
                assert(ints_view(values@) =~= ints_view(base) + interval_values(
                    start as int,
                    end as int,
                ));
            }
        } else {
            proof {
                assert(interval_values(start as int, end as int) =~= Seq::<int>::empty());
                assert(ints_view(values@) + interval_values(start as int, end as int)
                    =~= ints_view(values@));
            }
        }
        i += 1;
    }
    proof {
        assert(s.take(intervals@.len() as int) =~= s);
    }
    Some(values)
}

// ---------------------------------------------------------------------------
// Summaries of spaces
// ---------------------------------------------------------------------------

/// The summary of a constructor: its name and the summaries of its fields.
pub open spec fn variant_summary(name: Seq<char>, atoms: Seq<Seq<char>>) -> Seq<char> {
    if atoms.len() == 0 {
        name + "()"@
    } else {
        name + "("@ + join_with(atoms, ","@) + ")"@
    }
}

/// The summary of a record: each field's name and summary, in braces.
pub open spec fn record_summary(names: Seq<Seq<char>>, atoms: Seq<Seq<char>>) -> Seq<char> {
    "{"@ + join_with(Seq::new(atoms.len(), |i: int| names[i] + ":"@ + atoms[i]), ","@) + "}"@
}

/// A summary appended after a prefix, with a comma when the prefix is not
/// empty.
pub open spec fn combine(prefix: Seq<char>, s: Seq<char>) -> Seq<char> {
    if prefix.len() == 0 {
        s
    } else {
        prefix + ","@ + s
    }
}

/// Each summary of `part` appended to the prefix.
pub open spec fn cross_row(prefix: Seq<char>, part: Seq<Seq<char>>) -> Seq<Seq<char>> {
    Seq::new(part.len(), |j: int| combine(prefix, part[j]))
}

/// Every prefix combined with every summary of `part`, prefixes first.
pub open spec fn cross(results: Seq<Seq<char>>, part: Seq<Seq<char>>) -> Seq<Seq<char>>
    decreases results.len(),
{
    if results.len() == 0 {
        Seq::empty()
    } else {
        cross(results.drop_last(), part) + cross_row(results.last(), part)
    }
}

/// The combinations of one summary from each part, or `None` once more than
/// `limit` of them arise.
pub open spec fn product_from(results: Seq<Seq<char>>, parts: Seq<Seq<Seq<char>>>, limit: nat) -> Option<
    Seq<Seq<char>>,
>
    decreases parts.len(),
{
    if parts.len() == 0 {
        Some(results)
    } else {
        let next = cross(results, parts[0]);
        if next.len() > limit {
            None
        } else {
            product_from(next, parts.drop_first(), limit)
        }
    }
}

/// The summaries of a primitive space, added to `out`.
pub open spec fn collect_prim(p: PrimV, limit: nat, out: Seq<Seq<char>>, ft: spec_fn(u64) -> Seq<char>) -> Seq<
    Seq<char>,
> {
    match p {
        PrimV::Bool(t, f) => {
            let o1 = if t && out.len() < limit {
                push_unique_spec(out, "true"@)
            } else {
                out
            };
            if f && o1.len() < limit {
                push_unique_spec(o1, "false"@)
            } else {
                o1
            }
        },
        PrimV::Unit(present) => if present {
            push_unique_spec(out, "()"@)
        } else {
            out
        },
        PrimV::Int(rs) => match spec_singletons(rs, (limit - out.len()) as nat) {
            Some(vs) => push_all_limited(out, Seq::new(vs.len(), |i: int| decimal(vs[i])), limit),
            None => push_unique_spec(out, "_"@),
        },
        PrimV::EqFinite(_, vals) => {
            let n = if vals.len() <= limit - out.len() {
                vals.len()
            } else {
                (limit - out.len()) as nat
            };
            push_all_limited(out, Seq::new(n, |i: int| render_atom(vals[i], ft)), limit)
        },
        PrimV::EqAny(_, _) => push_unique_spec(out, "_"@),
    }
}

/// The summary of a space as one case: its only summary, or `_`.
pub open spec fn atom_summary(s: SpaceV, ft: spec_fn(u64) -> Seq<char>) -> Seq<char>
    decreases depth(s), 4nat, 0nat,
{
    let ss = case_summaries(s, 2, ft);
    if ss.len() == 1 {
        ss[0]
    } else {
        "_"@
    }
}

/// The summaries of the cases of a space, at most `limit` of them past the
/// first; `_` alone when the space yields none.
pub open spec fn case_summaries(s: SpaceV, limit: nat, ft: spec_fn(u64) -> Seq<char>) -> Seq<
    Seq<char>,
>
    decreases depth(s), 3nat, 0nat,
{
    proof {
        lemma_normalize_depth(s);
    }
    let out = collect(spec_normalize_space(s), limit, Seq::empty(), ft);
    if out.len() == 0 {
        seq!["_"@]
    } else {
        out
    }
}

/// The summaries of the fields of a constructor, record or list head.
pub open spec fn field_atoms(fs: Seq<SpaceV>, ft: spec_fn(u64) -> Seq<char>) -> Seq<Seq<char>>
    decreases depths(fs) + 1, 0nat, 0nat,
{
    proof {
        lemma_depths(fs);
    }
    Seq::new(
        fs.len(),
        |i: int|
            if 0 <= i < fs.len() {
                atom_summary(fs[i], ft)
            } else {
                Seq::empty()
            },
    )
}

/// The summaries of a space added to `out`, stopping once `out` holds
/// `limit` of them.
pub open spec fn collect(s: SpaceV, limit: nat, out: Seq<Seq<char>>, ft: spec_fn(u64) -> Seq<char>) -> Seq<
    Seq<char>,
>
    decreases depth(s), 2nat, 0nat,
{
    if out.len() >= limit || spec_is_empty(s) {
        out
    } else {
        match s {
            SpaceV::Empty => out,
            SpaceV::Union(items) => collect_items(items, limit, out, ft),
            SpaceV::Prim(p) => collect_prim(p, limit, out, ft),
            SpaceV::Variant(_, name, fs) => push_unique_spec(
                out,
                variant_summary(name, field_atoms(fs, ft)),
            ),
            SpaceV::Record(names, fs) => push_unique_spec(
                out,
                record_summary(names, field_atoms(fs, ft)),
            ),
            SpaceV::Tuple(items) => match tuple_product(items, (limit - out.len()) as nat, ft) {
                Some(ss) => push_all_limited(out, ss, limit),
                None => push_unique_spec(out, "_"@),
            },
            SpaceV::ListNil => push_unique_spec(out, "[]"@),
            SpaceV::ListAny(_) => {
                let o1 = push_unique_spec(out, "[]"@);
                if o1.len() < limit {
                    push_unique_spec(o1, "[_,.rest]"@)
                } else {
                    o1
                }
            },
            SpaceV::ListCons(_, _) => push_unique_spec(out, list_summary(s, Seq::empty(), ft)),
            SpaceV::Opaque(_) => push_unique_spec(out, "_"@),
        }
    }
}

/// The summaries of each member of a union, in order.
pub open spec fn collect_items(items: Seq<SpaceV>, limit: nat, out: Seq<Seq<char>>, ft: spec_fn(u64) -> Seq<char>) -> Seq<
    Seq<char>,
>
    decreases depths(items) + 1, 1nat, items.len(),
{
    if items.len() == 0 {
        out
    } else {
        proof {
            lemma_depths(items);
        }
        collect(
            items[items.len() - 1],
            limit,
            collect_items(items.subrange(0, items.len() - 1), limit, out, ft),
            ft,
        )
    }
}

/// The summaries of a tuple: every combination of the items' summaries,
/// in parentheses; `None` when an item has no summary but `_` or when
/// there are more than `limit` combinations.
pub open spec fn tuple_product(items: Seq<SpaceV>, limit: nat, ft: spec_fn(u64) -> Seq<char>) -> Option<
    Seq<Seq<char>>,
>
    decreases depths(items) + 1, 1nat, 0nat,
{
    let parts = tuple_parts(items, limit, ft);
    if exists|i: int| 0 <= i < parts.len() && #[trigger] parts[i] == seq!["_"@] {
        None
    } else {
        match product_from(seq![Seq::empty()], parts, limit) {
            Some(rs) => Some(Seq::new(rs.len(), |i: int| "("@ + rs[i] + ")"@)),
            None => None,
        }
    }
}

/// The summaries of each item of a tuple.
pub open spec fn tuple_parts(items: Seq<SpaceV>, limit: nat, ft: spec_fn(u64) -> Seq<char>) -> Seq<
    Seq<Seq<char>>,
>
    decreases depths(items) + 1, 0nat, 0nat,
{
    proof {
        lemma_depths(items);
    }
    Seq::new(
        items.len(),
        |i: int|
            if 0 <= i < items.len() {
                case_summaries(items[i], limit, ft)
            } else {
                Seq::empty()
            },
    )
}

/// The summary of a list space from its cons cells: the summaries of the
/// heads met so far, then `]` at the empty list or `,.rest]` at a list of
/// any length; `_` when the cells end in anything else.
pub open spec fn list_summary(s: SpaceV, elements: Seq<Seq<char>>, ft: spec_fn(u64) -> Seq<char>) -> Seq<
    char,
>
    decreases depth(s), 1nat, 0nat,
{
    match s {
        SpaceV::ListCons(h, t) => list_summary(*t, elements.push(atom_summary(*h, ft)), ft),
        SpaceV::ListNil => "["@ + join_with(elements, ","@) + "]"@,
        SpaceV::ListAny(_) => if elements.len() == 0 {
            "[_,.rest]"@
        } else {
            "["@ + join_with(elements, ","@) + ",.rest]"@
        },
        _ => "_"@,
    }
}

// ---------------------------------------------------------------------------
// Computing summaries
// ---------------------------------------------------------------------------

/// The summaries of the cases of a space (normalized first), at most
/// `limit` past the first; `_` alone when there are none. Floats are shown
/// by `float_text`.
pub fn space_to_case_summaries<F: Fn(u64) -> String>(
    space: &MatchSpace,
    limit: usize,
    float_text: &F,
) -> (r: Vec<String>)
    requires
        float_renderer(*float_text),
    ensures
        strings_view(r@) == case_summaries(space@, limit as nat, float_texts(*float_text)),
    decreases depth(space@), 3nat, 0nat,
{
    let normalized = normalize_space(space_clone(space));
    proof {
        lemma_normalize_depth(space@);
    }
    let mut summaries: Vec<String> = Vec::new();
    proof {
        assert(strings_view(summaries@) =~= Seq::<Seq<char>>::empty());
    }
    collect_case_summaries(&normalized, limit, &mut summaries, float_text);
    if summaries.len() == 0 {
        let mut r: Vec<String> = Vec::new();
        r.push(String::from_str("_"));
        proof {
            assert(strings_view(r@) =~= seq!["_"@]);
        }
        r
    } else {
        summaries
    }
}

/// The summary of a space as one case: its only summary, or `_`.
pub fn case_summary_atom<F: Fn(u64) -> String>(space: &MatchSpace, float_text: &F) -> (r: String)
    requires
        float_renderer(*float_text),
    ensures
        r@ == atom_summary(space@, float_texts(*float_text)),
    decreases depth(space@), 4nat, 0nat,
{
    let summaries = space_to_case_summaries(space, 2, float_text);
    if summaries.len() == 1 {
        proof {
            assert(strings_view(summaries@)[0] == summaries@[0]@);
        }
        summaries[0].clone()
    } else {
        String::from_str("_")
    }
}

/// The summaries of the spaces of a list, each as one case.
fn field_summaries<F: Fn(u64) -> String>(fields: &Vec<MatchSpace>, float_text: &F) -> (r: Vec<String>)
    requires
        float_renderer(*float_text),
    ensures
        strings_view(r@) == field_atoms(spaces_v(fields@), float_texts(*float_text)),
    decreases depths(spaces_v(fields@)) + 1, 0nat, 0nat,
{
    let ghost fv = spaces_v(fields@);
    let mut out: Vec<String> = Vec::new();
    let mut i: usize = 0;
    while i < fields.len()
        invariant
            i <= fields.len(),
            fv == spaces_v(fields@),
            float_renderer(*float_text),
            strings_view(out@) =~= field_atoms(fv, float_texts(*float_text)).take(i as int),
        decreases fields.len() - i,
    {
        proof {
            lemma_depths(fv);
            assert(fv[i as int] == fields@[i as int]@);
        }
        let s = case_summary_atom(&fields[i], float_text);
        let ghost before = strings_view(out@);
        let ghost sv = s@;
        out.push(s);
        proof {
            assert(strings_view(out@) =~= before.push(sv));
            assert(field_atoms(fv, float_texts(*float_text)).take(i + 1) =~= field_atoms(
                fv,
                float_texts(*float_text),
            ).take(i as int).push(sv));
        }
        i += 1;
    }
    proof {
        assert(field_atoms(fv, float_texts(*float_text)).take(fields@.len() as int) =~= field_atoms(
            fv,
            float_texts(*float_text),
        ));
    }
    out
}

/// The summaries of the fields of a record, each as one case.
fn record_field_summaries<F: Fn(u64) -> String>(
    fields: &Vec<(String, MatchSpace)>,
    float_text: &F,
) -> (r: Vec<String>)
    requires
        float_renderer(*float_text),
    ensures
        strings_view(r@) == field_atoms(record_spaces_v(fields@), float_texts(*float_text)),
    decreases depths(record_spaces_v(fields@)) + 1, 0nat, 0nat,
{
    let ghost fv = record_spaces_v(fields@);
    let mut out: Vec<String> = Vec::new();
    let mut i: usize = 0;
    while i < fields.len()
        invariant
            i <= fields.len(),
            fv == record_spaces_v(fields@),
            float_renderer(*float_text),
            strings_view(out@) =~= field_atoms(fv, float_texts(*float_text)).take(i as int),
        decreases fields.len() - i,
    {
        proof {
            lemma_depths(fv);
            assert(fv[i as int] == fields@[i as int].1@);
        }
        let s = case_summary_atom(&fields[i].1, float_text);
        let ghost before = strings_view(out@);
        let ghost sv = s@;
        out.push(s);
        proof {
            assert(strings_view(out@) =~= before.push(sv));
            assert(field_atoms(fv, float_texts(*float_text)).take(i + 1) =~= field_atoms(
                fv,
                float_texts(*float_text),
            ).take(i as int).push(sv));
        }
        i += 1;
    }
    proof {
        assert(field_atoms(fv, float_texts(*float_text)).take(fields@.len() as int) =~= field_atoms(
            fv,
            float_texts(*float_text),
        ));
    }
    out
}

/// The summaries of a primitive space, added to `out`.
fn collect_primitive<F: Fn(u64) -> String>(
    primitive: &PrimitiveSpace,
    limit: usize,
    out: &mut Vec<String>,
    float_text: &F,
)
    requires
        float_renderer(*float_text),
        old(out)@.len() < limit,
    ensures
        strings_view(final(out)@) == collect_prim(
            primitive@,
            limit as nat,
            strings_view(old(out)@),
            float_texts(*float_text),
        ),
{
    match primitive {
        PrimitiveSpace::Bool { allow_true, allow_false } => {
            if *allow_true && out.len() < limit {
                push_unique(out, String::from_str("true"));
            }
            if *allow_false && out.len() < limit {
                push_unique(out, String::from_str("false"));
            }
        },
        PrimitiveSpace::Unit { present } => {
            if *present {
                push_unique(out, String::from_str("()"));
            }
        },
        PrimitiveSpace::Int(ranges) => {
            match int_range_singletons(ranges, limit - out.len()) {
                Some(values) => {
                    let mut texts: Vec<String> = Vec::new();
                    let mut i: usize = 0;
                    while i < values.len()
                        invariant
                            i <= values.len(),
                            strings_view(texts@) =~= Seq::new(
                                i as nat,
                                |k: int| decimal(ints_view(values@)[k]),
                            ),
                        decreases values.len() - i,
                    {
                        let ghost before = strings_view(texts@);
                        let t = i64_text(values[i]);
                        let ghost tv = t@;
                        texts.push(t);
                        proof {
                            assert(strings_view(texts@) =~= before.push(tv));
                        }
                        i += 1;
                    }
                    push_all(out, texts, limit);
                },
                None => {
                    push_unique(out, String::from_str("_"));
                },
            }
        },
        PrimitiveSpace::EqFinite { values, .. } => {
            let room = limit - out.len();
            let n = if values.len() <= room {
                values.len()
            } else {
                room
            };
            let ghost vals = atoms_view(values@);
            let mut texts: Vec<String> = Vec::new();
            let mut i: usize = 0;
            while i < n
                invariant
                    i <= n,
                    n <= values.len(),
                    vals == atoms_view(values@),
                    float_renderer(*float_text),
                    strings_view(texts@) =~= Seq::new(
                        i as nat,
                        |k: int| render_atom(vals[k], float_texts(*float_text)),
                    ),
                decreases n - i,
            {
                let ghost before = strings_view(texts@);
                let t = render_literal_atom(&values[i], float_text);
                let ghost tv = t@;
                texts.push(t);
                proof {
                    assert(vals[i as int] == values@[i as int]@);
                    assert(strings_view(texts@) =~= before.push(tv));
                }
                i += 1;
            }
            push_all(out, texts, limit);
        },
        PrimitiveSpace::EqAny { .. } => {
            push_unique(out, String::from_str("_"));
        },
    }
}

/// Adds the summaries of a space to `out`, stopping once `out` holds
/// `limit` of them.
pub fn collect_case_summaries<F: Fn(u64) -> String>(
    space: &MatchSpace,
    limit: usize,
    out: &mut Vec<String>,
    float_text: &F,
)
    requires
        float_renderer(*float_text),
    ensures
        strings_view(final(out)@) == collect(
            space@,
            limit as nat,
            strings_view(old(out)@),
            float_texts(*float_text),
        ),
    decreases depth(space@), 2nat, 0nat,
{
    if out.len() >= limit || space_is_empty(space) {
        return;
    }
    match space {
        MatchSpace::Empty => {},
        MatchSpace::Union(items) => {
            let ghost iv = spaces_v(items@);
            let ghost start = strings_view(out@);
            let mut i: usize = 0;
            while i < items.len()
                invariant
                    i <= items.len(),
                    iv == spaces_v(items@),
                    space@ == SpaceV::Union(iv),
                    float_renderer(*float_text),
                    strings_view(out@) == collect_items(
                        iv.subrange(0, i as int),
                        limit as nat,
                        start,
                        float_texts(*float_text),
                    ),
                decreases items.len() - i,
            {
                proof {
                    lemma_depths(iv);
                    assert(iv[i as int] == items@[i as int]@);
                    let pre = iv.subrange(0, i + 1);
                    assert(pre.subrange(0, i as int) =~= iv.subrange(0, i as int));
                    assert(pre[i as int] == iv[i as int]);
                }
                collect_case_summaries(&items[i], limit, out, float_text);
                i += 1;
            }
            proof {
                assert(iv.subrange(0, items@.len() as int) =~= iv);
            }
        },
        MatchSpace::Primitive(primitive) => {
            collect_primitive(primitive, limit, out, float_text);
        },
        MatchSpace::Variant(variant) => {
            let fields = field_summaries(&variant.fields, float_text);
            let summary = if fields.len() == 0 {
                let mut s = variant.name.clone();
                s.append("()");
                s
            } else {
                let mut s = variant.name.clone();
                s.append("(");
                push_text(&mut s, &join_texts(&fields, ","));
                s.append(")");
                s
            };
            proof {
                assert(summary@ =~= variant_summary(
                    variant.name@,
                    field_atoms(spaces_v(variant.fields@), float_texts(*float_text)),
                ));
            }
            push_unique(out, summary);
        },
        MatchSpace::Record(record) => {
            let atoms = record_field_summaries(&record.fields, float_text);
            let ghost names = record_names_v(record.fields@);
            let ghost av = strings_view(atoms@);
            proof {
                assert(av.len() == atoms@.len());
                assert(field_atoms(record_spaces_v(record.fields@), float_texts(*float_text)).len()
                    == record_spaces_v(record.fields@).len());
            }
            let mut parts: Vec<String> = Vec::new();
            let mut i: usize = 0;
            while i < atoms.len()
                invariant
                    i <= atoms.len(),
                    atoms.len() == record.fields.len(),
                    names == record_names_v(record.fields@),
                    av == strings_view(atoms@),
                    strings_view(parts@) =~= Seq::new(
                        i as nat,
                        |k: int| names[k] + ":"@ + av[k],
                    ),
                decreases atoms.len() - i,
            {
                let mut part = record.fields[i].0.clone();
                part.append(":");
                push_text(&mut part, &atoms[i]);
                let ghost before = strings_view(parts@);
                let ghost pv = part@;
                parts.push(part);
                proof {
                    assert(pv =~= names[i as int] + ":"@ + av[i as int]);
                    assert(strings_view(parts@) =~= before.push(pv));
                }
                i += 1;
            }
            let mut summary = String::from_str("{");
            push_text(&mut summary, &join_texts(&parts, ","));
            summary.append("}");
            proof {
                assert(strings_view(parts@) =~= Seq::new(av.len(), |k: int| names[k] + ":"@ + av[k]));
                assert(summary@ =~= record_summary(names, av));
            }
            push_unique(out, summary);
        },
        MatchSpace::Tuple(items) => {
            let room = limit - out.len();
            match tuple_summary_product(items, room, float_text) {
                Some(summaries) => {
                    push_all(out, summaries, limit);
                },
                None => {
                    push_unique(out, String::from_str("_"));
                },
            }
        },
        MatchSpace::List(ListSpace::Nil) => {
            push_unique(out, String::from_str("[]"));
        },
        MatchSpace::List(ListSpace::Any(_)) => {
            push_unique(out, String::from_str("[]"));
            if out.len() < limit {
                push_unique(out, String::from_str("[_,.rest]"));
            }
        },
        MatchSpace::List(ListSpace::Cons { .. }) => {
            let summary = list_case_summary(space, float_text);
            push_unique(out, summary);
        },
        MatchSpace::Opaque(_) => {
            push_unique(out, String::from_str("_"));
        },
    }
}

proof fn lemma_cross_prefix(results: Seq<Seq<char>>, part: Seq<Seq<char>>, a: int)
    requires
        0 <= a <= results.len(),
    ensures
        cross(results.take(a), part).len() <= cross(results, part).len(),
    decreases results.len() - a,
{
    if a < results.len() {
        let t = results.take(a + 1);
        assert(t.drop_last() =~= results.take(a));
        lemma_cross_prefix(results, part, a + 1);
    } else {
        assert(results.take(a) =~= results);
    }
}

/// The combinations of one summary from each item of a tuple, each in
/// parentheses; `None` when an item has no summary but `_` or when there
/// are more than `limit` combinations.
pub fn tuple_summary_product<F: Fn(u64) -> String>(
    items: &Vec<MatchSpace>,
    limit: usize,
    float_text: &F,
) -> (r: Option<Vec<String>>)
    requires
        float_renderer(*float_text),
    ensures
        match r {
            Some(v) => tuple_product(spaces_v(items@), limit as nat, float_texts(*float_text))
                == Some(strings_view(v@)),
            None => tuple_product(spaces_v(items@), limit as nat, float_texts(*float_text)) is None,
        },
    decreases depths(spaces_v(items@)) + 1, 1nat, 0nat,
{
    let ghost iv = spaces_v(items@);
    let ghost ft = float_texts(*float_text);
    let ghost all_parts = tuple_parts(iv, limit as nat, ft);
    let mut parts: Vec<Vec<String>> = Vec::new();
    let mut i: usize = 0;
    while i < items.len()
        invariant
            i <= items.len(),
            iv == spaces_v(items@),
            ft == float_texts(*float_text),
            float_renderer(*float_text),
            all_parts == tuple_parts(iv, limit as nat, ft),
            parts@.len() == i,
            forall|k: int| 0 <= k < i ==> strings_view(#[trigger] parts@[k]@) == all_parts[k],
            forall|k: int| 0 <= k < i ==> all_parts[k] != seq!["_"@],
        decreases items.len() - i,
    {
        proof {
            lemma_depths(iv);
            assert(iv[i as int] == items@[i as int]@);
            assert(all_parts[i as int] == case_summaries(iv[i as int], limit as nat, ft));
        }
        let item_summaries = space_to_case_summaries(&items[i], limit, float_text);
        if item_summaries.len() == 1 && item_summaries[0] == String::from_str("_") {
            proof {
                assert(strings_view(item_summaries@) =~= seq!["_"@]);
                assert(all_parts[i as int] == seq!["_"@]);
                assert(tuple_product(iv, limit as nat, ft) is None);
            }
            return None;
        }
        proof {
            if all_parts[i as int] == seq!["_"@] {
                assert(strings_view(item_summaries@).len() == 1);
                assert(strings_view(item_summaries@)[0] == item_summaries@[0]@);
            }
        }
        parts.push(item_summaries);
        i += 1;
    }
    proof {
        assert(!exists|k: int| 0 <= k < all_parts.len() && #[trigger] all_parts[k] == seq!["_"@]);
    }
    let mut results: Vec<String> = Vec::new();
    results.push(String::new());
    let mut p: usize = 0;
    proof {
        assert(strings_view(results@) =~= seq![Seq::<char>::empty()]);
        assert(all_parts.skip(0) =~= all_parts);
    }
    while p < parts.len()
        invariant
            p <= parts.len(),
            parts@.len() == all_parts.len(),
            forall|k: int| 0 <= k < parts@.len() ==> strings_view(#[trigger] parts@[k]@) == all_parts[k],
            product_from(seq![Seq::<char>::empty()], all_parts, limit as nat) == product_from(
                strings_view(results@),
                all_parts.skip(p as int),
                limit as nat,
            ),
            iv == spaces_v(items@),
            ft == float_texts(*float_text),
            all_parts == tuple_parts(iv, limit as nat, ft),
            !exists|k: int| 0 <= k < all_parts.len() && #[trigger] all_parts[k] == seq!["_"@],
        decreases parts.len() - p,
    {
        let part = &parts[p];
        let ghost pv = all_parts[p as int];
        let ghost rv = strings_view(results@);
        proof {
            assert(strings_view(part@) == pv);
            assert(all_parts.skip(p as int)[0] == pv);
            assert(all_parts.skip(p as int).drop_first() =~= all_parts.skip(p + 1));
        }
        let mut next: Vec<String> = Vec::new();
        let mut a: usize = 0;
        while a < results.len()
            invariant
                a <= results.len(),
                rv == strings_view(results@),
                strings_view(part@) == pv,
                strings_view(next@) =~= cross(rv.take(a as int), pv),
                next@.len() <= limit,
                iv == spaces_v(items@),
                ft == float_texts(*float_text),
                all_parts == tuple_parts(iv, limit as nat, ft),
                !exists|k: int| 0 <= k < all_parts.len() && #[trigger] all_parts[k] == seq!["_"@],
                p < all_parts.len(),
                pv == all_parts[p as int],
                product_from(seq![Seq::<char>::empty()], all_parts, limit as nat) == product_from(
                    rv,
                    all_parts.skip(p as int),
                    limit as nat,
                ),
                all_parts.skip(p as int)[0] == pv,
            decreases results.len() - a,
        {
            let mut b: usize = 0;
            let ghost row_start = strings_view(next@);
            while b < part.len()
                invariant
                    a < results.len(),
                    b <= part.len(),
                    rv == strings_view(results@),
                    strings_view(part@) == pv,
                    row_start == cross(rv.take(a as int), pv),
                    strings_view(next@) =~= row_start + cross_row(rv[a as int], pv).take(b as int),
                    next@.len() <= limit,
                    iv == spaces_v(items@),
                    ft == float_texts(*float_text),
                    all_parts == tuple_parts(iv, limit as nat, ft),
                    !exists|k: int| 0 <= k < all_parts.len() && #[trigger] all_parts[k] == seq!["_"@],
                    p < all_parts.len(),
                    pv == all_parts[p as int],
                    product_from(seq![Seq::<char>::empty()], all_parts, limit as nat) == product_from(
                        rv,
                        all_parts.skip(p as int),
                        limit as nat,
                    ),
                    all_parts.skip(p as int)[0] == pv,
                decreases part.len() - b,
            {
                let combined = if results[a].unicode_len() == 0 {
                    part[b].clone()
                } else {
                    let mut c = results[a].clone();
                    c.append(",");
                    push_text(&mut c, &part[b]);
                    c
                };
                proof {
                    assert(rv[a as int] == results@[a as int]@);
                    assert(pv[b as int] == part@[b as int]@);
                    assert(combined@ =~= combine(rv[a as int], pv[b as int]));
                }
                let ghost before = strings_view(next@);
                let ghost cv = combined@;
                next.push(combined);
                proof {
                    assert(strings_view(next@) =~= before.push(cv));
                    assert(cross_row(rv[a as int], pv).take(b + 1) =~= cross_row(rv[a as int], pv).take(
                        b as int,
                    ).push(cv));
                }
                if next.len() > limit {
                    proof {
                        let t = rv.take(a + 1);
                        assert(t.drop_last() =~= rv.take(a as int));
                        assert(t.last() == rv[a as int]);
                        assert(cross(t, pv) == cross(rv.take(a as int), pv) + cross_row(rv[a as int], pv));
                        lemma_cross_prefix(rv, pv, a + 1);
                        assert(cross(rv, pv).len() > limit);
                        assert(product_from(rv, all_parts.skip(p as int), limit as nat) is None);
                        assert(tuple_product(iv, limit as nat, ft) is None);
                    }
                    return None;
                }
                b += 1;
            }
            proof {
                let t = rv.take(a + 1);
                assert(t.drop_last() =~= rv.take(a as int));
                assert(t.last() == rv[a as int]);
                assert(cross_row(rv[a as int], pv).take(pv.len() as int) =~= cross_row(rv[a as int], pv));
            }
            a += 1;
        }
        proof {
            assert(rv.take(rv.len() as int) =~= rv);
        }
        results = next;
        p += 1;
    }
    proof {
        assert(all_parts.skip(parts@.len() as int) =~= Seq::<Seq<Seq<char>>>::empty());
    }
    let ghost rs = strings_view(results@);
    let mut wrapped: Vec<String> = Vec::new();
    let mut k: usize = 0;
    while k < results.len()
        invariant
            k <= results.len(),
            rs == strings_view(results@),
            strings_view(wrapped@) =~= Seq::new(k as nat, |i: int| "("@ + rs[i] + ")"@),
        decreases results.len() - k,
    {
        let mut w = String::from_str("(");
        push_text(&mut w, &results[k]);
        w.append(")");
        let ghost before = strings_view(wrapped@);
        let ghost wv = w@;
        wrapped.push(w);
        proof {
            assert(wv =~= "("@ + rs[k as int] + ")"@);
            assert(strings_view(wrapped@) =~= before.push(wv));
        }
        k += 1;
    }
    proof {
        assert(product_from(rs, all_parts.skip(parts@.len() as int), limit as nat) == Some(rs));
        assert(strings_view(wrapped@) =~= Seq::new(rs.len(), |i: int| "("@ + rs[i] + ")"@));
        assert(tuple_product(iv, limit as nat, ft) == Some(strings_view(wrapped@)));
    }
    Some(wrapped)
}

/// The summary of a list space by its cons cells.
pub fn list_case_summary<F: Fn(u64) -> String>(space: &MatchSpace, float_text: &F) -> (r: String)
    requires
        float_renderer(*float_text),
    ensures
        r@ == list_summary(space@, Seq::empty(), float_texts(*float_text)),
    decreases depth(space@), 1nat, 0nat,
{
    let mut elements: Vec<String> = Vec::new();
    let mut current = space;
    proof {
        assert(strings_view(elements@) =~= Seq::<Seq<char>>::empty());
    }
    loop
        invariant
            float_renderer(*float_text),
            depth(current@) <= depth(space@),
            list_summary(current@, strings_view(elements@), float_texts(*float_text)) == list_summary(
                space@,
                Seq::empty(),
                float_texts(*float_text),
            ),
        decreases depth(current@),
    {
        match current {
            MatchSpace::List(ListSpace::Cons { head, tail }) => {
                let s = case_summary_atom(head, float_text);
                let ghost before = strings_view(elements@);
                let ghost sv = s@;
                elements.push(s);
                proof {
                    assert(strings_view(elements@) =~= before.push(sv));
                }
                current = tail;
            },
            MatchSpace::List(ListSpace::Nil) => {
                let mut text = String::from_str("[");
                push_text(&mut text, &join_texts(&elements, ","));
                text.append("]");
                proof {
                    assert(text@ =~= "["@ + join_with(strings_view(elements@), ","@) + "]"@);
                }
                return text;
            },
            MatchSpace::List(ListSpace::Any(_)) => {
                if elements.len() == 0 {
                    return String::from_str("[_,.rest]");
                }
                let mut text = String::from_str("[");
                push_text(&mut text, &join_texts(&elements, ","));
                text.append(",.rest]");
                proof {
                    assert(text@ =~= "["@ + join_with(strings_view(elements@), ","@) + ",.rest]"@);
                }
                return text;
            },
            _ => {
                return String::from_str("_");
            },
        }
    }
}

// ---------------------------------------------------------------------------
// Laws
// ---------------------------------------------------------------------------

proof fn lemma_push_unique(out: Seq<Seq<char>>, v: Seq<char>)
    requires
        out.no_duplicates(),
    ensures
        push_unique_spec(out, v).no_duplicates(),
        push_unique_spec(out, v).len() <= out.len() + 1,
{
    if !out.contains(v) {
        let r = out.push(v);
        assert forall|i: int, j: int| 0 <= i < r.len() && 0 <= j < r.len() && i != j implies r[i] != r[j] by {
            if i == out.len() as int {
                assert(out[j] == r[j]);
            } else if j == out.len() as int {
                assert(out[i] == r[i]);
            }
        }
    }
}

proof fn lemma_push_all(out: Seq<Seq<char>>, vals: Seq<Seq<char>>, limit: nat)
    requires
        out.no_duplicates(),
        out.len() < limit,
    ensures
        push_all_limited(out, vals, limit).no_duplicates(),
        push_all_limited(out, vals, limit).len() <= limit,
    decreases vals.len(),
{
    if vals.len() > 0 {
        lemma_push_unique(out, vals[0]);
        let o = push_unique_spec(out, vals[0]);
        if o.len() < limit {
            lemma_push_all(o, vals.drop_first(), limit);
        }
    }
}

proof fn lemma_collect_prim(p: PrimV, limit: nat, out: Seq<Seq<char>>, ft: spec_fn(u64) -> Seq<char>)
    requires
        out.no_duplicates(),
        out.len() < limit,
    ensures
        collect_prim(p, limit, out, ft).no_duplicates(),
        collect_prim(p, limit, out, ft).len() <= limit,
{
    match p {
        PrimV::Bool(t, f) => {
            lemma_push_unique(out, "true"@);
            let o1 = if t && out.len() < limit {
                push_unique_spec(out, "true"@)
            } else {
                out
            };
            lemma_push_unique(o1, "false"@);
        },
        PrimV::Unit(_) => {
            lemma_push_unique(out, "()"@);
        },
        PrimV::Int(rs) => {
            lemma_push_unique(out, "_"@);
            match spec_singletons(rs, (limit - out.len()) as nat) {
                Some(vs) => {
                    lemma_push_all(out, Seq::new(vs.len(), |i: int| decimal(vs[i])), limit);
                },
                None => {},
            }
        },
        PrimV::EqFinite(_, vals) => {
            let n = if vals.len() <= limit - out.len() {
                vals.len()
            } else {
                (limit - out.len()) as nat
            };
            lemma_push_all(out, Seq::new(n, |i: int| render_atom(vals[i], ft)), limit);
        },
        PrimV::EqAny(_, _) => {
            lemma_push_unique(out, "_"@);
        },
    }
}

/// Collecting summaries keeps them distinct and never goes past `limit`.
pub proof fn lemma_collect(s: SpaceV, limit: nat, out: Seq<Seq<char>>, ft: spec_fn(u64) -> Seq<char>)
    requires
        out.no_duplicates(),
        out.len() <= limit,
    ensures
        collect(s, limit, out, ft).no_duplicates(),
        collect(s, limit, out, ft).len() <= limit,
    decreases depth(s), 2nat, 0nat,
{
    if out.len() >= limit || spec_is_empty(s) {
    } else {
        match s {
            SpaceV::Union(items) => {
                lemma_collect_items(items, limit, out, ft);
            },
            SpaceV::Prim(p) => {
                lemma_collect_prim(p, limit, out, ft);
            },
            SpaceV::Variant(_, name, fs) => {
                lemma_push_unique(out, variant_summary(name, field_atoms(fs, ft)));
            },
            SpaceV::Record(names, fs) => {
                lemma_push_unique(out, record_summary(names, field_atoms(fs, ft)));
            },
            SpaceV::Tuple(items) => {
                lemma_push_unique(out, "_"@);
                match tuple_product(items, (limit - out.len()) as nat, ft) {
                    Some(ss) => {
                        lemma_push_all(out, ss, limit);
                    },
                    None => {},
                }
            },
            SpaceV::ListNil => {
                lemma_push_unique(out, "[]"@);
            },
            SpaceV::ListAny(_) => {
                lemma_push_unique(out, "[]"@);
                lemma_push_unique(push_unique_spec(out, "[]"@), "[_,.rest]"@);
            },
            SpaceV::ListCons(_, _) => {
                lemma_push_unique(out, list_summary(s, Seq::empty(), ft));
            },
            SpaceV::Opaque(_) => {
                lemma_push_unique(out, "_"@);
            },
            SpaceV::Empty => {},
        }
    }
}

proof fn lemma_collect_items(items: Seq<SpaceV>, limit: nat, out: Seq<Seq<char>>, ft: spec_fn(u64) -> Seq<char>)
    requires
        out.no_duplicates(),
        out.len() <= limit,
    ensures
        collect_items(items, limit, out, ft).no_duplicates(),
        collect_items(items, limit, out, ft).len() <= limit,
    decreases depths(items) + 1, 1nat, items.len(),
{
    if items.len() > 0 {
        lemma_depths(items);
        let prefix = items.subrange(0, items.len() - 1);
        lemma_collect_items(prefix, limit, out, ft);
        lemma_collect(items[items.len() - 1], limit, collect_items(prefix, limit, out, ft), ft);
    }
}

/// The case summaries of a space are distinct, there is at least one, and
/// there are at most `limit` of them when `limit` is positive.
pub proof fn law_case_summaries_distinct_and_bounded(
    s: SpaceV,
    limit: nat,
    ft: spec_fn(u64) -> Seq<char>,
)
    ensures
        case_summaries(s, limit, ft).no_duplicates(),
        case_summaries(s, limit, ft).len() >= 1,
        limit >= 1 ==> case_summaries(s, limit, ft).len() <= limit,
{
    let empty = Seq::<Seq<char>>::empty();
    assert(empty.no_duplicates());
    lemma_collect(spec_normalize_space(s), limit, empty, ft);
    let out = collect(spec_normalize_space(s), limit, empty, ft);
    if out.len() == 0 {
        assert(seq!["_"@].no_duplicates());
    }
}

/// `r` begins with `out`.
pub open spec fn extends(out: Seq<Seq<char>>, r: Seq<Seq<char>>) -> bool {
    &&& out.len() <= r.len()
    &&& forall|i: int| 0 <= i < out.len() ==> #[trigger] r[i] == out[i]
}

proof fn lemma_push_all_extends(out: Seq<Seq<char>>, vals: Seq<Seq<char>>, limit: nat)
    ensures
        extends(out, push_all_limited(out, vals, limit)),
    decreases vals.len(),
{
    if vals.len() > 0 {
        let o = push_unique_spec(out, vals[0]);
        assert(extends(out, o));
        if o.len() < limit {
            lemma_push_all_extends(o, vals.drop_first(), limit);
        }
    }
}

proof fn lemma_collect_prim_extends(p: PrimV, limit: nat, out: Seq<Seq<char>>, ft: spec_fn(u64) -> Seq<char>)
    ensures
        extends(out, collect_prim(p, limit, out, ft)),
{
    match p {
        PrimV::Bool(t, f) => {
            let o1 = if t && out.len() < limit {
                push_unique_spec(out, "true"@)
            } else {
                out
            };
            assert(extends(out, o1));
            let o2 = if f && o1.len() < limit {
                push_unique_spec(o1, "false"@)
            } else {
                o1
            };
            assert(extends(o1, o2));
        },
        PrimV::Int(rs) => {
            match spec_singletons(rs, (limit - out.len()) as nat) {
                Some(vs) => {
                    lemma_push_all_extends(out, Seq::new(vs.len(), |i: int| decimal(vs[i])), limit);
                },
                None => {},
            }
        },
        PrimV::EqFinite(_, vals) => {
            let n = if vals.len() <= limit - out.len() {
                vals.len()
            } else {
                (limit - out.len()) as nat
            };
            lemma_push_all_extends(out, Seq::new(n, |i: int| render_atom(vals[i], ft)), limit);
        },
        _ => {},
    }
}

/// Collecting the summaries of a space only adds to what was collected
/// before: the summaries already there stay first, in their order.
pub proof fn law_collect_keeps_what_came_before(
    s: SpaceV,
    limit: nat,
    out: Seq<Seq<char>>,
    ft: spec_fn(u64) -> Seq<char>,
)
    ensures
        extends(out, collect(s, limit, out, ft)),
    decreases depth(s), 2nat, 0nat,
{
    if out.len() >= limit || spec_is_empty(s) {
    } else {
        match s {
            SpaceV::Union(items) => {
                lemma_collect_items_extends(items, limit, out, ft);
            },
            SpaceV::Prim(p) => {
                lemma_collect_prim_extends(p, limit, out, ft);
            },
            SpaceV::Tuple(items) => {
                match tuple_product(items, (limit - out.len()) as nat, ft) {
                    Some(ss) => {
                        lemma_push_all_extends(out, ss, limit);
                    },
                    None => {},
                }
            },
            SpaceV::ListAny(_) => {
                let o1 = push_unique_spec(out, "[]"@);
                assert(extends(out, o1));
                let o2 = if o1.len() < limit {
                    push_unique_spec(o1, "[_,.rest]"@)
                } else {
                    o1
                };
                assert(extends(o1, o2));
            },
            _ => {},
        }
    }
}

proof fn lemma_collect_items_extends(items: Seq<SpaceV>, limit: nat, out: Seq<Seq<char>>, ft: spec_fn(u64) -> Seq<char>)
    ensures
        extends(out, collect_items(items, limit, out, ft)),
    decreases depths(items) + 1, 1nat, items.len(),
{
    if items.len() > 0 {
        lemma_depths(items);
        let prefix = items.subrange(0, items.len() - 1);
        lemma_collect_items_extends(prefix, limit, out, ft);
        let mid = collect_items(prefix, limit, out, ft);
        law_collect_keeps_what_came_before(items[items.len() - 1], limit, mid, ft);
    }
}

} // verus!
