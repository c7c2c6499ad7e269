//! The meaning of match spaces: the values each admits. Against it, the
//! space operations are shown to do what coverage checking relies on:
//! normalization keeps the values, intersection keeps the shared ones, and
//! inclusion is never claimed where a value is missing.

use crate::atoms::{atom_pos, atoms_union_spec, kind_of, AtomV};
use crate::int_ranges::{
    all_valid, in_interval, interval_is_valid, in_ranges, lemma_cross, lemma_difference, lemma_in_ranges_concat, lemma_normalize,
    ranges_set, spec_cross, spec_difference, spec_normalize,
};
use crate::space::{
    depth, depths, first_mergeable, flatten, lemma_depths,
    lemma_seq_all_empty, lemma_seq_any_empty, merge_all, merge_into, merge_item, normalize_prim,
    normalize_seq, prim_is_empty, same_kind, seq_any_empty, spec_is_empty,
    spec_normalize_space, spec_prim_difference, spec_prim_intersection, spec_prim_union, PrimV,
    SpaceV,
};
use crate::space_ops::{
    all_subset, any_superset, cons_like_f, diff_each, diff_f, diff_fold, difference_terminates,
    intersect_each, is_list_v, list_diff_f, pairwise_subset, prod_state, product_f, product_row,
    spec_cons_space, spec_intersection, spec_list_intersection, spec_list_subset,
    spec_space_difference, spec_subset, zip_intersect,
};
use crate::refine::{field_position, refine_each, spec_refine, StepV};
use vstd::prelude::*;

verus! {

/// A value that a match scrutinee may hold.
pub enum Val {
    Bool(bool),
    Unit,
    Int(int),
    Lit(AtomV),
    Ctor(Seq<char>, Seq<char>, Seq<Val>),
    Rec(Seq<Seq<char>>, Seq<Val>),
    Tup(Seq<Val>),
    List(Seq<Val>),
    Opq(Seq<char>),
}

/// The values a primitive space admits. A literal must be of the space's
/// kind.
pub open spec fn prim_contains(p: PrimV, v: Val) -> bool {
    match p {
        PrimV::Bool(t, f) => match v {
            Val::Bool(b) => if b {
                t
            } else {
                f
            },
            _ => false,
        },
        PrimV::Unit(present) => present && v == Val::Unit,
        PrimV::Int(rs) => match v {
            Val::Int(x) => in_ranges(rs, x),
            _ => false,
        },
        PrimV::EqAny(k, excluded) => match v {
            Val::Lit(a) => kind_of(a) == k && !excluded.contains(a),
            _ => false,
        },
        PrimV::EqFinite(k, values) => match v {
            Val::Lit(a) => kind_of(a) == k && values.contains(a),
            _ => false,
        },
    }
}

/// The values a match space admits.
pub open spec fn contains(s: SpaceV, v: Val) -> bool
    decreases depth(s), 1nat, 0nat,
{
    match s {
        SpaceV::Empty => false,
        SpaceV::Prim(p) => prim_contains(p, v),
        SpaceV::Variant(o, n, fs) => match v {
            Val::Ctor(vo, vn, vs) => vo == o && vn == n && vs.len() == fs.len() && contain_prefix(
                fs,
                vs,
                fs.len(),
            ),
            _ => false,
        },
        SpaceV::Record(names, fs) => match v {
            Val::Rec(vnames, vs) => vnames == names && vs.len() == fs.len() && contain_prefix(
                fs,
                vs,
                fs.len(),
            ),
            _ => false,
        },
        SpaceV::Tuple(fs) => match v {
            Val::Tup(vs) => vs.len() == fs.len() && contain_prefix(fs, vs, fs.len()),
            _ => false,
        },
        SpaceV::ListNil => match v {
            Val::List(vs) => vs.len() == 0,
            _ => false,
        },
        SpaceV::ListAny(e) => match v {
            Val::List(vs) => all_in(*e, vs),
            _ => false,
        },
        SpaceV::ListCons(h, t) => match v {
            Val::List(vs) => vs.len() > 0 && contains(*h, vs[0]) && contains(
                *t,
                Val::List(vs.drop_first()),
            ),
            _ => false,
        },
        SpaceV::Union(items) => any_in(items, v, items.len()),
        SpaceV::Opaque(n) => v == Val::Opq(n),
    }
}

/// The first `k` spaces of `fs` each admit the value at their position.
pub open spec fn contain_prefix(fs: Seq<SpaceV>, vs: Seq<Val>, k: nat) -> bool
    decreases depths(fs) + 1, 0nat, k,
{
    if k == 0 || k > fs.len() || k > vs.len() {
        k == 0
    } else {
        proof {
            lemma_depths(fs);
        }
        contain_prefix(fs, vs, (k - 1) as nat) && contains(fs[k - 1], vs[k - 1])
    }
}

/// One of the first `k` spaces of `items` admits `v`.
pub open spec fn any_in(items: Seq<SpaceV>, v: Val, k: nat) -> bool
    decreases depths(items) + 1, 0nat, k,
{
    if k == 0 || k > items.len() {
        false
    } else {
        proof {
            lemma_depths(items);
        }
        any_in(items, v, (k - 1) as nat) || contains(items[k - 1], v)
    }
}

/// `e` admits every value of `vs`.
pub open spec fn all_in(e: SpaceV, vs: Seq<Val>) -> bool
    decreases depth(e) + 1, 0nat, vs.len(),
{
    if vs.len() == 0 {
        true
    } else {
        all_in(e, vs.drop_last()) && contains(e, vs.last())
    }
}

/// Each space of `fs` admits the value at the same position of `vs`, and
/// there are as many values as spaces.
pub open spec fn all_contain(fs: Seq<SpaceV>, vs: Seq<Val>) -> bool {
    vs.len() == fs.len() && forall|i: int| 0 <= i < fs.len() ==> #[trigger] contains(fs[i], vs[i])
}

/// One of the spaces of `items` admits `v`.
pub open spec fn any_contains(items: Seq<SpaceV>, v: Val) -> bool {
    exists|i: int| 0 <= i < items.len() && #[trigger] contains(items[i], v)
}

/// `e` admits every value of `vs`.
pub open spec fn every_contained(e: SpaceV, vs: Seq<Val>) -> bool {
    forall|i: int| 0 <= i < vs.len() ==> #[trigger] contains(e, vs[i])
}

proof fn lemma_contain_prefix(fs: Seq<SpaceV>, vs: Seq<Val>, k: nat)
    requires
        k <= fs.len(),
        k <= vs.len(),
    ensures
        contain_prefix(fs, vs, k) <==> forall|i: int| 0 <= i < k ==> #[trigger] contains(fs[i], vs[i]),
    decreases k,
{
    if k > 0 {
        lemma_contain_prefix(fs, vs, (k - 1) as nat);
        assert(contain_prefix(fs, vs, k) == (contain_prefix(fs, vs, (k - 1) as nat) && contains(fs[k - 1], vs[k - 1])));
        if contain_prefix(fs, vs, k) {
            assert forall|i: int| 0 <= i < k implies #[trigger] contains(fs[i], vs[i]) by {
                if i < k - 1 {
                    assert(contains(fs[i], vs[i]));
                }
            }
        }
        if forall|i: int| 0 <= i < k ==> #[trigger] contains(fs[i], vs[i]) {
            assert(contains(fs[k - 1], vs[k - 1]));
            assert(contain_prefix(fs, vs, (k - 1) as nat));
        }
    }
}

proof fn lemma_any_in(items: Seq<SpaceV>, v: Val, k: nat)
    requires
        k <= items.len(),
    ensures
        any_in(items, v, k) <==> exists|i: int| 0 <= i < k && #[trigger] contains(items[i], v),
    decreases k,
{
    if k > 0 {
        lemma_any_in(items, v, (k - 1) as nat);
        assert(any_in(items, v, k) == (any_in(items, v, (k - 1) as nat) || contains(items[k - 1], v)));
        if any_in(items, v, k) {
            if !contains(items[k - 1], v) {
                let i = choose|i: int| 0 <= i < k - 1 && #[trigger] contains(items[i], v);
                assert(contains(items[i], v));
            }
        }
        if exists|i: int| 0 <= i < k && #[trigger] contains(items[i], v) {
            let i = choose|i: int| 0 <= i < k && #[trigger] contains(items[i], v);
            if i < k - 1 {
                assert(any_in(items, v, (k - 1) as nat));
            }
        }
    }
}

proof fn lemma_all_in(e: SpaceV, vs: Seq<Val>)
    ensures
        all_in(e, vs) <==> every_contained(e, vs),
    decreases vs.len(),
{
    if vs.len() > 0 {
        let p = vs.drop_last();
        lemma_all_in(e, p);
        assert(all_in(e, vs) == (all_in(e, p) && contains(e, vs.last())));
        if every_contained(e, vs) {
            assert forall|i: int| 0 <= i < p.len() implies #[trigger] contains(e, p[i]) by {
                assert(p[i] == vs[i]);
            }
        }
        if all_in(e, vs) {
            assert forall|i: int| 0 <= i < vs.len() implies #[trigger] contains(e, vs[i]) by {
                if i < p.len() {
                    assert(p[i] == vs[i]);
                }
            }
        }
    }
}

/// What a product space admits, position by position.
pub proof fn lemma_contains_unfold(s: SpaceV, v: Val)
    ensures
        s matches SpaceV::Variant(o, n, fs) ==> (contains(s, v) <==> (v matches Val::Ctor(vo, vn, vs)
            && vo == o && vn == n && all_contain(fs, vs))),
        s matches SpaceV::Record(names, fs) ==> (contains(s, v) <==> (v matches Val::Rec(vnames, vs)
            && vnames == names && all_contain(fs, vs))),
        s matches SpaceV::Tuple(fs) ==> (contains(s, v) <==> (v matches Val::Tup(vs) && all_contain(
            fs,
            vs,
        ))),
        s matches SpaceV::Union(items) ==> (contains(s, v) <==> any_contains(items, v)),
        s matches SpaceV::ListAny(e) ==> (contains(s, v) <==> (v matches Val::List(vs)
            && every_contained(*e, vs))),
{
    match s {
        SpaceV::Variant(_, _, fs) => {
            if let Val::Ctor(_, _, vs) = v {
                if vs.len() == fs.len() {
                    lemma_contain_prefix(fs, vs, fs.len());
                }
            }
        },
        SpaceV::Record(_, fs) => {
            if let Val::Rec(_, vs) = v {
                if vs.len() == fs.len() {
                    lemma_contain_prefix(fs, vs, fs.len());
                }
            }
        },
        SpaceV::Tuple(fs) => {
            if let Val::Tup(vs) = v {
                if vs.len() == fs.len() {
                    lemma_contain_prefix(fs, vs, fs.len());
                }
            }
        },
        SpaceV::Union(items) => {
            lemma_any_in(items, v, items.len());
        },
        SpaceV::ListAny(e) => {
            if let Val::List(vs) = v {
                lemma_all_in(*e, vs);
            }
        },
        _ => {},
    }
}

// ---------------------------------------------------------------------------
// Emptiness
// ---------------------------------------------------------------------------

/// A space that the coverage checker finds empty admits no value.
pub proof fn law_empty_admits_nothing(s: SpaceV, v: Val)
    requires
        spec_is_empty(s),
    ensures
        !contains(s, v),
    decreases depth(s),
{
    lemma_contains_unfold(s, v);
    match s {
        SpaceV::Variant(_, _, fs) => {
            lemma_seq_any_empty(fs);
            let i = choose|i: int| 0 <= i < fs.len() && #[trigger] spec_is_empty(fs[i]);
            match v {
                Val::Ctor(_, _, vs) => {
                    if vs.len() == fs.len() {
                        lemma_depths(fs);
                        law_empty_admits_nothing(fs[i], vs[i]);
                    }
                },
                _ => {},
            }
        },
        SpaceV::Record(_, fs) => {
            lemma_seq_any_empty(fs);
            let i = choose|i: int| 0 <= i < fs.len() && #[trigger] spec_is_empty(fs[i]);
            if let Val::Rec(_, vs) = v {
                if vs.len() == fs.len() {
                    lemma_depths(fs);
                    law_empty_admits_nothing(fs[i], vs[i]);
                }
            }
        },
        SpaceV::Tuple(fs) => {
            lemma_seq_any_empty(fs);
            let i = choose|i: int| 0 <= i < fs.len() && #[trigger] spec_is_empty(fs[i]);
            if let Val::Tup(vs) = v {
                if vs.len() == fs.len() {
                    lemma_depths(fs);
                    law_empty_admits_nothing(fs[i], vs[i]);
                }
            }
        },
        SpaceV::ListCons(h, t) => {
            if let Val::List(vs) = v {
                if vs.len() > 0 {
                    if spec_is_empty(*h) {
                        law_empty_admits_nothing(*h, vs[0]);
                    } else {
                        law_empty_admits_nothing(*t, Val::List(vs.drop_first()));
                    }
                }
            }
        },
        SpaceV::Union(items) => {
            lemma_seq_all_empty(items);
            lemma_depths(items);
            assert forall|i: int| 0 <= i < items.len() implies !#[trigger] contains(items[i], v) by {
                assert(spec_is_empty(items[i]));
                law_empty_admits_nothing(items[i], v);
            }
        },
        _ => {},
    }
}

// ---------------------------------------------------------------------------
// Atoms
// ---------------------------------------------------------------------------

proof fn lemma_insert_contains<A>(s: Seq<A>, p: int, y: A, x: A)
    requires
        0 <= p <= s.len(),
    ensures
        s.insert(p, y).contains(x) <==> (s.contains(x) || x == y),
{
    let r = s.insert(p, y);
    if s.contains(x) {
        let i = choose|i: int| 0 <= i < s.len() && s[i] == x;
        if i < p {
            assert(r[i] == x);
        } else {
            assert(r[i + 1] == x);
        }
    }
    if x == y {
        assert(r[p] == y);
    }
    if r.contains(x) {
        let j = choose|j: int| 0 <= j < r.len() && r[j] == x;
        if j < p {
            assert(s[j] == x);
        } else if j > p {
            assert(s[j - 1] == x);
        }
    }
}

/// An atom is in the union of two lists of atoms exactly when it is in one
/// of them.
pub proof fn lemma_atoms_union_contains(a: Seq<AtomV>, b: Seq<AtomV>, x: AtomV)
    ensures
        atoms_union_spec(a, b).contains(x) <==> (a.contains(x) || b.contains(x)),
    decreases b.len(),
{
    if b.len() > 0 {
        let prefix = b.drop_last();
        lemma_atoms_union_contains(a, prefix, x);
        let u = atoms_union_spec(a, prefix);
        if !u.contains(b.last()) {
            crate::atoms::lemma_atom_pos(u, b.last());
            lemma_insert_contains(u, atom_pos(u, b.last()), b.last(), x);
        }
        if b.contains(x) {
            let i = choose|i: int| 0 <= i < b.len() && b[i] == x;
            if i < b.len() - 1 {
                assert(prefix[i] == x);
            }
        }
        if prefix.contains(x) {
            let i = choose|i: int| 0 <= i < prefix.len() && prefix[i] == x;
            assert(b[i] == x);
        }
    }
}

/// An element is kept by a filter exactly when it is in the list and
/// satisfies the predicate.
pub proof fn lemma_filter_contains<A>(s: Seq<A>, f: spec_fn(A) -> bool, x: A)
    ensures
        s.filter(f).contains(x) <==> (s.contains(x) && f(x)),
    decreases s.len(),
{
    reveal(Seq::filter);
    if s.len() > 0 {
        let prefix = s.drop_last();
        lemma_filter_contains(prefix, f, x);
        let fp = prefix.filter(f);
        assert(s.filter(f) == if f(s.last()) {
            fp.push(s.last())
        } else {
            fp
        });
        if s.contains(x) {
            let i = choose|i: int| 0 <= i < s.len() && s[i] == x;
            if i < s.len() - 1 {
                assert(prefix[i] == x);
            }
        }
        if prefix.contains(x) {
            let i = choose|i: int| 0 <= i < prefix.len() && prefix[i] == x;
            assert(s[i] == x);
        }
        if f(s.last()) {
            if fp.push(s.last()).contains(x) {
                let j = choose|j: int| 0 <= j < fp.push(s.last()).len() && fp.push(s.last())[j] == x;
                if j < fp.len() {
                    assert(fp[j] == x);
                }
            }
            if fp.contains(x) {
                let j = choose|j: int| 0 <= j < fp.len() && fp[j] == x;
                assert(fp.push(s.last())[j] == x);
            }
            if x == s.last() {
                assert(fp.push(s.last())[fp.len() as int] == x);
            }
        }
    } else {
        assert(s.filter(f) =~= Seq::<A>::empty());
    }
}

// ---------------------------------------------------------------------------
// Primitive spaces
// ---------------------------------------------------------------------------

proof fn lemma_in_normalized(s: Seq<crate::int_ranges::IntInterval>, x: int)
    ensures
        in_ranges(spec_normalize(s), x) <==> in_ranges(s, x),
{
    lemma_normalize(s);
    assert(ranges_set(spec_normalize(s)).contains(x) == in_ranges(spec_normalize(s), x));
    assert(ranges_set(s).contains(x) == in_ranges(s, x));
}

/// Dropping an empty primitive space keeps its values.
pub proof fn lemma_normalize_prim_meaning(p: PrimV, v: Val)
    ensures
        contains(normalize_prim(p), v) <==> prim_contains(p, v),
{
    if prim_is_empty(p) {
        match p {
            PrimV::Int(rs) => {
                if let Val::Int(x) = v {
                    assert(!in_ranges(rs, x));
                }
            },
            PrimV::EqFinite(_, vals) => {
                if let Val::Lit(a) = v {
                    assert(!vals.contains(a));
                }
            },
            _ => {},
        }
    }
}

/// The union of two primitive spaces of one kind admits the values of
/// either.
pub proof fn lemma_prim_union_meaning(a: PrimV, b: PrimV, v: Val)
    requires
        same_kind(a, b),
    ensures
        prim_contains(spec_prim_union(a, b), v) <==> (prim_contains(a, v) || prim_contains(b, v)),
{
    match (a, b) {
        (PrimV::Int(x), PrimV::Int(y)) => {
            if let Val::Int(n) = v {
                lemma_in_normalized(x + y, n);
                lemma_in_ranges_concat(x, y);
            }
        },
        (PrimV::EqFinite(k, x), PrimV::EqFinite(_, y)) => {
            if let Val::Lit(t) = v {
                lemma_atoms_union_contains(x, y, t);
            }
        },
        (PrimV::EqAny(k, x), PrimV::EqAny(_, y)) => {
            if let Val::Lit(t) = v {
                lemma_filter_contains(x, |q: AtomV| y.contains(q), t);
            }
        },
        (PrimV::EqAny(k, ex), PrimV::EqFinite(_, vals)) => {
            if let Val::Lit(t) = v {
                lemma_filter_contains(ex, |q: AtomV| !vals.contains(q), t);
            }
        },
        (PrimV::EqFinite(_, vals), PrimV::EqAny(k, ex)) => {
            if let Val::Lit(t) = v {
                lemma_filter_contains(ex, |q: AtomV| !vals.contains(q), t);
            }
        },
        _ => {},
    }
}

/// The intersection of two primitive spaces admits the values of both.
pub proof fn lemma_prim_intersection_meaning(a: PrimV, b: PrimV, v: Val)
    ensures
        contains(spec_prim_intersection(a, b), v) <==> (prim_contains(a, v) && prim_contains(b, v)),
{
    if same_kind(a, b) {
        match (a, b) {
            (PrimV::Bool(lt, lf), PrimV::Bool(rt, rf)) => {
                lemma_normalize_prim_meaning(PrimV::Bool(lt && rt, lf && rf), v);
            },
            (PrimV::Unit(x), PrimV::Unit(y)) => {
                lemma_normalize_prim_meaning(PrimV::Unit(x && y), v);
            },
            (PrimV::Int(x), PrimV::Int(y)) => {
                lemma_normalize_prim_meaning(PrimV::Int(spec_normalize(spec_cross(x, y))), v);
                if let Val::Int(n) = v {
                    lemma_in_normalized(spec_cross(x, y), n);
                    lemma_cross(x, y);
                }
            },
            (PrimV::EqFinite(k, x), PrimV::EqFinite(_, y)) => {
                let r = PrimV::EqFinite(k, x.filter(|q: AtomV| y.contains(q)));
                lemma_normalize_prim_meaning(r, v);
                if let Val::Lit(t) = v {
                    lemma_filter_contains(x, |q: AtomV| y.contains(q), t);
                }
            },
            (PrimV::EqAny(k, ex), PrimV::EqFinite(_, vals)) => {
                let r = PrimV::EqFinite(k, vals.filter(|q: AtomV| !ex.contains(q)));
                lemma_normalize_prim_meaning(r, v);
                if let Val::Lit(t) = v {
                    lemma_filter_contains(vals, |q: AtomV| !ex.contains(q), t);
                }
            },
            (PrimV::EqFinite(_, vals), PrimV::EqAny(k, ex)) => {
                let r = PrimV::EqFinite(k, vals.filter(|q: AtomV| !ex.contains(q)));
                lemma_normalize_prim_meaning(r, v);
                if let Val::Lit(t) = v {
                    lemma_filter_contains(vals, |q: AtomV| !ex.contains(q), t);
                }
            },
            (PrimV::EqAny(k, x), PrimV::EqAny(_, y)) => {
                let r = PrimV::EqAny(k, atoms_union_spec(x, y));
                lemma_normalize_prim_meaning(r, v);
                if let Val::Lit(t) = v {
                    lemma_atoms_union_contains(x, y, t);
                }
            },
            _ => {},
        }
    }
}

/// What two primitive spaces differ by includes every value of the first
/// that the second lacks.
pub proof fn lemma_prim_difference_covers(a: PrimV, b: PrimV, v: Val)
    requires
        prim_contains(a, v),
        !prim_contains(b, v),
    ensures
        contains(spec_prim_difference(a, b), v),
{
    if same_kind(a, b) {
        match (a, b) {
            (PrimV::Bool(lt, lf), PrimV::Bool(rt, rf)) => {
                lemma_normalize_prim_meaning(PrimV::Bool(lt && !rt, lf && !rf), v);
            },
            (PrimV::Unit(x), PrimV::Unit(y)) => {
                lemma_normalize_prim_meaning(PrimV::Unit(x && !y), v);
            },
            (PrimV::Int(x), PrimV::Int(y)) => {
                lemma_normalize_prim_meaning(PrimV::Int(spec_difference(x, y)), v);
                if let Val::Int(n) = v {
                    lemma_difference(x, y);
                    assert(ranges_set(x).contains(n));
                    assert(!ranges_set(y).contains(n));
                    assert(ranges_set(spec_difference(x, y)).contains(n));
                }
            },
            (PrimV::EqFinite(k, x), PrimV::EqFinite(_, y)) => {
                let r = PrimV::EqFinite(k, x.filter(|q: AtomV| !y.contains(q)));
                lemma_normalize_prim_meaning(r, v);
                if let Val::Lit(t) = v {
                    lemma_filter_contains(x, |q: AtomV| !y.contains(q), t);
                }
            },
            (PrimV::EqFinite(k, x), PrimV::EqAny(_, ex)) => {
                let r = PrimV::EqFinite(k, x.filter(|q: AtomV| ex.contains(q)));
                lemma_normalize_prim_meaning(r, v);
                if let Val::Lit(t) = v {
                    lemma_filter_contains(x, |q: AtomV| ex.contains(q), t);
                }
            },
            (PrimV::EqAny(k, x), PrimV::EqFinite(_, vals)) => {
                let r = PrimV::EqAny(k, atoms_union_spec(x, vals));
                lemma_normalize_prim_meaning(r, v);
                if let Val::Lit(t) = v {
                    lemma_atoms_union_contains(x, vals, t);
                }
            },
            (PrimV::EqAny(k, x), PrimV::EqAny(_, y)) => {
                let r = PrimV::EqFinite(k, y.filter(|q: AtomV| !x.contains(q)));
                lemma_normalize_prim_meaning(r, v);
                if let Val::Lit(t) = v {
                    lemma_filter_contains(y, |q: AtomV| !x.contains(q), t);
                }
            },
            _ => {},
        }
    }
}

// ---------------------------------------------------------------------------
// Normalization
// ---------------------------------------------------------------------------

/// Normalization keeps exactly the values of a space.
pub proof fn law_normalize_keeps_values(s: SpaceV, v: Val)
    ensures
        contains(spec_normalize_space(s), v) <==> contains(s, v),
    decreases depth(s), 1nat, 0nat,
{
    reveal(spec_normalize_space);
    lemma_contains_unfold(s, v);
    let n = spec_normalize_space(s);
    lemma_contains_unfold(n, v);
    match s {
        SpaceV::Prim(p) => {
            lemma_normalize_prim_meaning(p, v);
            assert(contains(n, v) == contains(s, v));
        },
        SpaceV::Variant(o, nm, fs) => {
            lemma_normalize_fields(fs);
            let nf = normalize_seq(fs);
            if let Val::Ctor(_, _, vs) = v {
                lemma_fields_meaning(fs, nf, vs);
            }
            assert(contains(n, v) == contains(s, v));
        },
        SpaceV::Record(names, fs) => {
            lemma_normalize_fields(fs);
            let nf = normalize_seq(fs);
            if let Val::Rec(_, vs) = v {
                lemma_fields_meaning(fs, nf, vs);
            }
        },
        SpaceV::Tuple(fs) => {
            lemma_normalize_fields(fs);
            let nf = normalize_seq(fs);
            if let Val::Tup(vs) = v {
                lemma_fields_meaning(fs, nf, vs);
            }
            assert(contains(n, v) == contains(s, v));
        },
        SpaceV::ListAny(e) => {
            let ne = spec_normalize_space(*e);
            if let Val::List(vs) = v {
                assert forall|i: int| 0 <= i < vs.len() implies #[trigger] contains(ne, vs[i]) == contains(*e, vs[i]) by {
                    law_normalize_keeps_values(*e, vs[i]);
                }
                if spec_is_empty(ne) {
                    if vs.len() > 0 {
                        law_empty_admits_nothing(ne, vs[0]);
                        assert(!contains(*e, vs[0]));
                    }
                } else {
                    lemma_contains_unfold(SpaceV::ListAny(Box::new(ne)), v);
                    if every_contained(ne, vs) {
                        assert forall|i: int| 0 <= i < vs.len() implies #[trigger] contains(*e, vs[i]) by {
                            assert(contains(ne, vs[i]));
                        }
                    }
                    if every_contained(*e, vs) {
                        assert forall|i: int| 0 <= i < vs.len() implies #[trigger] contains(ne, vs[i]) by {
                            assert(contains(*e, vs[i]));
                        }
                    }
                }
            }
            assert(contains(n, v) == contains(s, v));
        },
        SpaceV::ListCons(h, t) => {
            let nh = spec_normalize_space(*h);
            let nt = spec_normalize_space(*t);
            if let Val::List(vs) = v {
                if vs.len() > 0 {
                    law_normalize_keeps_values(*h, vs[0]);
                    law_normalize_keeps_values(*t, Val::List(vs.drop_first()));
                    if spec_is_empty(nh) {
                        law_empty_admits_nothing(nh, vs[0]);
                    }
                    if spec_is_empty(nt) {
                        law_empty_admits_nothing(nt, Val::List(vs.drop_first()));
                    }
                }
            }
        },
        SpaceV::Union(items) => {
            lemma_flatten_meaning(items, v);
            lemma_merge_all_meaning(flatten(items), v);
            let m = merge_all(flatten(items));
            if m.len() == 1 {
                if any_contains(m, v) {
                    let i = choose|i: int| 0 <= i < m.len() && #[trigger] contains(m[i], v);
                    assert(i == 0);
                }
                if contains(m[0], v) {
                    assert(any_contains(m, v));
                }
            }
            assert(contains(n, v) == contains(s, v));
        },
        _ => {},
    }
}

proof fn lemma_normalize_fields(fs: Seq<SpaceV>)
    ensures
        normalize_seq(fs).len() == fs.len(),
        forall|i: int| 0 <= i < fs.len() ==> #[trigger] normalize_seq(fs)[i] == spec_normalize_space(fs[i]),
{
    reveal(spec_normalize_space);
}

/// Fields normalized one by one admit the same values, and a product with
/// an empty normalized field admits nothing.
proof fn lemma_fields_meaning(fs: Seq<SpaceV>, nf: Seq<SpaceV>, vs: Seq<Val>)
    requires
        nf == normalize_seq(fs),
    ensures
        all_contain(nf, vs) <==> all_contain(fs, vs),
        seq_any_empty(nf) ==> !all_contain(fs, vs),
    decreases depths(fs) + 1, 0nat, 0nat,
{
    lemma_normalize_fields(fs);
    lemma_depths(fs);
    if vs.len() == fs.len() {
        assert forall|i: int| 0 <= i < fs.len() implies #[trigger] contains(nf[i], vs[i]) == contains(fs[i], vs[i]) by {
            law_normalize_keeps_values(fs[i], vs[i]);
        }
        if all_contain(fs, vs) {
            assert forall|i: int| 0 <= i < nf.len() implies #[trigger] contains(nf[i], vs[i]) by {
                assert(contains(fs[i], vs[i]));
            }
        }
        if all_contain(nf, vs) {
            assert forall|i: int| 0 <= i < fs.len() implies #[trigger] contains(fs[i], vs[i]) by {
                assert(contains(nf[i], vs[i]));
            }
        }
        if seq_any_empty(nf) {
            lemma_seq_any_empty(nf);
            let i = choose|i: int| 0 <= i < nf.len() && #[trigger] spec_is_empty(nf[i]);
            law_empty_admits_nothing(nf[i], vs[i]);
        }
    }
}

/// The flattened members of a union admit the values of the members given.
proof fn lemma_flatten_meaning(items: Seq<SpaceV>, v: Val)
    ensures
        any_contains(flatten(items), v) <==> any_contains(items, v),
    decreases depths(items) + 1, 0nat, items.len(),
{
    reveal(spec_normalize_space);
    if items.len() > 0 {
        let prefix = items.subrange(0, items.len() - 1);
        let last = items[items.len() - 1];
        lemma_depths(items);
        lemma_flatten_meaning(prefix, v);
        law_normalize_keeps_values(last, v);
        let n = spec_normalize_space(last);
        let prev = flatten(prefix);
        lemma_contains_unfold(n, v);
        assert(flatten(items) == (match n {
            SpaceV::Empty => prev,
            SpaceV::Union(nested) => prev + nested,
            _ => prev.push(n),
        }));
        lemma_any_split(prefix, last, v);
        assert(prefix.push(last) =~= items);
        match n {
            SpaceV::Union(nested) => {
                lemma_any_concat(prev, nested, v);
            },
            SpaceV::Empty => {},
            _ => {
                lemma_any_split(prev, n, v);
                assert(prev.push(n).subrange(0, prev.len() as int) =~= prev);
            },
        }
    }
}

proof fn lemma_any_split(prefix: Seq<SpaceV>, last: SpaceV, v: Val)
    ensures
        any_contains(prefix.push(last), v) <==> (any_contains(prefix, v) || contains(last, v)),
{
    let s = prefix.push(last);
    if any_contains(s, v) {
        let i = choose|i: int| 0 <= i < s.len() && #[trigger] contains(s[i], v);
        if i < prefix.len() {
            assert(prefix[i] == s[i]);
        }
    }
    if any_contains(prefix, v) {
        let i = choose|i: int| 0 <= i < prefix.len() && #[trigger] contains(prefix[i], v);
        assert(s[i] == prefix[i]);
    }
    if contains(last, v) {
        assert(s[prefix.len() as int] == last);
    }
}

proof fn lemma_any_concat(a: Seq<SpaceV>, b: Seq<SpaceV>, v: Val)
    ensures
        any_contains(a + b, v) <==> (any_contains(a, v) || any_contains(b, v)),
{
    let s = a + b;
    if any_contains(s, v) {
        let i = choose|i: int| 0 <= i < s.len() && #[trigger] contains(s[i], v);
        if i < a.len() {
            assert(a[i] == s[i]);
        } else {
            assert(b[i - a.len()] == s[i]);
        }
    }
    if any_contains(a, v) {
        let i = choose|i: int| 0 <= i < a.len() && #[trigger] contains(a[i], v);
        assert(s[i] == a[i]);
    }
    if any_contains(b, v) {
        let i = choose|i: int| 0 <= i < b.len() && #[trigger] contains(b[i], v);
        assert(s[a.len() + i] == b[i]);
    }
}

/// Merging the members of a union keeps the values they admit.
proof fn lemma_merge_all_meaning(items: Seq<SpaceV>, v: Val)
    ensures
        any_contains(merge_all(items), v) <==> any_contains(items, v),
    decreases items.len(),
{
    if items.len() > 0 {
        let prefix = items.drop_last();
        let item = items.last();
        lemma_merge_all_meaning(prefix, v);
        let m = merge_all(prefix);
        lemma_any_split(prefix, item, v);
        assert(prefix.push(item) =~= items);
        let k = first_mergeable(m, item);
        crate::space::lemma_first_mergeable(m, item);
        let r = merge_into(m, item);
        if k < m.len() {
            let merged = merge_item(m[k], item);
            if let (SpaceV::Prim(a), SpaceV::Prim(b)) = (m[k], item) {
                lemma_normalize_prim_meaning(spec_prim_union(a, b), v);
                lemma_prim_union_meaning(a, b, v);
            }
            assert(contains(merged, v) <==> (contains(m[k], v) || contains(item, v)));
            if any_contains(r, v) {
                let i = choose|i: int| 0 <= i < r.len() && #[trigger] contains(r[i], v);
                if i != k {
                    assert(r[i] == m[i]);
                }
            }
            if any_contains(m, v) {
                let i = choose|i: int| 0 <= i < m.len() && #[trigger] contains(m[i], v);
                if i != k {
                    assert(r[i] == m[i]);
                } else {
                    assert(contains(r[k], v));
                }
            }
            if contains(item, v) {
                assert(contains(r[k], v));
            }
        } else if m.contains(item) {
            if contains(item, v) {
                let i = choose|i: int| 0 <= i < m.len() && m[i] == item;
                assert(contains(m[i], v));
            }
        } else {
            lemma_any_split(m, item, v);
        }
    }
}

// ---------------------------------------------------------------------------
// Intersection
// ---------------------------------------------------------------------------

/// A list of values lies in `e` exactly when its first value does and the
/// rest of it does.
pub proof fn lemma_every_split(e: SpaceV, vs: Seq<Val>)
    requires
        vs.len() > 0,
    ensures
        every_contained(e, vs) <==> (contains(e, vs[0]) && every_contained(e, vs.drop_first())),
{
    let t = vs.drop_first();
    if every_contained(e, vs) {
        assert forall|i: int| 0 <= i < t.len() implies #[trigger] contains(e, t[i]) by {
            assert(t[i] == vs[i + 1]);
        }
    }
    if contains(e, vs[0]) && every_contained(e, t) {
        assert forall|i: int| 0 <= i < vs.len() implies #[trigger] contains(e, vs[i]) by {
            if i > 0 {
                assert(vs[i] == t[i - 1]);
            }
        }
    }
}

proof fn lemma_zip_meaning(a: Seq<SpaceV>, b: Seq<SpaceV>, vs: Seq<Val>)
    requires
        a.len() == b.len(),
    ensures
        all_contain(zip_intersect(a, b), vs) <==> (all_contain(a, vs) && all_contain(b, vs)),
    decreases depths(a) + depths(b) + 2, 0nat,
{
    let z = zip_intersect(a, b);
    lemma_depths(a);
    lemma_depths(b);
    assert(z.len() == a.len());
    if vs.len() == a.len() {
        assert forall|i: int| 0 <= i < a.len() implies #[trigger] contains(z[i], vs[i]) == (contains(a[i], vs[i]) && contains(b[i], vs[i])) by {
            assert(z[i] == spec_intersection(a[i], b[i]));
            law_intersection_keeps_shared_values(a[i], b[i], vs[i]);
        }
        if all_contain(z, vs) {
            assert forall|i: int| 0 <= i < a.len() implies #[trigger] contains(a[i], vs[i]) by {
                assert(contains(z[i], vs[i]));
            }
            assert forall|i: int| 0 <= i < b.len() implies #[trigger] contains(b[i], vs[i]) by {
                assert(contains(z[i], vs[i]));
            }
        }
        if all_contain(a, vs) && all_contain(b, vs) {
            assert forall|i: int| 0 <= i < z.len() implies #[trigger] contains(z[i], vs[i]) by {
                assert(contains(a[i], vs[i]));
                assert(contains(b[i], vs[i]));
            }
        }
    }
}

proof fn lemma_each_meaning(items: Seq<SpaceV>, other: SpaceV, v: Val)
    ensures
        any_contains(intersect_each(items, other), v) <==> (any_contains(items, v) && contains(
            other,
            v,
        )),
    decreases depths(items) + depth(other) + 1, 0nat,
{
    let each = intersect_each(items, other);
    lemma_depths(items);
    assert forall|i: int| 0 <= i < items.len() implies #[trigger] contains(each[i], v) == (contains(items[i], v) && contains(other, v)) by {
        assert(each[i] == spec_intersection(items[i], other));
        law_intersection_keeps_shared_values(items[i], other, v);
    }
    if any_contains(each, v) {
        let i = choose|i: int| 0 <= i < each.len() && #[trigger] contains(each[i], v);
        assert(contains(items[i], v));
    }
    if any_contains(items, v) && contains(other, v) {
        let i = choose|i: int| 0 <= i < items.len() && #[trigger] contains(items[i], v);
        assert(contains(each[i], v));
    }
}

/// The intersection of two spaces admits exactly the values that both
/// admit.
pub proof fn law_intersection_keeps_shared_values(l: SpaceV, r: SpaceV, v: Val)
    ensures
        contains(spec_intersection(l, r), v) <==> (contains(l, v) && contains(r, v)),
    decreases depth(l) + depth(r), 1nat,
{
    lemma_contains_unfold(l, v);
    lemma_contains_unfold(r, v);
    let result = spec_intersection(l, r);
    match (l, r) {
        (SpaceV::Empty, _) => {},
        (_, SpaceV::Empty) => {},
        (SpaceV::Union(items), _) => {
            let u = SpaceV::Union(intersect_each(items, r));
            law_normalize_keeps_values(u, v);
            lemma_contains_unfold(u, v);
            lemma_each_meaning(items, r, v);
        },
        (_, SpaceV::Union(items)) => {
            let u = SpaceV::Union(intersect_each(items, l));
            law_normalize_keeps_values(u, v);
            lemma_contains_unfold(u, v);
            lemma_each_meaning(items, l, v);
        },
        (SpaceV::Prim(a), SpaceV::Prim(b)) => {
            lemma_prim_intersection_meaning(a, b, v);
        },
        (SpaceV::Variant(lo, ln, lf), SpaceV::Variant(ro, rn, rf)) => {
            if lo == ro && ln == rn && lf.len() == rf.len() {
                let z = SpaceV::Variant(lo, ln, zip_intersect(lf, rf));
                law_normalize_keeps_values(z, v);
                lemma_contains_unfold(z, v);
                if let Val::Ctor(_, _, vs) = v {
                    lemma_zip_meaning(lf, rf, vs);
                }
            }
        },
        (SpaceV::Record(lnames, lf), SpaceV::Record(rnames, rf)) => {
            if lf.len() == rf.len() && lnames == rnames {
                let z = SpaceV::Record(lnames, zip_intersect(lf, rf));
                law_normalize_keeps_values(z, v);
                lemma_contains_unfold(z, v);
                if let Val::Rec(_, vs) = v {
                    lemma_zip_meaning(lf, rf, vs);
                }
            }
        },
        (SpaceV::Tuple(lf), SpaceV::Tuple(rf)) => {
            if lf.len() == rf.len() {
                let z = SpaceV::Tuple(zip_intersect(lf, rf));
                law_normalize_keeps_values(z, v);
                lemma_contains_unfold(z, v);
                if let Val::Tup(vs) = v {
                    lemma_zip_meaning(lf, rf, vs);
                }
            }
        },
        (SpaceV::Opaque(_), SpaceV::Opaque(_)) => {},
        _ => {
            if is_list_v(l) && is_list_v(r) {
                let li = spec_list_intersection(l, r);
                law_normalize_keeps_values(li, v);
                lemma_contains_unfold(li, v);
                lemma_list_intersection_meaning(l, r, v);
            }
        },
    }
}

proof fn lemma_list_intersection_meaning(l: SpaceV, r: SpaceV, v: Val)
    requires
        is_list_v(l),
        is_list_v(r),
    ensures
        contains(spec_list_intersection(l, r), v) <==> (contains(l, v) && contains(r, v)),
    decreases depth(l) + depth(r), 0nat,
{
    lemma_contains_unfold(l, v);
    lemma_contains_unfold(r, v);
    let li = spec_list_intersection(l, r);
    lemma_contains_unfold(li, v);
    match v {
        Val::List(vs) => {
            match (l, r) {
                (SpaceV::ListAny(a), SpaceV::ListAny(b)) => {
                    assert forall|i: int| 0 <= i < vs.len() implies #[trigger] contains(spec_intersection(*a, *b), vs[i]) == (contains(*a, vs[i]) && contains(*b, vs[i])) by {
                        law_intersection_keeps_shared_values(*a, *b, vs[i]);
                    }
                    let ab = spec_intersection(*a, *b);
                    if every_contained(ab, vs) {
                        assert forall|i: int| 0 <= i < vs.len() implies #[trigger] contains(*a, vs[i]) by {
                            assert(contains(ab, vs[i]));
                        }
                        assert forall|i: int| 0 <= i < vs.len() implies #[trigger] contains(*b, vs[i]) by {
                            assert(contains(ab, vs[i]));
                        }
                    }
                    if every_contained(*a, vs) && every_contained(*b, vs) {
                        assert forall|i: int| 0 <= i < vs.len() implies #[trigger] contains(ab, vs[i]) by {
                            assert(contains(*a, vs[i]));
                            assert(contains(*b, vs[i]));
                        }
                    }
                },
                (SpaceV::ListAny(e), SpaceV::ListCons(h, t)) => {
                    if vs.len() > 0 {
                        lemma_every_split(*e, vs);
                        law_intersection_keeps_shared_values(*e, *h, vs[0]);
                        let tail = Val::List(vs.drop_first());
                        law_intersection_keeps_shared_values(SpaceV::ListAny(e), *t, tail);
                        lemma_contains_unfold(SpaceV::ListAny(e), tail);
                    }
                },
                (SpaceV::ListCons(h, t), SpaceV::ListAny(e)) => {
                    if vs.len() > 0 {
                        lemma_every_split(*e, vs);
                        law_intersection_keeps_shared_values(*e, *h, vs[0]);
                        let tail = Val::List(vs.drop_first());
                        law_intersection_keeps_shared_values(SpaceV::ListAny(e), *t, tail);
                        lemma_contains_unfold(SpaceV::ListAny(e), tail);
                    }
                },
                (SpaceV::ListCons(lh, lt), SpaceV::ListCons(rh, rt)) => {
                    if vs.len() > 0 {
                        law_intersection_keeps_shared_values(*lh, *rh, vs[0]);
                        law_intersection_keeps_shared_values(*lt, *rt, Val::List(vs.drop_first()));
                    }
                },
                (SpaceV::ListNil, SpaceV::ListCons(_, _)) => {
                    if vs.len() > 0 {
                        assert(!contains(SpaceV::Empty, vs[0]));
                    }
                },
                (SpaceV::ListCons(_, _), SpaceV::ListNil) => {
                    if vs.len() > 0 {
                        assert(!contains(SpaceV::Empty, vs[0]));
                    }
                },
                _ => {},
            }
        },
        _ => {},
    }
}

// ---------------------------------------------------------------------------
// Inclusion
// ---------------------------------------------------------------------------

/// When the coverage checker finds `l` inside `r`, every value of `l` is a
/// value of `r`.
pub proof fn law_subset_is_sound(l: SpaceV, r: SpaceV, v: Val)
    requires
        spec_subset(l, r),
        contains(l, v),
    ensures
        contains(r, v),
    decreases depth(l) + depth(r), 3nat, 0nat,
{
    lemma_contains_unfold(l, v);
    lemma_contains_unfold(r, v);
    if l != r {
        match (l, r) {
            (SpaceV::Empty, _) => {},
            (SpaceV::Union(items), _) => {
                let i = choose|i: int| 0 <= i < items.len() && #[trigger] contains(items[i], v);
                lemma_all_subset_sound(items, r, items.len(), v, i);
            },
            (_, SpaceV::Union(items)) => {
                lemma_any_superset_sound(l, items, items.len(), v);
            },
            (SpaceV::Prim(a), SpaceV::Prim(b)) => {
                if !prim_contains(b, v) {
                    lemma_prim_difference_covers(a, b, v);
                    law_empty_admits_nothing(spec_prim_difference(a, b), v);
                }
            },
            (SpaceV::Variant(_, _, lf), SpaceV::Variant(_, _, rf)) => {
                if let Val::Ctor(_, _, vs) = v {
                    lemma_pairwise_sound(lf, rf, lf.len(), vs);
                }
            },
            (SpaceV::Record(_, lf), SpaceV::Record(_, rf)) => {
                if let Val::Rec(_, vs) = v {
                    lemma_pairwise_sound(lf, rf, lf.len(), vs);
                }
            },
            (SpaceV::Tuple(lf), SpaceV::Tuple(rf)) => {
                if let Val::Tup(vs) = v {
                    lemma_pairwise_sound(lf, rf, lf.len(), vs);
                }
            },
            (SpaceV::Opaque(_), SpaceV::Opaque(_)) => {},
            _ => {
                lemma_list_subset_sound(l, r, v);
            },
        }
    }
}

proof fn lemma_pairwise_sound(a: Seq<SpaceV>, b: Seq<SpaceV>, n: nat, vs: Seq<Val>)
    requires
        pairwise_subset(a, b, n),
        n == a.len(),
        n == b.len(),
        all_contain(a, vs),
    ensures
        all_contain(b, vs),
    decreases depths(a) + depths(b) + 2, 2nat, n,
{
    lemma_pairwise_prefix(a, b, n, vs, n);
}

proof fn lemma_pairwise_prefix(a: Seq<SpaceV>, b: Seq<SpaceV>, n: nat, vs: Seq<Val>, k: nat)
    requires
        pairwise_subset(a, b, k),
        k <= n,
        n == a.len(),
        n == b.len(),
        all_contain(a, vs),
    ensures
        forall|i: int| 0 <= i < k ==> #[trigger] contains(b[i], vs[i]),
    decreases depths(a) + depths(b) + 2, 1nat, k,
{
    if k > 0 {
        lemma_depths(a);
        lemma_depths(b);
        assert(pairwise_subset(a, b, k) == (pairwise_subset(a, b, (k - 1) as nat) && spec_subset(a[k - 1], b[k - 1])));
        lemma_pairwise_prefix(a, b, n, vs, (k - 1) as nat);
        assert(contains(a[k - 1], vs[k - 1]));
        law_subset_is_sound(a[k - 1], b[k - 1], vs[k - 1]);
    }
}

proof fn lemma_all_subset_sound(items: Seq<SpaceV>, r: SpaceV, n: nat, v: Val, i: int)
    requires
        all_subset(items, r, n),
        n <= items.len(),
        0 <= i < n,
        contains(items[i], v),
    ensures
        contains(r, v),
    decreases depths(items) + depth(r) + 1, 2nat, n,
{
    lemma_depths(items);
    assert(all_subset(items, r, n) == (all_subset(items, r, (n - 1) as nat) && spec_subset(items[n - 1], r)));
    if i == n - 1 {
        law_subset_is_sound(items[i], r, v);
    } else {
        lemma_all_subset_sound(items, r, (n - 1) as nat, v, i);
    }
}

proof fn lemma_any_superset_sound(l: SpaceV, items: Seq<SpaceV>, n: nat, v: Val)
    requires
        any_superset(l, items, n),
        n <= items.len(),
        contains(l, v),
    ensures
        any_contains(items, v),
    decreases depths(items) + depth(l) + 1, 2nat, n,
{
    lemma_depths(items);
    assert(any_superset(l, items, n) == (any_superset(l, items, (n - 1) as nat) || spec_subset(l, items[n - 1])));
    if spec_subset(l, items[n - 1]) {
        law_subset_is_sound(l, items[n - 1], v);
        assert(contains(items[n - 1], v));
    } else {
        lemma_any_superset_sound(l, items, (n - 1) as nat, v);
    }
}

proof fn lemma_list_subset_sound(l: SpaceV, r: SpaceV, v: Val)
    requires
        is_list_v(l),
        is_list_v(r),
        spec_list_subset(l, r),
        contains(l, v),
    ensures
        contains(r, v),
    decreases depth(l) + depth(r), 1nat, 0nat,
{
    lemma_contains_unfold(l, v);
    lemma_contains_unfold(r, v);
    if let Val::List(vs) = v {
        match (l, r) {
            (SpaceV::ListAny(a), SpaceV::ListAny(b)) => {
                assert forall|i: int| 0 <= i < vs.len() implies #[trigger] contains(*b, vs[i]) by {
                    assert(contains(*a, vs[i]));
                    law_subset_is_sound(*a, *b, vs[i]);
                }
            },
            (SpaceV::ListCons(h, t), SpaceV::ListAny(e)) => {
                let tail = Val::List(vs.drop_first());
                law_subset_is_sound(*h, *e, vs[0]);
                law_subset_is_sound(*t, SpaceV::ListAny(e), tail);
                lemma_contains_unfold(SpaceV::ListAny(e), tail);
                lemma_every_split(*e, vs);
            },
            (SpaceV::ListCons(lh, lt), SpaceV::ListCons(rh, rt)) => {
                law_subset_is_sound(*lh, *rh, vs[0]);
                law_subset_is_sound(*lt, *rt, Val::List(vs.drop_first()));
            },
            _ => {},
        }
    }
}

// ---------------------------------------------------------------------------
// Difference
// ---------------------------------------------------------------------------

/// One of the rows admits the values position by position.
pub open spec fn some_row_holds(rows: Seq<Seq<SpaceV>>, vs: Seq<Val>) -> bool {
    exists|i: int| 0 <= i < rows.len() && #[trigger] all_contain(rows[i], vs)
}

/// After `k` fields of the product difference, either a row found admits
/// the values, or every field so far admits its value in both products and
/// the walk goes on.
pub open spec fn prod_claim(base: Seq<SpaceV>, remove: Seq<SpaceV>, f: nat, k: nat, vs: Seq<Val>) -> bool {
    let st = prod_state(base, remove, f, k)->0;
    some_row_holds(st.0, vs) || (!st.2 && st.1.len() == k && forall|j: int|
        0 <= j < k ==> #[trigger] contains(remove[j], vs[j]) && contains(st.1[j], vs[j]))
}

#[verifier::spinoff_prover]
proof fn lemma_prod_covers(base: Seq<SpaceV>, remove: Seq<SpaceV>, f: nat, k: nat, vs: Seq<Val>)
    requires
        base.len() == remove.len(),
        k <= base.len(),
        all_contain(base, vs),
        prod_state(base, remove, f, k) is Some,
    ensures
        prod_claim(base, remove, f, k, vs),
    decreases f, 2nat, k,
{
    if k == 0 {
        assert(prod_state(base, remove, f, 0) == Some((Seq::<Seq<SpaceV>>::empty(), Seq::<SpaceV>::empty(), false)));
        let (res0, pre0, stopped0) = prod_state(base, remove, f, 0)->0;
        assert(!stopped0 && pre0.len() == 0);
        assert(prod_claim(base, remove, f, k, vs));
    } else {
        lemma_prod_covers(base, remove, f, (k - 1) as nat, vs);
        let (res, pre, stopped) = prod_state(base, remove, f, (k - 1) as nat)->0;
        let (res2, pre2, stopped2) = prod_state(base, remove, f, k)->0;
        if stopped {
            assert(prod_state(base, remove, f, k) == Some((res, pre, true)));
            assert(res2 == res);
            assert(some_row_holds(res, vs));
            assert(prod_claim(base, remove, f, k, vs));
        } else {
            let i = k - 1;
            assert(diff_f(base[i], remove[i], f) is Some);
            let d = diff_f(base[i], remove[i], f)->0;
            let eq = spec_intersection(base[i], remove[i]);
            let res_next = if !spec_is_empty(d) {
                res.push(product_row(pre, d, base, i))
            } else {
                res
            };
            assert(prod_state(base, remove, f, k) == (if spec_is_empty(eq) {
                Some((res_next, pre, true))
            } else {
                Some((res_next, pre.push(eq), false))
            }));
            assert(res2 == res_next);
            if some_row_holds(res, vs) {
                let r = choose|r: int| 0 <= r < res.len() && #[trigger] all_contain(res[r], vs);
                assert(res2[r] == res[r]);
                assert(some_row_holds(res2, vs));
                assert(prod_claim(base, remove, f, k, vs));
            } else {
                assert(contains(base[i], vs[i]));
                if contains(remove[i], vs[i]) {
                    law_intersection_keeps_shared_values(base[i], remove[i], vs[i]);
                    if spec_is_empty(eq) {
                        law_empty_admits_nothing(eq, vs[i]);
                    }
                    assert(pre2 == pre.push(eq));
                    assert(!stopped2);
                    assert forall|j: int| 0 <= j < k implies #[trigger] contains(remove[j], vs[j]) && contains(pre2[j], vs[j]) by {
                        if j < k - 1 {
                            assert(pre2[j] == pre[j]);
                            assert(contains(remove[j], vs[j]) && contains(pre[j], vs[j]));
                        }
                    }
                    assert(pre2.len() == k);
                    assert(prod_claim(base, remove, f, k, vs));
                } else {
                    law_difference_covers(base[i], remove[i], f, vs[i]);
                    if spec_is_empty(d) {
                        law_empty_admits_nothing(d, vs[i]);
                    }
                    let row = product_row(pre, d, base, i);
                    assert(pre.len() == i);
                    assert(row.len() == base.len());
                    assert forall|j: int| 0 <= j < row.len() implies #[trigger] contains(row[j], vs[j]) by {
                        if j < i {
                            assert(row[j] == pre[j]);
                            assert(contains(remove[j], vs[j]) && contains(pre[j], vs[j]));
                        } else if j == i {
                            assert(row[j] == d);
                        } else {
                            assert(row[j] == base[j]);
                            assert(contains(base[j], vs[j]));
                        }
                    }
                    assert(res2[res.len() as int] == row);
                    assert(all_contain(res2[res.len() as int], vs));
                    assert(some_row_holds(res2, vs));
                    assert(prod_claim(base, remove, f, k, vs));
                }
            }
        }
    }
}

/// The rows of a product difference admit every tuple of the base that
/// the removed product lacks.
proof fn lemma_product_covers(base: Seq<SpaceV>, remove: Seq<SpaceV>, f: nat, vs: Seq<Val>)
    requires
        base.len() == remove.len(),
        all_contain(base, vs),
        !all_contain(remove, vs),
        product_f(base, remove, f) is Some,
    ensures
        some_row_holds(product_f(base, remove, f)->0, vs),
    decreases f, 3nat, 0nat,
{
    lemma_prod_covers(base, remove, f, base.len(), vs);
    let (res, pre, stopped) = prod_state(base, remove, f, base.len())->0;
    if !some_row_holds(res, vs) {
        assert(all_contain(remove, vs));
    }
}

proof fn lemma_cons_like_covers(bh: SpaceV, bt: SpaceV, rh: SpaceV, rt: SpaceV, f: nat, vs: Seq<Val>)
    requires
        vs.len() > 0,
        contains(bh, vs[0]),
        contains(bt, Val::List(vs.drop_first())),
        !(contains(rh, vs[0]) && contains(rt, Val::List(vs.drop_first()))),
        cons_like_f(bh, bt, rh, rt, f) is Some,
    ensures
        contains(cons_like_f(bh, bt, rh, rt, f)->0, Val::List(vs)),
    decreases f, 4nat, 0nat,
{
    let vals = seq![vs[0], Val::List(vs.drop_first())];
    let b = seq![bh, bt];
    let r = seq![rh, rt];
    assert(all_contain(b, vals));
    assert(!all_contain(r, vals)) by {
        if all_contain(r, vals) {
            assert(contains(r[0], vals[0]));
            assert(contains(r[1], vals[1]));
        }
    }
    lemma_product_covers(b, r, f, vals);
    let ps = product_f(b, r, f)->0;
    let i = choose|i: int| 0 <= i < ps.len() && #[trigger] all_contain(ps[i], vals);
    assert(contains(ps[i][0], vals[0]));
    assert(contains(ps[i][1], vals[1]));
    let c = SpaceV::ListCons(Box::new(ps[i][0]), Box::new(ps[i][1]));
    law_normalize_keeps_values(c, Val::List(vs));
    let wrap = |row: Seq<SpaceV>| spec_cons_space(row[0], row[1]);
    assert(contains(wrap(ps[i]), Val::List(vs)));
    let u = SpaceV::Union(Seq::new(ps.len(), |k: int| spec_cons_space(ps[k][0], ps[k][1])));
    law_normalize_keeps_values(u, Val::List(vs));
    lemma_contains_unfold(u, Val::List(vs));
    let items = Seq::new(ps.len(), |k: int| spec_cons_space(ps[k][0], ps[k][1]));
    assert(contains(items[i], Val::List(vs)));
}

proof fn lemma_list_diff_covers(base: SpaceV, remove: SpaceV, f: nat, v: Val)
    requires
        list_diff_f(base, remove, f) is Some,
        contains(base, v),
        !contains(remove, v),
    ensures
        contains(list_diff_f(base, remove, f)->0, v),
    decreases f, 5nat, 0nat,
{
    lemma_contains_unfold(base, v);
    lemma_contains_unfold(remove, v);
    if let Val::List(vs) = v {
        match (base, remove) {
            (SpaceV::ListAny(e), SpaceV::ListNil) => {
                lemma_every_split(*e, vs);
                let tail = Val::List(vs.drop_first());
                lemma_contains_unfold(SpaceV::ListAny(e), tail);
                let c = SpaceV::ListCons(Box::new(*e), Box::new(SpaceV::ListAny(e)));
                law_normalize_keeps_values(c, v);
            },
            (SpaceV::ListAny(le), SpaceV::ListAny(re)) => {
                lemma_every_split(*le, vs);
                lemma_every_split(*re, vs);
                let tail = Val::List(vs.drop_first());
                lemma_contains_unfold(SpaceV::ListAny(le), tail);
                lemma_contains_unfold(SpaceV::ListAny(re), tail);
                lemma_cons_like_covers(*le, SpaceV::ListAny(le), *re, SpaceV::ListAny(re), f, vs);
            },
            (SpaceV::ListAny(e), SpaceV::ListCons(h, t)) => {
                let d = cons_like_f(*e, SpaceV::ListAny(e), *h, *t, f)->0;
                let u = SpaceV::Union(seq![SpaceV::ListNil, d]);
                law_normalize_keeps_values(u, v);
                lemma_contains_unfold(u, v);
                if vs.len() == 0 {
                    assert(contains(seq![SpaceV::ListNil, d][0], v));
                } else {
                    lemma_every_split(*e, vs);
                    let tail = Val::List(vs.drop_first());
                    lemma_contains_unfold(SpaceV::ListAny(e), tail);
                    lemma_cons_like_covers(*e, SpaceV::ListAny(e), *h, *t, f, vs);
                    assert(contains(seq![SpaceV::ListNil, d][1], v));
                }
            },
            (SpaceV::ListCons(lh, lt), SpaceV::ListAny(re)) => {
                lemma_every_split(*re, vs);
                let tail = Val::List(vs.drop_first());
                lemma_contains_unfold(SpaceV::ListAny(re), tail);
                lemma_cons_like_covers(*lh, *lt, *re, SpaceV::ListAny(re), f, vs);
            },
            (SpaceV::ListCons(lh, lt), SpaceV::ListCons(rh, rt)) => {
                lemma_cons_like_covers(*lh, *lt, *rh, *rt, f, vs);
            },
            _ => {},
        }
    }
}

proof fn lemma_diff_each_covers(items: Seq<SpaceV>, remove: SpaceV, f: nat, n: nat, v: Val, i: int)
    requires
        diff_each(items, remove, f, n) is Some,
        0 <= i < n,
        n <= items.len(),
        contains(items[i], v),
        !contains(remove, v),
    ensures
        any_contains(diff_each(items, remove, f, n)->0, v),
    decreases f, 1nat, n,
{
    let prev = diff_each(items, remove, f, (n - 1) as nat);
    let d = diff_f(items[n - 1], remove, f);
    let ds = diff_each(items, remove, f, n)->0;
    assert(prev is Some && d is Some);
    assert(ds == prev->0.push(d->0));
    if i == n - 1 {
        law_difference_covers(items[i], remove, f, v);
        assert(ds[prev->0.len() as int] == d->0);
    } else {
        lemma_diff_each_covers(items, remove, f, (n - 1) as nat, v, i);
        let k = choose|k: int| 0 <= k < prev->0.len() && #[trigger] contains(prev->0[k], v);
        assert(ds[k] == prev->0[k]);
    }
}

proof fn lemma_diff_fold_covers(cur: SpaceV, items: Seq<SpaceV>, f: nat, n: nat, v: Val)
    requires
        diff_fold(cur, items, f, n) is Some,
        n <= items.len(),
        contains(cur, v),
        forall|i: int| 0 <= i < n ==> !#[trigger] contains(items[i], v),
    ensures
        contains(diff_fold(cur, items, f, n)->0, v),
    decreases f, 1nat, n,
{
    if n > 0 {
        lemma_diff_fold_covers(cur, items, f, (n - 1) as nat, v);
        let c = diff_fold(cur, items, f, (n - 1) as nat)->0;
        assert(!contains(items[n - 1], v));
        law_difference_covers(c, items[n - 1], f, v);
    }
}

/// What the coverage checker leaves of `base` once `remove` is taken out
/// admits every value of `base` that `remove` lacks.
pub proof fn law_difference_covers(base: SpaceV, remove: SpaceV, fuel: nat, v: Val)
    requires
        diff_f(base, remove, fuel) is Some,
        contains(base, v),
        !contains(remove, v),
    ensures
        contains(diff_f(base, remove, fuel)->0, v),
    decreases fuel, 0nat, 0nat,
{
    lemma_contains_unfold(base, v);
    lemma_contains_unfold(remove, v);
    let f = (fuel - 1) as nat;
    match (base, remove) {
        (SpaceV::Empty, _) => {},
        (_, SpaceV::Empty) => {},
        (SpaceV::Union(items), _) => {
            let ds = diff_each(items, remove, f, items.len())->0;
            let i = choose|i: int| 0 <= i < items.len() && #[trigger] contains(items[i], v);
            lemma_diff_each_covers(items, remove, f, items.len(), v, i);
            let u = SpaceV::Union(ds);
            law_normalize_keeps_values(u, v);
            lemma_contains_unfold(u, v);
        },
        (_, SpaceV::Union(items)) => {
            lemma_diff_fold_covers(base, items, f, items.len(), v);
        },
        _ => {
            if spec_subset(base, remove) {
                law_subset_is_sound(base, remove, v);
            } else {
                match (base, remove) {
                    (SpaceV::Prim(a), SpaceV::Prim(b)) => {
                        lemma_prim_difference_covers(a, b, v);
                    },
                    (SpaceV::Variant(lo, ln, lf), SpaceV::Variant(ro, rn, rf)) => {
                        if lo == ro && ln == rn && lf.len() == rf.len() {
                            if let Val::Ctor(_, _, vs) = v {
                                lemma_product_covers(lf, rf, f, vs);
                                let ps = product_f(lf, rf, f)->0;
                                let i = choose|i: int| 0 <= i < ps.len() && #[trigger] all_contain(ps[i], vs);
                                let w = SpaceV::Variant(lo, ln, ps[i]);
                                lemma_contains_unfold(w, v);
                                let items = Seq::new(ps.len(), |k: int| SpaceV::Variant(lo, ln, ps[k]));
                                let u = SpaceV::Union(items);
                                law_normalize_keeps_values(u, v);
                                lemma_contains_unfold(u, v);
                                assert(items[i] == w);
                            }
                        }
                    },
                    (SpaceV::Record(lnames, lf), SpaceV::Record(rnames, rf)) => {
                        if lf.len() == rf.len() && lnames == rnames {
                            if let Val::Rec(_, vs) = v {
                                lemma_product_covers(lf, rf, f, vs);
                                let ps = product_f(lf, rf, f)->0;
                                let i = choose|i: int| 0 <= i < ps.len() && #[trigger] all_contain(ps[i], vs);
                                let w = SpaceV::Record(lnames, ps[i]);
                                lemma_contains_unfold(w, v);
                                let items = Seq::new(ps.len(), |k: int| SpaceV::Record(lnames, ps[k]));
                                let u = SpaceV::Union(items);
                                law_normalize_keeps_values(u, v);
                                lemma_contains_unfold(u, v);
                                assert(items[i] == w);
                            }
                        }
                    },
                    (SpaceV::Tuple(lf), SpaceV::Tuple(rf)) => {
                        if lf.len() == rf.len() {
                            if let Val::Tup(vs) = v {
                                lemma_product_covers(lf, rf, f, vs);
                                let ps = product_f(lf, rf, f)->0;
                                let i = choose|i: int| 0 <= i < ps.len() && #[trigger] all_contain(ps[i], vs);
                                let w = SpaceV::Tuple(ps[i]);
                                lemma_contains_unfold(w, v);
                                let items = Seq::new(ps.len(), |k: int| SpaceV::Tuple(ps[k]));
                                let u = SpaceV::Union(items);
                                law_normalize_keeps_values(u, v);
                                lemma_contains_unfold(u, v);
                                assert(items[i] == w);
                            }
                        }
                    },
                    (SpaceV::Opaque(_), SpaceV::Opaque(_)) => {},
                    _ => {
                        if is_list_v(base) && is_list_v(remove) {
                            lemma_list_diff_covers(base, remove, f, v);
                            let d = list_diff_f(base, remove, f)->0;
                            law_normalize_keeps_values(d, v);
                        }
                    },
                }
            }
        },
    }
}

/// Where the coverage checker's difference runs to an end and leaves
/// nothing, every value of `base` is a value of `remove`: a match whose
/// arms leave no case uncovered is exhaustive.
pub proof fn law_empty_difference_means_covered(base: SpaceV, remove: SpaceV, v: Val)
    requires
        difference_terminates(base, remove),
        spec_is_empty(spec_space_difference(base, remove)),
        contains(base, v),
    ensures
        contains(remove, v),
{
    let fuel = choose|f: nat| #[trigger] diff_f(base, remove, f) is Some;
    if !contains(remove, v) {
        law_difference_covers(base, remove, fuel, v);
        law_empty_admits_nothing(spec_space_difference(base, remove), v);
    }
}

// ---------------------------------------------------------------------------
// Narrowing at a path
// ---------------------------------------------------------------------------

/// The part of a value that a path leads to, where the value has one: a
/// record's field by name, a constructor's or tuple's item by index, a
/// non-empty list's first element or rest.
pub open spec fn part_at(v: Val, path: Seq<StepV>) -> Option<Val>
    decreases path.len(),
{
    if path.len() == 0 {
        Some(v)
    } else {
        let rest = path.subrange(1, path.len() as int);
        match (path[0], v) {
            (StepV::Field(name), Val::Rec(names, vs)) => {
                let i = field_position(names, name);
                if 0 <= i < vs.len() {
                    part_at(vs[i], rest)
                } else {
                    None
                }
            },
            (StepV::VariantField(i), Val::Ctor(_, _, vs)) => if 0 <= i < vs.len() {
                part_at(vs[i], rest)
            } else {
                None
            },
            (StepV::TupleIndex(i), Val::Tup(vs)) => if 0 <= i < vs.len() {
                part_at(vs[i], rest)
            } else {
                None
            },
            (StepV::ListHead, Val::List(vs)) => if vs.len() > 0 {
                part_at(vs[0], rest)
            } else {
                None
            },
            (StepV::ListTail, Val::List(vs)) => if vs.len() > 0 {
                part_at(Val::List(vs.drop_first()), rest)
            } else {
                None
            },
            _ => None,
        }
    }
}

/// The value has a part at the path, and `c` admits it.
pub open spec fn part_in(v: Val, path: Seq<StepV>, c: SpaceV) -> bool {
    match part_at(v, path) {
        Some(p) => contains(c, p),
        None => false,
    }
}

/// Replacing one field space changes which tuples of values are admitted
/// only at that field.
proof fn lemma_all_contain_update(fs: Seq<SpaceV>, vs: Seq<Val>, i: int, f: SpaceV)
    requires
        0 <= i < fs.len(),
        vs.len() == fs.len(),
    ensures
        all_contain(fs.update(i, f), vs) <==> (contains(f, vs[i]) && forall|j: int|
            0 <= j < fs.len() && j != i ==> #[trigger] contains(fs[j], vs[j])),
        all_contain(fs, vs) <==> (contains(fs[i], vs[i]) && forall|j: int|
            0 <= j < fs.len() && j != i ==> #[trigger] contains(fs[j], vs[j])),
{
    let g = fs.update(i, f);
    if all_contain(g, vs) {
        assert(contains(g[i], vs[i]));
        assert forall|j: int| 0 <= j < fs.len() && j != i implies #[trigger] contains(fs[j], vs[j]) by {
            assert(contains(g[j], vs[j]));
        }
    }
    if contains(f, vs[i]) && forall|j: int| 0 <= j < fs.len() && j != i ==> #[trigger] contains(fs[j], vs[j]) {
        assert forall|j: int| 0 <= j < g.len() implies #[trigger] contains(g[j], vs[j]) by {
            if j != i {
                assert(contains(fs[j], vs[j]));
            }
        }
    }
    if all_contain(fs, vs) {
        assert(contains(fs[i], vs[i]));
    }
}

proof fn lemma_refine_each_meaning(items: Seq<SpaceV>, path: Seq<StepV>, c: SpaceV, v: Val)
    ensures
        any_contains(refine_each(items, path, c), v) <==> (any_contains(items, v) && part_in(v, path, c)),
    decreases path.len(), depths(items) + 1, 0nat, items.len(),
{
    if items.len() > 0 {
        let prefix = items.subrange(0, items.len() - 1);
        let last = items[items.len() - 1];
        lemma_depths(items);
        lemma_refine_each_meaning(prefix, path, c, v);
        law_refine_keeps_parts_in_constraint(last, path, c, v);
        let done = refine_each(prefix, path, c);
        let all = refine_each(items, path, c);
        assert(any_contains(items, v) <==> (any_contains(prefix, v) || contains(last, v))) by {
            if any_contains(items, v) {
                let k = choose|k: int| 0 <= k < items.len() && #[trigger] contains(items[k], v);
                if k < items.len() - 1 {
                    assert(prefix[k] == items[k]);
                }
            }
            if any_contains(prefix, v) {
                let k = choose|k: int| 0 <= k < prefix.len() && #[trigger] contains(prefix[k], v);
                assert(prefix[k] == items[k]);
            }
        }
        match spec_refine(last, path, c) {
            Some(r) => {
                assert(all == done.push(r));
                assert(any_contains(all, v) <==> (any_contains(done, v) || contains(r, v))) by {
                    if any_contains(all, v) {
                        let k = choose|k: int| 0 <= k < all.len() && #[trigger] contains(all[k], v);
                        if k < done.len() {
                            assert(all[k] == done[k]);
                        }
                    }
                    if any_contains(done, v) {
                        let k = choose|k: int| 0 <= k < done.len() && #[trigger] contains(done[k], v);
                        assert(all[k] == done[k]);
                    }
                    if contains(r, v) {
                        assert(all[done.len() as int] == r);
                    }
                }
            },
            None => {
                assert(all == done);
            },
        }
    } else {
        assert(refine_each(items, path, c) == Seq::<SpaceV>::empty());
    }
}

/// Narrowing a space at a path keeps exactly the values whose part at the
/// path the constraint admits; where the path does not fit the space, no
/// value of the space has a part there.
pub proof fn law_refine_keeps_parts_in_constraint(base: SpaceV, path: Seq<StepV>, c: SpaceV, v: Val)
    ensures
        match spec_refine(base, path, c) {
            Some(r) => contains(r, v) <==> (contains(base, v) && part_in(v, path, c)),
            None => contains(base, v) ==> part_at(v, path) is None,
        },
    decreases path.len(), depth(base), 1nat, 0nat,
{
    lemma_contains_unfold(base, v);
    if path.len() == 0 {
        law_intersection_keeps_shared_values(base, c, v);
    } else {
        let step = path[0];
        let rest = path.subrange(1, path.len() as int);
        match base {
            SpaceV::Union(items) => {
                lemma_refine_each_meaning(items, path, c, v);
                let u = SpaceV::Union(refine_each(items, path, c));
                law_normalize_keeps_values(u, v);
                lemma_contains_unfold(u, v);
            },
            SpaceV::Variant(o, n, fs) => {
                if let StepV::VariantField(i) = step {
                    if 0 <= i < fs.len() {
                        lemma_depths(fs);
                        if let Val::Ctor(vo, vn, vs) = v {
                            law_refine_keeps_parts_in_constraint(fs[i], rest, c, vs[i]);
                        }
                        if let Some(f) = spec_refine(fs[i], rest, c) {
                            let g = SpaceV::Variant(o, n, fs.update(i, f));
                            law_normalize_keeps_values(g, v);
                            lemma_contains_unfold(g, v);
                            if let Val::Ctor(vo, vn, vs) = v {
                                if vs.len() == fs.len() {
                                    lemma_all_contain_update(fs, vs, i, f);
                                }
                            }
                        }
                    }
                }
            },
            SpaceV::Record(names, fs) => {
                if let StepV::Field(name) = step {
                    let i = field_position(names, name);
                    if 0 <= i < fs.len() {
                        lemma_depths(fs);
                        if let Val::Rec(vnames, vs) = v {
                            law_refine_keeps_parts_in_constraint(fs[i], rest, c, vs[i]);
                        }
                        if let Some(f) = spec_refine(fs[i], rest, c) {
                            let g = SpaceV::Record(names, fs.update(i, f));
                            law_normalize_keeps_values(g, v);
                            lemma_contains_unfold(g, v);
                            if let Val::Rec(vnames, vs) = v {
                                if vs.len() == fs.len() {
                                    lemma_all_contain_update(fs, vs, i, f);
                                }
                            }
                        }
                    }
                }
            },
            SpaceV::Tuple(fs) => {
                if let StepV::TupleIndex(i) = step {
                    if 0 <= i < fs.len() {
                        lemma_depths(fs);
                        if let Val::Tup(vs) = v {
                            law_refine_keeps_parts_in_constraint(fs[i], rest, c, vs[i]);
                        }
                        if let Some(f) = spec_refine(fs[i], rest, c) {
                            let g = SpaceV::Tuple(fs.update(i, f));
                            law_normalize_keeps_values(g, v);
                            lemma_contains_unfold(g, v);
                            if let Val::Tup(vs) = v {
                                if vs.len() == fs.len() {
                                    lemma_all_contain_update(fs, vs, i, f);
                                }
                            }
                        }
                    }
                }
            },
            SpaceV::ListCons(h, t) => {
                if let Val::List(vs) = v {
                    if vs.len() > 0 {
                        let tail = Val::List(vs.drop_first());
                        match step {
                            StepV::ListHead => {
                                law_refine_keeps_parts_in_constraint(*h, rest, c, vs[0]);
                                if let Some(f) = spec_refine(*h, rest, c) {
                                    law_normalize_keeps_values(SpaceV::ListCons(Box::new(f), t), v);
                                }
                            },
                            StepV::ListTail => {
                                law_refine_keeps_parts_in_constraint(*t, rest, c, tail);
                                if let Some(f) = spec_refine(*t, rest, c) {
                                    law_normalize_keeps_values(SpaceV::ListCons(h, Box::new(f)), v);
                                }
                            },
                            _ => {},
                        }
                    } else {
                        match step {
                            StepV::ListHead => {
                                if let Some(f) = spec_refine(*h, rest, c) {
                                    law_normalize_keeps_values(SpaceV::ListCons(Box::new(f), t), v);
                                }
                            },
                            StepV::ListTail => {
                                if let Some(f) = spec_refine(*t, rest, c) {
                                    law_normalize_keeps_values(SpaceV::ListCons(h, Box::new(f)), v);
                                }
                            },
                            _ => {},
                        }
                    }
                } else {
                    match step {
                        StepV::ListHead => {
                            if let Some(f) = spec_refine(*h, rest, c) {
                                law_normalize_keeps_values(SpaceV::ListCons(Box::new(f), t), v);
                            }
                        },
                        StepV::ListTail => {
                            if let Some(f) = spec_refine(*t, rest, c) {
                                law_normalize_keeps_values(SpaceV::ListCons(h, Box::new(f)), v);
                            }
                        },
                        _ => {},
                    }
                }
            },
            SpaceV::ListAny(e) => {
                match step {
                    StepV::ListHead => {
                        if let Some(f) = spec_refine(*e, rest, c) {
                            law_normalize_keeps_values(SpaceV::ListCons(Box::new(f), Box::new(SpaceV::ListAny(e))), v);
                        }
                        if let Val::List(vs) = v {
                            if vs.len() > 0 {
                                lemma_every_split(*e, vs);
                                law_refine_keeps_parts_in_constraint(*e, rest, c, vs[0]);
                                lemma_contains_unfold(SpaceV::ListAny(e), Val::List(vs.drop_first()));
                            }
                        }
                    },
                    StepV::ListTail => {
                        if let Some(f) = spec_refine(SpaceV::ListAny(e), rest, c) {
                            law_normalize_keeps_values(SpaceV::ListCons(e, Box::new(f)), v);
                        }
                        if let Val::List(vs) = v {
                            if vs.len() > 0 {
                                lemma_every_split(*e, vs);
                                law_refine_keeps_parts_in_constraint(SpaceV::ListAny(e), rest, c, Val::List(vs.drop_first()));
                                lemma_contains_unfold(SpaceV::ListAny(e), Val::List(vs.drop_first()));
                            }
                        }
                    },
                    _ => {},
                }
            },
            _ => {},
        }
    }
}

// ---------------------------------------------------------------------------
// Non-empty spaces admit values
// ---------------------------------------------------------------------------

/// The space holds only lists: list shapes, or unions of them.
pub open spec fn list_shaped(s: SpaceV) -> bool
    decreases depth(s), 1nat, 0nat,
{
    match s {
        SpaceV::ListAny(_) => true,
        SpaceV::ListNil => true,
        SpaceV::ListCons(_, _) => true,
        SpaceV::Empty => true,
        SpaceV::Union(items) => all_list_shaped(items, items.len()),
        _ => false,
    }
}

/// The first `n` spaces of `items` hold only lists.
pub open spec fn all_list_shaped(items: Seq<SpaceV>, n: nat) -> bool
    decreases depths(items) + 1, 0nat, n,
{
    if n == 0 || n > items.len() {
        true
    } else {
        proof {
            lemma_depths(items);
        }
        all_list_shaped(items, (n - 1) as nat) && list_shaped(items[n - 1])
    }
}

/// The space is made so that the checker's emptiness is the real one:
/// every primitive part it finds non-empty admits a value, and the tail of
/// every non-empty list shape is a list space.
pub open spec fn inhabitable(s: SpaceV) -> bool
    decreases depth(s), 1nat, 0nat,
{
    match s {
        SpaceV::Prim(p) => !prim_is_empty(p) ==> exists|v: Val| #[trigger] prim_contains(p, v),
        SpaceV::Variant(_, _, fs) => all_inhabitable(fs, fs.len()),
        SpaceV::Record(_, fs) => all_inhabitable(fs, fs.len()),
        SpaceV::Tuple(fs) => all_inhabitable(fs, fs.len()),
        SpaceV::Union(fs) => all_inhabitable(fs, fs.len()),
        SpaceV::ListCons(h, t) => inhabitable(*h) && inhabitable(*t) && list_shaped(*t),
        _ => true,
    }
}

/// The first `n` spaces of `items` are inhabitable.
pub open spec fn all_inhabitable(items: Seq<SpaceV>, n: nat) -> bool
    decreases depths(items) + 1, 0nat, n,
{
    if n == 0 || n > items.len() {
        true
    } else {
        proof {
            lemma_depths(items);
        }
        all_inhabitable(items, (n - 1) as nat) && inhabitable(items[n - 1])
    }
}

proof fn lemma_all_list_shaped(items: Seq<SpaceV>, n: nat)
    requires
        n <= items.len(),
        all_list_shaped(items, n),
    ensures
        forall|i: int| 0 <= i < n ==> #[trigger] list_shaped(items[i]),
    decreases n,
{
    if n > 0 {
        lemma_all_list_shaped(items, (n - 1) as nat);
    }
}

proof fn lemma_all_inhabitable(items: Seq<SpaceV>, n: nat)
    requires
        n <= items.len(),
        all_inhabitable(items, n),
    ensures
        forall|i: int| 0 <= i < n ==> #[trigger] inhabitable(items[i]),
    decreases n,
{
    if n > 0 {
        lemma_all_inhabitable(items, (n - 1) as nat);
    }
}

/// The usual primitive spaces have inhabited parts: booleans, unit,
/// integer ranges of valid intervals, and finite literal sets whose
/// literals are of the space's kind.
pub proof fn lemma_usual_primitives_are_inhabitable(p: PrimV)
    requires
        match p {
            PrimV::Int(rs) => all_valid(rs),
            PrimV::EqFinite(k, vals) => forall|i: int| 0 <= i < vals.len() ==> kind_of(#[trigger] vals[i]) == k,
            PrimV::EqAny(_, _) => false,
            _ => true,
        },
    ensures
        inhabitable(SpaceV::Prim(p)),
{
    if !prim_is_empty(p) {
        match p {
            PrimV::Bool(t, f) => {
                if t {
                    assert(prim_contains(p, Val::Bool(true)));
                } else {
                    assert(prim_contains(p, Val::Bool(false)));
                }
            },
            PrimV::Unit(_) => {
                assert(prim_contains(p, Val::Unit));
            },
            PrimV::Int(rs) => {
                let iv = rs[0];
                assert(interval_is_valid(iv));
                let x: int = match iv.start {
                    Some(st) => st as int,
                    None => match iv.end {
                        Some(e) => e as int,
                        None => 0,
                    },
                };
                assert(in_interval(rs[0], x));
                assert(prim_contains(p, Val::Int(x)));
            },
            PrimV::EqFinite(k, vals) => {
                assert(vals.contains(vals[0]));
                assert(prim_contains(p, Val::Lit(vals[0])));
            },
            _ => {},
        }
    }
}

/// A space that the checker finds non-empty admits some value, where the
/// space is inhabitable; a list space admits a list.
pub proof fn law_nonempty_spaces_admit_a_value(s: SpaceV)
    requires
        inhabitable(s),
        !spec_is_empty(s),
    ensures
        exists|v: Val| #[trigger] contains(s, v) && (list_shaped(s) ==> v is List),
    decreases depth(s), 1nat, 0nat,
{
    match s {
        SpaceV::Prim(p) => {
            let v = choose|v: Val| #[trigger] prim_contains(p, v);
            assert(contains(s, v));
        },
        SpaceV::Variant(o, n, fs) => {
            let vs = lemma_field_witnesses(fs);
            lemma_contains_unfold(s, Val::Ctor(o, n, vs));
            assert(contains(s, Val::Ctor(o, n, vs)));
        },
        SpaceV::Record(names, fs) => {
            let vs = lemma_field_witnesses(fs);
            lemma_contains_unfold(s, Val::Rec(names, vs));
            assert(contains(s, Val::Rec(names, vs)));
        },
        SpaceV::Tuple(fs) => {
            let vs = lemma_field_witnesses(fs);
            lemma_contains_unfold(s, Val::Tup(vs));
            assert(contains(s, Val::Tup(vs)));
        },
        SpaceV::Union(items) => {
            lemma_seq_all_empty(items);
            lemma_depths(items);
            lemma_all_inhabitable(items, items.len());
            let i = choose|i: int| 0 <= i < items.len() && !#[trigger] spec_is_empty(items[i]);
            law_nonempty_spaces_admit_a_value(items[i]);
            let v = choose|v: Val| #[trigger] contains(items[i], v) && (list_shaped(items[i]) ==> v is List);
            lemma_contains_unfold(s, v);
            assert(contains(s, v));
            if list_shaped(s) {
                lemma_all_list_shaped(items, items.len());
            }
        },
        SpaceV::ListAny(e) => {
            let v = Val::List(Seq::empty());
            lemma_contains_unfold(s, v);
            assert(contains(s, v));
        },
        SpaceV::ListNil => {
            assert(contains(s, Val::List(Seq::empty())));
        },
        SpaceV::ListCons(h, t) => {
            law_nonempty_spaces_admit_a_value(*h);
            law_nonempty_spaces_admit_a_value(*t);
            let vh = choose|v: Val| #[trigger] contains(*h, v) && (list_shaped(*h) ==> v is List);
            let vt = choose|v: Val| #[trigger] contains(*t, v) && (list_shaped(*t) ==> v is List);
            let ts = vt->List_0;
            let vs = seq![vh] + ts;
            assert(vs.drop_first() =~= ts);
            assert(vs[0] == vh);
            assert(contains(s, Val::List(vs)));
        },
        SpaceV::Opaque(n) => {
            assert(contains(s, Val::Opq(n)));
        },
        SpaceV::Empty => {},
    }
}

/// The space admits some value.
pub open spec fn admits_some(s: SpaceV) -> bool {
    exists|v: Val| #[trigger] contains(s, v)
}

/// Values, one for each of the given spaces, each admitted by its space.
proof fn lemma_field_witnesses(fs: Seq<SpaceV>) -> (vs: Seq<Val>)
    requires
        all_inhabitable(fs, fs.len()),
        !seq_any_empty(fs),
    ensures
        all_contain(fs, vs),
    decreases depths(fs) + 1, 0nat, 0nat,
{
    lemma_seq_any_empty(fs);
    lemma_depths(fs);
    lemma_all_inhabitable(fs, fs.len());
    assert forall|i: int| 0 <= i < fs.len() implies #[trigger] admits_some(fs[i]) by {
        law_nonempty_spaces_admit_a_value(fs[i]);
    }
    let vs = Seq::new(fs.len(), |i: int| choose|v: Val| #[trigger] contains(fs[i], v));
    assert forall|i: int| 0 <= i < fs.len() implies #[trigger] contains(fs[i], vs[i]) by {
        assert(admits_some(fs[i]));
    }
    vs
}

} // verus!
