//! What the coverage checker's difference leaves: only values of the base
//! space that the removed space lacks, when no integer bound of the removed
//! space sits at an end of the `i64` range. Together with the covering law
//! of `semantics`, the difference is then exactly the values of the base
//! that are not removed.

use crate::atoms::AtomV;
use crate::int_ranges::{bounds_inside, lemma_difference, ranges_set, spec_difference};
use crate::semantics::{
    all_contain, contains, law_difference_covers, law_intersection_keeps_shared_values,
    law_normalize_keeps_values, lemma_atoms_union_contains, lemma_contains_unfold,
    lemma_every_split, lemma_filter_contains, lemma_normalize_prim_meaning, prim_contains, Val,
};
use crate::space::{same_kind, spec_normalize_space, spec_prim_difference, PrimV, SpaceV};
use crate::space_ops::{
    cons_like_f, diff_each, diff_f, diff_fold, difference_terminates, is_list_v, list_diff_f,
    prod_state, product_f, product_row, spec_cons_space, spec_intersection, spec_space_difference,
    spec_subset,
};
use vstd::prelude::*;

verus! {

/// No integer bound of a primitive space sits at an end of the `i64` range.
pub open spec fn prim_bounds_inside(p: PrimV) -> bool {
    match p {
        PrimV::Int(r) => bounds_inside(r),
        _ => true,
    }
}

/// No integer bound anywhere in the space sits at an end of the `i64`
/// range.
pub open spec fn space_bounds_inside(s: SpaceV) -> bool
    decreases s,
{
    match s {
        SpaceV::Prim(p) => prim_bounds_inside(p),
        SpaceV::Variant(_, _, fs) => seq_bounds_inside(fs),
        SpaceV::Record(_, fs) => seq_bounds_inside(fs),
        SpaceV::Tuple(fs) => seq_bounds_inside(fs),
        SpaceV::ListAny(e) => space_bounds_inside(*e),
        SpaceV::ListCons(h, t) => space_bounds_inside(*h) && space_bounds_inside(*t),
        SpaceV::Union(fs) => seq_bounds_inside(fs),
        _ => true,
    }
}

/// No integer bound in the spaces of the list sits at an end of the `i64`
/// range.
pub open spec fn seq_bounds_inside(fs: Seq<SpaceV>) -> bool
    decreases fs,
{
    if fs.len() == 0 {
        true
    } else {
        seq_bounds_inside(fs.subrange(0, fs.len() - 1)) && space_bounds_inside(fs[fs.len() - 1])
    }
}

pub proof fn lemma_seq_bounds_inside(fs: Seq<SpaceV>)
    ensures
        seq_bounds_inside(fs) == forall|i: int|
            0 <= i < fs.len() ==> #[trigger] space_bounds_inside(fs[i]),
    decreases fs.len(),
{
    if fs.len() > 0 {
        let t = fs.subrange(0, fs.len() - 1);
        assert(seq_bounds_inside(fs) == (seq_bounds_inside(t) && space_bounds_inside(
            fs[fs.len() - 1],
        )));
        lemma_seq_bounds_inside(t);
        if seq_bounds_inside(fs) {
            assert forall|i: int| 0 <= i < fs.len() implies #[trigger] space_bounds_inside(
                fs[i],
            ) by {
                if i < fs.len() - 1 {
                    assert(fs[i] == t[i]);
                }
            }
        }
        if forall|i: int| 0 <= i < fs.len() ==> #[trigger] space_bounds_inside(fs[i]) {
            assert forall|i: int| 0 <= i < t.len() implies #[trigger] space_bounds_inside(t[i]) by {
                assert(fs[i] == t[i]);
            }
        }
    }
}

/// The difference of two primitive spaces admits only values of the first
/// that the second lacks.
pub proof fn lemma_prim_difference_sound(a: PrimV, b: PrimV, v: Val)
    requires
        prim_bounds_inside(b),
        contains(spec_prim_difference(a, b), v),
    ensures
        prim_contains(a, v),
        !prim_contains(b, v),
{
    if same_kind(a, b) {
        match (a, b) {
            (PrimV::Bool(lt, lf), PrimV::Bool(rt, rf)) => {
                lemma_normalize_prim_meaning(PrimV::Bool(lt && !rt, lf && !rf), v);
            },
            (PrimV::Unit(x), PrimV::Unit(y)) => {
                lemma_normalize_prim_meaning(PrimV::Unit(x && !y), v);
            },
            (PrimV::Int(x), PrimV::Int(y)) => {
                lemma_normalize_prim_meaning(PrimV::Int(spec_difference(x, y)), v);
                if let Val::Int(n) = v {
                    lemma_difference(x, y);
                    assert(ranges_set(spec_difference(x, y)).contains(n));
                    assert(ranges_set(x).contains(n));
                    assert(!ranges_set(y).contains(n));
                }
            },
            (PrimV::EqFinite(k, x), PrimV::EqFinite(_, y)) => {
                let r = PrimV::EqFinite(k, x.filter(|q: AtomV| !y.contains(q)));
                lemma_normalize_prim_meaning(r, v);
                if let Val::Lit(t) = v {
                    lemma_filter_contains(x, |q: AtomV| !y.contains(q), t);
                }
            },
            (PrimV::EqFinite(k, x), PrimV::EqAny(_, ex)) => {
                let r = PrimV::EqFinite(k, x.filter(|q: AtomV| ex.contains(q)));
                lemma_normalize_prim_meaning(r, v);
                if let Val::Lit(t) = v {
                    lemma_filter_contains(x, |q: AtomV| ex.contains(q), t);
                }
            },
            (PrimV::EqAny(k, x), PrimV::EqFinite(_, vals)) => {
                let r = PrimV::EqAny(k, crate::atoms::atoms_union_spec(x, vals));
                lemma_normalize_prim_meaning(r, v);
                if let Val::Lit(t) = v {
                    lemma_atoms_union_contains(x, vals, t);
                }
            },
            (PrimV::EqAny(k, x), PrimV::EqAny(_, y)) => {
                let r = PrimV::EqFinite(k, y.filter(|q: AtomV| !x.contains(q)));
                lemma_normalize_prim_meaning(r, v);
                if let Val::Lit(t) = v {
                    lemma_filter_contains(y, |q: AtomV| !x.contains(q), t);
                }
            },
            _ => {},
        }
    }
}

/// Each row admits only tuples of the base product that the removed
/// product lacks, and has as many fields as the base.
pub open spec fn rows_sound(rows: Seq<Seq<SpaceV>>, base: Seq<SpaceV>, remove: Seq<SpaceV>) -> bool {
    &&& forall|r: int| 0 <= r < rows.len() ==> (#[trigger] rows[r]).len() == base.len()
    &&& forall|r: int, vs: Seq<Val>|
        0 <= r < rows.len() && #[trigger] all_contain(rows[r], vs) ==> all_contain(base, vs)
            && !all_contain(remove, vs)
}

/// After `k` fields of the product difference, the rows found are sound,
/// and the common prefix holds the intersections of the first fields.
pub open spec fn prod_sound(base: Seq<SpaceV>, remove: Seq<SpaceV>, f: nat, k: nat) -> bool {
    let st = prod_state(base, remove, f, k)->0;
    &&& rows_sound(st.0, base, remove)
    &&& st.1.len() <= k
    &&& (!st.2 ==> st.1.len() == k)
    &&& forall|j: int| 0 <= j < st.1.len() ==> #[trigger] st.1[j] == spec_intersection(
        base[j],
        remove[j],
    )
}

#[verifier::spinoff_prover]
proof fn lemma_prod_sound(base: Seq<SpaceV>, remove: Seq<SpaceV>, f: nat, k: nat)
    requires
        base.len() == remove.len(),
        k <= base.len(),
        forall|j: int| 0 <= j < remove.len() ==> #[trigger] space_bounds_inside(remove[j]),
        prod_state(base, remove, f, k) is Some,
    ensures
        prod_sound(base, remove, f, k),
    decreases f, 2nat, k,
{
    if k == 0 {
        assert(prod_state(base, remove, f, 0) == Some(
            (Seq::<Seq<SpaceV>>::empty(), Seq::<SpaceV>::empty(), false),
        ));
    } else {
        lemma_prod_sound(base, remove, f, (k - 1) as nat);
        let (res, pre, stopped) = prod_state(base, remove, f, (k - 1) as nat)->0;
        let (res2, pre2, stopped2) = prod_state(base, remove, f, k)->0;
        if stopped {
            assert(prod_state(base, remove, f, k) == Some((res, pre, true)));
        } else {
            let i = k - 1;
            assert(diff_f(base[i], remove[i], f) is Some);
            let d = diff_f(base[i], remove[i], f)->0;
            let eq = spec_intersection(base[i], remove[i]);
            let row = product_row(pre, d, base, i);
            let res_next = if !crate::space::spec_is_empty(d) {
                res.push(row)
            } else {
                res
            };
            assert(prod_state(base, remove, f, k) == (if crate::space::spec_is_empty(eq) {
                Some((res_next, pre, true))
            } else {
                Some((res_next, pre.push(eq), false))
            }));
            assert(pre.len() == i);
            assert(row.len() == base.len());
            assert(space_bounds_inside(remove[i]));
            assert forall|vs: Seq<Val>| #[trigger] all_contain(row, vs) implies all_contain(base, vs)
                && !all_contain(remove, vs) by {
                assert(contains(row[i], vs[i]));
                assert(row[i] == d);
                law_difference_adds_nothing(base[i], remove[i], f, vs[i]);
                assert forall|j: int| 0 <= j < base.len() implies #[trigger] contains(
                    base[j],
                    vs[j],
                ) by {
                    assert(contains(row[j], vs[j]));
                    if j < i {
                        assert(row[j] == pre[j]);
                        law_intersection_keeps_shared_values(base[j], remove[j], vs[j]);
                    } else if j > i {
                        assert(row[j] == base[j]);
                    }
                }
                assert(!contains(remove[i], vs[i]));
            }
            assert forall|r: int| 0 <= r < res_next.len() implies (#[trigger] res_next[r]).len()
                == base.len() by {
                if r < res.len() {
                    assert(res_next[r] == res[r]);
                }
            }
            assert forall|r: int, vs: Seq<Val>|
                0 <= r < res_next.len() && #[trigger] all_contain(res_next[r], vs) implies all_contain(
                base,
                vs,
            ) && !all_contain(remove, vs) by {
                if r < res.len() {
                    assert(res_next[r] == res[r]);
                } else {
                    assert(res_next[r] == row);
                }
            }
            assert forall|j: int| 0 <= j < pre2.len() implies #[trigger] pre2[j] == spec_intersection(
                base[j],
                remove[j],
            ) by {
                if j < pre.len() {
                    assert(pre2[j] == pre[j]);
                }
            }
        }
    }
}

proof fn lemma_product_sound(base: Seq<SpaceV>, remove: Seq<SpaceV>, f: nat)
    requires
        base.len() == remove.len(),
        forall|j: int| 0 <= j < remove.len() ==> #[trigger] space_bounds_inside(remove[j]),
        product_f(base, remove, f) is Some,
    ensures
        rows_sound(product_f(base, remove, f)->0, base, remove),
    decreases f, 3nat, 0nat,
{
    lemma_prod_sound(base, remove, f, base.len());
}

proof fn lemma_cons_like_sound(bh: SpaceV, bt: SpaceV, rh: SpaceV, rt: SpaceV, f: nat, v: Val)
    requires
        cons_like_f(bh, bt, rh, rt, f) is Some,
        space_bounds_inside(rh),
        space_bounds_inside(rt),
        contains(cons_like_f(bh, bt, rh, rt, f)->0, v),
    ensures
        v matches Val::List(vs) && vs.len() > 0 && contains(bh, vs[0]) && contains(
            bt,
            Val::List(vs.drop_first()),
        ) && !(contains(rh, vs[0]) && contains(rt, Val::List(vs.drop_first()))),
    decreases f, 4nat, 0nat,
{
    let b = seq![bh, bt];
    let r = seq![rh, rt];
    assert forall|j: int| 0 <= j < r.len() implies #[trigger] space_bounds_inside(r[j]) by {}
    lemma_product_sound(b, r, f);
    let ps = product_f(b, r, f)->0;
    let items = Seq::new(ps.len(), |k: int| spec_cons_space(ps[k][0], ps[k][1]));
    let u = SpaceV::Union(items);
    law_normalize_keeps_values(u, v);
    lemma_contains_unfold(u, v);
    let i = choose|i: int| 0 <= i < items.len() && #[trigger] contains(items[i], v);
    let c = SpaceV::ListCons(Box::new(ps[i][0]), Box::new(ps[i][1]));
    assert(items[i] == spec_normalize_space(c));
    law_normalize_keeps_values(c, v);
    if let Val::List(vs) = v {
        let vals = seq![vs[0], Val::List(vs.drop_first())];
        assert(ps[i].len() == 2);
        assert(all_contain(ps[i], vals));
        assert(all_contain(b, vals));
        assert(contains(b[0], vals[0]) && contains(b[1], vals[1]));
        if contains(rh, vs[0]) && contains(rt, Val::List(vs.drop_first())) {
            assert(all_contain(r, vals));
        }
    }
}

proof fn lemma_list_diff_sound(base: SpaceV, remove: SpaceV, f: nat, v: Val)
    requires
        list_diff_f(base, remove, f) is Some,
        space_bounds_inside(remove),
        contains(list_diff_f(base, remove, f)->0, v),
    ensures
        contains(base, v),
        !contains(remove, v),
    decreases f, 5nat, 0nat,
{
    lemma_contains_unfold(base, v);
    lemma_contains_unfold(remove, v);
    match (base, remove) {
        (SpaceV::ListAny(e), SpaceV::ListNil) => {
            let c = SpaceV::ListCons(Box::new(*e), Box::new(SpaceV::ListAny(e)));
            law_normalize_keeps_values(c, v);
            if let Val::List(vs) = v {
                let tail = Val::List(vs.drop_first());
                lemma_contains_unfold(SpaceV::ListAny(e), tail);
                lemma_every_split(*e, vs);
            }
        },
        (SpaceV::ListAny(le), SpaceV::ListAny(re)) => {
            lemma_cons_like_sound(*le, SpaceV::ListAny(le), *re, SpaceV::ListAny(re), f, v);
            if let Val::List(vs) = v {
                let tail = Val::List(vs.drop_first());
                lemma_contains_unfold(SpaceV::ListAny(le), tail);
                lemma_contains_unfold(SpaceV::ListAny(re), tail);
                lemma_every_split(*le, vs);
                lemma_every_split(*re, vs);
            }
        },
        (SpaceV::ListAny(e), SpaceV::ListCons(h, t)) => {
            let d = cons_like_f(*e, SpaceV::ListAny(e), *h, *t, f)->0;
            let members = seq![SpaceV::ListNil, d];
            let u = SpaceV::Union(members);
            law_normalize_keeps_values(u, v);
            lemma_contains_unfold(u, v);
            let i = choose|i: int| 0 <= i < members.len() && #[trigger] contains(members[i], v);
            if i == 1 {
                assert(members[1] == d);
                lemma_cons_like_sound(*e, SpaceV::ListAny(e), *h, *t, f, v);
                if let Val::List(vs) = v {
                    let tail = Val::List(vs.drop_first());
                    lemma_contains_unfold(SpaceV::ListAny(e), tail);
                    lemma_every_split(*e, vs);
                }
            } else {
                assert(members[0] == SpaceV::ListNil);
            }
        },
        (SpaceV::ListCons(lh, lt), SpaceV::ListAny(re)) => {
            lemma_cons_like_sound(*lh, *lt, *re, SpaceV::ListAny(re), f, v);
            if let Val::List(vs) = v {
                let tail = Val::List(vs.drop_first());
                lemma_contains_unfold(SpaceV::ListAny(re), tail);
                lemma_every_split(*re, vs);
            }
        },
        (SpaceV::ListCons(lh, lt), SpaceV::ListCons(rh, rt)) => {
            lemma_cons_like_sound(*lh, *lt, *rh, *rt, f, v);
        },
        _ => {},
    }
}

proof fn lemma_diff_each_len(items: Seq<SpaceV>, remove: SpaceV, f: nat, n: nat)
    requires
        diff_each(items, remove, f, n) is Some,
    ensures
        n <= items.len(),
        (diff_each(items, remove, f, n)->0).len() == n,
    decreases n,
{
    if n > 0 {
        lemma_diff_each_len(items, remove, f, (n - 1) as nat);
    }
}

proof fn lemma_diff_each_sound(items: Seq<SpaceV>, remove: SpaceV, f: nat, n: nat, v: Val, i: int)
    requires
        diff_each(items, remove, f, n) is Some,
        space_bounds_inside(remove),
        0 <= i < n,
        contains((diff_each(items, remove, f, n)->0)[i], v),
    ensures
        i < items.len(),
        contains(items[i], v),
        !contains(remove, v),
    decreases f, 1nat, n,
{
    lemma_diff_each_len(items, remove, f, n);
    lemma_diff_each_len(items, remove, f, (n - 1) as nat);
    let prev = diff_each(items, remove, f, (n - 1) as nat)->0;
    let d = diff_f(items[n - 1], remove, f)->0;
    assert(diff_each(items, remove, f, n)->0 == prev.push(d));
    if i == n - 1 {
        law_difference_adds_nothing(items[n - 1], remove, f, v);
    } else {
        assert(prev.push(d)[i] == prev[i]);
        lemma_diff_each_sound(items, remove, f, (n - 1) as nat, v, i);
    }
}

proof fn lemma_diff_fold_sound(cur: SpaceV, items: Seq<SpaceV>, f: nat, n: nat, v: Val)
    requires
        diff_fold(cur, items, f, n) is Some,
        forall|j: int| 0 <= j < items.len() ==> #[trigger] space_bounds_inside(items[j]),
        contains(diff_fold(cur, items, f, n)->0, v),
    ensures
        n <= items.len(),
        contains(cur, v),
        forall|j: int| 0 <= j < n ==> !#[trigger] contains(items[j], v),
    decreases f, 1nat, n,
{
    if n > 0 {
        let c = diff_fold(cur, items, f, (n - 1) as nat)->0;
        law_difference_adds_nothing(c, items[n - 1], f, v);
        lemma_diff_fold_sound(cur, items, f, (n - 1) as nat, v);
    }
}

/// What the coverage checker leaves of `base` once `remove` is taken out
/// admits only values of `base` that `remove` lacks, when no integer bound
/// of `remove` sits at an end of the `i64` range.
pub proof fn law_difference_adds_nothing(base: SpaceV, remove: SpaceV, fuel: nat, v: Val)
    requires
        diff_f(base, remove, fuel) is Some,
        space_bounds_inside(remove),
        contains(diff_f(base, remove, fuel)->0, v),
    ensures
        contains(base, v),
        !contains(remove, v),
    decreases fuel, 0nat, 0nat,
{
    lemma_contains_unfold(base, v);
    lemma_contains_unfold(remove, v);
    let f = (fuel - 1) as nat;
    match (base, remove) {
        (SpaceV::Empty, _) => {},
        (_, SpaceV::Empty) => {},
        (SpaceV::Union(items), _) => {
            let ds = diff_each(items, remove, f, items.len())->0;
            lemma_diff_each_len(items, remove, f, items.len());
            let u = SpaceV::Union(ds);
            law_normalize_keeps_values(u, v);
            lemma_contains_unfold(u, v);
            let i = choose|i: int| 0 <= i < ds.len() && #[trigger] contains(ds[i], v);
            lemma_diff_each_sound(items, remove, f, items.len(), v, i);
        },
        (_, SpaceV::Union(items)) => {
            lemma_seq_bounds_inside(items);
            lemma_diff_fold_sound(base, items, f, items.len(), v);
        },
        _ => {
            if !spec_subset(base, remove) {
                match (base, remove) {
                    (SpaceV::Prim(a), SpaceV::Prim(b)) => {
                        lemma_prim_difference_sound(a, b, v);
                    },
                    (SpaceV::Variant(lo, ln, lf), SpaceV::Variant(ro, rn, rf)) => {
                        if lo == ro && ln == rn && lf.len() == rf.len() {
                            lemma_seq_bounds_inside(rf);
                            lemma_product_sound(lf, rf, f);
                            let ps = product_f(lf, rf, f)->0;
                            let items = Seq::new(ps.len(), |i: int| SpaceV::Variant(lo, ln, ps[i]));
                            let u = SpaceV::Union(items);
                            law_normalize_keeps_values(u, v);
                            lemma_contains_unfold(u, v);
                            let i = choose|i: int| 0 <= i < items.len() && #[trigger] contains(items[i], v);
                            lemma_contains_unfold(items[i], v);
                        }
                    },
                    (SpaceV::Record(lnames, lf), SpaceV::Record(rnames, rf)) => {
                        if lf.len() == rf.len() && lnames == rnames {
                            lemma_seq_bounds_inside(rf);
                            lemma_product_sound(lf, rf, f);
                            let ps = product_f(lf, rf, f)->0;
                            let items = Seq::new(ps.len(), |i: int| SpaceV::Record(lnames, ps[i]));
                            let u = SpaceV::Union(items);
                            law_normalize_keeps_values(u, v);
                            lemma_contains_unfold(u, v);
                            let i = choose|i: int| 0 <= i < items.len() && #[trigger] contains(items[i], v);
                            lemma_contains_unfold(items[i], v);
                        }
                    },
                    (SpaceV::Tuple(lf), SpaceV::Tuple(rf)) => {
                        if lf.len() == rf.len() {
                            lemma_seq_bounds_inside(rf);
                            lemma_product_sound(lf, rf, f);
                            let ps = product_f(lf, rf, f)->0;
                            let items = Seq::new(ps.len(), |i: int| SpaceV::Tuple(ps[i]));
                            let u = SpaceV::Union(items);
                            law_normalize_keeps_values(u, v);
                            lemma_contains_unfold(u, v);
                            let i = choose|i: int| 0 <= i < items.len() && #[trigger] contains(items[i], v);
                            lemma_contains_unfold(items[i], v);
                        }
                    },
                    (SpaceV::Opaque(_), SpaceV::Opaque(_)) => {},
                    _ => {
                        if is_list_v(base) && is_list_v(remove) {
                            let d = list_diff_f(base, remove, f)->0;
                            law_normalize_keeps_values(d, v);
                            lemma_list_diff_sound(base, remove, f, v);
                        }
                    },
                }
            }
        },
    }
}

/// Where the coverage checker's difference runs to an end, and no integer
/// bound of `remove` sits at an end of the `i64` range, it admits exactly
/// the values of `base` that `remove` lacks.
pub proof fn law_difference_is_exact(base: SpaceV, remove: SpaceV, v: Val)
    requires
        difference_terminates(base, remove),
        space_bounds_inside(remove),
    ensures
        contains(spec_space_difference(base, remove), v) <==> (contains(base, v) && !contains(
            remove,
            v,
        )),
{
    let fuel = choose|f: nat| #[trigger] diff_f(base, remove, f) is Some;
    if contains(spec_space_difference(base, remove), v) {
        law_difference_adds_nothing(base, remove, fuel, v);
    }
    if contains(base, v) && !contains(remove, v) {
        law_difference_covers(base, remove, fuel, v);
    }
}

} // verus!
