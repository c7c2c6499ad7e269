//! Intersection, inclusion and difference of match spaces.

use crate::space::{
    spaces_clone, depth, depths, lemma_depths, normalize_space, primitive_difference,
    primitive_intersection, record_names_v, record_spaces_v, space_clone, space_eq,
    space_is_empty, spaces_v, spec_is_empty, spec_normalize_space, spec_prim_difference,
    spec_prim_intersection, ListSpace, MatchSpace, RecordSpace, SpaceV, VariantSpace,
};
use vstd::prelude::*;

verus! {

/// A space view that describes lists.
pub open spec fn is_list_v(s: SpaceV) -> bool {
    match s {
        SpaceV::ListAny(_) | SpaceV::ListNil | SpaceV::ListCons(_, _) => true,
        _ => false,
    }
}

pub proof fn lemma_list_v_is_list(l: ListSpace)
    ensures
        is_list_v(l@),
{
}

// ---------------------------------------------------------------------------
// Intersection
// ---------------------------------------------------------------------------

/// The values in both spaces, as the coverage checker computes them.
pub open spec fn spec_intersection(l: SpaceV, r: SpaceV) -> SpaceV
    decreases depth(l) + depth(r), 1nat,
{
    match (l, r) {
        (SpaceV::Empty, _) => SpaceV::Empty,
        (_, SpaceV::Empty) => SpaceV::Empty,
        (SpaceV::Union(items), _) => spec_normalize_space(SpaceV::Union(intersect_each(items, r))),
        (_, SpaceV::Union(items)) => spec_normalize_space(SpaceV::Union(intersect_each(items, l))),
        (SpaceV::Prim(a), SpaceV::Prim(b)) => spec_prim_intersection(a, b),
        (SpaceV::Variant(lo, ln, lf), SpaceV::Variant(ro, rn, rf)) => {
            if lo == ro && ln == rn && lf.len() == rf.len() {
                spec_normalize_space(SpaceV::Variant(lo, ln, zip_intersect(lf, rf)))
            } else {
                SpaceV::Empty
            }
        },
        (SpaceV::Record(lnames, lf), SpaceV::Record(rnames, rf)) => {
            if lf.len() == rf.len() && lnames == rnames {
                spec_normalize_space(SpaceV::Record(lnames, zip_intersect(lf, rf)))
            } else {
                SpaceV::Empty
            }
        },
        (SpaceV::Tuple(lf), SpaceV::Tuple(rf)) => {
            if lf.len() == rf.len() {
                spec_normalize_space(SpaceV::Tuple(zip_intersect(lf, rf)))
            } else {
                SpaceV::Empty
            }
        },
        (SpaceV::Opaque(a), SpaceV::Opaque(b)) => if a == b {
            SpaceV::Opaque(a)
        } else {
            SpaceV::Empty
        },
        _ => if is_list_v(l) && is_list_v(r) {
            spec_normalize_space(spec_list_intersection(l, r))
        } else {
            SpaceV::Empty
        },
    }
}

/// Each space of `items` intersected with `other`.
pub open spec fn intersect_each(items: Seq<SpaceV>, other: SpaceV) -> Seq<SpaceV>
    decreases depths(items) + depth(other) + 1, 0nat,
{
    proof {
        lemma_depths(items);
    }
    Seq::new(
        items.len(),
        |i: int|
            if 0 <= i < items.len() {
                spec_intersection(items[i], other)
            } else {
                SpaceV::Empty
            },
    )
}

/// The spaces of `a` and `b` intersected position by position.
pub open spec fn zip_intersect(a: Seq<SpaceV>, b: Seq<SpaceV>) -> Seq<SpaceV>
    decreases depths(a) + depths(b) + 2, 0nat,
{
    proof {
        lemma_depths(a);
        lemma_depths(b);
    }
    Seq::new(
        a.len(),
        |i: int|
            if 0 <= i < a.len() && i < b.len() {
                spec_intersection(a[i], b[i])
            } else {
                SpaceV::Empty
            },
    )
}

/// The lists in both list spaces.
pub open spec fn spec_list_intersection(l: SpaceV, r: SpaceV) -> SpaceV
    decreases depth(l) + depth(r), 0nat,
{
    match (l, r) {
        (SpaceV::ListNil, SpaceV::ListNil) => SpaceV::ListNil,
        (SpaceV::ListNil, SpaceV::ListAny(_)) => SpaceV::ListNil,
        (SpaceV::ListAny(_), SpaceV::ListNil) => SpaceV::ListNil,
        (SpaceV::ListNil, SpaceV::ListCons(_, _)) => SpaceV::ListCons(
            Box::new(SpaceV::Empty),
            Box::new(SpaceV::Empty),
        ),
        (SpaceV::ListCons(_, _), SpaceV::ListNil) => SpaceV::ListCons(
            Box::new(SpaceV::Empty),
            Box::new(SpaceV::Empty),
        ),
        (SpaceV::ListAny(a), SpaceV::ListAny(b)) => SpaceV::ListAny(
            Box::new(spec_intersection(*a, *b)),
        ),
        (SpaceV::ListAny(e), SpaceV::ListCons(h, t)) => SpaceV::ListCons(
            Box::new(spec_intersection(*e, *h)),
            Box::new(spec_intersection(SpaceV::ListAny(e), *t)),
        ),
        (SpaceV::ListCons(h, t), SpaceV::ListAny(e)) => SpaceV::ListCons(
            Box::new(spec_intersection(*e, *h)),
            Box::new(spec_intersection(SpaceV::ListAny(e), *t)),
        ),
        (SpaceV::ListCons(lh, lt), SpaceV::ListCons(rh, rt)) => SpaceV::ListCons(
            Box::new(spec_intersection(*lh, *rh)),
            Box::new(spec_intersection(*lt, *rt)),
        ),
        _ => SpaceV::Empty,
    }
}

/// The values in both spaces, as the coverage checker computes them.
pub fn space_intersection(left: &MatchSpace, right: &MatchSpace) -> (r: MatchSpace)
    ensures
        r@ == spec_intersection(left@, right@),
    decreases depth(left@) + depth(right@), 1nat,
{
    match (left, right) {
        (MatchSpace::Empty, _) => {
            proof { assert(spec_intersection(left@, right@) == SpaceV::Empty); }
            MatchSpace::Empty
        },
        (_, MatchSpace::Empty) => {
            proof { assert(spec_intersection(left@, right@) == SpaceV::Empty); }
            MatchSpace::Empty
        },
        (MatchSpace::Union(items), _) => {
            proof {
                assert(spec_intersection(left@, right@) == spec_normalize_space(SpaceV::Union(intersect_each(spaces_v(items@), right@))));
            }
            normalize_space(MatchSpace::Union(intersection_each(items, right)))
        },
        (_, MatchSpace::Union(items)) => {
            proof {
                assert(spec_intersection(left@, right@) == spec_normalize_space(SpaceV::Union(intersect_each(spaces_v(items@), left@))));
            }
            normalize_space(MatchSpace::Union(intersection_each(items, left)))
        },
        (MatchSpace::Primitive(a), MatchSpace::Primitive(b)) => {
            proof { assert(spec_intersection(left@, right@) == spec_prim_intersection(a@, b@)); }
            primitive_intersection(a, b)
        },
        (MatchSpace::Variant(lv), MatchSpace::Variant(rv)) => {
            if lv.owner == rv.owner && lv.name == rv.name && lv.fields.len() == rv.fields.len() {
                proof {
                    assert(spec_intersection(left@, right@) == spec_normalize_space(SpaceV::Variant(lv.owner@, lv.name@, zip_intersect(spaces_v(lv.fields@), spaces_v(rv.fields@)))));
                }
                let fields = zip_intersection(&lv.fields, &rv.fields);
                normalize_space(
                    MatchSpace::Variant(
                        VariantSpace { owner: lv.owner.clone(), name: lv.name.clone(), fields },
                    ),
                )
            } else {
                MatchSpace::Empty
            }
        },
        (MatchSpace::Record(lr), MatchSpace::Record(rr)) => {
            if lr.fields.len() == rr.fields.len() && record_names_match(&lr.fields, &rr.fields) {
                proof {
                    assert(spec_intersection(left@, right@) == spec_normalize_space(SpaceV::Record(record_names_v(lr.fields@), zip_intersect(record_spaces_v(lr.fields@), record_spaces_v(rr.fields@)))));
                }
                let fields = zip_record_intersection(&lr.fields, &rr.fields);
                normalize_space(MatchSpace::Record(RecordSpace { fields }))
            } else {
                MatchSpace::Empty
            }
        },
        (MatchSpace::Tuple(lf), MatchSpace::Tuple(rf)) => {
            if lf.len() == rf.len() {
                proof {
                    assert(spec_intersection(left@, right@) == spec_normalize_space(SpaceV::Tuple(zip_intersect(spaces_v(lf@), spaces_v(rf@)))));
                }
                normalize_space(MatchSpace::Tuple(zip_intersection(lf, rf)))
            } else {
                MatchSpace::Empty
            }
        },
        (MatchSpace::List(l), MatchSpace::List(r)) => {
            proof {
                lemma_list_v_is_list(*l);
                lemma_list_v_is_list(*r);
                assert(spec_intersection(left@, right@) == spec_normalize_space(spec_list_intersection(l@, r@)));
            }
            normalize_space(MatchSpace::List(list_intersection(l, r)))
        },
        (MatchSpace::Opaque(a), MatchSpace::Opaque(b)) => {
            proof { assert(spec_intersection(left@, right@) == (if a@ == b@ { SpaceV::Opaque(a@) } else { SpaceV::Empty })); }
            if *a == *b {
                MatchSpace::Opaque(a.clone())
            } else {
                MatchSpace::Empty
            }
        },
        _ => {
            proof { assert(spec_intersection(left@, right@) == SpaceV::Empty); }
            MatchSpace::Empty
        },
    }
}

fn intersection_each(items: &Vec<MatchSpace>, other: &MatchSpace) -> (r: Vec<MatchSpace>)
    ensures
        spaces_v(r@) == intersect_each(spaces_v(items@), other@),
    decreases depths(spaces_v(items@)) + depth(other@) + 1, 0nat,
{
    let ghost iv = spaces_v(items@);
    let mut out: Vec<MatchSpace> = Vec::new();
    let mut i: usize = 0;
    while i < items.len()
        invariant
            i <= items.len(),
            iv == spaces_v(items@),
            out.len() == i,
            forall|k: int| 0 <= k < i ==> (#[trigger] out@[k])@ == spec_intersection(iv[k], other@),
        decreases items.len() - i,
    {
        proof {
            lemma_depths(iv);
            assert(iv[i as int] == items@[i as int]@);
        }
        out.push(space_intersection(&items[i], other));
        i += 1;
    }
    proof {
        assert(spaces_v(out@) =~= intersect_each(iv, other@));
    }
    out
}

/// Whether two lists of record fields name the same fields in order.
pub fn record_names_match(a: &Vec<(String, MatchSpace)>, b: &Vec<(String, MatchSpace)>) -> (r: bool)
    requires
        a.len() == b.len(),
    ensures
        r == (record_names_v(a@) == record_names_v(b@)),
{
    let mut i: usize = 0;
    while i < a.len()
        invariant
            a.len() == b.len(),
            i <= a.len(),
            forall|k: int| 0 <= k < i ==> record_names_v(a@)[k] == record_names_v(b@)[k],
        decreases a.len() - i,
    {
        if !(a[i].0 == b[i].0) {
            proof {
                assert(record_names_v(a@)[i as int] != record_names_v(b@)[i as int]);
            }
            return false;
        }
        i += 1;
    }
    proof {
        assert(record_names_v(a@) =~= record_names_v(b@));
    }
    true
}

fn zip_intersection(a: &Vec<MatchSpace>, b: &Vec<MatchSpace>) -> (r: Vec<MatchSpace>)
    requires
        a.len() == b.len(),
    ensures
        spaces_v(r@) == zip_intersect(spaces_v(a@), spaces_v(b@)),
    decreases depths(spaces_v(a@)) + depths(spaces_v(b@)) + 2, 0nat,
{
    let ghost av = spaces_v(a@);
    let ghost bv = spaces_v(b@);
    let mut out: Vec<MatchSpace> = Vec::new();
    let mut i: usize = 0;
    while i < a.len()
        invariant
            a.len() == b.len(),
            i <= a.len(),
            av == spaces_v(a@),
            bv == spaces_v(b@),
            out.len() == i,
            forall|k: int| 0 <= k < i ==> (#[trigger] out@[k])@ == spec_intersection(av[k], bv[k]),
        decreases a.len() - i,
    {
        proof {
            lemma_depths(av);
            lemma_depths(bv);
            assert(av[i as int] == a@[i as int]@);
            assert(bv[i as int] == b@[i as int]@);
        }
        out.push(space_intersection(&a[i], &b[i]));
        i += 1;
    }
    proof {
        assert(spaces_v(out@) =~= zip_intersect(av, bv));
    }
    out
}

fn zip_record_intersection(a: &Vec<(String, MatchSpace)>, b: &Vec<(String, MatchSpace)>) -> (r: Vec<
    (String, MatchSpace),
>)
    requires
        a.len() == b.len(),
    ensures
        record_names_v(r@) == record_names_v(a@),
        record_spaces_v(r@) == zip_intersect(record_spaces_v(a@), record_spaces_v(b@)),
    decreases depths(record_spaces_v(a@)) + depths(record_spaces_v(b@)) + 2, 0nat,
{
    let ghost av = record_spaces_v(a@);
    let ghost bv = record_spaces_v(b@);
    let mut out: Vec<(String, MatchSpace)> = Vec::new();
    let mut i: usize = 0;
    while i < a.len()
        invariant
            a.len() == b.len(),
            i <= a.len(),
            av == record_spaces_v(a@),
            bv == record_spaces_v(b@),
            out.len() == i,
            forall|k: int| 0 <= k < i ==> (#[trigger] out@[k]).1@ == spec_intersection(av[k], bv[k]) && out@[k].0@ == a@[k].0@,
        decreases a.len() - i,
    {
        proof {
            lemma_depths(av);
            lemma_depths(bv);
            assert(av[i as int] == a@[i as int].1@);
            assert(bv[i as int] == b@[i as int].1@);
        }
        let name = a[i].0.clone();
        let space = space_intersection(&a[i].1, &b[i].1);
        out.push((name, space));
        i += 1;
    }
    proof {
        assert(record_spaces_v(out@) =~= zip_intersect(av, bv));
        assert(record_names_v(out@) =~= record_names_v(a@));
    }
    out
}

/// The lists in both list spaces.
pub fn list_intersection(left: &ListSpace, right: &ListSpace) -> (r: ListSpace)
    ensures
        r@ == spec_list_intersection(left@, right@),
    decreases depth(left@) + depth(right@), 0nat,
{
    match (left, right) {
        (ListSpace::Nil, ListSpace::Nil) => ListSpace::Nil,
        (ListSpace::Nil, ListSpace::Any(_)) => ListSpace::Nil,
        (ListSpace::Any(_), ListSpace::Nil) => ListSpace::Nil,
        (ListSpace::Nil, ListSpace::Cons { .. }) => ListSpace::Cons {
            head: Box::new(MatchSpace::Empty),
            tail: Box::new(MatchSpace::Empty),
        },
        (ListSpace::Cons { .. }, ListSpace::Nil) => ListSpace::Cons {
            head: Box::new(MatchSpace::Empty),
            tail: Box::new(MatchSpace::Empty),
        },
        (ListSpace::Any(a), ListSpace::Any(b)) => ListSpace::Any(Box::new(space_intersection(a, b))),
        (ListSpace::Any(element), ListSpace::Cons { head, tail }) => {
            let any = MatchSpace::List(ListSpace::Any(Box::new(space_clone(element))));
            ListSpace::Cons {
                head: Box::new(space_intersection(element, head)),
                tail: Box::new(space_intersection(&any, tail)),
            }
        },
        (ListSpace::Cons { head, tail }, ListSpace::Any(element)) => {
            let any = MatchSpace::List(ListSpace::Any(Box::new(space_clone(element))));
            ListSpace::Cons {
                head: Box::new(space_intersection(element, head)),
                tail: Box::new(space_intersection(&any, tail)),
            }
        },
        (
            ListSpace::Cons { head: left_head, tail: left_tail },
            ListSpace::Cons { head: right_head, tail: right_tail },
        ) => ListSpace::Cons {
            head: Box::new(space_intersection(left_head, right_head)),
            tail: Box::new(space_intersection(left_tail, right_tail)),
        },
    }
}


// ---------------------------------------------------------------------------
// Inclusion
// ---------------------------------------------------------------------------

/// Whether the coverage checker finds `l` inside `r`.
pub open spec fn spec_subset(l: SpaceV, r: SpaceV) -> bool
    decreases depth(l) + depth(r), 3nat, 0nat,
{
    if l == r {
        true
    } else {
        match (l, r) {
            (SpaceV::Empty, _) => true,
            (SpaceV::Union(items), _) => all_subset(items, r, items.len()),
            (_, SpaceV::Union(items)) => any_superset(l, items, items.len()),
            (SpaceV::Prim(a), SpaceV::Prim(b)) => spec_is_empty(spec_prim_difference(a, b)),
            (SpaceV::Variant(lo, ln, lf), SpaceV::Variant(ro, rn, rf)) => lo == ro && ln == rn
                && lf.len() == rf.len() && pairwise_subset(lf, rf, lf.len()),
            (SpaceV::Record(lnames, lf), SpaceV::Record(rnames, rf)) => lf.len() == rf.len()
                && lnames == rnames && pairwise_subset(lf, rf, lf.len()),
            (SpaceV::Tuple(lf), SpaceV::Tuple(rf)) => lf.len() == rf.len() && pairwise_subset(
                lf,
                rf,
                lf.len(),
            ),
            (SpaceV::Opaque(a), SpaceV::Opaque(b)) => a == b,
            _ => is_list_v(l) && is_list_v(r) && spec_list_subset(l, r),
        }
    }
}

/// The first `n` spaces of `a` are each inside the one of `b` at the same
/// position.
pub open spec fn pairwise_subset(a: Seq<SpaceV>, b: Seq<SpaceV>, n: nat) -> bool
    decreases depths(a) + depths(b) + 2, 2nat, n,
{
    if n == 0 || n > a.len() || n > b.len() {
        n == 0
    } else {
        proof {
            lemma_depths(a);
            lemma_depths(b);
        }
        pairwise_subset(a, b, (n - 1) as nat) && spec_subset(a[n - 1], b[n - 1])
    }
}

/// The first `n` spaces of `items` are each inside `r`.
pub open spec fn all_subset(items: Seq<SpaceV>, r: SpaceV, n: nat) -> bool
    decreases depths(items) + depth(r) + 1, 2nat, n,
{
    if n == 0 || n > items.len() {
        n == 0
    } else {
        proof {
            lemma_depths(items);
        }
        all_subset(items, r, (n - 1) as nat) && spec_subset(items[n - 1], r)
    }
}

/// `l` is inside one of the first `n` spaces of `items`.
pub open spec fn any_superset(l: SpaceV, items: Seq<SpaceV>, n: nat) -> bool
    decreases depths(items) + depth(l) + 1, 2nat, n,
{
    if n == 0 || n > items.len() {
        false
    } else {
        proof {
            lemma_depths(items);
        }
        any_superset(l, items, (n - 1) as nat) || spec_subset(l, items[n - 1])
    }
}

/// Whether the coverage checker finds list space `l` inside list space `r`.
pub open spec fn spec_list_subset(l: SpaceV, r: SpaceV) -> bool
    decreases depth(l) + depth(r), 1nat, 0nat,
{
    match (l, r) {
        (SpaceV::ListNil, SpaceV::ListNil) => true,
        (SpaceV::ListNil, SpaceV::ListAny(_)) => true,
        (SpaceV::ListAny(a), SpaceV::ListAny(b)) => spec_subset(*a, *b),
        (SpaceV::ListCons(h, t), SpaceV::ListAny(e)) => spec_subset(*h, *e) && spec_subset(
            *t,
            SpaceV::ListAny(e),
        ),
        (SpaceV::ListCons(lh, lt), SpaceV::ListCons(rh, rt)) => spec_subset(*lh, *rh) && spec_subset(
            *lt,
            *rt,
        ),
        _ => false,
    }
}

/// Whether the coverage checker finds `left` inside `right`.
pub fn space_subset_of(left: &MatchSpace, right: &MatchSpace) -> (r: bool)
    ensures
        r == spec_subset(left@, right@),
    decreases depth(left@) + depth(right@), 3nat, 0nat,
{
    if space_eq(left, right) {
        return true;
    }
    match (left, right) {
        (MatchSpace::Empty, _) => true,
        (MatchSpace::Union(items), _) => {
            proof {
                assert(spec_subset(left@, right@) == all_subset(spaces_v(items@), right@, items@.len()));
            }
            all_subset_of(items, right)
        },
        (_, MatchSpace::Union(items)) => {
            proof {
                assert(spec_subset(left@, right@) == any_superset(left@, spaces_v(items@), items@.len()));
            }
            any_superset_of(left, items)
        },
        (MatchSpace::Primitive(a), MatchSpace::Primitive(b)) => {
            proof {
                assert(spec_subset(left@, right@) == spec_is_empty(spec_prim_difference(a@, b@)));
            }
            let d = primitive_difference(a, b);
            space_is_empty(&d)
        },
        (MatchSpace::Variant(lv), MatchSpace::Variant(rv)) => {
            proof {
                assert(spec_subset(left@, right@) == (lv.owner@ == rv.owner@ && lv.name@ == rv.name@
                    && spaces_v(lv.fields@).len() == spaces_v(rv.fields@).len()
                    && pairwise_subset(spaces_v(lv.fields@), spaces_v(rv.fields@), spaces_v(lv.fields@).len())));
            }
            lv.owner == rv.owner && lv.name == rv.name && lv.fields.len() == rv.fields.len()
                && pairwise_subset_of(&lv.fields, &rv.fields)
        },
        (MatchSpace::Record(lr), MatchSpace::Record(rr)) => {
            proof {
                assert(spec_subset(left@, right@) == (record_spaces_v(lr.fields@).len() == record_spaces_v(rr.fields@).len()
                    && record_names_v(lr.fields@) == record_names_v(rr.fields@)
                    && pairwise_subset(record_spaces_v(lr.fields@), record_spaces_v(rr.fields@), record_spaces_v(lr.fields@).len())));
            }
            lr.fields.len() == rr.fields.len() && record_names_match(&lr.fields, &rr.fields)
                && record_pairwise_subset_of(&lr.fields, &rr.fields)
        },
        (MatchSpace::Tuple(lf), MatchSpace::Tuple(rf)) => {
            proof {
                assert(spec_subset(left@, right@) == (spaces_v(lf@).len() == spaces_v(rf@).len()
                    && pairwise_subset(spaces_v(lf@), spaces_v(rf@), spaces_v(lf@).len())));
            }
            lf.len() == rf.len() && pairwise_subset_of(lf, rf)
        },
        (MatchSpace::List(l), MatchSpace::List(r)) => {
            proof {
                lemma_list_v_is_list(*l);
                lemma_list_v_is_list(*r);
                assert(spec_subset(left@, right@) == spec_list_subset(l@, r@));
            }
            list_subset_of(l, r)
        },
        (MatchSpace::Opaque(a), MatchSpace::Opaque(b)) => *a == *b,
        _ => {
            proof {
                assert(!spec_subset(left@, right@));
            }
            false
        },
    }
}

fn pairwise_subset_of(a: &Vec<MatchSpace>, b: &Vec<MatchSpace>) -> (r: bool)
    requires
        a.len() == b.len(),
    ensures
        r == pairwise_subset(spaces_v(a@), spaces_v(b@), spaces_v(a@).len()),
    decreases depths(spaces_v(a@)) + depths(spaces_v(b@)) + 2, 2nat, a.len() + 1,
{
    let ghost av = spaces_v(a@);
    let ghost bv = spaces_v(b@);
    let mut acc = true;
    let mut i: usize = 0;
    while i < a.len()
        invariant
            a.len() == b.len(),
            i <= a.len(),
            av == spaces_v(a@),
            bv == spaces_v(b@),
            acc == pairwise_subset(av, bv, i as nat),
        decreases a.len() - i,
    {
        proof {
            lemma_depths(av);
            lemma_depths(bv);
            assert(av[i as int] == a@[i as int]@);
            assert(bv[i as int] == b@[i as int]@);
            assert(pairwise_subset(av, bv, (i + 1) as nat) == (pairwise_subset(av, bv, i as nat) && spec_subset(av[i as int], bv[i as int])));
        }
        acc = acc && space_subset_of(&a[i], &b[i]);
        i += 1;
    }
    acc
}

fn record_pairwise_subset_of(a: &Vec<(String, MatchSpace)>, b: &Vec<(String, MatchSpace)>) -> (r: bool)
    requires
        a.len() == b.len(),
    ensures
        r == pairwise_subset(record_spaces_v(a@), record_spaces_v(b@), record_spaces_v(a@).len()),
    decreases depths(record_spaces_v(a@)) + depths(record_spaces_v(b@)) + 2, 2nat, a.len() + 1,
{
    let ghost av = record_spaces_v(a@);
    let ghost bv = record_spaces_v(b@);
    let mut acc = true;
    let mut i: usize = 0;
    while i < a.len()
        invariant
            a.len() == b.len(),
            i <= a.len(),
            av == record_spaces_v(a@),
            bv == record_spaces_v(b@),
            acc == pairwise_subset(av, bv, i as nat),
        decreases a.len() - i,
    {
        proof {
            lemma_depths(av);
            lemma_depths(bv);
            assert(av[i as int] == a@[i as int].1@);
            assert(bv[i as int] == b@[i as int].1@);
            assert(pairwise_subset(av, bv, (i + 1) as nat) == (pairwise_subset(av, bv, i as nat) && spec_subset(av[i as int], bv[i as int])));
        }
        acc = acc && space_subset_of(&a[i].1, &b[i].1);
        i += 1;
    }
    acc
}

fn all_subset_of(items: &Vec<MatchSpace>, right: &MatchSpace) -> (r: bool)
    ensures
        r == all_subset(spaces_v(items@), right@, spaces_v(items@).len()),
    decreases depths(spaces_v(items@)) + depth(right@) + 1, 2nat, items.len() + 1,
{
    let ghost iv = spaces_v(items@);
    let mut acc = true;
    let mut i: usize = 0;
    while i < items.len()
        invariant
            i <= items.len(),
            iv == spaces_v(items@),
            acc == all_subset(iv, right@, i as nat),
        decreases items.len() - i,
    {
        proof {
            lemma_depths(iv);
            assert(iv[i as int] == items@[i as int]@);
            assert(all_subset(iv, right@, (i + 1) as nat) == (all_subset(iv, right@, i as nat) && spec_subset(iv[i as int], right@)));
        }
        acc = acc && space_subset_of(&items[i], right);
        i += 1;
    }
    acc
}

fn any_superset_of(left: &MatchSpace, items: &Vec<MatchSpace>) -> (r: bool)
    ensures
        r == any_superset(left@, spaces_v(items@), spaces_v(items@).len()),
    decreases depths(spaces_v(items@)) + depth(left@) + 1, 2nat, items.len() + 1,
{
    let ghost iv = spaces_v(items@);
    let mut acc = false;
    let mut i: usize = 0;
    while i < items.len()
        invariant
            i <= items.len(),
            iv == spaces_v(items@),
            acc == any_superset(left@, iv, i as nat),
        decreases items.len() - i,
    {
        proof {
            lemma_depths(iv);
            assert(iv[i as int] == items@[i as int]@);
            assert(any_superset(left@, iv, (i + 1) as nat) == (any_superset(left@, iv, i as nat) || spec_subset(left@, iv[i as int])));
        }
        acc = acc || space_subset_of(left, &items[i]);
        i += 1;
    }
    acc
}

/// Whether the coverage checker finds list space `left` inside `right`.
pub fn list_subset_of(left: &ListSpace, right: &ListSpace) -> (r: bool)
    ensures
        r == spec_list_subset(left@, right@),
    decreases depth(left@) + depth(right@), 1nat, 0nat,
{
    match (left, right) {
        (ListSpace::Nil, ListSpace::Nil) => true,
        (ListSpace::Nil, ListSpace::Any(_)) => true,
        (ListSpace::Nil, ListSpace::Cons { .. }) => false,
        (ListSpace::Cons { .. }, ListSpace::Nil) => false,
        (ListSpace::Any(_), ListSpace::Nil) => false,
        (ListSpace::Any(a), ListSpace::Any(b)) => space_subset_of(a, b),
        (ListSpace::Cons { head, tail }, ListSpace::Any(element)) => {
            let any = MatchSpace::List(ListSpace::Any(Box::new(space_clone(element))));
            space_subset_of(head, element) && space_subset_of(tail, &any)
        },
        (ListSpace::Any(_), ListSpace::Cons { .. }) => false,
        (
            ListSpace::Cons { head: left_head, tail: left_tail },
            ListSpace::Cons { head: right_head, tail: right_tail },
        ) => space_subset_of(left_head, right_head) && space_subset_of(left_tail, right_tail),
    }
}


// ---------------------------------------------------------------------------
// Difference
//
// The difference recurses through list spaces in a way that does not always
// come to an end (an unbounded list minus an unbounded list whose elements
// partly overlap calls itself again with the same arguments).  Its meaning is
// therefore given with a fuel argument: `None` when the fuel runs out, and
// the operation is defined on the pairs of spaces for which some fuel
// suffices.
// ---------------------------------------------------------------------------

/// A list of one field space inserted between a prefix and the remaining
/// fields of `base`.
pub open spec fn product_row(prefix: Seq<SpaceV>, d: SpaceV, base: Seq<SpaceV>, i: int) -> Seq<SpaceV> {
    prefix.push(d) + base.subrange(i + 1, base.len() as int)
}

/// `cons_space`: a list with the given head and tail, normalized.
pub open spec fn spec_cons_space(head: SpaceV, tail: SpaceV) -> SpaceV {
    spec_normalize_space(SpaceV::ListCons(Box::new(head), Box::new(tail)))
}

pub open spec fn diff_f(base: SpaceV, remove: SpaceV, fuel: nat) -> Option<SpaceV>
    decreases fuel, 0nat, 0nat,
{
    if fuel == 0 {
        None
    } else {
        let f = (fuel - 1) as nat;
        match (base, remove) {
            (SpaceV::Empty, _) => Some(SpaceV::Empty),
            (_, SpaceV::Empty) => Some(base),
            (SpaceV::Union(items), _) => match diff_each(items, remove, f, items.len()) {
                Some(ds) => Some(spec_normalize_space(SpaceV::Union(ds))),
                None => None,
            },
            (_, SpaceV::Union(items)) => diff_fold(base, items, f, items.len()),
            _ => if spec_subset(base, remove) {
                Some(SpaceV::Empty)
            } else {
                match (base, remove) {
                    (SpaceV::Prim(a), SpaceV::Prim(b)) => Some(spec_prim_difference(a, b)),
                    (SpaceV::Variant(lo, ln, lf), SpaceV::Variant(ro, rn, rf)) => {
                        if lo == ro && ln == rn && lf.len() == rf.len() {
                            match product_f(lf, rf, f) {
                                Some(ps) => Some(spec_normalize_space(SpaceV::Union(Seq::new(ps.len(), |i: int| SpaceV::Variant(lo, ln, ps[i]))))),
                                None => None,
                            }
                        } else {
                            Some(base)
                        }
                    },
                    (SpaceV::Record(lnames, lf), SpaceV::Record(rnames, rf)) => {
                        if lf.len() == rf.len() && lnames == rnames {
                            match product_f(lf, rf, f) {
                                Some(ps) => Some(spec_normalize_space(SpaceV::Union(Seq::new(ps.len(), |i: int| SpaceV::Record(lnames, ps[i]))))),
                                None => None,
                            }
                        } else {
                            Some(base)
                        }
                    },
                    (SpaceV::Tuple(lf), SpaceV::Tuple(rf)) => {
                        if lf.len() == rf.len() {
                            match product_f(lf, rf, f) {
                                Some(ps) => Some(spec_normalize_space(SpaceV::Union(Seq::new(ps.len(), |i: int| SpaceV::Tuple(ps[i]))))),
                                None => None,
                            }
                        } else {
                            Some(base)
                        }
                    },
                    (SpaceV::Opaque(a), SpaceV::Opaque(b)) => if a == b {
                        Some(SpaceV::Empty)
                    } else {
                        Some(base)
                    },
                    _ => if is_list_v(base) && is_list_v(remove) {
                        match list_diff_f(base, remove, f) {
                            Some(d) => Some(spec_normalize_space(d)),
                            None => None,
                        }
                    } else {
                        Some(base)
                    },
                }
            },
        }
    }
}

/// The first `n` spaces of `items`, each with `remove` taken out.
pub open spec fn diff_each(items: Seq<SpaceV>, remove: SpaceV, f: nat, n: nat) -> Option<Seq<SpaceV>>
    decreases f, 1nat, n,
{
    if n == 0 || n > items.len() {
        if n == 0 {
            Some(Seq::<SpaceV>::empty())
        } else {
            None
        }
    } else {
        match (diff_each(items, remove, f, (n - 1) as nat), diff_f(items[n - 1], remove, f)) {
            (Some(prev), Some(d)) => Some(prev.push(d)),
            _ => None,
        }
    }
}

/// `cur` with the first `n` spaces of `items` taken out, one after the other.
pub open spec fn diff_fold(cur: SpaceV, items: Seq<SpaceV>, f: nat, n: nat) -> Option<SpaceV>
    decreases f, 1nat, n,
{
    if n == 0 || n > items.len() {
        if n == 0 {
            Some(cur)
        } else {
            None
        }
    } else {
        match diff_fold(cur, items, f, (n - 1) as nat) {
            Some(c) => diff_f(c, items[n - 1], f),
            None => None,
        }
    }
}

/// The state of the product difference after `k` fields: the rows found so
/// far, the common prefix, and whether the walk has stopped.
pub open spec fn prod_state(base: Seq<SpaceV>, remove: Seq<SpaceV>, f: nat, k: nat) -> Option<
    (Seq<Seq<SpaceV>>, Seq<SpaceV>, bool),
>
    decreases f, 2nat, k,
{
    if k == 0 || k > base.len() || k > remove.len() {
        if k == 0 {
            Some((Seq::<Seq<SpaceV>>::empty(), Seq::<SpaceV>::empty(), false))
        } else {
            None
        }
    } else {
        match prod_state(base, remove, f, (k - 1) as nat) {
            None => None,
            Some((res, pre, stopped)) => if stopped {
                Some((res, pre, true))
            } else {
                let i = k - 1;
                match diff_f(base[i], remove[i], f) {
                    None => None,
                    Some(d) => {
                        let res2 = if !spec_is_empty(d) {
                            res.push(product_row(pre, d, base, i))
                        } else {
                            res
                        };
                        let eq = spec_intersection(base[i], remove[i]);
                        if spec_is_empty(eq) {
                            Some((res2, pre, true))
                        } else {
                            Some((res2, pre.push(eq), false))
                        }
                    },
                }
            },
        }
    }
}

/// The rows of the product difference of two equally long field lists.
pub open spec fn product_f(base: Seq<SpaceV>, remove: Seq<SpaceV>, f: nat) -> Option<Seq<Seq<SpaceV>>>
    decreases f, 3nat, 0nat,
{
    match prod_state(base, remove, f, base.len()) {
        Some((res, _, _)) => Some(res),
        None => None,
    }
}

/// The list difference of head/tail pairs, as a union of list spaces.
pub open spec fn cons_like_f(bh: SpaceV, bt: SpaceV, rh: SpaceV, rt: SpaceV, f: nat) -> Option<SpaceV>
    decreases f, 4nat, 0nat,
{
    match product_f(seq![bh, bt], seq![rh, rt], f) {
        Some(ps) => Some(spec_normalize_space(SpaceV::Union(Seq::new(ps.len(), |i: int| spec_cons_space(ps[i][0], ps[i][1]))))),
        None => None,
    }
}

pub open spec fn list_diff_f(base: SpaceV, remove: SpaceV, f: nat) -> Option<SpaceV>
    decreases f, 5nat, 0nat,
{
    match (base, remove) {
        (SpaceV::ListNil, SpaceV::ListNil) => Some(SpaceV::Empty),
        (SpaceV::ListNil, SpaceV::ListAny(_)) => Some(SpaceV::Empty),
        (SpaceV::ListNil, SpaceV::ListCons(_, _)) => Some(SpaceV::ListNil),
        (SpaceV::ListAny(e), SpaceV::ListNil) => Some(spec_cons_space(*e, SpaceV::ListAny(e))),
        (SpaceV::ListAny(le), SpaceV::ListAny(re)) => cons_like_f(*le, SpaceV::ListAny(le), *re, SpaceV::ListAny(re), f),
        (SpaceV::ListAny(e), SpaceV::ListCons(h, t)) => match cons_like_f(*e, SpaceV::ListAny(e), *h, *t, f) {
            Some(d) => Some(spec_normalize_space(SpaceV::Union(seq![SpaceV::ListNil, d]))),
            None => None,
        },
        (SpaceV::ListCons(_, _), SpaceV::ListNil) => Some(base),
        (SpaceV::ListCons(lh, lt), SpaceV::ListAny(re)) => cons_like_f(*lh, *lt, *re, SpaceV::ListAny(re), f),
        (SpaceV::ListCons(lh, lt), SpaceV::ListCons(rh, rt)) => cons_like_f(*lh, *lt, *rh, *rt, f),
        _ => None,
    }
}

/// The coverage checker's difference runs to an end on these spaces.
pub open spec fn difference_terminates(base: SpaceV, remove: SpaceV) -> bool {
    exists|f: nat| #[trigger] diff_f(base, remove, f) is Some
}

/// The difference the coverage checker computes, where it runs to an end.
pub open spec fn spec_space_difference(base: SpaceV, remove: SpaceV) -> SpaceV {
    diff_f(base, remove, choose|f: nat| #[trigger] diff_f(base, remove, f) is Some).unwrap()
}


/// The views of a list of rows of spaces.
pub open spec fn rows_v(v: Seq<Vec<MatchSpace>>) -> Seq<Seq<SpaceV>> {
    Seq::new(v.len(), |i: int| spaces_v(v[i]@))
}

proof fn lemma_diff_each(items: Seq<SpaceV>, remove: SpaceV, f: nat, n: nat)
    requires
        diff_each(items, remove, f, n) is Some,
    ensures
        n <= items.len(),
        forall|k: nat| k <= n ==> #[trigger] diff_each(items, remove, f, k) is Some,
        forall|k: int| 0 <= k < n ==> #[trigger] diff_f(items[k], remove, f) is Some,
    decreases n,
{
    if n > 0 {
        lemma_diff_each(items, remove, f, (n - 1) as nat);
        assert forall|k: int| 0 <= k < n implies #[trigger] diff_f(items[k], remove, f) is Some by {
            if k == n - 1 {
            }
        }
    }
}

proof fn lemma_diff_fold(cur: SpaceV, items: Seq<SpaceV>, f: nat, n: nat)
    requires
        diff_fold(cur, items, f, n) is Some,
    ensures
        n <= items.len(),
        forall|k: nat| k <= n ==> #[trigger] diff_fold(cur, items, f, k) is Some,
    decreases n,
{
    if n > 0 {
        lemma_diff_fold(cur, items, f, (n - 1) as nat);
    }
}

proof fn lemma_prod_state(base: Seq<SpaceV>, remove: Seq<SpaceV>, f: nat, n: nat)
    requires
        prod_state(base, remove, f, n) is Some,
    ensures
        n <= base.len(),
        n <= remove.len(),
        forall|k: nat| k <= n ==> #[trigger] prod_state(base, remove, f, k) is Some,
    decreases n,
{
    if n > 0 {
        lemma_prod_state(base, remove, f, (n - 1) as nat);
    }
}

proof fn lemma_prod_stopped(base: Seq<SpaceV>, remove: Seq<SpaceV>, f: nat, k: nat, n: nat)
    requires
        k <= n <= base.len(),
        n <= remove.len(),
        prod_state(base, remove, f, k) is Some,
        prod_state(base, remove, f, k).unwrap().2,
    ensures
        prod_state(base, remove, f, n) == prod_state(base, remove, f, k),
    decreases n - k,
{
    if k < n {
        lemma_prod_stopped(base, remove, f, k, (n - 1) as nat);
    }
}

fn difference_rec(base: &MatchSpace, remove: &MatchSpace, Ghost(fuel): Ghost<nat>) -> (r: MatchSpace)
    requires
        diff_f(base@, remove@, fuel) is Some,
    ensures
        r@ == diff_f(base@, remove@, fuel).unwrap(),
    decreases fuel, 0nat, 0nat,
{
    let ghost f = (fuel - 1) as nat;
    match (base, remove) {
        (MatchSpace::Empty, _) => MatchSpace::Empty,
        (_, MatchSpace::Empty) => space_clone(base),
        (MatchSpace::Union(items), _) => {
            proof {
                assert(diff_each(spaces_v(items@), remove@, f, spaces_v(items@).len()) is Some);
            }
            let ds = difference_each(items, remove, Ghost(f));
            normalize_space(MatchSpace::Union(ds))
        },
        (_, MatchSpace::Union(items)) => {
            proof {
                assert(diff_fold(base@, spaces_v(items@), f, spaces_v(items@).len()) is Some);
            }
            difference_fold(base, items, Ghost(f))
        },
        _ => {
            if space_subset_of(base, remove) {
                return MatchSpace::Empty;
            }
            match (base, remove) {
                (MatchSpace::Primitive(a), MatchSpace::Primitive(b)) => primitive_difference(a, b),
                (MatchSpace::Variant(lv), MatchSpace::Variant(rv)) => {
                    if lv.owner == rv.owner && lv.name == rv.name && lv.fields.len() == rv.fields.len() {
                        difference_variant(lv, rv, Ghost(f))
                    } else {
                        space_clone(base)
                    }
                },
                (MatchSpace::Record(lr), MatchSpace::Record(rr)) => {
                    if lr.fields.len() == rr.fields.len() && record_names_match(&lr.fields, &rr.fields) {
                        difference_record(lr, rr, Ghost(f))
                    } else {
                        space_clone(base)
                    }
                },
                (MatchSpace::Tuple(lf), MatchSpace::Tuple(rf)) => {
                    if lf.len() == rf.len() {
                        difference_tuple(lf, rf, Ghost(f))
                    } else {
                        space_clone(base)
                    }
                },
                (MatchSpace::List(l), MatchSpace::List(r)) => {
                    proof {
                        lemma_list_v_is_list(*l);
                        lemma_list_v_is_list(*r);
                    }
                    normalize_space(list_difference(l, r, Ghost(f)))
                },
                (MatchSpace::Opaque(a), MatchSpace::Opaque(b)) => {
                    if *a == *b {
                        MatchSpace::Empty
                    } else {
                        space_clone(base)
                    }
                },
                _ => space_clone(base),
            }
        },
    }
}

fn difference_each(items: &Vec<MatchSpace>, remove: &MatchSpace, Ghost(f): Ghost<nat>) -> (r: Vec<MatchSpace>)
    requires
        diff_each(spaces_v(items@), remove@, f, spaces_v(items@).len()) is Some,
    ensures
        spaces_v(r@) == diff_each(spaces_v(items@), remove@, f, spaces_v(items@).len()).unwrap(),
    decreases f, 1nat, 0nat,
{
    let ghost iv = spaces_v(items@);
    proof {
        lemma_diff_each(iv, remove@, f, iv.len());
    }
    let mut out: Vec<MatchSpace> = Vec::new();
    let mut i: usize = 0;
    while i < items.len()
        invariant
            i <= items.len(),
            iv == spaces_v(items@),
            forall|k: int| 0 <= k < iv.len() ==> #[trigger] diff_f(iv[k], remove@, f) is Some,
            diff_each(iv, remove@, f, i as nat) == Some(spaces_v(out@)),
        decreases items.len() - i,
    {
        proof {
            assert(iv[i as int] == items@[i as int]@);
            assert(diff_f(iv[i as int], remove@, f) is Some);
        }
        let d = difference_rec(&items[i], remove, Ghost(f));
        proof {
            lemma_spaces_v_push_ops(out@, d);
        }
        out.push(d);
        i += 1;
    }
    out
}

proof fn lemma_spaces_v_push_ops(v: Seq<MatchSpace>, x: MatchSpace)
    ensures
        spaces_v(v.push(x)) == spaces_v(v).push(x@),
{
    assert(spaces_v(v.push(x)) =~= spaces_v(v).push(x@));
}

fn difference_fold(base: &MatchSpace, items: &Vec<MatchSpace>, Ghost(f): Ghost<nat>) -> (r: MatchSpace)
    requires
        diff_fold(base@, spaces_v(items@), f, spaces_v(items@).len()) is Some,
    ensures
        r@ == diff_fold(base@, spaces_v(items@), f, spaces_v(items@).len()).unwrap(),
    decreases f, 1nat, 0nat,
{
    let ghost iv = spaces_v(items@);
    proof {
        lemma_diff_fold(base@, iv, f, iv.len());
    }
    let mut current = space_clone(base);
    let mut i: usize = 0;
    while i < items.len()
        invariant
            i <= items.len(),
            iv == spaces_v(items@),
            forall|k: nat| k <= iv.len() ==> #[trigger] diff_fold(base@, iv, f, k) is Some,
            diff_fold(base@, iv, f, i as nat) == Some(current@),
        decreases items.len() - i,
    {
        proof {
            assert(iv[i as int] == items@[i as int]@);
            assert(diff_fold(base@, iv, f, (i + 1) as nat) is Some);
        }
        current = difference_rec(&current, &items[i], Ghost(f));
        i += 1;
    }
    current
}

/// The product difference of two equally long field lists: one row per
/// field where the base is not covered, with the fields before it narrowed
/// to the common part and the fields after it kept.
fn difference_product_fields(base: &Vec<MatchSpace>, remove: &Vec<MatchSpace>, Ghost(f): Ghost<nat>) -> (r: Vec<Vec<MatchSpace>>)
    requires
        product_f(spaces_v(base@), spaces_v(remove@), f) is Some,
    ensures
        rows_v(r@) == product_f(spaces_v(base@), spaces_v(remove@), f).unwrap(),
        forall|i: int| 0 <= i < r@.len() ==> (#[trigger] r@[i]).len() == base.len(),
    decreases f, 3nat, 0nat,
{
    let ghost bv = spaces_v(base@);
    let ghost rv = spaces_v(remove@);
    let ghost n = bv.len();
    proof {
        lemma_prod_state(bv, rv, f, n);
    }
    let mut results: Vec<Vec<MatchSpace>> = Vec::new();
    let mut prefix: Vec<MatchSpace> = Vec::new();
    let mut index: usize = 0;
    while index < base.len()
        invariant
            index <= base.len(),
            base.len() <= remove.len(),
            bv == spaces_v(base@),
            rv == spaces_v(remove@),
            n == bv.len(),
            prefix.len() == index,
            forall|k: nat| k <= n ==> #[trigger] prod_state(bv, rv, f, k) is Some,
            prod_state(bv, rv, f, index as nat) == Some((rows_v(results@), spaces_v(prefix@), false)),
            forall|i: int| 0 <= i < results@.len() ==> (#[trigger] results@[i]).len() == base.len(),
        decreases base.len() - index,
    {
        proof {
            assert(bv[index as int] == base@[index as int]@);
            assert(rv[index as int] == remove@[index as int]@);
            assert(prod_state(bv, rv, f, (index + 1) as nat) is Some);
        }
        let diff = difference_rec(&base[index], &remove[index], Ghost(f));
        let ghost old_results = results@;
        if !space_is_empty(&diff) {
            let mut fields = spaces_clone(&prefix);
            let ghost dv = diff@;
            proof {
                lemma_spaces_v_push_ops(fields@, diff);
            }
            fields.push(diff);
            let mut j: usize = index + 1;
            while j < base.len()
                invariant
                    index < j <= base.len(),
                    bv == spaces_v(base@),
                    fields.len() == j,
                    spaces_v(fields@) == spaces_v(prefix@).push(dv) + bv.subrange(index + 1, j as int),
                decreases base.len() - j,
            {
                let c = space_clone(&base[j]);
                proof {
                    lemma_spaces_v_push_ops(fields@, c);
                    assert(bv[j as int] == base@[j as int]@);
                    assert(bv.subrange(index + 1, j + 1) =~= bv.subrange(index + 1, j as int).push(bv[j as int]));
                }
                fields.push(c);
                j += 1;
            }
            proof {
                assert(spaces_v(fields@) == product_row(spaces_v(prefix@), dv, bv, index as int));
                assert(rows_v(results@.push(fields)) =~= rows_v(results@).push(spaces_v(fields@)));
            }
            results.push(fields);
        }
        let equal = space_intersection(&base[index], &remove[index]);
        if space_is_empty(&equal) {
            proof {
                lemma_prod_stopped(bv, rv, f, (index + 1) as nat, n);
            }
            return results;
        }
        proof {
            lemma_spaces_v_push_ops(prefix@, equal);
        }
        prefix.push(equal);
        index += 1;
    }
    results
}

fn difference_variant(left: &VariantSpace, right: &VariantSpace, Ghost(f): Ghost<nat>) -> (r: MatchSpace)
    requires
        left.fields.len() == right.fields.len(),
        product_f(spaces_v(left.fields@), spaces_v(right.fields@), f) is Some,
    ensures
        r@ == spec_normalize_space(SpaceV::Union(Seq::new(
            product_f(spaces_v(left.fields@), spaces_v(right.fields@), f).unwrap().len(),
            |i: int| SpaceV::Variant(left.owner@, left.name@, product_f(spaces_v(left.fields@), spaces_v(right.fields@), f).unwrap()[i]),
        ))),
    decreases f, 4nat, 0nat,
{
    let products = difference_product_fields(&left.fields, &right.fields, Ghost(f));
    let ghost ps = rows_v(products@);
    let mut items: Vec<MatchSpace> = Vec::new();
    let mut i: usize = 0;
    while i < products.len()
        invariant
            i <= products.len(),
            ps == rows_v(products@),
            items.len() == i,
            forall|k: int| 0 <= k < i ==> (#[trigger] items@[k])@ == SpaceV::Variant(left.owner@, left.name@, ps[k]),
        decreases products.len() - i,
    {
        let fields = spaces_clone(&products[i]);
        items.push(MatchSpace::Variant(VariantSpace { owner: left.owner.clone(), name: left.name.clone(), fields }));
        i += 1;
    }
    proof {
        assert(spaces_v(items@) =~= Seq::new(ps.len(), |k: int| SpaceV::Variant(left.owner@, left.name@, ps[k])));
    }
    normalize_space(MatchSpace::Union(items))
}

fn difference_tuple(left: &Vec<MatchSpace>, right: &Vec<MatchSpace>, Ghost(f): Ghost<nat>) -> (r: MatchSpace)
    requires
        left.len() == right.len(),
        product_f(spaces_v(left@), spaces_v(right@), f) is Some,
    ensures
        r@ == spec_normalize_space(SpaceV::Union(Seq::new(
            product_f(spaces_v(left@), spaces_v(right@), f).unwrap().len(),
            |i: int| SpaceV::Tuple(product_f(spaces_v(left@), spaces_v(right@), f).unwrap()[i]),
        ))),
    decreases f, 4nat, 0nat,
{
    let products = difference_product_fields(left, right, Ghost(f));
    let ghost ps = rows_v(products@);
    let mut items: Vec<MatchSpace> = Vec::new();
    let mut i: usize = 0;
    while i < products.len()
        invariant
            i <= products.len(),
            ps == rows_v(products@),
            items.len() == i,
            forall|k: int| 0 <= k < i ==> (#[trigger] items@[k])@ == SpaceV::Tuple(ps[k]),
        decreases products.len() - i,
    {
        items.push(MatchSpace::Tuple(spaces_clone(&products[i])));
        i += 1;
    }
    proof {
        assert(spaces_v(items@) =~= Seq::new(ps.len(), |k: int| SpaceV::Tuple(ps[k])));
    }
    normalize_space(MatchSpace::Union(items))
}

fn difference_record(left: &RecordSpace, right: &RecordSpace, Ghost(f): Ghost<nat>) -> (r: MatchSpace)
    requires
        left.fields.len() == right.fields.len(),
        product_f(record_spaces_v(left.fields@), record_spaces_v(right.fields@), f) is Some,
    ensures
        r@ == spec_normalize_space(SpaceV::Union(Seq::new(
            product_f(record_spaces_v(left.fields@), record_spaces_v(right.fields@), f).unwrap().len(),
            |i: int| SpaceV::Record(record_names_v(left.fields@), product_f(record_spaces_v(left.fields@), record_spaces_v(right.fields@), f).unwrap()[i]),
        ))),
    decreases f, 4nat, 0nat,
{
    let left_fields = record_spaces(&left.fields);
    let right_fields = record_spaces(&right.fields);
    let products = difference_product_fields(&left_fields, &right_fields, Ghost(f));
    let ghost ps = rows_v(products@);
    let ghost names = record_names_v(left.fields@);
    let mut items: Vec<MatchSpace> = Vec::new();
    let mut i: usize = 0;
    while i < products.len()
        invariant
            i <= products.len(),
            ps == rows_v(products@),
            names == record_names_v(left.fields@),
            forall|q: int| 0 <= q < products@.len() ==> (#[trigger] products@[q]).len() == left.fields.len(),
            items.len() == i,
            forall|k: int| 0 <= k < i ==> (#[trigger] items@[k])@ == SpaceV::Record(names, ps[k]),
        decreases products.len() - i,
    {
        let row = &products[i];
        let mut fields: Vec<(String, MatchSpace)> = Vec::new();
        let mut j: usize = 0;
        while j < row.len()
            invariant
                j <= row.len(),
                row.len() == left.fields.len(),
                fields.len() == j,
                forall|q: int| 0 <= q < j ==> (#[trigger] fields@[q]).0@ == left.fields@[q].0@ && fields@[q].1@ == row@[q]@,
            decreases row.len() - j,
        {
            let name = left.fields[j].0.clone();
            let space = space_clone(&row[j]);
            fields.push((name, space));
            j += 1;
        }
        proof {
            assert(record_names_v(fields@) =~= names);
            assert(record_spaces_v(fields@) =~= spaces_v(row@));
            assert(ps[i as int] == spaces_v(row@));
        }
        items.push(MatchSpace::Record(RecordSpace { fields }));
        i += 1;
    }
    proof {
        assert(spaces_v(items@) =~= Seq::new(ps.len(), |k: int| SpaceV::Record(names, ps[k])));
    }
    normalize_space(MatchSpace::Union(items))
}

/// The spaces of the fields of a record, without their names.
fn record_spaces(v: &Vec<(String, MatchSpace)>) -> (r: Vec<MatchSpace>)
    ensures
        spaces_v(r@) == record_spaces_v(v@),
        r.len() == v.len(),
{
    let mut r: Vec<MatchSpace> = Vec::new();
    let mut i: usize = 0;
    while i < v.len()
        invariant
            i <= v.len(),
            r.len() == i,
            forall|k: int| 0 <= k < i ==> (#[trigger] r@[k])@ == v@[k].1@,
        decreases v.len() - i,
    {
        r.push(space_clone(&v[i].1));
        i += 1;
    }
    proof {
        assert(spaces_v(r@) =~= record_spaces_v(v@));
    }
    r
}

/// A list with the given head and tail, normalized.
pub fn cons_space(head: MatchSpace, tail: MatchSpace) -> (r: MatchSpace)
    ensures
        r@ == spec_cons_space(head@, tail@),
{
    normalize_space(MatchSpace::List(ListSpace::Cons { head: Box::new(head), tail: Box::new(tail) }))
}

fn difference_cons_like(
    base_head: &MatchSpace,
    base_tail: &MatchSpace,
    remove_head: &MatchSpace,
    remove_tail: &MatchSpace,
    Ghost(f): Ghost<nat>,
) -> (r: MatchSpace)
    requires
        cons_like_f(base_head@, base_tail@, remove_head@, remove_tail@, f) is Some,
    ensures
        r@ == cons_like_f(base_head@, base_tail@, remove_head@, remove_tail@, f).unwrap(),
    decreases f, 5nat, 0nat,
{
    let mut base: Vec<MatchSpace> = Vec::new();
    base.push(space_clone(base_head));
    base.push(space_clone(base_tail));
    let mut remove: Vec<MatchSpace> = Vec::new();
    remove.push(space_clone(remove_head));
    remove.push(space_clone(remove_tail));
    proof {
        assert(spaces_v(base@) =~= seq![base_head@, base_tail@]);
        assert(spaces_v(remove@) =~= seq![remove_head@, remove_tail@]);
    }
    let products = difference_product_fields(&base, &remove, Ghost(f));
    let ghost ps = rows_v(products@);
    let mut items: Vec<MatchSpace> = Vec::new();
    let mut i: usize = 0;
    while i < products.len()
        invariant
            i <= products.len(),
            ps == rows_v(products@),
            forall|q: int| 0 <= q < products@.len() ==> (#[trigger] products@[q]).len() == 2,
            items.len() == i,
            forall|k: int| 0 <= k < i ==> (#[trigger] items@[k])@ == spec_cons_space(ps[k][0], ps[k][1]),
        decreases products.len() - i,
    {
        let row = &products[i];
        proof {
            assert(ps[i as int] == spaces_v(row@));
            assert(spaces_v(row@)[0] == row@[0]@);
            assert(spaces_v(row@)[1] == row@[1]@);
        }
        items.push(cons_space(space_clone(&row[0]), space_clone(&row[1])));
        i += 1;
    }
    proof {
        assert(spaces_v(items@) =~= Seq::new(ps.len(), |k: int| spec_cons_space(ps[k][0], ps[k][1])));
    }
    normalize_space(MatchSpace::Union(items))
}

fn list_difference_any_nil(element: &MatchSpace) -> (r: MatchSpace)
    ensures
        r@ == spec_cons_space(element@, SpaceV::ListAny(Box::new(element@))),
{
    let any = MatchSpace::List(ListSpace::Any(Box::new(space_clone(element))));
    cons_space(space_clone(element), any)
}

fn list_difference_any_cons(element: &MatchSpace, head: &MatchSpace, tail: &MatchSpace, Ghost(f): Ghost<nat>) -> (r: MatchSpace)
    requires
        cons_like_f(element@, SpaceV::ListAny(Box::new(element@)), head@, tail@, f) is Some,
    ensures
        r@ == spec_normalize_space(SpaceV::Union(seq![SpaceV::ListNil, cons_like_f(element@, SpaceV::ListAny(Box::new(element@)), head@, tail@, f).unwrap()])),
    decreases f, 6nat, 0nat,
{
    let any = MatchSpace::List(ListSpace::Any(Box::new(space_clone(element))));
    let d = difference_cons_like(element, &any, head, tail, Ghost(f));
    let mut items: Vec<MatchSpace> = Vec::new();
    let nil = MatchSpace::List(ListSpace::Nil);
    proof {
        lemma_spaces_v_push_ops(items@, nil);
        assert(nil@ == SpaceV::ListNil);
    }
    items.push(nil);
    proof {
        lemma_spaces_v_push_ops(items@, d);
    }
    items.push(d);
    proof {
        assert(spaces_v(items@) =~= seq![SpaceV::ListNil, d@]);
    }
    normalize_space(MatchSpace::Union(items))
}

fn list_difference_any_any(left_element: &MatchSpace, right_element: &MatchSpace, Ghost(f): Ghost<nat>) -> (r: MatchSpace)
    requires
        cons_like_f(left_element@, SpaceV::ListAny(Box::new(left_element@)), right_element@, SpaceV::ListAny(Box::new(right_element@)), f) is Some,
    ensures
        r@ == cons_like_f(left_element@, SpaceV::ListAny(Box::new(left_element@)), right_element@, SpaceV::ListAny(Box::new(right_element@)), f).unwrap(),
    decreases f, 6nat, 0nat,
{
    let left_any = MatchSpace::List(ListSpace::Any(Box::new(space_clone(left_element))));
    let right_any = MatchSpace::List(ListSpace::Any(Box::new(space_clone(right_element))));
    difference_cons_like(left_element, &left_any, right_element, &right_any, Ghost(f))
}

fn list_difference_cons_any(left_head: &MatchSpace, left_tail: &MatchSpace, right_element: &MatchSpace, Ghost(f): Ghost<nat>) -> (r: MatchSpace)
    requires
        cons_like_f(left_head@, left_tail@, right_element@, SpaceV::ListAny(Box::new(right_element@)), f) is Some,
    ensures
        r@ == cons_like_f(left_head@, left_tail@, right_element@, SpaceV::ListAny(Box::new(right_element@)), f).unwrap(),
    decreases f, 6nat, 0nat,
{
    let right_any = MatchSpace::List(ListSpace::Any(Box::new(space_clone(right_element))));
    difference_cons_like(left_head, left_tail, right_element, &right_any, Ghost(f))
}

fn list_difference(base: &ListSpace, remove: &ListSpace, Ghost(f): Ghost<nat>) -> (r: MatchSpace)
    requires
        list_diff_f(base@, remove@, f) is Some,
    ensures
        r@ == list_diff_f(base@, remove@, f).unwrap(),
    decreases f, 7nat, 0nat,
{
    match (base, remove) {
        (ListSpace::Nil, ListSpace::Nil) => MatchSpace::Empty,
        (ListSpace::Nil, ListSpace::Any(_)) => MatchSpace::Empty,
        (ListSpace::Nil, ListSpace::Cons { .. }) => MatchSpace::List(ListSpace::Nil),
        (ListSpace::Any(element), ListSpace::Nil) => list_difference_any_nil(element),
        (ListSpace::Any(left_element), ListSpace::Any(right_element)) => list_difference_any_any(
            left_element,
            right_element,
            Ghost(f),
        ),
        (ListSpace::Any(element), ListSpace::Cons { head, tail }) => list_difference_any_cons(
            element,
            head,
            tail,
            Ghost(f),
        ),
        (ListSpace::Cons { head, tail }, ListSpace::Nil) => MatchSpace::List(ListSpace::Cons {
            head: Box::new(space_clone(head)),
            tail: Box::new(space_clone(tail)),
        }),
        (ListSpace::Cons { head: left_head, tail: left_tail }, ListSpace::Any(right_element)) => {
            list_difference_cons_any(left_head, left_tail, right_element, Ghost(f))
        },
        (
            ListSpace::Cons { head: left_head, tail: left_tail },
            ListSpace::Cons { head: right_head, tail: right_tail },
        ) => difference_cons_like(left_head, left_tail, right_head, right_tail, Ghost(f)),
    }
}

/// The values of `base` outside `remove`, as the coverage checker computes
/// them; defined where that computation comes to an end.
pub fn space_difference(base: &MatchSpace, remove: &MatchSpace) -> (r: MatchSpace)
    requires
        difference_terminates(base@, remove@),
    ensures
        r@ == spec_space_difference(base@, remove@),
{
    let ghost fuel = choose|f: nat| #[trigger] diff_f(base@, remove@, f) is Some;
    difference_rec(base, remove, Ghost(fuel))
}

} // verus!
