//! The shape of normalized match spaces: normalizing twice gives what
//! normalizing once gives, and a normalized union lists at least two
//! distinct members that admit some value, none of them a union, with at
//! most one primitive member of each kind.

use crate::atoms::{atom_insert, atoms_union_spec, lemma_atom_pos, AtomV};
use crate::int_ranges::{
    all_valid, lemma_in_ranges_concat, lemma_nonempty_valid, lemma_normalize, ranges_set,
};
use crate::space::{
    can_merge, depth, depths, first_mergeable, flatten, finish_union, lemma_depths,
    lemma_first_mergeable, lemma_seq_all_empty, merge_all, merge_into, merge_item, normalize_seq,
    prim_is_empty, same_kind, spec_is_empty, spec_normalize_space, spec_prim_union, PrimV, SpaceV,
};
use vstd::prelude::*;

verus! {

/// The integer ranges of a primitive space hold valid intervals only.
pub open spec fn prim_ranges_valid(p: PrimV) -> bool {
    match p {
        PrimV::Int(r) => all_valid(r),
        _ => true,
    }
}

/// Every integer range inside the space holds valid intervals only, as
/// the operations on integer range sets leave them.
pub open spec fn ranges_valid(s: SpaceV) -> bool
    decreases s,
{
    match s {
        SpaceV::Prim(p) => prim_ranges_valid(p),
        SpaceV::Variant(_, _, fs) => seq_ranges_valid(fs),
        SpaceV::Record(_, fs) => seq_ranges_valid(fs),
        SpaceV::Tuple(fs) => seq_ranges_valid(fs),
        SpaceV::ListAny(e) => ranges_valid(*e),
        SpaceV::ListCons(h, t) => ranges_valid(*h) && ranges_valid(*t),
        SpaceV::Union(fs) => seq_ranges_valid(fs),
        _ => true,
    }
}

/// Every space of the list has valid integer ranges.
pub open spec fn seq_ranges_valid(fs: Seq<SpaceV>) -> bool
    decreases fs,
{
    if fs.len() == 0 {
        true
    } else {
        seq_ranges_valid(fs.subrange(0, fs.len() - 1)) && ranges_valid(fs[fs.len() - 1])
    }
}

/// A member of a normalized union: a normal form that admits some value,
/// is no union, and has valid integer ranges.
pub open spec fn union_member(x: SpaceV) -> bool {
    &&& spec_normalize_space(x) == x
    &&& !spec_is_empty(x)
    &&& !(x is Union)
    &&& ranges_valid(x)
}

/// The members of a normalized union: each a proper member, no two equal,
/// and no two primitive spaces of one kind.
pub open spec fn union_members(m: Seq<SpaceV>) -> bool {
    &&& forall|i: int| 0 <= i < m.len() ==> #[trigger] union_member(m[i])
    &&& forall|i: int, j: int|
        0 <= i < m.len() && 0 <= j < m.len() && i != j ==> #[trigger] m[i] != #[trigger] m[j]
            && !can_merge(m[i], m[j])
}

/// The shape of a normalized space: a fixed point of normalization, `Empty`
/// exactly when it admits no value, with valid integer ranges, and a union
/// only of at least two proper members.
pub open spec fn normal_shape(n: SpaceV) -> bool {
    &&& spec_normalize_space(n) == n
    &&& (spec_is_empty(n) <==> n is Empty)
    &&& ranges_valid(n)
    &&& (n matches SpaceV::Union(m) ==> m.len() >= 2 && union_members(m))
}

pub proof fn lemma_seq_ranges_valid(fs: Seq<SpaceV>)
    ensures
        seq_ranges_valid(fs) == forall|i: int| 0 <= i < fs.len() ==> #[trigger] ranges_valid(fs[i]),
    decreases fs.len(),
{
    if fs.len() > 0 {
        let t = fs.subrange(0, fs.len() - 1);
        assert(seq_ranges_valid(fs) == (seq_ranges_valid(t) && ranges_valid(fs[fs.len() - 1])));
        lemma_seq_ranges_valid(t);
        if seq_ranges_valid(fs) {
            assert forall|i: int| 0 <= i < fs.len() implies #[trigger] ranges_valid(fs[i]) by {
                if i < fs.len() - 1 {
                    assert(fs[i] == t[i]);
                }
            }
        }
        if forall|i: int| 0 <= i < fs.len() ==> #[trigger] ranges_valid(fs[i]) {
            assert forall|i: int| 0 <= i < t.len() implies #[trigger] ranges_valid(t[i]) by {
                assert(fs[i] == t[i]);
            }
        }
    }
}

proof fn lemma_same_kind_is_an_equivalence(a: PrimV, b: PrimV, c: PrimV)
    ensures
        same_kind(a, a),
        same_kind(a, b) ==> same_kind(b, a),
        same_kind(a, b) && same_kind(b, c) ==> same_kind(a, c),
{
}

proof fn lemma_atoms_union_len(a: Seq<AtomV>, b: Seq<AtomV>)
    ensures
        atoms_union_spec(a, b).len() >= a.len(),
    decreases b.len(),
{
    if b.len() > 0 {
        lemma_atoms_union_len(a, b.drop_last());
        let u = atoms_union_spec(a, b.drop_last());
        lemma_atom_pos(u, b.last());
        assert(atom_insert(u, b.last()).len() >= u.len());
    }
}

/// Uniting two non-empty primitive spaces of one kind with valid ranges
/// gives a non-empty space of that kind with valid ranges.
proof fn lemma_prim_union_stays_proper(a: PrimV, b: PrimV)
    requires
        same_kind(a, b),
        !prim_is_empty(a),
        !prim_is_empty(b),
        prim_ranges_valid(a),
        prim_ranges_valid(b),
    ensures
        !prim_is_empty(spec_prim_union(a, b)),
        prim_ranges_valid(spec_prim_union(a, b)),
        same_kind(spec_prim_union(a, b), a),
{
    match (a, b) {
        (PrimV::Int(x), PrimV::Int(y)) => {
            lemma_nonempty_valid(x);
            lemma_normalize(x + y);
            lemma_in_ranges_concat(x, y);
            let u = crate::int_ranges::spec_normalize(x + y);
            if !exists|v: int| ranges_set(x).contains(v) {
                assert(ranges_set(x) =~= Set::<int>::empty());
            }
            let w = choose|v: int| ranges_set(x).contains(v);
            assert(ranges_set(x + y).contains(w));
            assert(ranges_set(u).contains(w));
            if u.len() == 0 {
                assert(ranges_set(u) =~= Set::<int>::empty());
            }
        },
        (PrimV::EqFinite(_, x), PrimV::EqFinite(_, y)) => {
            lemma_atoms_union_len(x, y);
        },
        _ => {},
    }
}

/// Normalizing a space with valid integer ranges gives a space of the
/// normal shape.
pub proof fn lemma_normal_shape(s: SpaceV)
    requires
        ranges_valid(s),
    ensures
        normal_shape(spec_normalize_space(s)),
    decreases depth(s), 1nat, 0nat,
{
    reveal(spec_normalize_space);
    match s {
        SpaceV::Variant(o, nm, fs) => {
            lemma_normal_fields(fs);
        },
        SpaceV::Record(names, fs) => {
            lemma_normal_fields(fs);
        },
        SpaceV::Tuple(fs) => {
            lemma_normal_fields(fs);
        },
        SpaceV::ListAny(e) => {
            lemma_normal_shape(*e);
        },
        SpaceV::ListCons(h, t) => {
            lemma_normal_shape(*h);
            lemma_normal_shape(*t);
        },
        SpaceV::Union(items) => {
            lemma_flatten_members(items);
            let f = flatten(items);
            lemma_merge_all_members(f);
            let m = merge_all(f);
            if m.len() == 1 {
                assert(union_member(m[0]));
            } else if m.len() >= 2 {
                lemma_members_stay_put(m);
                lemma_seq_all_empty(m);
                assert(union_member(m[0]));
                lemma_seq_ranges_valid(m);
                assert forall|i: int| 0 <= i < m.len() implies #[trigger] ranges_valid(m[i]) by {
                    assert(union_member(m[i]));
                }
            }
        },
        _ => {},
    }
}

/// Normalizing each field gives fields of the normal shape; a product of
/// them normalizes to itself when none is empty.
proof fn lemma_normal_fields(fs: Seq<SpaceV>)
    requires
        seq_ranges_valid(fs),
    ensures
        forall|i: int| 0 <= i < fs.len() ==> #[trigger] normal_shape(normalize_seq(fs)[i]),
        normalize_seq(normalize_seq(fs)) == normalize_seq(fs),
        seq_ranges_valid(normalize_seq(fs)),
    decreases depths(fs) + 1, 0nat, 0nat,
{
    reveal(spec_normalize_space);
    lemma_depths(fs);
    lemma_seq_ranges_valid(fs);
    let nf = normalize_seq(fs);
    assert forall|i: int| 0 <= i < fs.len() implies #[trigger] normal_shape(nf[i]) by {
        assert(nf[i] == spec_normalize_space(fs[i]));
        lemma_normal_shape(fs[i]);
    }
    assert forall|i: int| 0 <= i < nf.len() implies #[trigger] normalize_seq(nf)[i] == nf[i] by {
        assert(normal_shape(nf[i]));
    }
    assert(normalize_seq(nf) =~= nf);
    lemma_seq_ranges_valid(nf);
    assert forall|i: int| 0 <= i < nf.len() implies #[trigger] ranges_valid(nf[i]) by {
        assert(normal_shape(nf[i]));
    }
}

/// The members a union is flattened into are proper members.
proof fn lemma_flatten_members(items: Seq<SpaceV>)
    requires
        seq_ranges_valid(items),
    ensures
        forall|i: int| 0 <= i < flatten(items).len() ==> #[trigger] union_member(flatten(items)[i]),
    decreases depths(items) + 1, 0nat, items.len(),
{
    reveal(spec_normalize_space);
    if items.len() > 0 {
        let prefix = items.subrange(0, items.len() - 1);
        let last = items[items.len() - 1];
        lemma_depths(items);
        lemma_flatten_members(prefix);
        lemma_normal_shape(last);
        let prev = flatten(prefix);
        let n = spec_normalize_space(last);
        match n {
            SpaceV::Empty => {},
            SpaceV::Union(nested) => {
                assert forall|i: int| 0 <= i < (prev + nested).len() implies #[trigger] union_member(
                    (prev + nested)[i],
                ) by {
                    if i < prev.len() {
                        assert((prev + nested)[i] == prev[i]);
                    } else {
                        assert((prev + nested)[i] == nested[i - prev.len()]);
                    }
                }
            },
            _ => {
                assert forall|i: int| 0 <= i < prev.push(n).len() implies #[trigger] union_member(
                    prev.push(n)[i],
                ) by {
                    if i < prev.len() {
                        assert(prev.push(n)[i] == prev[i]);
                    }
                }
            },
        }
    }
}

/// Merging proper members gives distinct proper members with at most one
/// primitive space of each kind.
proof fn lemma_merge_all_members(items: Seq<SpaceV>)
    requires
        forall|i: int| 0 <= i < items.len() ==> #[trigger] union_member(items[i]),
    ensures
        union_members(merge_all(items)),
    decreases items.len(),
{
    if items.len() > 0 {
        let prefix = items.drop_last();
        assert forall|i: int| 0 <= i < prefix.len() implies #[trigger] union_member(prefix[i]) by {
            assert(prefix[i] == items[i]);
        }
        lemma_merge_all_members(prefix);
        let m = merge_all(prefix);
        let item = items.last();
        assert(union_member(item));
        lemma_first_mergeable(m, item);
        let k = first_mergeable(m, item);
        if k < m.len() {
            assert(union_member(m[k]));
            let a = m[k]->Prim_0;
            let b = item->Prim_0;
            lemma_prim_union_stays_proper(a, b);
            let u = spec_prim_union(a, b);
            let merged = merge_item(m[k], item);
            assert(merged == SpaceV::Prim(u));
            reveal(spec_normalize_space);
            assert(union_member(merged));
            let r = m.update(k, merged);
            assert forall|i: int| 0 <= i < r.len() implies #[trigger] union_member(r[i]) by {
                if i != k {
                    assert(r[i] == m[i]);
                }
            }
            assert forall|i: int, j: int|
                0 <= i < r.len() && 0 <= j < r.len() && i != j implies #[trigger] r[i] != #[trigger] r[j]
                && !can_merge(r[i], r[j]) by {
                if i != k && j != k {
                    assert(r[i] == m[i] && r[j] == m[j]);
                } else {
                    let o = if i == k { j } else { i };
                    assert(r[o] == m[o]);
                    assert(m[o] != m[k] && !can_merge(m[o], m[k]) && !can_merge(m[k], m[o]));
                    if m[o] is Prim {
                        lemma_same_kind_is_an_equivalence(m[o]->Prim_0, u, a);
                        lemma_same_kind_is_an_equivalence(u, a, m[o]->Prim_0);
                        lemma_same_kind_is_an_equivalence(a, m[o]->Prim_0, u);
                        lemma_same_kind_is_an_equivalence(m[o]->Prim_0, a, u);
                    }
                }
            }
            assert(merge_into(m, item) == r);
        } else if m.contains(item) {
        } else {
            let r = m.push(item);
            assert forall|i: int| 0 <= i < r.len() implies #[trigger] union_member(r[i]) by {
                if i < m.len() {
                    assert(r[i] == m[i]);
                }
            }
            assert forall|i: int, j: int|
                0 <= i < r.len() && 0 <= j < r.len() && i != j implies #[trigger] r[i] != #[trigger] r[j]
                && !can_merge(r[i], r[j]) by {
                if i < m.len() && j < m.len() {
                    assert(r[i] == m[i] && r[j] == m[j]);
                } else {
                    let o = if i == m.len() { j } else { i };
                    assert(r[o] == m[o]);
                    assert(!can_merge(m[o], item));
                    assert(m[o] != item);
                    if m[o] is Prim && item is Prim {
                        lemma_same_kind_is_an_equivalence(m[o]->Prim_0, item->Prim_0, item->Prim_0);
                        lemma_same_kind_is_an_equivalence(item->Prim_0, m[o]->Prim_0, item->Prim_0);
                    }
                }
            }
        }
    }
}

/// Proper members that are distinct and of distinct kinds are their own
/// flattening and their own merge.
proof fn lemma_members_stay_put(m: Seq<SpaceV>)
    requires
        union_members(m),
    ensures
        flatten(m) == m,
        merge_all(m) == m,
        m.len() >= 2 ==> spec_normalize_space(SpaceV::Union(m)) == SpaceV::Union(m),
    decreases m.len(),
{
    reveal(spec_normalize_space);
    if m.len() > 0 {
        let prefix = m.drop_last();
        assert(m.subrange(0, m.len() - 1) =~= prefix);
        assert forall|i: int| 0 <= i < prefix.len() implies #[trigger] union_member(prefix[i]) by {
            assert(prefix[i] == m[i]);
        }
        assert forall|i: int, j: int|
            0 <= i < prefix.len() && 0 <= j < prefix.len() && i != j implies #[trigger] prefix[i]
            != #[trigger] prefix[j] && !can_merge(prefix[i], prefix[j]) by {
            assert(prefix[i] == m[i] && prefix[j] == m[j]);
        }
        lemma_members_stay_put(prefix);
        let last = m.last();
        assert(union_member(last));
        assert(m[m.len() - 1] == last);
        assert(!(last is Empty));
        assert(flatten(m) == prefix.push(last));
        assert(prefix.push(last) =~= m);
        lemma_first_mergeable(prefix, last);
        let k = first_mergeable(prefix, last);
        if k < prefix.len() {
            assert(prefix[k] == m[k]);
            assert(!can_merge(m[k], m[m.len() - 1]));
        }
        assert(!prefix.contains(last)) by {
            if prefix.contains(last) {
                let j = choose|j: int| 0 <= j < prefix.len() && prefix[j] == last;
                assert(m[j] != m[m.len() - 1]);
            }
        }
        assert(merge_into(prefix, last) == prefix.push(last));
    }
    if m.len() >= 2 {
        reveal(spec_normalize_space);
        assert(finish_union(m) == SpaceV::Union(m));
    }
}

/// Normalizing a space twice gives what normalizing it once gives, for a
/// space whose integer ranges hold valid intervals (as every operation on
/// integer range sets leaves them).
pub proof fn law_normalize_space_is_idempotent(s: SpaceV)
    requires
        ranges_valid(s),
    ensures
        spec_normalize_space(spec_normalize_space(s)) == spec_normalize_space(s),
{
    lemma_normal_shape(s);
}

/// A normalized space, made from one whose integer ranges hold valid
/// intervals, is `Empty` exactly when it admits no value; a union it gives
/// has at least two members, each normalized and admitting some value and
/// none a union, no two equal and no two primitive spaces of one kind.
pub proof fn law_normal_form_shape(s: SpaceV)
    requires
        ranges_valid(s),
    ensures
        spec_is_empty(spec_normalize_space(s)) <==> spec_normalize_space(s) == SpaceV::Empty,
        spec_normalize_space(s) matches SpaceV::Union(m) ==> m.len() >= 2 && union_members(m),
        ranges_valid(spec_normalize_space(s)),
{
    lemma_normal_shape(s);
}

} // verus!
