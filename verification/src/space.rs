//! Match spaces: symbolic descriptions of the values a match scrutinee may
//! take, and of the values a pattern covers.

use crate::atoms::{
    atom_eq, atoms_clone, atoms_difference, atoms_difference_spec, atoms_intersection,
    atoms_intersection_spec, atoms_sorted, atoms_union, atoms_union_spec, atoms_view,
    law_atoms_filter_keeps_order, law_atoms_union_keeps_order,
    law_ordered_atoms_are_determined_by_their_members, AtomV, LiteralAtom, PrimitiveEqKind,
};
use crate::int_ranges::{
    law_intersect_gives_the_same_intervals_either_way, no_end_at_max, spec_cross, spec_difference,
    spec_normalize, IntInterval, IntRangeSet,
};
use vstd::prelude::*;

verus! {

/// The values of a primitive type that a space admits.
#[derive(Debug)]
pub enum PrimitiveSpace {
    Bool { allow_true: bool, allow_false: bool },
    Unit { present: bool },
    Int(IntRangeSet),
    /// Every literal of the kind except the excluded ones.
    EqAny { kind: PrimitiveEqKind, excluded: Vec<LiteralAtom> },
    /// Exactly the listed literals.
    EqFinite { kind: PrimitiveEqKind, values: Vec<LiteralAtom> },
}

/// The values built by one constructor of a sum type.
#[derive(Debug)]
pub struct VariantSpace {
    pub owner: String,
    pub name: String,
    pub fields: Vec<MatchSpace>,
}

/// The records with the given fields, in field-name order.
#[derive(Debug)]
pub struct RecordSpace {
    pub fields: Vec<(String, MatchSpace)>,
}

/// Lists: of any length, empty, or with a given head and tail.
#[derive(Debug)]
pub enum ListSpace {
    Any(Box<MatchSpace>),
    Nil,
    Cons { head: Box<MatchSpace>, tail: Box<MatchSpace> },
}

/// A set of values, described by shape.
#[derive(Debug)]
pub enum MatchSpace {
    Empty,
    Primitive(PrimitiveSpace),
    Variant(VariantSpace),
    Record(RecordSpace),
    Tuple(Vec<MatchSpace>),
    List(ListSpace),
    Union(Vec<MatchSpace>),
    Opaque(String),
}

// ---------------------------------------------------------------------------
// Mathematical views
// ---------------------------------------------------------------------------

/// The view of a primitive space.
pub enum PrimV {
    Bool(bool, bool),
    Unit(bool),
    Int(Seq<IntInterval>),
    EqAny(PrimitiveEqKind, Seq<AtomV>),
    EqFinite(PrimitiveEqKind, Seq<AtomV>),
}

/// The view of a match space.
pub enum SpaceV {
    Empty,
    Prim(PrimV),
    Variant(Seq<char>, Seq<char>, Seq<SpaceV>),
    Record(Seq<Seq<char>>, Seq<SpaceV>),
    Tuple(Seq<SpaceV>),
    ListAny(Box<SpaceV>),
    ListNil,
    ListCons(Box<SpaceV>, Box<SpaceV>),
    Union(Seq<SpaceV>),
    Opaque(Seq<char>),
}

impl View for PrimitiveSpace {
    type V = PrimV;

    open spec fn view(&self) -> PrimV {
        match self {
            PrimitiveSpace::Bool { allow_true, allow_false } => PrimV::Bool(*allow_true, *allow_false),
            PrimitiveSpace::Unit { present } => PrimV::Unit(*present),
            PrimitiveSpace::Int(r) => PrimV::Int(r@),
            PrimitiveSpace::EqAny { kind, excluded } => PrimV::EqAny(*kind, atoms_view(excluded@)),
            PrimitiveSpace::EqFinite { kind, values } => PrimV::EqFinite(*kind, atoms_view(values@)),
        }
    }
}

pub open spec fn space_v(s: MatchSpace) -> SpaceV
    decreases s,
{
    match s {
        MatchSpace::Empty => SpaceV::Empty,
        MatchSpace::Primitive(p) => SpaceV::Prim(p@),
        MatchSpace::Variant(v) => SpaceV::Variant(v.owner@, v.name@, spaces_v(v.fields@)),
        MatchSpace::Record(r) => SpaceV::Record(record_names_v(r.fields@), record_spaces_v(r.fields@)),
        MatchSpace::Tuple(items) => SpaceV::Tuple(spaces_v(items@)),
        MatchSpace::List(l) => list_v(l),
        MatchSpace::Union(items) => SpaceV::Union(spaces_v(items@)),
        MatchSpace::Opaque(n) => SpaceV::Opaque(n@),
    }
}

pub open spec fn list_v(l: ListSpace) -> SpaceV
    decreases l,
{
    match l {
        ListSpace::Any(e) => SpaceV::ListAny(Box::new(space_v(*e))),
        ListSpace::Nil => SpaceV::ListNil,
        ListSpace::Cons { head, tail } => SpaceV::ListCons(
            Box::new(space_v(*head)),
            Box::new(space_v(*tail)),
        ),
    }
}

pub open spec fn spaces_v(v: Seq<MatchSpace>) -> Seq<SpaceV>
    decreases v,
{
    Seq::new(v.len(), |i: int| if 0 <= i < v.len() { space_v(v[i]) } else { SpaceV::Empty })
}

pub open spec fn record_spaces_v(v: Seq<(String, MatchSpace)>) -> Seq<SpaceV>
    decreases v,
{
    Seq::new(v.len(), |i: int| if 0 <= i < v.len() { space_v(v[i].1) } else { SpaceV::Empty })
}

pub open spec fn record_names_v(v: Seq<(String, MatchSpace)>) -> Seq<Seq<char>> {
    Seq::new(v.len(), |i: int| v[i].0@)
}

impl View for MatchSpace {
    type V = SpaceV;

    open spec fn view(&self) -> SpaceV {
        space_v(*self)
    }
}

impl View for ListSpace {
    type V = SpaceV;

    open spec fn view(&self) -> SpaceV {
        list_v(*self)
    }
}

impl View for VariantSpace {
    type V = SpaceV;

    open spec fn view(&self) -> SpaceV {
        SpaceV::Variant(self.owner@, self.name@, spaces_v(self.fields@))
    }
}

impl View for RecordSpace {
    type V = SpaceV;

    open spec fn view(&self) -> SpaceV {
        SpaceV::Record(record_names_v(self.fields@), record_spaces_v(self.fields@))
    }
}

/// Nesting depth of a space view; every child is strictly shallower.
pub open spec fn depth(s: SpaceV) -> nat
    decreases s,
{
    match s {
        SpaceV::Variant(_, _, fs) => 1 + depths(fs),
        SpaceV::Record(_, fs) => 1 + depths(fs),
        SpaceV::Tuple(fs) => 1 + depths(fs),
        SpaceV::Union(fs) => 1 + depths(fs),
        SpaceV::ListAny(e) => 1 + depth(*e),
        SpaceV::ListCons(h, t) => 1 + if depth(*h) >= depth(*t) { depth(*h) } else { depth(*t) },
        _ => 0,
    }
}

/// The greatest depth among the spaces of `fs`.
pub open spec fn depths(fs: Seq<SpaceV>) -> nat
    decreases fs,
{
    if fs.len() == 0 {
        0
    } else {
        let a = depths(fs.subrange(0, fs.len() - 1));
        let b = depth(fs[fs.len() - 1]);
        if a >= b {
            a
        } else {
            b
        }
    }
}

pub proof fn lemma_depths(fs: Seq<SpaceV>)
    ensures
        forall|i: int| 0 <= i < fs.len() ==> depth(#[trigger] fs[i]) <= depths(fs),
    decreases fs.len(),
{
    if fs.len() > 0 {
        let t = fs.subrange(0, fs.len() - 1);
        lemma_depths(t);
        assert forall|i: int| 0 <= i < fs.len() implies depth(#[trigger] fs[i]) <= depths(fs) by {
            if i < fs.len() - 1 {
                assert(fs[i] == t[i]);
            }
        }
    }
}


// ---------------------------------------------------------------------------
// Copies and structural equality
// ---------------------------------------------------------------------------

/// A copy of an integer range set's intervals, as a set.
fn ranges_clone(r: &IntRangeSet) -> (c: IntRangeSet)
    ensures
        c@ == r@,
{
    r.duplicate()
}

/// A copy of a primitive space.
pub fn prim_clone(p: &PrimitiveSpace) -> (r: PrimitiveSpace)
    ensures
        r@ == p@,
{
    match p {
        PrimitiveSpace::Bool { allow_true, allow_false } => PrimitiveSpace::Bool {
            allow_true: *allow_true,
            allow_false: *allow_false,
        },
        PrimitiveSpace::Unit { present } => PrimitiveSpace::Unit { present: *present },
        PrimitiveSpace::Int(r) => PrimitiveSpace::Int(ranges_clone(r)),
        PrimitiveSpace::EqAny { kind, excluded } => PrimitiveSpace::EqAny {
            kind: *kind,
            excluded: atoms_clone(excluded),
        },
        PrimitiveSpace::EqFinite { kind, values } => PrimitiveSpace::EqFinite {
            kind: *kind,
            values: atoms_clone(values),
        },
    }
}

/// A copy of a match space.
pub fn space_clone(s: &MatchSpace) -> (r: MatchSpace)
    ensures
        r@ == s@,
    decreases depth(s@), 0nat,
{
    match s {
        MatchSpace::Empty => MatchSpace::Empty,
        MatchSpace::Primitive(p) => MatchSpace::Primitive(prim_clone(p)),
        MatchSpace::Variant(v) => MatchSpace::Variant(
            VariantSpace { owner: v.owner.clone(), name: v.name.clone(), fields: spaces_clone(&v.fields) },
        ),
        MatchSpace::Record(rec) => MatchSpace::Record(RecordSpace { fields: record_clone(&rec.fields) }),
        MatchSpace::Tuple(items) => MatchSpace::Tuple(spaces_clone(items)),
        MatchSpace::List(ListSpace::Any(e)) => MatchSpace::List(ListSpace::Any(Box::new(space_clone(e)))),
        MatchSpace::List(ListSpace::Nil) => MatchSpace::List(ListSpace::Nil),
        MatchSpace::List(ListSpace::Cons { head, tail }) => MatchSpace::List(
            ListSpace::Cons { head: Box::new(space_clone(head)), tail: Box::new(space_clone(tail)) },
        ),
        MatchSpace::Union(items) => MatchSpace::Union(spaces_clone(items)),
        MatchSpace::Opaque(n) => MatchSpace::Opaque(n.clone()),
    }
}

/// A copy of a list of spaces.
pub fn spaces_clone(v: &Vec<MatchSpace>) -> (r: Vec<MatchSpace>)
    ensures
        spaces_v(r@) == spaces_v(v@),
    decreases depths(spaces_v(v@)), 1nat,
{
    let mut r: Vec<MatchSpace> = Vec::new();
    let mut i: usize = 0;
    while i < v.len()
        invariant
            i <= v.len(),
            r.len() == i,
            forall|k: int| 0 <= k < i ==> (#[trigger] r@[k])@ == v@[k]@,
        decreases v.len() - i,
    {
        proof {
            lemma_depths(spaces_v(v@));
            assert(spaces_v(v@)[i as int] == v@[i as int]@);
        }
        r.push(space_clone(&v[i]));
        i += 1;
    }
    proof {
        assert(spaces_v(r@) =~= spaces_v(v@));
    }
    r
}

/// A copy of the fields of a record space.
pub fn record_clone(v: &Vec<(String, MatchSpace)>) -> (r: Vec<(String, MatchSpace)>)
    ensures
        record_names_v(r@) == record_names_v(v@),
        record_spaces_v(r@) == record_spaces_v(v@),
    decreases depths(record_spaces_v(v@)), 1nat,
{
    let mut r: Vec<(String, MatchSpace)> = Vec::new();
    let mut i: usize = 0;
    while i < v.len()
        invariant
            i <= v.len(),
            r.len() == i,
            forall|k: int| 0 <= k < i ==> (#[trigger] r@[k]).1@ == v@[k].1@ && r@[k].0@ == v@[k].0@,
        decreases v.len() - i,
    {
        proof {
            lemma_depths(record_spaces_v(v@));
            assert(record_spaces_v(v@)[i as int] == v@[i as int].1@);
        }
        let name = v[i].0.clone();
        let space = space_clone(&v[i].1);
        r.push((name, space));
        i += 1;
    }
    proof {
        assert(record_spaces_v(r@) =~= record_spaces_v(v@));
        assert(record_names_v(r@) =~= record_names_v(v@));
    }
    r
}

fn bound_eq(a: Option<i64>, b: Option<i64>) -> (r: bool)
    ensures
        r == (a == b),
{
    match (a, b) {
        (None, None) => true,
        (Some(x), Some(y)) => x == y,
        _ => false,
    }
}

/// Whether two range sets have the same intervals.
fn ranges_eq(a: &IntRangeSet, b: &IntRangeSet) -> (r: bool)
    ensures
        r == (a@ == b@),
{
    let va = a.intervals();
    let vb = b.intervals();
    if va.len() != vb.len() {
        return false;
    }
    let mut i: usize = 0;
    while i < va.len()
        invariant
            va.len() == vb.len(),
            i <= va.len(),
            va@ == a@,
            vb@ == b@,
            forall|k: int| 0 <= k < i ==> va@[k] == vb@[k],
        decreases va.len() - i,
    {
        if !bound_eq(va[i].start, vb[i].start) || !bound_eq(va[i].end, vb[i].end) {
            return false;
        }
        i += 1;
    }
    proof {
        assert(a@ =~= b@);
    }
    true
}

/// Whether two lists of atoms are the same, in the same order.
fn atoms_eq(a: &Vec<LiteralAtom>, b: &Vec<LiteralAtom>) -> (r: bool)
    ensures
        r == (atoms_view(a@) == atoms_view(b@)),
{
    if a.len() != b.len() {
        proof {
            assert(atoms_view(a@).len() != atoms_view(b@).len());
        }
        return false;
    }
    let mut i: usize = 0;
    while i < a.len()
        invariant
            a.len() == b.len(),
            i <= a.len(),
            forall|k: int| 0 <= k < i ==> atoms_view(a@)[k] == atoms_view(b@)[k],
        decreases a.len() - i,
    {
        if !atom_eq(&a[i], &b[i]) {
            proof {
                assert(atoms_view(a@)[i as int] != atoms_view(b@)[i as int]);
            }
            return false;
        }
        i += 1;
    }
    proof {
        assert(atoms_view(a@) =~= atoms_view(b@));
    }
    true
}

/// Whether two primitive spaces are identical.
pub fn prim_eq(a: &PrimitiveSpace, b: &PrimitiveSpace) -> (r: bool)
    ensures
        r == (a@ == b@),
{
    match (a, b) {
        (
            PrimitiveSpace::Bool { allow_true: at, allow_false: af },
            PrimitiveSpace::Bool { allow_true: bt, allow_false: bf },
        ) => *at == *bt && *af == *bf,
        (PrimitiveSpace::Unit { present: x }, PrimitiveSpace::Unit { present: y }) => *x == *y,
        (PrimitiveSpace::Int(x), PrimitiveSpace::Int(y)) => ranges_eq(x, y),
        (
            PrimitiveSpace::EqAny { kind: ka, excluded: xa },
            PrimitiveSpace::EqAny { kind: kb, excluded: xb },
        ) => *ka == *kb && atoms_eq(xa, xb),
        (
            PrimitiveSpace::EqFinite { kind: ka, values: xa },
            PrimitiveSpace::EqFinite { kind: kb, values: xb },
        ) => *ka == *kb && atoms_eq(xa, xb),
        _ => false,
    }
}

/// Whether two match spaces are identical.
pub fn space_eq(a: &MatchSpace, b: &MatchSpace) -> (r: bool)
    ensures
        r == (a@ == b@),
    decreases depth(a@), 0nat,
{
    match (a, b) {
        (MatchSpace::Empty, MatchSpace::Empty) => true,
        (MatchSpace::Primitive(x), MatchSpace::Primitive(y)) => prim_eq(x, y),
        (MatchSpace::Variant(x), MatchSpace::Variant(y)) => x.owner == y.owner && x.name == y.name
            && spaces_eq(&x.fields, &y.fields),
        (MatchSpace::Record(x), MatchSpace::Record(y)) => record_eq(&x.fields, &y.fields),
        (MatchSpace::Tuple(x), MatchSpace::Tuple(y)) => spaces_eq(x, y),
        (MatchSpace::List(ListSpace::Any(x)), MatchSpace::List(ListSpace::Any(y))) => space_eq(x, y),
        (MatchSpace::List(ListSpace::Nil), MatchSpace::List(ListSpace::Nil)) => true,
        (
            MatchSpace::List(ListSpace::Cons { head: xh, tail: xt }),
            MatchSpace::List(ListSpace::Cons { head: yh, tail: yt }),
        ) => space_eq(xh, yh) && space_eq(xt, yt),
        (MatchSpace::Union(x), MatchSpace::Union(y)) => spaces_eq(x, y),
        (MatchSpace::Opaque(x), MatchSpace::Opaque(y)) => *x == *y,
        _ => false,
    }
}

/// Whether two lists of spaces are identical.
pub fn spaces_eq(a: &Vec<MatchSpace>, b: &Vec<MatchSpace>) -> (r: bool)
    ensures
        r == (spaces_v(a@) == spaces_v(b@)),
    decreases depths(spaces_v(a@)), 1nat,
{
    if a.len() != b.len() {
        proof {
            assert(spaces_v(a@).len() != spaces_v(b@).len());
        }
        return false;
    }
    let mut i: usize = 0;
    while i < a.len()
        invariant
            a.len() == b.len(),
            i <= a.len(),
            forall|k: int| 0 <= k < i ==> (#[trigger] a@[k])@ == b@[k]@,
        decreases a.len() - i,
    {
        proof {
            lemma_depths(spaces_v(a@));
            assert(spaces_v(a@)[i as int] == a@[i as int]@);
        }
        if !space_eq(&a[i], &b[i]) {
            proof {
                assert(spaces_v(a@)[i as int] != spaces_v(b@)[i as int]);
            }
            return false;
        }
        i += 1;
    }
    proof {
        assert(spaces_v(a@) =~= spaces_v(b@));
    }
    true
}

/// Whether two lists of record fields are identical.
pub fn record_eq(a: &Vec<(String, MatchSpace)>, b: &Vec<(String, MatchSpace)>) -> (r: bool)
    ensures
        r == (record_names_v(a@) == record_names_v(b@) && record_spaces_v(a@) == record_spaces_v(b@)),
    decreases depths(record_spaces_v(a@)), 1nat,
{
    if a.len() != b.len() {
        proof {
            assert(record_names_v(a@).len() != record_names_v(b@).len());
        }
        return false;
    }
    let mut i: usize = 0;
    while i < a.len()
        invariant
            a.len() == b.len(),
            i <= a.len(),
            forall|k: int| 0 <= k < i ==> (#[trigger] a@[k]).1@ == b@[k].1@ && a@[k].0@ == b@[k].0@,
        decreases a.len() - i,
    {
        proof {
            lemma_depths(record_spaces_v(a@));
            assert(record_spaces_v(a@)[i as int] == a@[i as int].1@);
        }
        if !(a[i].0 == b[i].0) {
            proof {
                assert(record_names_v(a@)[i as int] != record_names_v(b@)[i as int]);
            }
            return false;
        }
        if !space_eq(&a[i].1, &b[i].1) {
            proof {
                assert(record_spaces_v(a@)[i as int] != record_spaces_v(b@)[i as int]);
            }
            return false;
        }
        i += 1;
    }
    proof {
        assert(record_spaces_v(a@) =~= record_spaces_v(b@));
        assert(record_names_v(a@) =~= record_names_v(b@));
    }
    true
}


// ---------------------------------------------------------------------------
// Emptiness
// ---------------------------------------------------------------------------

/// A primitive space that admits no value.
pub open spec fn prim_is_empty(p: PrimV) -> bool {
    match p {
        PrimV::Bool(t, f) => !t && !f,
        PrimV::Unit(x) => !x,
        PrimV::Int(s) => s.len() == 0,
        PrimV::EqAny(_, _) => false,
        PrimV::EqFinite(_, vs) => vs.len() == 0,
    }
}

/// Emptiness as the coverage checker decides it: a product is empty when
/// one of its components is, a union when all of its members are.
pub open spec fn spec_is_empty(s: SpaceV) -> bool
    decreases s,
{
    match s {
        SpaceV::Empty => true,
        SpaceV::Prim(p) => prim_is_empty(p),
        SpaceV::Variant(_, _, fs) => seq_any_empty(fs),
        SpaceV::Record(_, fs) => seq_any_empty(fs),
        SpaceV::Tuple(fs) => seq_any_empty(fs),
        SpaceV::ListAny(_) => false,
        SpaceV::ListNil => false,
        SpaceV::ListCons(h, t) => spec_is_empty(*h) || spec_is_empty(*t),
        SpaceV::Union(fs) => seq_all_empty(fs),
        SpaceV::Opaque(_) => false,
    }
}

/// Some space of the list is empty.
pub open spec fn seq_any_empty(fs: Seq<SpaceV>) -> bool
    decreases fs,
{
    if fs.len() == 0 {
        false
    } else {
        seq_any_empty(fs.subrange(0, fs.len() - 1)) || spec_is_empty(fs[fs.len() - 1])
    }
}

/// Every space of the list is empty.
pub open spec fn seq_all_empty(fs: Seq<SpaceV>) -> bool
    decreases fs,
{
    if fs.len() == 0 {
        true
    } else {
        seq_all_empty(fs.subrange(0, fs.len() - 1)) && spec_is_empty(fs[fs.len() - 1])
    }
}

pub proof fn lemma_seq_any_empty(fs: Seq<SpaceV>)
    ensures
        seq_any_empty(fs) == exists|i: int| 0 <= i < fs.len() && #[trigger] spec_is_empty(fs[i]),
    decreases fs.len(),
{
    if fs.len() > 0 {
        let t = fs.subrange(0, fs.len() - 1);
        assert(seq_any_empty(fs) == (seq_any_empty(t) || spec_is_empty(fs[fs.len() - 1])));
        lemma_seq_any_empty(t);
        if seq_any_empty(t) {
            let i = choose|i: int| 0 <= i < t.len() && #[trigger] spec_is_empty(t[i]);
            assert(fs[i] == t[i]);
        }
        if exists|i: int| 0 <= i < fs.len() && #[trigger] spec_is_empty(fs[i]) {
            let i = choose|i: int| 0 <= i < fs.len() && #[trigger] spec_is_empty(fs[i]);
            if i < fs.len() - 1 {
                assert(fs[i] == t[i]);
            }
        }
    }
}

pub proof fn lemma_seq_all_empty(fs: Seq<SpaceV>)
    ensures
        seq_all_empty(fs) == forall|i: int| 0 <= i < fs.len() ==> #[trigger] spec_is_empty(fs[i]),
    decreases fs.len(),
{
    if fs.len() > 0 {
        let t = fs.subrange(0, fs.len() - 1);
        assert(seq_all_empty(fs) == (seq_all_empty(t) && spec_is_empty(fs[fs.len() - 1])));
        lemma_seq_all_empty(t);
        if seq_all_empty(fs) {
            assert forall|i: int| 0 <= i < fs.len() implies #[trigger] spec_is_empty(fs[i]) by {
                if i < fs.len() - 1 {
                    assert(fs[i] == t[i]);
                }
            }
        }
        if forall|i: int| 0 <= i < fs.len() ==> #[trigger] spec_is_empty(fs[i]) {
            assert forall|i: int| 0 <= i < t.len() implies #[trigger] spec_is_empty(t[i]) by {
                assert(fs[i] == t[i]);
            }
        }
    }
}

/// Whether the space admits no value, as the coverage checker decides it.
pub fn space_is_empty(space: &MatchSpace) -> (r: bool)
    ensures
        r == spec_is_empty(space@),
    decreases depth(space@), 0nat,
{
    match space {
        MatchSpace::Empty => true,
        MatchSpace::Primitive(primitive) => {
            proof {
                assert(space@ == SpaceV::Prim(primitive@));
            }
            prim_space_is_empty(primitive)
        },
        MatchSpace::Variant(variant) => {
            proof {
                assert(space@ == SpaceV::Variant(variant.owner@, variant.name@, spaces_v(variant.fields@)));
            }
            spaces_any_empty(&variant.fields)
        },
        MatchSpace::Record(record) => {
            proof {
                assert(space@ == SpaceV::Record(record_names_v(record.fields@), record_spaces_v(record.fields@)));

            }
            record_any_empty(&record.fields)
        },
        MatchSpace::Tuple(items) => {
            proof {
                assert(space@ == SpaceV::Tuple(spaces_v(items@)));
            }
            spaces_any_empty(items)
        },
        MatchSpace::List(ListSpace::Any(_)) => false,
        MatchSpace::List(ListSpace::Nil) => false,
        MatchSpace::List(ListSpace::Cons { head, tail }) => {
            proof {
                assert(space@ == SpaceV::ListCons(Box::new(head@), Box::new(tail@)));
            }
            space_is_empty(head) || space_is_empty(tail)
        },
        MatchSpace::Union(items) => {
            proof {
                assert(space@ == SpaceV::Union(spaces_v(items@)));
            }
            spaces_all_empty(items)
        },
        MatchSpace::Opaque(_) => false,
    }
}

/// Whether a primitive space admits no value.
pub fn prim_space_is_empty(primitive: &PrimitiveSpace) -> (r: bool)
    ensures
        r == prim_is_empty(primitive@),
{
    match primitive {
        PrimitiveSpace::Bool { allow_true, allow_false } => !*allow_true && !*allow_false,
        PrimitiveSpace::Unit { present } => !*present,
        PrimitiveSpace::Int(ranges) => ranges.is_empty(),
        PrimitiveSpace::EqAny { .. } => false,
        PrimitiveSpace::EqFinite { values, .. } => {
            proof {
                assert(atoms_view(values@).len() == values.len());
            }
            values.len() == 0
        },
    }
}

/// Whether some space of the list is empty.
pub fn spaces_any_empty(v: &Vec<MatchSpace>) -> (r: bool)
    ensures
        r == seq_any_empty(spaces_v(v@)),
    decreases depths(spaces_v(v@)), 1nat,
{
    let mut i: usize = 0;
    while i < v.len()
        invariant
            i <= v.len(),
            forall|k: int| 0 <= k < i ==> !spec_is_empty(#[trigger] spaces_v(v@)[k]),
        decreases v.len() - i,
    {
        proof {
            lemma_depths(spaces_v(v@));
            assert(spaces_v(v@)[i as int] == v@[i as int]@);
        }
        if space_is_empty(&v[i]) {
            proof {
                lemma_seq_any_empty(spaces_v(v@));
            }
            return true;
        }
        i += 1;
    }
    proof {
        lemma_seq_any_empty(spaces_v(v@));
    }
    false
}

/// Whether every space of the list is empty.
pub fn spaces_all_empty(v: &Vec<MatchSpace>) -> (r: bool)
    ensures
        r == seq_all_empty(spaces_v(v@)),
    decreases depths(spaces_v(v@)), 1nat,
{
    let mut i: usize = 0;
    while i < v.len()
        invariant
            i <= v.len(),
            forall|k: int| 0 <= k < i ==> spec_is_empty(#[trigger] spaces_v(v@)[k]),
        decreases v.len() - i,
    {
        proof {
            lemma_depths(spaces_v(v@));
            assert(spaces_v(v@)[i as int] == v@[i as int]@);
        }
        if !space_is_empty(&v[i]) {
            proof {
                lemma_seq_all_empty(spaces_v(v@));
            }
            return false;
        }
        i += 1;
    }
    proof {
        lemma_seq_all_empty(spaces_v(v@));
    }
    true
}

/// Whether the space of some field of the record is empty.
pub fn record_any_empty(v: &Vec<(String, MatchSpace)>) -> (r: bool)
    ensures
        r == seq_any_empty(record_spaces_v(v@)),
    decreases depths(record_spaces_v(v@)), 1nat,
{
    let mut i: usize = 0;
    while i < v.len()
        invariant
            i <= v.len(),
            forall|k: int| 0 <= k < i ==> !spec_is_empty(#[trigger] record_spaces_v(v@)[k]),
        decreases v.len() - i,
    {
        proof {
            lemma_depths(record_spaces_v(v@));
            assert(record_spaces_v(v@)[i as int] == v@[i as int].1@);
        }
        if space_is_empty(&v[i].1) {
            proof {
                lemma_seq_any_empty(record_spaces_v(v@));
            }
            return true;
        }
        i += 1;
    }
    proof {
        lemma_seq_any_empty(record_spaces_v(v@));
    }
    false
}

// ---------------------------------------------------------------------------
// Primitive spaces
// ---------------------------------------------------------------------------

/// An empty primitive space becomes `Empty`; any other stays as it is.
pub open spec fn normalize_prim(p: PrimV) -> SpaceV {
    if prim_is_empty(p) {
        SpaceV::Empty
    } else {
        SpaceV::Prim(p)
    }
}

/// Two primitive spaces range over the same type of values.
pub open spec fn same_kind(l: PrimV, r: PrimV) -> bool {
    match (l, r) {
        (PrimV::Bool(_, _), PrimV::Bool(_, _)) => true,
        (PrimV::Unit(_), PrimV::Unit(_)) => true,
        (PrimV::Int(_), PrimV::Int(_)) => true,
        (PrimV::EqAny(a, _), PrimV::EqAny(b, _)) => a == b,
        (PrimV::EqAny(a, _), PrimV::EqFinite(b, _)) => a == b,
        (PrimV::EqFinite(a, _), PrimV::EqAny(b, _)) => a == b,
        (PrimV::EqFinite(a, _), PrimV::EqFinite(b, _)) => a == b,
        _ => false,
    }
}

pub open spec fn spec_prim_union(l: PrimV, r: PrimV) -> PrimV {
    match (l, r) {
        (PrimV::Bool(lt, lf), PrimV::Bool(rt, rf)) => PrimV::Bool(lt || rt, lf || rf),
        (PrimV::Unit(a), PrimV::Unit(b)) => PrimV::Unit(a || b),
        (PrimV::Int(a), PrimV::Int(b)) => PrimV::Int(spec_normalize(a + b)),
        (PrimV::EqFinite(k, a), PrimV::EqFinite(_, b)) => PrimV::EqFinite(k, atoms_union_spec(a, b)),
        (PrimV::EqAny(k, a), PrimV::EqAny(_, b)) => PrimV::EqAny(k, atoms_intersection_spec(a, b)),
        (PrimV::EqAny(k, ex), PrimV::EqFinite(_, vals)) => PrimV::EqAny(k, atoms_difference_spec(ex, vals)),
        (PrimV::EqFinite(_, vals), PrimV::EqAny(k, ex)) => PrimV::EqAny(k, atoms_difference_spec(ex, vals)),
        _ => l,
    }
}

pub open spec fn spec_prim_intersection(l: PrimV, r: PrimV) -> SpaceV {
    if !same_kind(l, r) {
        SpaceV::Empty
    } else {
        match (l, r) {
            (PrimV::Bool(lt, lf), PrimV::Bool(rt, rf)) => normalize_prim(PrimV::Bool(lt && rt, lf && rf)),
            (PrimV::Unit(a), PrimV::Unit(b)) => normalize_prim(PrimV::Unit(a && b)),
            (PrimV::Int(a), PrimV::Int(b)) => normalize_prim(PrimV::Int(spec_normalize(spec_cross(a, b)))),
            (PrimV::EqFinite(k, a), PrimV::EqFinite(_, b)) => normalize_prim(
                PrimV::EqFinite(k, atoms_intersection_spec(a, b)),
            ),
            (PrimV::EqAny(k, ex), PrimV::EqFinite(_, vals)) => normalize_prim(
                PrimV::EqFinite(k, atoms_difference_spec(vals, ex)),
            ),
            (PrimV::EqFinite(_, vals), PrimV::EqAny(k, ex)) => normalize_prim(
                PrimV::EqFinite(k, atoms_difference_spec(vals, ex)),
            ),
            (PrimV::EqAny(k, a), PrimV::EqAny(_, b)) => normalize_prim(PrimV::EqAny(k, atoms_union_spec(a, b))),
            _ => SpaceV::Empty,
        }
    }
}

pub open spec fn spec_prim_difference(l: PrimV, r: PrimV) -> SpaceV {
    if !same_kind(l, r) {
        SpaceV::Prim(l)
    } else {
        match (l, r) {
            (PrimV::Bool(lt, lf), PrimV::Bool(rt, rf)) => normalize_prim(PrimV::Bool(lt && !rt, lf && !rf)),
            (PrimV::Unit(a), PrimV::Unit(b)) => normalize_prim(PrimV::Unit(a && !b)),
            (PrimV::Int(a), PrimV::Int(b)) => normalize_prim(PrimV::Int(spec_difference(a, b))),
            (PrimV::EqFinite(k, a), PrimV::EqFinite(_, b)) => normalize_prim(
                PrimV::EqFinite(k, atoms_difference_spec(a, b)),
            ),
            (PrimV::EqFinite(k, a), PrimV::EqAny(_, ex)) => normalize_prim(
                PrimV::EqFinite(k, atoms_intersection_spec(a, ex)),
            ),
            (PrimV::EqAny(k, a), PrimV::EqFinite(_, vals)) => normalize_prim(
                PrimV::EqAny(k, atoms_union_spec(a, vals)),
            ),
            (PrimV::EqAny(k, a), PrimV::EqAny(_, b)) => normalize_prim(
                PrimV::EqFinite(k, atoms_difference_spec(b, a)),
            ),
            _ => SpaceV::Prim(l),
        }
    }
}

/// An empty primitive space becomes `MatchSpace::Empty`.
pub fn normalize_primitive_space(space: PrimitiveSpace) -> (r: MatchSpace)
    ensures
        r@ == normalize_prim(space@),
{
    if prim_space_is_empty(&space) {
        MatchSpace::Empty
    } else {
        MatchSpace::Primitive(space)
    }
}

/// Whether two primitive spaces range over the same type of values.
pub fn primitive_same_kind(left: &PrimitiveSpace, right: &PrimitiveSpace) -> (r: bool)
    ensures
        r == same_kind(left@, right@),
{
    match (left, right) {
        (PrimitiveSpace::Bool { .. }, PrimitiveSpace::Bool { .. }) => true,
        (PrimitiveSpace::Unit { .. }, PrimitiveSpace::Unit { .. }) => true,
        (PrimitiveSpace::Int(_), PrimitiveSpace::Int(_)) => true,
        (PrimitiveSpace::EqAny { kind: l, .. }, PrimitiveSpace::EqAny { kind: r, .. }) => *l == *r,
        (PrimitiveSpace::EqAny { kind: l, .. }, PrimitiveSpace::EqFinite { kind: r, .. }) => *l == *r,
        (PrimitiveSpace::EqFinite { kind: l, .. }, PrimitiveSpace::EqAny { kind: r, .. }) => *l == *r,
        (PrimitiveSpace::EqFinite { kind: l, .. }, PrimitiveSpace::EqFinite { kind: r, .. }) => *l == *r,
        _ => false,
    }
}

/// The union of two primitive spaces of the same kind; `left` otherwise.
pub fn primitive_union(left: &PrimitiveSpace, right: &PrimitiveSpace) -> (r: PrimitiveSpace)
    ensures
        r@ == spec_prim_union(left@, right@),
{
    match (left, right) {
        (
            PrimitiveSpace::Bool { allow_true: lt, allow_false: lf },
            PrimitiveSpace::Bool { allow_true: rt, allow_false: rf },
        ) => PrimitiveSpace::Bool { allow_true: *lt || *rt, allow_false: *lf || *rf },
        (PrimitiveSpace::Unit { present: l }, PrimitiveSpace::Unit { present: r }) => PrimitiveSpace::Unit {
            present: *l || *r,
        },
        (PrimitiveSpace::Int(l), PrimitiveSpace::Int(r)) => PrimitiveSpace::Int(l.union(r)),
        (
            PrimitiveSpace::EqFinite { kind, values: lv },
            PrimitiveSpace::EqFinite { values: rv, .. },
        ) => PrimitiveSpace::EqFinite { kind: *kind, values: atoms_union(lv, rv) },
        (
            PrimitiveSpace::EqAny { kind, excluded: le },
            PrimitiveSpace::EqAny { excluded: re, .. },
        ) => PrimitiveSpace::EqAny { kind: *kind, excluded: atoms_intersection(le, re) },
        (PrimitiveSpace::EqAny { kind, excluded }, PrimitiveSpace::EqFinite { values, .. }) => {
            PrimitiveSpace::EqAny { kind: *kind, excluded: atoms_difference(excluded, values) }
        },
        (PrimitiveSpace::EqFinite { values, .. }, PrimitiveSpace::EqAny { kind, excluded }) => {
            PrimitiveSpace::EqAny { kind: *kind, excluded: atoms_difference(excluded, values) }
        },
        _ => prim_clone(left),
    }
}

/// The values in both primitive spaces.
pub fn primitive_intersection(left: &PrimitiveSpace, right: &PrimitiveSpace) -> (r: MatchSpace)
    ensures
        r@ == spec_prim_intersection(left@, right@),
{
    if !primitive_same_kind(left, right) {
        return MatchSpace::Empty;
    }
    let p = match (left, right) {
        (
            PrimitiveSpace::Bool { allow_true: lt, allow_false: lf },
            PrimitiveSpace::Bool { allow_true: rt, allow_false: rf },
        ) => PrimitiveSpace::Bool { allow_true: *lt && *rt, allow_false: *lf && *rf },
        (PrimitiveSpace::Unit { present: l }, PrimitiveSpace::Unit { present: r }) => PrimitiveSpace::Unit {
            present: *l && *r,
        },
        (PrimitiveSpace::Int(l), PrimitiveSpace::Int(r)) => PrimitiveSpace::Int(l.intersect(r)),
        (
            PrimitiveSpace::EqFinite { kind, values: lv },
            PrimitiveSpace::EqFinite { values: rv, .. },
        ) => PrimitiveSpace::EqFinite { kind: *kind, values: atoms_intersection(lv, rv) },
        (PrimitiveSpace::EqAny { kind, excluded }, PrimitiveSpace::EqFinite { values, .. }) => {
            PrimitiveSpace::EqFinite { kind: *kind, values: atoms_difference(values, excluded) }
        },
        (PrimitiveSpace::EqFinite { values, .. }, PrimitiveSpace::EqAny { kind, excluded }) => {
            PrimitiveSpace::EqFinite { kind: *kind, values: atoms_difference(values, excluded) }
        },
        (
            PrimitiveSpace::EqAny { kind, excluded: le },
            PrimitiveSpace::EqAny { excluded: re, .. },
        ) => PrimitiveSpace::EqAny { kind: *kind, excluded: atoms_union(le, re) },
        _ => {
            return MatchSpace::Empty;
        },
    };
    normalize_primitive_space(p)
}

/// The values of `left` that are not in `right`.
pub fn primitive_difference(left: &PrimitiveSpace, right: &PrimitiveSpace) -> (r: MatchSpace)
    ensures
        r@ == spec_prim_difference(left@, right@),
{
    if !primitive_same_kind(left, right) {
        return MatchSpace::Primitive(prim_clone(left));
    }
    let p = match (left, right) {
        (
            PrimitiveSpace::Bool { allow_true: lt, allow_false: lf },
            PrimitiveSpace::Bool { allow_true: rt, allow_false: rf },
        ) => PrimitiveSpace::Bool { allow_true: *lt && !*rt, allow_false: *lf && !*rf },
        (PrimitiveSpace::Unit { present: l }, PrimitiveSpace::Unit { present: r }) => PrimitiveSpace::Unit {
            present: *l && !*r,
        },
        (PrimitiveSpace::Int(l), PrimitiveSpace::Int(r)) => PrimitiveSpace::Int(l.difference(r)),
        (
            PrimitiveSpace::EqFinite { kind, values: lv },
            PrimitiveSpace::EqFinite { values: rv, .. },
        ) => PrimitiveSpace::EqFinite { kind: *kind, values: atoms_difference(lv, rv) },
        (PrimitiveSpace::EqFinite { kind, values }, PrimitiveSpace::EqAny { excluded, .. }) => {
            PrimitiveSpace::EqFinite { kind: *kind, values: atoms_intersection(values, excluded) }
        },
        (PrimitiveSpace::EqAny { kind, excluded }, PrimitiveSpace::EqFinite { values, .. }) => {
            PrimitiveSpace::EqAny { kind: *kind, excluded: atoms_union(excluded, values) }
        },
        (
            PrimitiveSpace::EqAny { kind, excluded: le },
            PrimitiveSpace::EqAny { excluded: re, .. },
        ) => PrimitiveSpace::EqFinite { kind: *kind, values: atoms_difference(re, le) },
        _ => {
            return MatchSpace::Primitive(prim_clone(left));
        },
    };
    normalize_primitive_space(p)
}


// ---------------------------------------------------------------------------
// Normalization
// ---------------------------------------------------------------------------

/// The normal form of a space: empty products collapse to `Empty`, unions
/// are flattened and their primitive members of one kind merged.
#[verifier::opaque]
pub open spec fn spec_normalize_space(s: SpaceV) -> SpaceV
    decreases s,
{
    match s {
        SpaceV::Empty => SpaceV::Empty,
        SpaceV::Prim(p) => normalize_prim(p),
        SpaceV::Variant(o, n, fs) => {
            let nf = normalize_seq(fs);
            if seq_any_empty(nf) {
                SpaceV::Empty
            } else {
                SpaceV::Variant(o, n, nf)
            }
        },
        SpaceV::Record(names, fs) => {
            let nf = normalize_seq(fs);
            if seq_any_empty(nf) {
                SpaceV::Empty
            } else {
                SpaceV::Record(names, nf)
            }
        },
        SpaceV::Tuple(fs) => {
            let nf = normalize_seq(fs);
            if seq_any_empty(nf) {
                SpaceV::Empty
            } else {
                SpaceV::Tuple(nf)
            }
        },
        SpaceV::ListAny(e) => {
            let ne = spec_normalize_space(*e);
            if spec_is_empty(ne) {
                SpaceV::ListNil
            } else {
                SpaceV::ListAny(Box::new(ne))
            }
        },
        SpaceV::ListNil => SpaceV::ListNil,
        SpaceV::ListCons(h, t) => {
            let nh = spec_normalize_space(*h);
            let nt = spec_normalize_space(*t);
            if spec_is_empty(nh) || spec_is_empty(nt) {
                SpaceV::Empty
            } else {
                SpaceV::ListCons(Box::new(nh), Box::new(nt))
            }
        },
        SpaceV::Union(items) => finish_union(merge_all(flatten(items))),
        SpaceV::Opaque(n) => SpaceV::Opaque(n),
    }
}

/// Each space of the list normalized.
pub open spec fn normalize_seq(fs: Seq<SpaceV>) -> Seq<SpaceV>
    decreases fs,
{
    Seq::new(
        fs.len(),
        |i: int|
            if 0 <= i < fs.len() {
                spec_normalize_space(fs[i])
            } else {
                SpaceV::Empty
            },
    )
}

/// The members of a union, normalized, with empty ones dropped and nested
/// unions spliced in.
pub open spec fn flatten(items: Seq<SpaceV>) -> Seq<SpaceV>
    decreases items,
{
    if items.len() == 0 {
        Seq::<SpaceV>::empty()
    } else {
        let prev = flatten(items.subrange(0, items.len() - 1));
        let n = spec_normalize_space(items[items.len() - 1]);
        match n {
            SpaceV::Empty => prev,
            SpaceV::Union(nested) => prev + nested,
            _ => prev.push(n),
        }
    }
}

/// Two union members that are merged into one.
pub open spec fn can_merge(l: SpaceV, r: SpaceV) -> bool {
    match (l, r) {
        (SpaceV::Prim(a), SpaceV::Prim(b)) => same_kind(a, b),
        _ => false,
    }
}

/// The merge of two union members.
pub open spec fn merge_item(l: SpaceV, r: SpaceV) -> SpaceV {
    match (l, r) {
        (SpaceV::Prim(a), SpaceV::Prim(b)) => normalize_prim(spec_prim_union(a, b)),
        _ => l,
    }
}

/// Index of the first member of `m` that `item` merges with.
pub open spec fn first_mergeable(m: Seq<SpaceV>, item: SpaceV) -> int
    decreases m.len(),
{
    if m.len() == 0 {
        0
    } else if can_merge(m[0], item) {
        0
    } else {
        1 + first_mergeable(m.drop_first(), item)
    }
}

/// Adds `item` to the merged members: merged into the first member it can
/// merge with, dropped when an identical member exists, appended otherwise.
pub open spec fn merge_into(m: Seq<SpaceV>, item: SpaceV) -> Seq<SpaceV> {
    let k = first_mergeable(m, item);
    if k < m.len() {
        m.update(k, merge_item(m[k], item))
    } else if m.contains(item) {
        m
    } else {
        m.push(item)
    }
}

pub open spec fn merge_all(items: Seq<SpaceV>) -> Seq<SpaceV>
    decreases items.len(),
{
    if items.len() == 0 {
        Seq::<SpaceV>::empty()
    } else {
        merge_into(merge_all(items.drop_last()), items.last())
    }
}

/// No member is `Empty`, one member is itself, more make a union.
pub open spec fn finish_union(m: Seq<SpaceV>) -> SpaceV {
    if m.len() == 0 {
        SpaceV::Empty
    } else if m.len() == 1 {
        m[0]
    } else {
        SpaceV::Union(m)
    }
}

pub proof fn lemma_first_mergeable(m: Seq<SpaceV>, item: SpaceV)
    ensures
        0 <= first_mergeable(m, item) <= m.len(),
        forall|k: int| 0 <= k < first_mergeable(m, item) ==> !can_merge(#[trigger] m[k], item),
        first_mergeable(m, item) < m.len() ==> can_merge(m[first_mergeable(m, item)], item),
    decreases m.len(),
{
    if m.len() > 0 && !can_merge(m[0], item) {
        lemma_first_mergeable(m.drop_first(), item);
        assert forall|k: int| 0 <= k < first_mergeable(m, item) implies !can_merge(#[trigger] m[k], item) by {
            if k > 0 {
                assert(m[k] == m.drop_first()[k - 1]);
            }
        }
    }
}

proof fn lemma_spaces_v_push(v: Seq<MatchSpace>, x: MatchSpace)
    ensures
        spaces_v(v.push(x)) == spaces_v(v).push(x@),
{
    assert(spaces_v(v.push(x)) =~= spaces_v(v).push(x@));
}

proof fn lemma_spaces_v_concat(v: Seq<MatchSpace>, w: Seq<MatchSpace>)
    ensures
        spaces_v(v + w) == spaces_v(v) + spaces_v(w),
{
    assert(spaces_v(v + w) =~= spaces_v(v) + spaces_v(w));
}

proof fn lemma_spaces_v_update(v: Seq<MatchSpace>, k: int, x: MatchSpace)
    requires
        0 <= k < v.len(),
    ensures
        spaces_v(v.update(k, x)) == spaces_v(v).update(k, x@),
{
    assert(spaces_v(v.update(k, x)) =~= spaces_v(v).update(k, x@));
}

/// Whether `item` is one of the spaces of `v`.
pub fn spaces_contains(v: &Vec<MatchSpace>, item: &MatchSpace) -> (r: bool)
    ensures
        r == spaces_v(v@).contains(item@),
{
    let mut i: usize = 0;
    while i < v.len()
        invariant
            i <= v.len(),
            forall|k: int| 0 <= k < i ==> spaces_v(v@)[k] != item@,
        decreases v.len() - i,
    {
        if space_eq(&v[i], item) {
            proof {
                assert(spaces_v(v@)[i as int] == item@);
            }
            return true;
        }
        proof {
            assert(spaces_v(v@)[i as int] == v@[i as int]@);
        }
        i += 1;
    }
    false
}

/// Whether two union members are merged into one.
pub fn can_merge_union(left: &MatchSpace, right: &MatchSpace) -> (r: bool)
    ensures
        r == can_merge(left@, right@),
{
    match (left, right) {
        (MatchSpace::Primitive(l), MatchSpace::Primitive(r)) => primitive_same_kind(l, r),
        _ => false,
    }
}

/// The merge of two union members.
pub fn merge_union_item(left: MatchSpace, right: MatchSpace) -> (r: MatchSpace)
    ensures
        r@ == merge_item(left@, right@),
{
    match (&left, &right) {
        (MatchSpace::Primitive(l), MatchSpace::Primitive(r)) => normalize_primitive_space(
            primitive_union(l, r),
        ),
        _ => left,
    }
}

/// The normal form of a space.
pub fn normalize_space(space: MatchSpace) -> (r: MatchSpace)
    ensures
        r@ == spec_normalize_space(space@),
{
    normalize_ref(&space)
}

/// The normal form of a list space.
pub fn normalize_list_space(list: ListSpace) -> (r: MatchSpace)
    ensures
        r@ == spec_normalize_space(list@),
{
    let space = MatchSpace::List(list);
    normalize_ref(&space)
}

/// The normal form of a union of the given members.
pub fn normalize_union(items: Vec<MatchSpace>) -> (r: MatchSpace)
    ensures
        r@ == spec_normalize_space(SpaceV::Union(spaces_v(items@))),
{
    reveal(spec_normalize_space);
    normalize_union_ref(&items)
}

fn normalize_ref(s: &MatchSpace) -> (r: MatchSpace)
    ensures
        r@ == spec_normalize_space(s@),
    decreases depth(s@), 0nat,
{
    reveal(spec_normalize_space);
    match s {
        MatchSpace::Empty => MatchSpace::Empty,
        MatchSpace::Primitive(p) => normalize_primitive_space(prim_clone(p)),
        MatchSpace::Variant(variant) => {
            let fields = normalize_all(&variant.fields);
            if spaces_any_empty(&fields) {
                MatchSpace::Empty
            } else {
                MatchSpace::Variant(
                    VariantSpace { owner: variant.owner.clone(), name: variant.name.clone(), fields },
                )
            }
        },
        MatchSpace::Record(record) => {
            let fields = normalize_record(&record.fields);
            if record_any_empty(&fields) {
                MatchSpace::Empty
            } else {
                MatchSpace::Record(RecordSpace { fields })
            }
        },
        MatchSpace::Tuple(items) => {
            let items = normalize_all(items);
            if spaces_any_empty(&items) {
                MatchSpace::Empty
            } else {
                MatchSpace::Tuple(items)
            }
        },
        MatchSpace::List(ListSpace::Any(element)) => {
            let element = normalize_ref(element);
            if space_is_empty(&element) {
                MatchSpace::List(ListSpace::Nil)
            } else {
                MatchSpace::List(ListSpace::Any(Box::new(element)))
            }
        },
        MatchSpace::List(ListSpace::Nil) => MatchSpace::List(ListSpace::Nil),
        MatchSpace::List(ListSpace::Cons { head, tail }) => {
            let head = normalize_ref(head);
            let tail = normalize_ref(tail);
            if space_is_empty(&head) || space_is_empty(&tail) {
                MatchSpace::Empty
            } else {
                MatchSpace::List(ListSpace::Cons { head: Box::new(head), tail: Box::new(tail) })
            }
        },
        MatchSpace::Union(items) => normalize_union_ref(items),
        MatchSpace::Opaque(name) => MatchSpace::Opaque(name.clone()),
    }
}

fn normalize_all(v: &Vec<MatchSpace>) -> (r: Vec<MatchSpace>)
    ensures
        spaces_v(r@) == normalize_seq(spaces_v(v@)),
    decreases depths(spaces_v(v@)), 1nat,
{
    reveal(spec_normalize_space);
    let mut r: Vec<MatchSpace> = Vec::new();
    let mut i: usize = 0;
    while i < v.len()
        invariant
            i <= v.len(),
            r.len() == i,
            forall|k: int| 0 <= k < i ==> (#[trigger] r@[k])@ == spec_normalize_space(v@[k]@),
        decreases v.len() - i,
    {
        proof {
            lemma_depths(spaces_v(v@));
            assert(spaces_v(v@)[i as int] == v@[i as int]@);
        }
        r.push(normalize_ref(&v[i]));
        i += 1;
    }
    proof {
        assert(spaces_v(r@) =~= normalize_seq(spaces_v(v@)));
    }
    r
}

fn normalize_record(v: &Vec<(String, MatchSpace)>) -> (r: Vec<(String, MatchSpace)>)
    ensures
        record_names_v(r@) == record_names_v(v@),
        record_spaces_v(r@) == normalize_seq(record_spaces_v(v@)),
    decreases depths(record_spaces_v(v@)), 1nat,
{
    reveal(spec_normalize_space);
    let mut r: Vec<(String, MatchSpace)> = Vec::new();
    let mut i: usize = 0;
    while i < v.len()
        invariant
            i <= v.len(),
            r.len() == i,
            forall|k: int| 0 <= k < i ==> (#[trigger] r@[k]).1@ == spec_normalize_space(v@[k].1@) && r@[k].0@ == v@[k].0@,
        decreases v.len() - i,
    {
        proof {
            lemma_depths(record_spaces_v(v@));
            assert(record_spaces_v(v@)[i as int] == v@[i as int].1@);
        }
        let name = v[i].0.clone();
        let space = normalize_ref(&v[i].1);
        r.push((name, space));
        i += 1;
    }
    proof {
        assert(record_spaces_v(r@) =~= normalize_seq(record_spaces_v(v@)));
        assert(record_names_v(r@) =~= record_names_v(v@));
    }
    r
}

fn normalize_union_ref(items: &Vec<MatchSpace>) -> (r: MatchSpace)
    ensures
        r@ == finish_union(merge_all(flatten(spaces_v(items@)))),
    decreases depths(spaces_v(items@)), 1nat,
{
    reveal(spec_normalize_space);
    let ghost iv = spaces_v(items@);
    let mut flat: Vec<MatchSpace> = Vec::new();
    let mut i: usize = 0;
    while i < items.len()
        invariant
            i <= items.len(),
            iv == spaces_v(items@),
            spaces_v(flat@) == flatten(iv.subrange(0, i as int)),
        decreases items.len() - i,
    {
        proof {
            reveal(spec_normalize_space);
            lemma_depths(iv);
            assert(iv[i as int] == items@[i as int]@);
            let p = iv.subrange(0, i + 1);
            assert(p.subrange(0, p.len() - 1) =~= iv.subrange(0, i as int));
            assert(p[p.len() - 1] == iv[i as int]);
            assert(flatten(p) == {
                let prev = flatten(p.subrange(0, p.len() - 1));
                let n = spec_normalize_space(p[p.len() - 1]);
                match n {
                    SpaceV::Empty => prev,
                    SpaceV::Union(nested) => prev + nested,
                    _ => prev.push(n),
                }
            });
        }
        let n = normalize_ref(&items[i]);
        match n {
            MatchSpace::Empty => {},
            MatchSpace::Union(nested) => {
                let mut nested = nested;
                proof {
                    lemma_spaces_v_concat(flat@, nested@);
                }
                flat.append(&mut nested);
            },
            other => {
                proof {
                    lemma_spaces_v_push(flat@, other);
                }
                flat.push(other);
            },
        }
        i += 1;
    }
    proof {
        assert(iv.subrange(0, items.len() as int) =~= iv);
    }
    let ghost fv = spaces_v(flat@);
    let mut merged: Vec<MatchSpace> = Vec::new();
    let mut j: usize = 0;
    while j < flat.len()
        invariant
            j <= flat.len(),
            fv == spaces_v(flat@),
            spaces_v(merged@) == merge_all(fv.subrange(0, j as int)),
        decreases flat.len() - j,
    {
        let ghost m = spaces_v(merged@);
        let ghost item = flat@[j as int]@;
        proof {
            assert(fv[j as int] == item);
            let p = fv.subrange(0, j + 1);
            assert(p.drop_last() =~= fv.subrange(0, j as int));
            assert(p.last() == item);
        }
        let mut k: usize = 0;
        while k < merged.len() && !can_merge_union(&merged[k], &flat[j])
            invariant
                k <= merged.len(),
                j < flat.len(),
                m == spaces_v(merged@),
                item == flat@[j as int]@,
                forall|q: int| 0 <= q < k ==> !can_merge(#[trigger] m[q], item),
            decreases merged.len() - k,
        {
            proof {
                assert(m[k as int] == merged@[k as int]@);
            }
            k += 1;
        }
        proof {
            lemma_first_mergeable(m, item);
            if k < merged.len() {
                assert(m[k as int] == merged@[k as int]@);
            }
            assert(k == first_mergeable(m, item));
        }
        if k < merged.len() {
            let current = space_clone(&merged[k]);
            let next = merge_union_item(current, space_clone(&flat[j]));
            proof {
                assert(m[k as int] == merged@[k as int]@);
                lemma_spaces_v_update(merged@, k as int, next);
            }
            merged.set(k, next);
        } else if !spaces_contains(&merged, &flat[j]) {
            let c = space_clone(&flat[j]);
            proof {
                lemma_spaces_v_push(merged@, c);
            }
            merged.push(c);
        }
        j += 1;
    }
    proof {
        assert(fv.subrange(0, flat.len() as int) =~= fv);
    }
    if merged.len() == 0 {
        MatchSpace::Empty
    } else if merged.len() == 1 {
        proof {
            assert(spaces_v(merged@)[0] == merged@[0]@);
        }
        merged.pop().unwrap()
    } else {
        MatchSpace::Union(merged)
    }
}

// ---------------------------------------------------------------------------
// Ordered literal lists
// ---------------------------------------------------------------------------

/// The literals a primitive space lists are in strictly increasing order,
/// as an ordered set of literals holds them: none twice, and the same set
/// always listed the same way.
pub open spec fn prim_atoms_ordered(p: PrimV) -> bool {
    match p {
        PrimV::EqAny(_, ex) => atoms_sorted(ex),
        PrimV::EqFinite(_, vals) => atoms_sorted(vals),
        _ => true,
    }
}

/// A space whose literal lists are all ordered: the primitive parts of an
/// ordered space, normalized or not.
pub open spec fn space_atoms_ordered(s: SpaceV) -> bool {
    match s {
        SpaceV::Prim(p) => prim_atoms_ordered(p),
        _ => true,
    }
}

/// Uniting, intersecting and taking the difference of primitive spaces
/// keep their literal lists ordered.
pub proof fn law_prim_operations_keep_literals_ordered(l: PrimV, r: PrimV)
    requires
        prim_atoms_ordered(l),
        prim_atoms_ordered(r),
    ensures
        prim_atoms_ordered(spec_prim_union(l, r)),
        space_atoms_ordered(spec_prim_intersection(l, r)),
        space_atoms_ordered(spec_prim_difference(l, r)),
{
    match (l, r) {
        (PrimV::EqFinite(_, a), PrimV::EqFinite(_, b)) => {
            law_atoms_union_keeps_order(a, b);
            law_atoms_filter_keeps_order(a, |x: AtomV| b.contains(x));
            law_atoms_filter_keeps_order(a, |x: AtomV| !b.contains(x));
        },
        (PrimV::EqAny(_, a), PrimV::EqAny(_, b)) => {
            law_atoms_filter_keeps_order(a, |x: AtomV| b.contains(x));
            law_atoms_union_keeps_order(a, b);
            law_atoms_filter_keeps_order(b, |x: AtomV| !a.contains(x));
        },
        (PrimV::EqAny(_, ex), PrimV::EqFinite(_, vals)) => {
            law_atoms_filter_keeps_order(ex, |x: AtomV| !vals.contains(x));
            law_atoms_filter_keeps_order(vals, |x: AtomV| !ex.contains(x));
            law_atoms_union_keeps_order(ex, vals);
        },
        (PrimV::EqFinite(_, vals), PrimV::EqAny(_, ex)) => {
            law_atoms_filter_keeps_order(ex, |x: AtomV| !vals.contains(x));
            law_atoms_filter_keeps_order(vals, |x: AtomV| !ex.contains(x));
            law_atoms_filter_keeps_order(vals, |x: AtomV| ex.contains(x));
        },
        _ => {},
    }
}

/// No integer range of a primitive space ends at the largest integer.
pub open spec fn prim_ranges_below_max(p: PrimV) -> bool {
    match p {
        PrimV::Int(r) => no_end_at_max(r),
        _ => true,
    }
}

/// Intersecting two primitive spaces gives the same space in either order,
/// when their literal lists are ordered and no integer range ends at the
/// largest integer.
pub proof fn law_prim_intersection_commutes(l: PrimV, r: PrimV)
    requires
        prim_atoms_ordered(l),
        prim_atoms_ordered(r),
        prim_ranges_below_max(l),
        prim_ranges_below_max(r),
    ensures
        spec_prim_intersection(l, r) == spec_prim_intersection(r, l),
{
    match (l, r) {
        (PrimV::Bool(a, b), PrimV::Bool(c, d)) => {
            assert(PrimV::Bool(a && c, b && d) == PrimV::Bool(c && a, d && b));
        },
        (PrimV::Unit(a), PrimV::Unit(b)) => {
            assert(PrimV::Unit(a && b) == PrimV::Unit(b && a));
        },
        (PrimV::Int(a), PrimV::Int(b)) => {
            law_intersect_gives_the_same_intervals_either_way(a, b);
        },
        (PrimV::EqFinite(k, a), PrimV::EqFinite(j, b)) => {
            if k == j {
                let f1 = |x: AtomV| b.contains(x);
                let f2 = |x: AtomV| a.contains(x);
                law_atoms_filter_keeps_order(a, f1);
                law_atoms_filter_keeps_order(b, f2);
                assert forall|y: AtomV| a.filter(f1).contains(y) <==> b.filter(f2).contains(y) by {}
                law_ordered_atoms_are_determined_by_their_members(a.filter(f1), b.filter(f2));
            }
        },
        (PrimV::EqAny(k, a), PrimV::EqAny(j, b)) => {
            if k == j {
                law_atoms_union_keeps_order(a, b);
                law_atoms_union_keeps_order(b, a);
                assert forall|y: AtomV| atoms_union_spec(a, b).contains(y) <==> atoms_union_spec(b, a).contains(y) by {}
                law_ordered_atoms_are_determined_by_their_members(
                    atoms_union_spec(a, b),
                    atoms_union_spec(b, a),
                );
            }
        },
        _ => {},
    }
}

} // verus!

verus! {

/// `b` bounds the depth of every space of `fs`.
pub open spec fn all_depth_le(fs: Seq<SpaceV>, b: nat) -> bool {
    forall|i: int| 0 <= i < fs.len() ==> depth(#[trigger] fs[i]) <= b
}

/// The greatest depth of a list is at most `b` exactly when each depth is.
pub proof fn lemma_depths_le(fs: Seq<SpaceV>, b: nat)
    ensures
        all_depth_le(fs, b) <==> depths(fs) <= b,
    decreases fs.len(),
{
    lemma_depths(fs);
    if fs.len() > 0 {
        let t = fs.subrange(0, fs.len() - 1);
        lemma_depths_le(t, b);
        if all_depth_le(fs, b) {
            assert(all_depth_le(t, b)) by {
                assert forall|i: int| 0 <= i < t.len() implies depth(#[trigger] t[i]) <= b by {
                    assert(t[i] == fs[i]);
                }
            }
        }
        if depths(fs) <= b {
            assert forall|i: int| 0 <= i < fs.len() implies depth(#[trigger] fs[i]) <= b by {}
        }
    }
}

/// Normalization never makes a space deeper.
pub proof fn lemma_normalize_depth(s: SpaceV)
    ensures
        depth(spec_normalize_space(s)) <= depth(s),
    decreases depth(s), 1nat, 0nat,
{
    reveal(spec_normalize_space);
    match s {
        SpaceV::Variant(o, n, fs) => {
            lemma_normalize_seq_depth(fs);
        },
        SpaceV::Record(names, fs) => {
            lemma_normalize_seq_depth(fs);
        },
        SpaceV::Tuple(fs) => {
            lemma_normalize_seq_depth(fs);
        },
        SpaceV::ListAny(e) => {
            lemma_normalize_depth(*e);
        },
        SpaceV::ListCons(h, t) => {
            lemma_normalize_depth(*h);
            lemma_normalize_depth(*t);
        },
        SpaceV::Union(items) => {
            lemma_depths(items);
            lemma_flatten_depth(items);
            lemma_merge_all_depth(flatten(items), depths(items));
            let m = merge_all(flatten(items));
            lemma_depths_le(m, depths(items));
            if m.len() == 1 {
                assert(depth(m[0]) <= depths(items));
            }
        },
        _ => {},
    }
}

/// Normalizing each space of a list keeps the greatest depth.
pub proof fn lemma_normalize_seq_depth(fs: Seq<SpaceV>)
    ensures
        depths(normalize_seq(fs)) <= depths(fs),
    decreases depths(fs) + 1, 0nat, 0nat,
{
    reveal(spec_normalize_space);
    lemma_depths(fs);
    let nf = normalize_seq(fs);
    assert forall|i: int| 0 <= i < nf.len() implies depth(#[trigger] nf[i]) <= depths(fs) by {
        assert(nf[i] == spec_normalize_space(fs[i]));
        assert(depth(fs[i]) <= depths(fs));
        lemma_normalize_depth(fs[i]);
    }
    lemma_depths_le(nf, depths(fs));
}

/// The members of a flattened union are no deeper than the members given.
pub proof fn lemma_flatten_depth(items: Seq<SpaceV>)
    ensures
        all_depth_le(flatten(items), depths(items)),
    decreases depths(items) + 1, 0nat, items.len(),
{
    reveal(spec_normalize_space);
    if items.len() > 0 {
        let prefix = items.subrange(0, items.len() - 1);
        lemma_depths(items);
        lemma_depths_le(prefix, depths(items));
        assert(all_depth_le(prefix, depths(items))) by {
            assert forall|i: int| 0 <= i < prefix.len() implies depth(#[trigger] prefix[i]) <= depths(items) by {
                assert(prefix[i] == items[i]);
            }
        }
        lemma_depths_le(prefix, depths(items));
        lemma_flatten_depth(prefix);
        let last = items[items.len() - 1];
        lemma_normalize_depth(last);
        let n = spec_normalize_space(last);
        let prev = flatten(prefix);
        match n {
            SpaceV::Union(nested) => {
                lemma_depths(nested);
                assert forall|i: int| 0 <= i < (prev + nested).len() implies depth(#[trigger] (prev + nested)[i]) <= depths(items) by {
                    if i < prev.len() {
                        assert((prev + nested)[i] == prev[i]);
                    } else {
                        assert((prev + nested)[i] == nested[i - prev.len()]);
                    }
                }
            },
            SpaceV::Empty => {},
            _ => {
                assert forall|i: int| 0 <= i < prev.push(n).len() implies depth(#[trigger] prev.push(n)[i]) <= depths(items) by {
                    if i < prev.len() {
                        assert(prev.push(n)[i] == prev[i]);
                    }
                }
            },
        }
    }
}

/// Merging union members keeps a bound on their depth.
pub proof fn lemma_merge_all_depth(items: Seq<SpaceV>, b: nat)
    requires
        all_depth_le(items, b),
    ensures
        all_depth_le(merge_all(items), b),
    decreases items.len(),
{
    if items.len() > 0 {
        let prefix = items.drop_last();
        assert(all_depth_le(prefix, b)) by {
            assert forall|i: int| 0 <= i < prefix.len() implies depth(#[trigger] prefix[i]) <= b by {
                assert(prefix[i] == items[i]);
            }
        }
        lemma_merge_all_depth(prefix, b);
        let m = merge_all(prefix);
        let item = items.last();
        assert(depth(item) <= b);
        let k = first_mergeable(m, item);
        lemma_first_mergeable(m, item);
        let r = merge_into(m, item);
        assert forall|i: int| 0 <= i < r.len() implies depth(#[trigger] r[i]) <= b by {
            if k < m.len() {
                if i == k {
                    let merged = merge_item(m[k], item);
                    assert(depth(merged) == 0 || merged == m[k]);
                }
            } else if !m.contains(item) {
                if i < m.len() {
                    assert(r[i] == m[i]);
                }
            }
        }
    }
}

} // verus!
