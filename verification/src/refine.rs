//! Narrowing a match space by a fact about one of its parts: a path leads
//! from the scrutinee to a sub-value, and the space there is intersected
//! with a constraint.

use crate::arith::{
    exact_solution, interval_bounds, interval_solvable, relation_holds, solve_exact_single_var, solve_single_var_interval, solves,
    within, ComparisonOp,
};
use crate::int_ranges::{normalized, ranges_set, spec_difference, IntInterval, IntRangeSet};
use crate::space::{
    depth, depths, lemma_depths, normalize_space, record_names_v, record_spaces_v, space_clone,
    spaces_clone, record_clone, spaces_v, spec_normalize_space, ListSpace, MatchSpace,
    PrimV, PrimitiveSpace, RecordSpace, SpaceV, VariantSpace,
};
use crate::space_ops::{cons_space, space_intersection, spec_cons_space, spec_intersection};
use vstd::prelude::*;

verus! {

/// One step from a value to one of its parts.
#[derive(Debug)]
pub enum ValuePathStep {
    /// The named field of a record.
    Field(String),
    /// The field at an index of a constructor.
    VariantField(usize),
    /// The item at an index of a tuple.
    TupleIndex(usize),
    /// The first element of a non-empty list.
    ListHead,
    /// The rest of a non-empty list.
    ListTail,
}

/// The view of a path step.
pub enum StepV {
    Field(Seq<char>),
    VariantField(int),
    TupleIndex(int),
    ListHead,
    ListTail,
}

impl View for ValuePathStep {
    type V = StepV;

    open spec fn view(&self) -> StepV {
        match self {
            ValuePathStep::Field(name) => StepV::Field(name@),
            ValuePathStep::VariantField(i) => StepV::VariantField(*i as int),
            ValuePathStep::TupleIndex(i) => StepV::TupleIndex(*i as int),
            ValuePathStep::ListHead => StepV::ListHead,
            ValuePathStep::ListTail => StepV::ListTail,
        }
    }
}

/// The view of a path.
pub open spec fn steps_v(p: Seq<ValuePathStep>) -> Seq<StepV> {
    Seq::new(p.len(), |i: int| p[i]@)
}

/// `k` is the first position of `name` among `names`.
pub open spec fn is_first_position(names: Seq<Seq<char>>, name: Seq<char>, k: int) -> bool {
    &&& 0 <= k < names.len()
    &&& names[k] == name
    &&& forall|j: int| 0 <= j < k ==> names[j] != name
}

/// The first position of `name` among `names`, or `-1`.
pub open spec fn field_position(names: Seq<Seq<char>>, name: Seq<char>) -> int {
    if exists|k: int| is_first_position(names, name, k) {
        choose|k: int| is_first_position(names, name, k)
    } else {
        -1
    }
}

/// The space `base` with the part that `path` leads to intersected with
/// `c`; `None` where the path does not fit the shape of the space.
pub open spec fn spec_refine(base: SpaceV, path: Seq<StepV>, c: SpaceV) -> Option<SpaceV>
    decreases path.len(), depth(base), 1nat, 0nat,
{
    if path.len() == 0 {
        Some(spec_intersection(base, c))
    } else {
        let step = path[0];
        let rest = path.subrange(1, path.len() as int);
        match base {
            SpaceV::Union(items) => Some(
                spec_normalize_space(SpaceV::Union(refine_each(items, path, c))),
            ),
            SpaceV::Variant(o, n, fs) => match step {
                StepV::VariantField(i) => if 0 <= i < fs.len() {
                    proof {
                        lemma_depths(fs);
                    }
                    match spec_refine(fs[i], rest, c) {
                        Some(f) => Some(spec_normalize_space(SpaceV::Variant(o, n, fs.update(i, f)))),
                        None => None,
                    }
                } else {
                    None
                },
                _ => None,
            },
            SpaceV::Record(names, fs) => match step {
                StepV::Field(name) => {
                    let i = field_position(names, name);
                    if 0 <= i < fs.len() {
                        proof {
                            lemma_depths(fs);
                        }
                        match spec_refine(fs[i], rest, c) {
                            Some(f) => Some(
                                spec_normalize_space(SpaceV::Record(names, fs.update(i, f))),
                            ),
                            None => None,
                        }
                    } else {
                        None
                    }
                },
                _ => None,
            },
            SpaceV::Tuple(fs) => match step {
                StepV::TupleIndex(i) => if 0 <= i < fs.len() {
                    proof {
                        lemma_depths(fs);
                    }
                    match spec_refine(fs[i], rest, c) {
                        Some(f) => Some(spec_normalize_space(SpaceV::Tuple(fs.update(i, f)))),
                        None => None,
                    }
                } else {
                    None
                },
                _ => None,
            },
            SpaceV::ListCons(h, t) => match step {
                StepV::ListHead => match spec_refine(*h, rest, c) {
                    Some(f) => Some(spec_cons_space(f, *t)),
                    None => None,
                },
                StepV::ListTail => match spec_refine(*t, rest, c) {
                    Some(f) => Some(spec_cons_space(*h, f)),
                    None => None,
                },
                _ => None,
            },
            SpaceV::ListAny(e) => match step {
                StepV::ListHead => match spec_refine(*e, rest, c) {
                    Some(f) => Some(spec_cons_space(f, SpaceV::ListAny(e))),
                    None => None,
                },
                StepV::ListTail => match spec_refine(SpaceV::ListAny(e), rest, c) {
                    Some(f) => Some(spec_cons_space(*e, f)),
                    None => None,
                },
                _ => None,
            },
            _ => None,
        }
    }
}

/// The members of a union refined along the path, dropping those the path
/// does not fit.
pub open spec fn refine_each(items: Seq<SpaceV>, path: Seq<StepV>, c: SpaceV) -> Seq<SpaceV>
    decreases path.len(), depths(items) + 1, 0nat, items.len(),
{
    if items.len() == 0 {
        Seq::empty()
    } else {
        let prefix = items.subrange(0, items.len() - 1);
        proof {
            lemma_depths(items);
        }
        let done = refine_each(prefix, path, c);
        match spec_refine(items[items.len() - 1], path, c) {
            Some(s) => done.push(s),
            None => done,
        }
    }
}

/// The view of an optional space.
pub open spec fn opt_space_v(o: Option<MatchSpace>) -> Option<SpaceV> {
    match o {
        Some(s) => Some(s@),
        None => None,
    }
}

/// Narrows `base` at the sub-value that `path` leads to, intersecting the
/// space found there with `constraint`.
pub fn refine_space_at_path(
    base_space: &MatchSpace,
    path: &[ValuePathStep],
    constraint: &MatchSpace,
) -> (r: Option<MatchSpace>)
    ensures
        opt_space_v(r) == spec_refine(base_space@, steps_v(path@), constraint@),
{
    proof {
        assert(steps_v(path@).subrange(0, path@.len() as int) =~= steps_v(path@));
    }
    refine_from(base_space, path, 0, constraint)
}

/// The first position of `name` among the record fields.
fn find_field(fields: &Vec<(String, MatchSpace)>, name: &String) -> (r: Option<usize>)
    ensures
        match r {
            Some(i) => i == field_position(record_names_v(fields@), name@),
            None => field_position(record_names_v(fields@), name@) == -1,
        },
{
    let ghost names = record_names_v(fields@);
    let mut i: usize = 0;
    while i < fields.len()
        invariant
            i <= fields.len(),
            names == record_names_v(fields@),
            forall|j: int| 0 <= j < i ==> names[j] != name@,
        decreases fields.len() - i,
    {
        if fields[i].0 == *name {
            proof {
                assert(is_first_position(names, name@, i as int));
                let k = choose|k: int| is_first_position(names, name@, k);
                assert(k == i);
            }
            return Some(i);
        }
        i += 1;
    }
    proof {
        assert(!exists|k: int| is_first_position(names, name@, k));
    }
    None
}

fn refine_from(
    base: &MatchSpace,
    path: &[ValuePathStep],
    pos: usize,
    constraint: &MatchSpace,
) -> (r: Option<MatchSpace>)
    requires
        pos <= path@.len(),
    ensures
        opt_space_v(r) == spec_refine(
            base@,
            steps_v(path@).subrange(pos as int, path@.len() as int),
            constraint@,
        ),
    decreases path@.len() - pos, depth(base@), 1nat, 0nat,
{
    let ghost p = steps_v(path@).subrange(pos as int, path@.len() as int);
    if pos == path.len() {
        return Some(space_intersection(base, constraint));
    }
    let step = &path[pos];
    let ghost rest = p.subrange(1, p.len() as int);
    proof {
        assert(p[0] == path@[pos as int]@);
        assert(rest =~= steps_v(path@).subrange(pos + 1, path@.len() as int));
    }
    match base {
        MatchSpace::Union(items) => {
            let refined = refine_items(items, path, pos, constraint);
            Some(normalize_space(MatchSpace::Union(refined)))
        },
        MatchSpace::Variant(variant) => {
            let index = match step {
                ValuePathStep::VariantField(index) => *index,
                _ => {
                    return None;
                },
            };
            if index >= variant.fields.len() {
                return None;
            }
            proof {
                lemma_depths(spaces_v(variant.fields@));
                assert(spaces_v(variant.fields@)[index as int] == variant.fields@[index as int]@);
            }
            let refined_field = match refine_from(&variant.fields[index], path, pos + 1, constraint) {
                Some(f) => f,
                None => {
                    return None;
                },
            };
            let mut fields = spaces_clone(&variant.fields);
            let ghost before = spaces_v(fields@);
            let ghost fv = refined_field@;
            fields.set(index, refined_field);
            proof {
                assert(spaces_v(fields@) =~= before.update(index as int, fv));
            }
            Some(
                normalize_space(
                    MatchSpace::Variant(
                        VariantSpace {
                            owner: variant.owner.clone(),
                            name: variant.name.clone(),
                            fields,
                        },
                    ),
                ),
            )
        },
        MatchSpace::Record(record) => {
            let name = match step {
                ValuePathStep::Field(name) => name,
                _ => {
                    return None;
                },
            };
            let index = match find_field(&record.fields, name) {
                Some(index) => index,
                None => {
                    return None;
                },
            };
            proof {
                lemma_depths(record_spaces_v(record.fields@));
                assert(record_spaces_v(record.fields@)[index as int]
                    == record.fields@[index as int].1@);
            }
            let refined_field = match refine_from(&record.fields[index].1, path, pos + 1, constraint) {
                Some(f) => f,
                None => {
                    return None;
                },
            };
            let mut fields = record_clone(&record.fields);
            let ghost before_names = record_names_v(fields@);
            let ghost before = record_spaces_v(fields@);
            let ghost fv = refined_field@;
            let field_name = fields[index].0.clone();
            proof {
                assert(field_name@ == before_names[index as int]);
            }
            fields.set(index, (field_name, refined_field));
            proof {
                assert(record_spaces_v(fields@) =~= before.update(index as int, fv));
                assert(record_names_v(fields@) =~= before_names);
            }
            Some(normalize_space(MatchSpace::Record(RecordSpace { fields })))
        },
        MatchSpace::Tuple(items) => {
            let index = match step {
                ValuePathStep::TupleIndex(index) => *index,
                _ => {
                    return None;
                },
            };
            if index >= items.len() {
                return None;
            }
            proof {
                lemma_depths(spaces_v(items@));
                assert(spaces_v(items@)[index as int] == items@[index as int]@);
            }
            let refined_item = match refine_from(&items[index], path, pos + 1, constraint) {
                Some(f) => f,
                None => {
                    return None;
                },
            };
            let mut fields = spaces_clone(items);
            let ghost before = spaces_v(fields@);
            let ghost fv = refined_item@;
            fields.set(index, refined_item);
            proof {
                assert(spaces_v(fields@) =~= before.update(index as int, fv));
            }
            Some(normalize_space(MatchSpace::Tuple(fields)))
        },
        MatchSpace::List(ListSpace::Cons { head, tail }) => match step {
            ValuePathStep::ListHead => {
                let refined = match refine_from(head, path, pos + 1, constraint) {
                    Some(f) => f,
                    None => {
                        return None;
                    },
                };
                Some(cons_space(refined, space_clone(tail)))
            },
            ValuePathStep::ListTail => {
                let refined = match refine_from(tail, path, pos + 1, constraint) {
                    Some(f) => f,
                    None => {
                        return None;
                    },
                };
                Some(cons_space(space_clone(head), refined))
            },
            _ => None,
        },
        MatchSpace::List(ListSpace::Any(element)) => match step {
            ValuePathStep::ListHead => {
                let refined = match refine_from(element, path, pos + 1, constraint) {
                    Some(f) => f,
                    None => {
                        return None;
                    },
                };
                Some(
                    cons_space(
                        refined,
                        MatchSpace::List(ListSpace::Any(Box::new(space_clone(element)))),
                    ),
                )
            },
            ValuePathStep::ListTail => {
                let any = MatchSpace::List(ListSpace::Any(Box::new(space_clone(element))));
                let refined = match refine_from(&any, path, pos + 1, constraint) {
                    Some(f) => f,
                    None => {
                        return None;
                    },
                };
                Some(cons_space(space_clone(element), refined))
            },
            _ => None,
        },
        _ => None,
    }
}

fn refine_items(
    items: &Vec<MatchSpace>,
    path: &[ValuePathStep],
    pos: usize,
    constraint: &MatchSpace,
) -> (r: Vec<MatchSpace>)
    requires
        pos < path@.len(),
    ensures
        spaces_v(r@) == refine_each(
            spaces_v(items@),
            steps_v(path@).subrange(pos as int, path@.len() as int),
            constraint@,
        ),
    decreases path@.len() - pos, depths(spaces_v(items@)) + 1, 0nat, 0nat,
{
    let ghost iv = spaces_v(items@);
    let ghost p = steps_v(path@).subrange(pos as int, path@.len() as int);
    let mut out: Vec<MatchSpace> = Vec::new();
    let mut i: usize = 0;
    while i < items.len()
        invariant
            i <= items.len(),
            pos < path@.len(),
            iv == spaces_v(items@),
            p == steps_v(path@).subrange(pos as int, path@.len() as int),
            spaces_v(out@) == refine_each(iv.subrange(0, i as int), p, constraint@),
        decreases items.len() - i,
    {
        proof {
            lemma_depths(iv);
            assert(iv[i as int] == items@[i as int]@);
            let pre = iv.subrange(0, i + 1);
            assert(pre.subrange(0, i as int) =~= iv.subrange(0, i as int));
            assert(pre[i as int] == iv[i as int]);
        }
        match refine_from(&items[i], path, pos, constraint) {
            Some(s) => {
                let ghost before = out@;
                let ghost sv = s@;
                out.push(s);
                proof {
                    assert(spaces_v(out@) =~= spaces_v(before).push(sv));
                }
            },
            None => {},
        }
        i += 1;
    }
    proof {
        assert(iv.subrange(0, items@.len() as int) =~= iv);
    }
    out
}

/// The inputs on which `int_constraint_space` stays within `i64`.
pub open spec fn constraint_solvable(coeff: i64, op: ComparisonOp, rhs: i64) -> bool {
    if op == ComparisonOp::Eq || op == ComparisonOp::Ne {
        !(coeff == -1 && rhs == i64::MIN)
    } else {
        interval_solvable(coeff, op, rhs)
    }
}

/// `int_constraint_space` gives a space: a non-zero coefficient, and for
/// `==` and `!=` an integer solution.
pub open spec fn constraint_defined(coeff: i64, op: ComparisonOp, rhs: i64) -> bool {
    &&& coeff != 0
    &&& (op == ComparisonOp::Eq || op == ComparisonOp::Ne) ==> exists|x: int|
        #[trigger] solves(coeff as int, x, rhs as int)
}

/// The integers `x` with `coeff * x op rhs`.
pub open spec fn constraint_set(coeff: i64, op: ComparisonOp, rhs: i64) -> Set<int> {
    Set::new(|x: int| relation_holds(op, coeff * x, rhs as int))
}

/// An integer space over the given intervals.
pub open spec fn int_space(rs: Seq<IntInterval>) -> SpaceV {
    SpaceV::Prim(PrimV::Int(rs))
}

/// The space `int_constraint_space` builds: the single solution for `==`,
/// every integer but it for `!=`, and the interval between the solved bounds
/// for an ordering (empty where the bounds cross).
pub open spec fn spec_int_constraint(coeff: i64, op: ComparisonOp, rhs: i64) -> Option<SpaceV> {
    let all = seq![IntInterval { start: None, end: None }];
    match op {
        ComparisonOp::Eq => match exact_solution(coeff, rhs) {
            Some(v) => Some(int_space(seq![IntInterval { start: Some(v), end: Some(v) }])),
            None => None,
        },
        ComparisonOp::Ne => match exact_solution(coeff, rhs) {
            Some(v) => Some(
                int_space(spec_difference(all, seq![IntInterval { start: Some(v), end: Some(v) }])),
            ),
            None => None,
        },
        _ => match interval_bounds(coeff, op, rhs) {
            Some((None, None)) => Some(int_space(all)),
            Some((Some(lo), None)) => Some(int_space(seq![IntInterval { start: Some(lo), end: None }])),
            Some((None, Some(hi))) => Some(int_space(seq![IntInterval { start: None, end: Some(hi) }])),
            Some((Some(lo), Some(hi))) => if lo <= hi {
                Some(int_space(seq![IntInterval { start: Some(lo), end: Some(hi) }]))
            } else {
                Some(int_space(Seq::empty()))
            },
            None => None,
        },
    }
}

/// The constraint `coeff * x op rhs` on an integer `x`, as an integer space.
/// Its integers are exactly the solutions, except that `x != v` with `v` at
/// an end of the `i64` range keeps every integer.
pub fn int_constraint_space(coeff: i64, op: ComparisonOp, rhs: i64) -> (r: Option<MatchSpace>)
    requires
        constraint_solvable(coeff, op, rhs),
    ensures
        r is Some <==> constraint_defined(coeff, op, rhs),
        match r {
            Some(s) => match s@ {
                SpaceV::Prim(PrimV::Int(rs)) => {
                    &&& normalized(rs)
                    &&& constraint_set(coeff, op, rhs).subset_of(ranges_set(rs))
                    &&& (!(op == ComparisonOp::Ne && (solves(coeff as int, i64::MIN as int, rhs as int)
                        || solves(coeff as int, i64::MAX as int, rhs as int)))
                        ==> ranges_set(rs) == constraint_set(coeff, op, rhs))
                },
                _ => false,
            },
            None => true,
        },
        opt_space_v(r) == spec_int_constraint(coeff, op, rhs),
{
    let ranges = match op {
        ComparisonOp::Eq => {
            let value = match solve_exact_single_var(coeff, rhs) {
                Some(v) => v,
                None => {
                    return None;
                },
            };
            let ranges = IntRangeSet::singleton(value);
            proof {
                assert(solves(coeff as int, value as int, rhs as int));
                assert(ranges_set(ranges@) =~= constraint_set(coeff, op, rhs)) by {
                    assert forall|x: int| #[trigger] constraint_set(coeff, op, rhs).contains(x) implies x == value by {
                        assert(coeff * x == coeff * value);
                        assert((coeff * x - coeff * value) == coeff * (x - value)) by (nonlinear_arith);
                        assert(x - value == 0) by (nonlinear_arith)
                            requires
                                coeff * (x - value) == 0,
                                coeff != 0,
                        ;
                    }
                }
            }
            ranges
        },
        ComparisonOp::Ne => {
            let value = match solve_exact_single_var(coeff, rhs) {
                Some(v) => v,
                None => {
                    return None;
                },
            };
            let ranges = IntRangeSet::all().difference(&IntRangeSet::singleton(value));
            proof {
                assert(solves(coeff as int, value as int, rhs as int));
                assert forall|x: int| #[trigger] solves(coeff as int, x, rhs as int) implies x == value by {
                    assert(coeff * x == coeff * value);
                    assert((coeff * x - coeff * value) == coeff * (x - value)) by (nonlinear_arith);
                    assert(x - value == 0) by (nonlinear_arith)
                        requires
                            coeff * (x - value) == 0,
                            coeff != 0,
                    ;
                }
                let target = constraint_set(coeff, op, rhs);
                assert(Set::<int>::full().difference(Set::<int>::empty().insert(value as int)) =~= target) by {
                    assert forall|x: int| #[trigger] target.contains(x) <==> x != value by {
                        if x != value {
                            assert(!solves(coeff as int, x, rhs as int));
                        }
                    }
                }
                if value != i64::MIN && value != i64::MAX {
                    assert(solves(coeff as int, value as int, rhs as int));
                }
            }
            ranges
        },
        _ => {
            let (lower, upper) = match solve_single_var_interval(coeff, op, rhs) {
                Some(bounds) => bounds,
                None => {
                    return None;
                },
            };
            let ghost bounds = (lower, upper);
            let ranges = match (lower, upper) {
                (None, None) => IntRangeSet::all(),
                (Some(lower), None) => IntRangeSet::greater_eq(lower),
                (None, Some(upper)) => IntRangeSet::less_eq(upper),
                (Some(lower), Some(upper)) => if lower <= upper {
                    let r = IntRangeSet::from_interval(IntInterval { start: Some(lower), end: Some(upper) });
                    proof {
                        assert(ranges_set(r@) =~= Set::new(|x: int| lower <= x <= upper)) by {
                            assert forall|x: int| lower <= x <= upper implies #[trigger] ranges_set(r@).contains(x) by {
                                assert(crate::int_ranges::in_interval(r@[0], x));
                            }
                        }
                    }
                    r
                } else {
                    let r = IntRangeSet::empty();
                    r
                },
            };
            proof {
                assert(ranges_set(ranges@) =~= constraint_set(coeff, op, rhs)) by {
                    assert forall|x: int| #[trigger] ranges_set(ranges@).contains(x) <==> within(bounds, x) by {}
                }
            }
            ranges
        },
    };
    Some(MatchSpace::Primitive(PrimitiveSpace::Int(ranges)))
}

} // verus!
