//! Guards as narrowings of a match space. The prover states what a guard
//! establishes as a formula over paths from the values in scope; where
//! those paths lead into the scrutinee, the formula is read as the part of
//! the arm's space that it keeps.

use crate::arith::ComparisonOp;
use crate::ast::Expr;
use crate::refine::{
    constraint_solvable, int_constraint_space, opt_space_v, refine_space_at_path,
    spec_int_constraint, spec_refine, steps_v, StepV, ValuePathStep,
};
use crate::space::{
    normalize_space, space_clone, spaces_v, spec_normalize_space, MatchSpace, PrimV,
    PrimitiveSpace, SpaceV,
};
use crate::space_ops::{
    difference_terminates, space_difference, space_intersection, spec_intersection,
    spec_space_difference,
};
use crate::difference_meaning::{law_difference_is_exact, space_bounds_inside};
use crate::semantics::{
    any_contains, contains, law_intersection_keeps_shared_values, law_normalize_keeps_values,
    law_refine_keeps_parts_in_constraint, lemma_contains_unfold, part_at, part_in, prim_contains,
    Val,
};
use vstd::prelude::*;

verus! {

/// The binding under which the prover knows a match's scrutinee.
pub const MATCH_SCRUTINEE_BINDING: &'static str = "$match_scrutinee";

// ---------------------------------------------------------------------------
// Prover paths and formulas
// ---------------------------------------------------------------------------

/// One step of a path by which the prover names a value.
#[derive(Debug)]
pub enum SymbolPathStep {
    /// A name in scope: where every path starts.
    Binding(String),
    /// The named field of a record.
    Field(String),
    /// The field at an index of a constructor.
    VariantField(usize),
    /// The item at an index of a tuple.
    TupleIndex(usize),
    /// The first element of a list.
    ListHead,
    /// The rest of a list.
    ListTail,
    /// The length of a list.
    Length,
}

/// A path from a binding to a part of its value.
#[derive(Debug)]
pub struct SymbolPath(pub Vec<SymbolPathStep>);

/// A sum of integer-valued paths, each times its coefficient, as the
/// prover hands it over.
#[derive(Debug)]
pub struct LinearForm {
    pub terms: Vec<(SymbolPath, i64)>,
}

/// An atomic fact.
#[derive(Debug)]
pub enum Atom {
    /// The boolean at `path` is `value`.
    BoolEq { path: SymbolPath, value: bool },
    /// `form op rhs` on integers.
    IntCmp { form: LinearForm, op: ComparisonOp, rhs: i64 },
    /// The protocol state at `path` is `state`.
    StateEq { path: SymbolPath, state: String },
}

/// A formula over atomic facts.
#[derive(Debug)]
pub enum Formula {
    True,
    False,
    Atom(Atom),
    And(Vec<Formula>),
    Or(Vec<Formula>),
    Not(Box<Formula>),
}

/// The view of a path step.
pub enum SymStepV {
    Binding(Seq<char>),
    Field(Seq<char>),
    VariantField(int),
    TupleIndex(int),
    ListHead,
    ListTail,
    Length,
}

/// The view of an atomic fact.
pub enum FactV {
    BoolEq(Seq<SymStepV>, bool),
    IntCmp(Seq<(Seq<SymStepV>, i64)>, ComparisonOp, i64),
    StateEq(Seq<SymStepV>, Seq<char>),
}

/// The view of a formula.
pub enum FormulaV {
    True,
    False,
    Fact(FactV),
    And(Seq<FormulaV>),
    Or(Seq<FormulaV>),
    Not(Box<FormulaV>),
}

impl View for SymbolPathStep {
    type V = SymStepV;

    open spec fn view(&self) -> SymStepV {
        match self {
            SymbolPathStep::Binding(n) => SymStepV::Binding(n@),
            SymbolPathStep::Field(n) => SymStepV::Field(n@),
            SymbolPathStep::VariantField(i) => SymStepV::VariantField(*i as int),
            SymbolPathStep::TupleIndex(i) => SymStepV::TupleIndex(*i as int),
            SymbolPathStep::ListHead => SymStepV::ListHead,
            SymbolPathStep::ListTail => SymStepV::ListTail,
            SymbolPathStep::Length => SymStepV::Length,
        }
    }
}

/// The view of a sequence of path steps.
pub open spec fn sym_steps_v(p: Seq<SymbolPathStep>) -> Seq<SymStepV> {
    Seq::new(p.len(), |i: int| p[i]@)
}

impl View for SymbolPath {
    type V = Seq<SymStepV>;

    open spec fn view(&self) -> Seq<SymStepV> {
        sym_steps_v(self.0@)
    }
}

/// The views of a sequence of paths.
pub open spec fn paths_v(p: Seq<SymbolPath>) -> Seq<Seq<SymStepV>> {
    Seq::new(p.len(), |i: int| p[i]@)
}

/// The view of the terms of a linear form.
pub open spec fn terms_v(t: Seq<(SymbolPath, i64)>) -> Seq<(Seq<SymStepV>, i64)> {
    Seq::new(t.len(), |i: int| (t[i].0@, t[i].1))
}

impl View for Atom {
    type V = FactV;

    open spec fn view(&self) -> FactV {
        match self {
            Atom::BoolEq { path, value } => FactV::BoolEq(path@, *value),
            Atom::IntCmp { form, op, rhs } => FactV::IntCmp(terms_v(form.terms@), *op, *rhs),
            Atom::StateEq { path, state } => FactV::StateEq(path@, state@),
        }
    }
}

/// The view of a formula.
pub open spec fn formula_v(f: Formula) -> FormulaV
    decreases f,
{
    match f {
        Formula::True => FormulaV::True,
        Formula::False => FormulaV::False,
        Formula::Atom(a) => FormulaV::Fact(a@),
        Formula::And(parts) => FormulaV::And(formulas_v(parts@)),
        Formula::Or(parts) => FormulaV::Or(formulas_v(parts@)),
        Formula::Not(part) => FormulaV::Not(Box::new(formula_v(*part))),
    }
}

/// The views of a sequence of formulas.
pub open spec fn formulas_v(v: Seq<Formula>) -> Seq<FormulaV>
    decreases v,
{
    Seq::new(v.len(), |i: int| if 0 <= i < v.len() { formula_v(v[i]) } else { FormulaV::True })
}

impl View for Formula {
    type V = FormulaV;

    open spec fn view(&self) -> FormulaV {
        formula_v(*self)
    }
}

/// Nesting depth of a formula view; every part is strictly shallower.
pub open spec fn fdepth(f: FormulaV) -> nat
    decreases f,
{
    match f {
        FormulaV::And(ps) => 1 + fdepths(ps),
        FormulaV::Or(ps) => 1 + fdepths(ps),
        FormulaV::Not(p) => 1 + fdepth(*p),
        _ => 0,
    }
}

/// The greatest depth among a sequence of formula views.
pub open spec fn fdepths(fs: Seq<FormulaV>) -> nat
    decreases fs,
{
    if fs.len() == 0 {
        0
    } else {
        let a = fdepths(fs.subrange(0, fs.len() - 1));
        let b = fdepth(fs[fs.len() - 1]);
        if a >= b {
            a
        } else {
            b
        }
    }
}

/// No formula of a sequence is deeper than the sequence's depth.
pub proof fn lemma_fdepths(fs: Seq<FormulaV>)
    ensures
        forall|i: int| 0 <= i < fs.len() ==> fdepth(#[trigger] fs[i]) <= fdepths(fs),
    decreases fs.len(),
{
    if fs.len() > 0 {
        let t = fs.subrange(0, fs.len() - 1);
        lemma_fdepths(t);
        assert forall|i: int| 0 <= i < fs.len() implies fdepth(#[trigger] fs[i]) <= fdepths(fs) by {
            if i < fs.len() - 1 {
                assert(fs[i] == t[i]);
            }
        }
    }
}

impl LinearForm {
    /// The only term of the form, where it has exactly one.
    pub fn single_term(&self) -> (r: Option<(&SymbolPath, i64)>)
        ensures
            match r {
                Some((path, coeff)) => {
                    &&& self.terms@.len() == 1
                    &&& path@ == self.terms@[0].0@
                    &&& coeff == self.terms@[0].1
                },
                None => self.terms@.len() != 1,
            },
    {
        if self.terms.len() == 1 {
            Some((&self.terms[0].0, self.terms[0].1))
        } else {
            None
        }
    }
}

// ---------------------------------------------------------------------------
// From prover paths to value paths
// ---------------------------------------------------------------------------

/// The value-path step a prover step stands for; a binding or a length has
/// none.
pub open spec fn step_value(s: SymStepV) -> Option<StepV> {
    match s {
        SymStepV::Field(n) => Some(StepV::Field(n)),
        SymStepV::VariantField(i) => Some(StepV::VariantField(i)),
        SymStepV::TupleIndex(i) => Some(StepV::TupleIndex(i)),
        SymStepV::ListHead => Some(StepV::ListHead),
        SymStepV::ListTail => Some(StepV::ListTail),
        SymStepV::Binding(_) => None,
        SymStepV::Length => None,
    }
}

/// The value path the prover steps stand for, where each of them has one.
pub open spec fn steps_value(s: Seq<SymStepV>) -> Option<Seq<StepV>> {
    if forall|i: int| 0 <= i < s.len() ==> #[trigger] step_value(s[i]) is Some {
        Some(Seq::new(s.len(), |i: int| step_value(s[i]).unwrap()))
    } else {
        None
    }
}

/// `k` is the first of the roots that starts with `first`.
pub open spec fn is_first_root(roots: Seq<Seq<SymStepV>>, first: SymStepV, k: int) -> bool {
    &&& 0 <= k < roots.len()
    &&& roots[k].len() > 0
    &&& roots[k][0] == first
    &&& forall|j: int| 0 <= j < k ==> !(roots[j].len() > 0 && roots[j][0] == first)
}

/// The position of the first root that starts with `first`, or `-1`.
pub open spec fn root_position(roots: Seq<Seq<SymStepV>>, first: SymStepV) -> int {
    if exists|k: int| is_first_root(roots, first, k) {
        choose|k: int| is_first_root(roots, first, k)
    } else {
        -1
    }
}

/// The path within the scrutinee that a prover path names: what follows
/// the scrutinee's own binding, or what follows the first scrutinee root
/// that starts with the same binding, when the path extends that root.
pub open spec fn spec_value_path(path: Seq<SymStepV>, roots: Seq<Seq<SymStepV>>) -> Option<
    Seq<StepV>,
> {
    if path.len() == 0 {
        None
    } else {
        match path[0] {
            SymStepV::Binding(name) => if name == MATCH_SCRUTINEE_BINDING@ {
                steps_value(path.skip(1))
            } else {
                let k = root_position(roots, path[0]);
                if k < 0 {
                    None
                } else if path.len() < roots[k].len() || path.take(roots[k].len() as int)
                    != roots[k] {
                    None
                } else {
                    steps_value(path.skip(roots[k].len() as int))
                }
            },
            _ => None,
        }
    }
}

/// The part of a value that prover steps lead to: a record's field by
/// name, a constructor's or a tuple's item by index, the first element of a
/// non-empty list for `ListHead` and the list after that element for
/// `ListTail`; a binding or a length step leads to no part of a value.
pub open spec fn prover_part(v: Val, steps: Seq<SymStepV>) -> Option<Val>
    decreases steps.len(),
{
    if steps.len() == 0 {
        Some(v)
    } else {
        let rest = steps.drop_first();
        match (steps[0], v) {
            (SymStepV::Field(name), Val::Rec(names, vs)) => {
                let i = crate::refine::field_position(names, name);
                if 0 <= i < vs.len() {
                    prover_part(vs[i], rest)
                } else {
                    None
                }
            },
            (SymStepV::VariantField(i), Val::Ctor(_, _, vs)) => if 0 <= i < vs.len() {
                prover_part(vs[i], rest)
            } else {
                None
            },
            (SymStepV::TupleIndex(i), Val::Tup(vs)) => if 0 <= i < vs.len() {
                prover_part(vs[i], rest)
            } else {
                None
            },
            (SymStepV::ListHead, Val::List(vs)) => if vs.len() > 0 {
                prover_part(vs[0], rest)
            } else {
                None
            },
            (SymStepV::ListTail, Val::List(vs)) => if vs.len() > 0 {
                prover_part(Val::List(vs.drop_first()), rest)
            } else {
                None
            },
            _ => None,
        }
    }
}

/// Converted steps lead, in every value, to the part the prover steps lead
/// to.
pub proof fn lemma_converted_steps_lead_to_the_prover_part(s: Seq<SymStepV>)
    requires
        steps_value(s) is Some,
    ensures
        forall|v: Val| #[trigger] part_at(v, steps_value(s)->0) == prover_part(v, s),
    decreases s.len(),
{
    let vp = steps_value(s)->0;
    if s.len() > 0 {
        let rest = s.drop_first();
        assert forall|i: int| 0 <= i < rest.len() implies #[trigger] step_value(rest[i]) is Some by {
            assert(rest[i] == s[i + 1]);
            assert(step_value(s[i + 1]) is Some);
        }
        lemma_converted_steps_lead_to_the_prover_part(rest);
        let rvp = steps_value(rest)->0;
        assert(vp.subrange(1, vp.len() as int) =~= rvp) by {
            assert forall|i: int| 0 <= i < rvp.len() implies vp.subrange(1, vp.len() as int)[i]
                == rvp[i] by {
                assert(rest[i] == s[i + 1]);
            }
        }
        assert(step_value(s[0]) is Some);
        assert forall|v: Val| #[trigger] part_at(v, vp) == prover_part(v, s) by {
            assert(vp[0] == step_value(s[0]).unwrap());
            assert(part_at(v, vp) == match (vp[0], v) {
                (StepV::Field(name), Val::Rec(names, vs)) => {
                    let i = crate::refine::field_position(names, name);
                    if 0 <= i < vs.len() {
                        part_at(vs[i], rvp)
                    } else {
                        None
                    }
                },
                (StepV::VariantField(i), Val::Ctor(_, _, vs)) => if 0 <= i < vs.len() {
                    part_at(vs[i], rvp)
                } else {
                    None
                },
                (StepV::TupleIndex(i), Val::Tup(vs)) => if 0 <= i < vs.len() {
                    part_at(vs[i], rvp)
                } else {
                    None
                },
                (StepV::ListHead, Val::List(vs)) => if vs.len() > 0 {
                    part_at(vs[0], rvp)
                } else {
                    None
                },
                (StepV::ListTail, Val::List(vs)) => if vs.len() > 0 {
                    part_at(Val::List(vs.drop_first()), rvp)
                } else {
                    None
                },
                _ => None,
            });
        }
    } else {
        assert forall|v: Val| #[trigger] part_at(v, vp) == prover_part(v, s) by {}
    }
}

/// The value path read from a prover path leads, in every scrutinee value,
/// to the part the prover path names: the part that the steps after the
/// scrutinee's binding, or after a root by which the prover knows the
/// scrutinee, lead to.
pub proof fn law_value_path_names_the_prover_part(
    path: Seq<SymStepV>,
    roots: Seq<Seq<SymStepV>>,
    v: Val,
)
    requires
        spec_value_path(path, roots) is Some,
    ensures
        exists|m: int|
            1 <= m <= path.len() && ((m == 1 && path[0] == SymStepV::Binding(
                MATCH_SCRUTINEE_BINDING@,
            )) || roots.contains(path.take(m))) && part_at(v, spec_value_path(path, roots)->0)
                == #[trigger] prover_part(v, path.skip(m)),
{
    if path[0] == SymStepV::Binding(MATCH_SCRUTINEE_BINDING@) {
        lemma_converted_steps_lead_to_the_prover_part(path.skip(1));
        assert(part_at(v, spec_value_path(path, roots)->0) == prover_part(v, path.skip(1)));
    } else {
        let k = root_position(roots, path[0]);
        assert(exists|j: int| is_first_root(roots, path[0], j));
        assert(is_first_root(roots, path[0], k));
        let m = roots[k].len() as int;
        lemma_converted_steps_lead_to_the_prover_part(path.skip(m));
        assert(roots[k] == path.take(m));
        assert(roots.contains(path.take(m)));
        assert(part_at(v, spec_value_path(path, roots)->0) == prover_part(v, path.skip(m)));
    }
}

/// The view of an optional value path.
pub open spec fn opt_steps_v(o: Option<Vec<ValuePathStep>>) -> Option<Seq<StepV>> {
    match o {
        Some(v) => Some(steps_v(v@)),
        None => None,
    }
}

/// Whether two prover steps are the same.
fn sym_step_eq(a: &SymbolPathStep, b: &SymbolPathStep) -> (r: bool)
    ensures
        r == (a@ == b@),
{
    match (a, b) {
        (SymbolPathStep::Binding(x), SymbolPathStep::Binding(y)) => *x == *y,
        (SymbolPathStep::Field(x), SymbolPathStep::Field(y)) => *x == *y,
        (SymbolPathStep::VariantField(x), SymbolPathStep::VariantField(y)) => *x == *y,
        (SymbolPathStep::TupleIndex(x), SymbolPathStep::TupleIndex(y)) => *x == *y,
        (SymbolPathStep::ListHead, SymbolPathStep::ListHead) => true,
        (SymbolPathStep::ListTail, SymbolPathStep::ListTail) => true,
        (SymbolPathStep::Length, SymbolPathStep::Length) => true,
        _ => false,
    }
}

/// The value path for the prover steps from `from` on.
fn convert_steps(steps: &Vec<SymbolPathStep>, from: usize) -> (r: Option<Vec<ValuePathStep>>)
    requires
        from <= steps@.len(),
    ensures
        opt_steps_v(r) == steps_value(sym_steps_v(steps@).skip(from as int)),
{
    let ghost sv = sym_steps_v(steps@).skip(from as int);
    let mut out: Vec<ValuePathStep> = Vec::new();
    let mut i: usize = from;
    while i < steps.len()
        invariant
            from <= i <= steps@.len(),
            sv == sym_steps_v(steps@).skip(from as int),
            forall|j: int| 0 <= j < i - from ==> #[trigger] step_value(sv[j]) is Some,
            steps_v(out@) =~= Seq::new((i - from) as nat, |j: int| step_value(sv[j]).unwrap()),
        decreases steps@.len() - i,
    {
        let ghost before = out@;
        proof {
            assert(sv[i - from] == steps@[i as int]@);
        }
        match &steps[i] {
            SymbolPathStep::Field(name) => out.push(ValuePathStep::Field(name.clone())),
            SymbolPathStep::VariantField(index) => out.push(ValuePathStep::VariantField(*index)),
            SymbolPathStep::TupleIndex(index) => out.push(ValuePathStep::TupleIndex(*index)),
            SymbolPathStep::ListHead => out.push(ValuePathStep::ListHead),
            SymbolPathStep::ListTail => out.push(ValuePathStep::ListTail),
            SymbolPathStep::Binding(_) | SymbolPathStep::Length => {
                proof {
                    assert(!(step_value(sv[i - from]) is Some));
                }
                return None;
            },
        }
        proof {
            assert(steps_v(out@) =~= steps_v(before).push(step_value(sv[i - from]).unwrap()));
        }
        i += 1;
    }
    Some(out)
}

/// The path within the scrutinee that a prover path names, if it names one:
/// a path from the scrutinee's own binding, or one that extends a root by
/// which the prover knows the scrutinee. A binding or a length within the
/// rest gives none.
pub fn symbol_path_to_value_path(path: &SymbolPath, scrutinee_roots: &[SymbolPath]) -> (r: Option<
    Vec<ValuePathStep>,
>)
    ensures
        opt_steps_v(r) == spec_value_path(path@, paths_v(scrutinee_roots@)),
{
    let ghost roots = paths_v(scrutinee_roots@);
    if path.0.len() == 0 {
        return None;
    }
    let first = &path.0[0];
    proof {
        assert(path@[0] == first@);
    }
    let ghost mut bound: Seq<char> = Seq::empty();
    match first {
        SymbolPathStep::Binding(name) => {
            if *name == String::from_str(MATCH_SCRUTINEE_BINDING) {
                return convert_steps(&path.0, 1);
            }
            proof {
                bound = name@;
            }
        },
        _ => {
            return None;
        },
    }
    assert(path@[0] == SymStepV::Binding(bound) && bound != MATCH_SCRUTINEE_BINDING@);
    let mut k: usize = 0;
    while k < scrutinee_roots.len()
        invariant
            k <= scrutinee_roots@.len(),
            roots == paths_v(scrutinee_roots@),
            path@.len() > 0,
            first@ == path@[0],
            forall|j: int| 0 <= j < k ==> !(roots[j].len() > 0 && roots[j][0] == first@),
            path@[0] == SymStepV::Binding(bound),
            bound != MATCH_SCRUTINEE_BINDING@,
        decreases scrutinee_roots@.len() - k,
    {
        let root = &scrutinee_roots[k].0;
        proof {
            assert(roots[k as int] == sym_steps_v(root@));
        }
        if root.len() > 0 && sym_step_eq(&root[0], first) {
            proof {
                assert(roots[k as int][0] == root@[0]@);
                assert(is_first_root(roots, first@, k as int));
                let c = choose|c: int| is_first_root(roots, first@, c);
                assert(c == k);
                assert(root_position(roots, path@[0]) == k);
            }
            let ghost rk = roots[k as int];
            if path.0.len() < root.len() {
                return None;
            }
            let mut i: usize = 0;
            while i < root.len()
                invariant
                    i <= root@.len(),
                    root@.len() <= path@.len(),
                    rk == sym_steps_v(root@),
                    forall|j: int| 0 <= j < i ==> path@[j] == rk[j],
                    0 <= k < roots.len(),
                    roots == paths_v(scrutinee_roots@),
                    rk == roots[k as int],
                    root_position(roots, path@[0]) == k,
                    path@[0] == SymStepV::Binding(bound),
                    bound != MATCH_SCRUTINEE_BINDING@,
                decreases root@.len() - i,
            {
                if !sym_step_eq(&path.0[i], &root[i]) {
                    proof {
                        assert(path@.take(rk.len() as int)[i as int] != rk[i as int]);
                    }
                    return None;
                }
                i += 1;
            }
            proof {
                assert(path@.take(rk.len() as int) =~= rk);
            }
            return convert_steps(&path.0, root.len());
        }
        proof {
            assert(roots[k as int].len() > 0 ==> roots[k as int][0] == root@[0]@);
        }
        k += 1;
    }
    proof {
        assert(!exists|c: int| is_first_root(roots, first@, c));
    }
    None
}

// ---------------------------------------------------------------------------
// From facts to spaces
// ---------------------------------------------------------------------------

/// A prover of ground facts: callable on every atom, and giving one answer
/// for atoms with one view.
pub open spec fn ground_prover<P: Fn(&Atom) -> bool>(p: P) -> bool {
    &&& forall|a: &Atom| #[trigger] call_requires(p, (a,))
    &&& forall|a1: &Atom, a2: &Atom, b1: bool, b2: bool|
        #[trigger] call_ensures(p, (a1,), b1) && #[trigger] call_ensures(p, (a2,), b2) && a1@
            == a2@ ==> b1 == b2
}

/// The facts a ground prover holds proved.
pub open spec fn ground_verdicts<P: Fn(&Atom) -> bool>(p: P) -> spec_fn(FactV) -> bool {
    |v: FactV| exists|a: &Atom| a@ == v && #[trigger] call_ensures(p, (a,), true)
}

/// The part of `base` that an atomic fact keeps: a boolean or a single
/// integer term at a path into the scrutinee narrows the space there; a
/// comparison without terms keeps all or nothing, as the prover decides
/// it; anything else is not understood.
pub open spec fn spec_atom_subset(
    base: SpaceV,
    a: FactV,
    roots: Seq<Seq<SymStepV>>,
    verdict: spec_fn(FactV) -> bool,
) -> Option<SpaceV> {
    match a {
        FactV::BoolEq(path, value) => match spec_value_path(path, roots) {
            Some(vp) => spec_refine(base, vp, SpaceV::Prim(PrimV::Bool(value, !value))),
            None => None,
        },
        FactV::IntCmp(terms, op, rhs) => if terms.len() == 0 {
            Some(
                if verdict(a) {
                    base
                } else {
                    SpaceV::Empty
                },
            )
        } else if terms.len() == 1 {
            match spec_value_path(terms[0].0, roots) {
                Some(vp) => match spec_int_constraint(terms[0].1, op, rhs) {
                    Some(c) => spec_refine(base, vp, c),
                    None => None,
                },
                None => None,
            }
        } else {
            None
        },
        FactV::StateEq(_, _) => None,
    }
}

/// The atom can be read without overflow: a single integer term at a
/// scrutinee path gives a constraint that stays within `i64`.
pub open spec fn atom_runs(a: FactV, roots: Seq<Seq<SymStepV>>) -> bool {
    match a {
        FactV::IntCmp(terms, op, rhs) => (terms.len() == 1 && spec_value_path(terms[0].0, roots)
            is Some) ==> constraint_solvable(terms[0].1, op, rhs),
        _ => true,
    }
}

/// The part of `base` that a formula keeps, where every part of it is
/// understood: a conjunction narrows step by step, a disjunction unites
/// what its parts keep, a negation takes what its part keeps away.
pub open spec fn spec_formula_subset(
    base: SpaceV,
    f: FormulaV,
    roots: Seq<Seq<SymStepV>>,
    verdict: spec_fn(FactV) -> bool,
) -> Option<SpaceV>
    decreases fdepth(f), 1nat, 0nat,
{
    match f {
        FormulaV::True => Some(base),
        FormulaV::False => Some(SpaceV::Empty),
        FormulaV::Fact(a) => spec_atom_subset(base, a, roots, verdict),
        FormulaV::And(parts) => and_fold(base, parts, roots, verdict, parts.len()),
        FormulaV::Or(parts) => match or_each(base, parts, roots, verdict, parts.len()) {
            Some(spaces) => Some(spec_normalize_space(SpaceV::Union(spaces))),
            None => None,
        },
        FormulaV::Not(part) => match spec_formula_subset(base, *part, roots, verdict) {
            Some(inner) => Some(spec_space_difference(base, inner)),
            None => None,
        },
    }
}

/// `base` narrowed by the first `n` parts of a conjunction in turn.
pub open spec fn and_fold(
    base: SpaceV,
    parts: Seq<FormulaV>,
    roots: Seq<Seq<SymStepV>>,
    verdict: spec_fn(FactV) -> bool,
    n: nat,
) -> Option<SpaceV>
    decreases fdepths(parts), 2nat, n,
{
    if n == 0 || n > parts.len() {
        if n == 0 {
            Some(base)
        } else {
            None
        }
    } else {
        match and_fold(base, parts, roots, verdict, (n - 1) as nat) {
            Some(cur) => {
                proof {
                    lemma_fdepths(parts);
                }
                match spec_formula_subset(cur, parts[n - 1], roots, verdict) {
                    Some(s) => Some(spec_intersection(cur, s)),
                    None => None,
                }
            },
            None => None,
        }
    }
}

/// What each of the first `n` parts of a disjunction keeps of `base`.
pub open spec fn or_each(
    base: SpaceV,
    parts: Seq<FormulaV>,
    roots: Seq<Seq<SymStepV>>,
    verdict: spec_fn(FactV) -> bool,
    n: nat,
) -> Option<Seq<SpaceV>>
    decreases fdepths(parts), 2nat, n,
{
    if n == 0 || n > parts.len() {
        if n == 0 {
            Some(Seq::<SpaceV>::empty())
        } else {
            None
        }
    } else {
        match or_each(base, parts, roots, verdict, (n - 1) as nat) {
            Some(prev) => {
                proof {
                    lemma_fdepths(parts);
                }
                match spec_formula_subset(base, parts[n - 1], roots, verdict) {
                    Some(s) => Some(prev.push(s)),
                    None => None,
                }
            },
            None => None,
        }
    }
}

/// Reading the formula runs to an end without overflow: each atom reached
/// can be read, and each difference taken for a negation comes to an end.
pub open spec fn formula_runs(
    base: SpaceV,
    f: FormulaV,
    roots: Seq<Seq<SymStepV>>,
    verdict: spec_fn(FactV) -> bool,
) -> bool
    decreases fdepth(f), 1nat, 0nat,
{
    match f {
        FormulaV::True => true,
        FormulaV::False => true,
        FormulaV::Fact(a) => atom_runs(a, roots),
        FormulaV::And(parts) => and_runs(base, parts, roots, verdict, parts.len()),
        FormulaV::Or(parts) => or_runs(base, parts, roots, verdict, parts.len()),
        FormulaV::Not(part) => {
            &&& formula_runs(base, *part, roots, verdict)
            &&& match spec_formula_subset(base, *part, roots, verdict) {
                Some(inner) => difference_terminates(base, inner),
                None => true,
            }
        },
    }
}

/// The first `n` parts of a conjunction run, each from what the parts
/// before it kept, up to the first part that is not understood.
pub open spec fn and_runs(
    base: SpaceV,
    parts: Seq<FormulaV>,
    roots: Seq<Seq<SymStepV>>,
    verdict: spec_fn(FactV) -> bool,
    n: nat,
) -> bool
    decreases fdepths(parts), 2nat, n,
{
    if n == 0 || n > parts.len() {
        true
    } else {
        &&& and_runs(base, parts, roots, verdict, (n - 1) as nat)
        &&& match and_fold(base, parts, roots, verdict, (n - 1) as nat) {
            Some(cur) => {
                proof {
                    lemma_fdepths(parts);
                }
                formula_runs(cur, parts[n - 1], roots, verdict)
            },
            None => true,
        }
    }
}

/// The first `n` parts of a disjunction run from `base`, up to the first
/// part that is not understood.
pub open spec fn or_runs(
    base: SpaceV,
    parts: Seq<FormulaV>,
    roots: Seq<Seq<SymStepV>>,
    verdict: spec_fn(FactV) -> bool,
    n: nat,
) -> bool
    decreases fdepths(parts), 2nat, n,
{
    if n == 0 || n > parts.len() {
        true
    } else {
        &&& or_runs(base, parts, roots, verdict, (n - 1) as nat)
        &&& (or_each(base, parts, roots, verdict, (n - 1) as nat) is Some ==> {
            proof {
                lemma_fdepths(parts);
            }
            formula_runs(base, parts[n - 1], roots, verdict)
        })
    }
}

proof fn lemma_and_fold_none(
    base: SpaceV,
    parts: Seq<FormulaV>,
    roots: Seq<Seq<SymStepV>>,
    verdict: spec_fn(FactV) -> bool,
    k: nat,
    n: nat,
)
    requires
        k <= n <= parts.len(),
        and_fold(base, parts, roots, verdict, k) is None,
    ensures
        and_fold(base, parts, roots, verdict, n) is None,
    decreases n,
{
    if n > k {
        lemma_and_fold_none(base, parts, roots, verdict, k, (n - 1) as nat);
    }
}

proof fn lemma_or_each_none(
    base: SpaceV,
    parts: Seq<FormulaV>,
    roots: Seq<Seq<SymStepV>>,
    verdict: spec_fn(FactV) -> bool,
    k: nat,
    n: nat,
)
    requires
        k <= n <= parts.len(),
        or_each(base, parts, roots, verdict, k) is None,
    ensures
        or_each(base, parts, roots, verdict, n) is None,
    decreases n,
{
    if n > k {
        lemma_or_each_none(base, parts, roots, verdict, k, (n - 1) as nat);
    }
}

proof fn lemma_and_runs(
    base: SpaceV,
    parts: Seq<FormulaV>,
    roots: Seq<Seq<SymStepV>>,
    verdict: spec_fn(FactV) -> bool,
    n: nat,
    k: nat,
)
    requires
        k < n <= parts.len(),
        and_runs(base, parts, roots, verdict, n),
    ensures
        and_runs(base, parts, roots, verdict, k + 1),
    decreases n,
{
    if n > k + 1 {
        lemma_and_runs(base, parts, roots, verdict, (n - 1) as nat, k);
    }
}

proof fn lemma_or_runs(
    base: SpaceV,
    parts: Seq<FormulaV>,
    roots: Seq<Seq<SymStepV>>,
    verdict: spec_fn(FactV) -> bool,
    n: nat,
    k: nat,
)
    requires
        k < n <= parts.len(),
        or_runs(base, parts, roots, verdict, n),
    ensures
        or_runs(base, parts, roots, verdict, k + 1),
    decreases n,
{
    if n > k + 1 {
        lemma_or_runs(base, parts, roots, verdict, (n - 1) as nat, k);
    }
}

/// The part of `base_space` that an atomic fact keeps, or `None` where the
/// fact is not understood. A comparison without terms is put to
/// `prove_ground`, which stands for the prover run with no assumptions.
pub fn atom_to_space_subset<P: Fn(&Atom) -> bool>(
    base_space: &MatchSpace,
    atom: &Atom,
    scrutinee_roots: &[SymbolPath],
    prove_ground: &P,
) -> (r: Option<MatchSpace>)
    requires
        ground_prover(*prove_ground),
        atom_runs(atom@, paths_v(scrutinee_roots@)),
    ensures
        opt_space_v(r) == spec_atom_subset(
            base_space@,
            atom@,
            paths_v(scrutinee_roots@),
            ground_verdicts(*prove_ground),
        ),
{
    match atom {
        Atom::BoolEq { path, value } => {
            let value_path = match symbol_path_to_value_path(path, scrutinee_roots) {
                Some(p) => p,
                None => {
                    return None;
                },
            };
            let constraint = MatchSpace::Primitive(
                PrimitiveSpace::Bool { allow_true: *value, allow_false: !*value },
            );
            refine_space_at_path(base_space, value_path.as_slice(), &constraint)
        },
        Atom::IntCmp { form, op, rhs } => {
            proof {
                assert(terms_v(form.terms@).len() == form.terms@.len());
            }
            if form.terms.len() == 0 {
                let proved = prove_ground(atom);
                proof {
                    let verdict = ground_verdicts(*prove_ground);
                    if proved {
                        assert(verdict(atom@));
                    } else {
                        assert(!verdict(atom@)) by {
                            if verdict(atom@) {
                                let a = choose|a: &Atom|
                                    a@ == atom@ && #[trigger] call_ensures(*prove_ground, (a,), true);
                                assert(call_ensures(*prove_ground, (a,), true));
                                assert(call_ensures(*prove_ground, (atom,), false));
                            }
                        }
                    }
                }
                return Some(
                    if proved {
                        space_clone(base_space)
                    } else {
                        MatchSpace::Empty
                    },
                );
            }
            let (path, coeff) = match form.single_term() {
                Some(t) => t,
                None => {
                    return None;
                },
            };
            proof {
                assert(terms_v(form.terms@)[0] == (path@, coeff));
            }
            let value_path = match symbol_path_to_value_path(path, scrutinee_roots) {
                Some(p) => p,
                None => {
                    return None;
                },
            };
            let constraint = match int_constraint_space(coeff, *op, *rhs) {
                Some(c) => c,
                None => {
                    return None;
                },
            };
            refine_space_at_path(base_space, value_path.as_slice(), &constraint)
        },
        Atom::StateEq { .. } => None,
    }
}

/// The part of `base_space` that a formula keeps, or `None` where some part
/// of it is not understood.
pub fn formula_to_space_subset<P: Fn(&Atom) -> bool>(
    base_space: &MatchSpace,
    formula: &Formula,
    scrutinee_roots: &[SymbolPath],
    prove_ground: &P,
) -> (r: Option<MatchSpace>)
    requires
        ground_prover(*prove_ground),
        formula_runs(
            base_space@,
            formula@,
            paths_v(scrutinee_roots@),
            ground_verdicts(*prove_ground),
        ),
    ensures
        opt_space_v(r) == spec_formula_subset(
            base_space@,
            formula@,
            paths_v(scrutinee_roots@),
            ground_verdicts(*prove_ground),
        ),
    decreases fdepth(formula@),
{
    let ghost roots = paths_v(scrutinee_roots@);
    let ghost verdict = ground_verdicts(*prove_ground);
    match formula {
        Formula::True => Some(space_clone(base_space)),
        Formula::False => Some(MatchSpace::Empty),
        Formula::Atom(atom) => atom_to_space_subset(base_space, atom, scrutinee_roots, prove_ground),
        Formula::And(parts) => {
            let ghost ps = formulas_v(parts@);
            proof {
                lemma_fdepths(ps);
            }
            let mut current = space_clone(base_space);
            let mut i: usize = 0;
            while i < parts.len()
                invariant
                    i <= parts@.len(),
                    ps == formulas_v(parts@),
                    formula@ == FormulaV::And(ps),
                    roots == paths_v(scrutinee_roots@),
                    verdict == ground_verdicts(*prove_ground),
                    ground_prover(*prove_ground),
                    forall|j: int| 0 <= j < ps.len() ==> fdepth(#[trigger] ps[j]) < fdepth(formula@),
                    and_runs(base_space@, ps, roots, verdict, ps.len()),
                    and_fold(base_space@, ps, roots, verdict, i as nat) == Some(current@),
                decreases parts@.len() - i,
            {
                proof {
                    lemma_and_runs(base_space@, ps, roots, verdict, ps.len(), i as nat);
                    assert(ps[i as int] == parts@[i as int]@);
                }
                let sub = match formula_to_space_subset(&current, &parts[i], scrutinee_roots, prove_ground) {
                    Some(s) => s,
                    None => {
                        proof {
                            lemma_and_fold_none(base_space@, ps, roots, verdict, (i + 1) as nat, ps.len());
                        }
                        return None;
                    },
                };
                current = space_intersection(&current, &sub);
                i += 1;
            }
            Some(current)
        },
        Formula::Or(parts) => {
            let ghost ps = formulas_v(parts@);
            proof {
                lemma_fdepths(ps);
            }
            let mut spaces: Vec<MatchSpace> = Vec::new();
            let mut i: usize = 0;
            while i < parts.len()
                invariant
                    i <= parts@.len(),
                    ps == formulas_v(parts@),
                    formula@ == FormulaV::Or(ps),
                    roots == paths_v(scrutinee_roots@),
                    verdict == ground_verdicts(*prove_ground),
                    ground_prover(*prove_ground),
                    forall|j: int| 0 <= j < ps.len() ==> fdepth(#[trigger] ps[j]) < fdepth(formula@),
                    or_runs(base_space@, ps, roots, verdict, ps.len()),
                    or_each(base_space@, ps, roots, verdict, i as nat) == Some(spaces_v(spaces@)),
                decreases parts@.len() - i,
            {
                proof {
                    lemma_or_runs(base_space@, ps, roots, verdict, ps.len(), i as nat);
                    assert(ps[i as int] == parts@[i as int]@);
                }
                let sub = match formula_to_space_subset(base_space, &parts[i], scrutinee_roots, prove_ground) {
                    Some(s) => s,
                    None => {
                        proof {
                            lemma_or_each_none(base_space@, ps, roots, verdict, (i + 1) as nat, ps.len());
                        }
                        return None;
                    },
                };
                let ghost before = spaces@;
                spaces.push(sub);
                proof {
                    assert(spaces_v(spaces@) =~= spaces_v(before).push(sub@));
                }
                i += 1;
            }
            Some(normalize_space(MatchSpace::Union(spaces)))
        },
        Formula::Not(part) => {
            let inner = match formula_to_space_subset(base_space, part, scrutinee_roots, prove_ground) {
                Some(s) => s,
                None => {
                    return None;
                },
            };
            Some(space_difference(base_space, &inner))
        },
    }
}

// ---------------------------------------------------------------------------
// What a guard keeps
// ---------------------------------------------------------------------------

/// The fact holds of a scrutinee value `v`: the boolean at its path is the
/// stated one; the integer at its single term's path lies in the
/// constraint's space; a comparison without terms is proved.
pub open spec fn fact_holds(
    a: FactV,
    v: Val,
    roots: Seq<Seq<SymStepV>>,
    verdict: spec_fn(FactV) -> bool,
) -> bool {
    match a {
        FactV::BoolEq(path, value) => match spec_value_path(path, roots) {
            Some(vp) => part_at(v, vp) == Some(Val::Bool(value)),
            None => false,
        },
        FactV::IntCmp(terms, op, rhs) => if terms.len() == 0 {
            verdict(a)
        } else if terms.len() == 1 {
            match (spec_value_path(terms[0].0, roots), spec_int_constraint(terms[0].1, op, rhs)) {
                (Some(vp), Some(c)) => part_in(v, vp, c),
                _ => false,
            }
        } else {
            false
        },
        FactV::StateEq(_, _) => false,
    }
}

/// The formula holds of a scrutinee value `v`.
pub open spec fn formula_holds(
    f: FormulaV,
    v: Val,
    roots: Seq<Seq<SymStepV>>,
    verdict: spec_fn(FactV) -> bool,
) -> bool
    decreases fdepth(f), 1nat, 0nat,
{
    match f {
        FormulaV::True => true,
        FormulaV::False => false,
        FormulaV::Fact(a) => fact_holds(a, v, roots, verdict),
        FormulaV::And(parts) => all_hold(parts, v, roots, verdict, parts.len()),
        FormulaV::Or(parts) => some_holds(parts, v, roots, verdict, parts.len()),
        FormulaV::Not(part) => !formula_holds(*part, v, roots, verdict),
    }
}

/// Each of the first `n` formulas holds of `v`.
pub open spec fn all_hold(
    parts: Seq<FormulaV>,
    v: Val,
    roots: Seq<Seq<SymStepV>>,
    verdict: spec_fn(FactV) -> bool,
    n: nat,
) -> bool
    decreases fdepths(parts), 2nat, n,
{
    if n == 0 || n > parts.len() {
        n == 0
    } else {
        proof {
            lemma_fdepths(parts);
        }
        all_hold(parts, v, roots, verdict, (n - 1) as nat) && formula_holds(parts[n - 1], v, roots, verdict)
    }
}

/// One of the first `n` formulas holds of `v`.
pub open spec fn some_holds(
    parts: Seq<FormulaV>,
    v: Val,
    roots: Seq<Seq<SymStepV>>,
    verdict: spec_fn(FactV) -> bool,
    n: nat,
) -> bool
    decreases fdepths(parts), 2nat, n,
{
    if n == 0 || n > parts.len() {
        false
    } else {
        proof {
            lemma_fdepths(parts);
        }
        some_holds(parts, v, roots, verdict, (n - 1) as nat) || formula_holds(parts[n - 1], v, roots, verdict)
    }
}

/// The formula has no negation.
pub open spec fn negation_free(f: FormulaV) -> bool
    decreases fdepth(f), 1nat, 0nat,
{
    match f {
        FormulaV::And(parts) => all_negation_free(parts, parts.len()),
        FormulaV::Or(parts) => all_negation_free(parts, parts.len()),
        FormulaV::Not(_) => false,
        _ => true,
    }
}

/// None of the first `n` formulas has a negation.
pub open spec fn all_negation_free(parts: Seq<FormulaV>, n: nat) -> bool
    decreases fdepths(parts), 2nat, n,
{
    if n == 0 || n > parts.len() {
        true
    } else {
        proof {
            lemma_fdepths(parts);
        }
        all_negation_free(parts, (n - 1) as nat) && negation_free(parts[n - 1])
    }
}

proof fn lemma_fact_keeps(
    base: SpaceV,
    a: FactV,
    roots: Seq<Seq<SymStepV>>,
    verdict: spec_fn(FactV) -> bool,
    v: Val,
)
    requires
        spec_atom_subset(base, a, roots, verdict) is Some,
    ensures
        contains(spec_atom_subset(base, a, roots, verdict)->0, v) <==> (contains(base, v)
            && fact_holds(a, v, roots, verdict)),
{
    match a {
        FactV::BoolEq(path, value) => {
            let vp = spec_value_path(path, roots)->0;
            let c = SpaceV::Prim(PrimV::Bool(value, !value));
            law_refine_keeps_parts_in_constraint(base, vp, c, v);
            if let Some(p) = part_at(v, vp) {
                assert(contains(c, p) <==> p == Val::Bool(value)) by {
                    if let Val::Bool(b) = p {
                        assert(prim_contains(PrimV::Bool(value, !value), p) == (if b { value } else { !value }));
                    }
                }
            }
        },
        FactV::IntCmp(terms, op, rhs) => {
            if terms.len() == 1 {
                let vp = spec_value_path(terms[0].0, roots)->0;
                let c = spec_int_constraint(terms[0].1, op, rhs)->0;
                law_refine_keeps_parts_in_constraint(base, vp, c, v);
            }
        },
        FactV::StateEq(_, _) => {},
    }
}

proof fn lemma_and_fold_keeps(
    base: SpaceV,
    parts: Seq<FormulaV>,
    roots: Seq<Seq<SymStepV>>,
    verdict: spec_fn(FactV) -> bool,
    n: nat,
    v: Val,
)
    requires
        n <= parts.len(),
        and_exact(base, parts, roots, verdict, n),
        and_fold(base, parts, roots, verdict, n) is Some,
    ensures
        contains(and_fold(base, parts, roots, verdict, n)->0, v) <==> (contains(base, v)
            && all_hold(parts, v, roots, verdict, n)),
    decreases fdepths(parts), 2nat, n,
{
    if n > 0 {
        lemma_fdepths(parts);
        let cur = and_fold(base, parts, roots, verdict, (n - 1) as nat)->0;
        lemma_and_fold_keeps(base, parts, roots, verdict, (n - 1) as nat, v);
        law_guard_keeps_values_where_it_holds_with_negations(cur, parts[n - 1], roots, verdict, v);
        let sub = spec_formula_subset(cur, parts[n - 1], roots, verdict)->0;
        law_intersection_keeps_shared_values(cur, sub, v);
    }
}

proof fn lemma_or_each_keeps(
    base: SpaceV,
    parts: Seq<FormulaV>,
    roots: Seq<Seq<SymStepV>>,
    verdict: spec_fn(FactV) -> bool,
    n: nat,
    v: Val,
)
    requires
        n <= parts.len(),
        or_exact(base, parts, roots, verdict, n),
        or_each(base, parts, roots, verdict, n) is Some,
    ensures
        any_contains(or_each(base, parts, roots, verdict, n)->0, v) <==> (contains(base, v)
            && some_holds(parts, v, roots, verdict, n)),
        or_each(base, parts, roots, verdict, n)->0.len() == n,
    decreases fdepths(parts), 2nat, n,
{
    if n > 0 {
        lemma_fdepths(parts);
        let prev = or_each(base, parts, roots, verdict, (n - 1) as nat)->0;
        lemma_or_each_keeps(base, parts, roots, verdict, (n - 1) as nat, v);
        law_guard_keeps_values_where_it_holds_with_negations(base, parts[n - 1], roots, verdict, v);
        let sub = spec_formula_subset(base, parts[n - 1], roots, verdict)->0;
        let all = prev.push(sub);
        assert(any_contains(all, v) <==> (any_contains(prev, v) || contains(sub, v))) by {
            if any_contains(all, v) {
                let k = choose|k: int| 0 <= k < all.len() && #[trigger] contains(all[k], v);
                if k < prev.len() {
                    assert(all[k] == prev[k]);
                }
            }
            if any_contains(prev, v) {
                let k = choose|k: int| 0 <= k < prev.len() && #[trigger] contains(prev[k], v);
                assert(all[k] == prev[k]);
            }
            if contains(sub, v) {
                assert(all[prev.len() as int] == sub);
            }
        }
    } else {
        assert(!any_contains(Seq::<SpaceV>::empty(), v));
    }
}

/// Every negation in the formula is read exactly: the difference taken for
/// it comes to an end, and what its part keeps has no integer bound at an
/// end of the `i64` range (the values beyond such a bound are not integers
/// the scrutinee can hold).
pub open spec fn negations_exact(
    base: SpaceV,
    f: FormulaV,
    roots: Seq<Seq<SymStepV>>,
    verdict: spec_fn(FactV) -> bool,
) -> bool
    decreases fdepth(f), 1nat, 0nat,
{
    match f {
        FormulaV::And(parts) => and_exact(base, parts, roots, verdict, parts.len()),
        FormulaV::Or(parts) => or_exact(base, parts, roots, verdict, parts.len()),
        FormulaV::Not(part) => {
            &&& negations_exact(base, *part, roots, verdict)
            &&& match spec_formula_subset(base, *part, roots, verdict) {
                Some(inner) => difference_terminates(base, inner) && space_bounds_inside(inner),
                None => true,
            }
        },
        _ => true,
    }
}

/// The negations of the first `n` parts of a conjunction are read exactly,
/// each from what the parts before it kept.
pub open spec fn and_exact(
    base: SpaceV,
    parts: Seq<FormulaV>,
    roots: Seq<Seq<SymStepV>>,
    verdict: spec_fn(FactV) -> bool,
    n: nat,
) -> bool
    decreases fdepths(parts), 2nat, n,
{
    if n == 0 || n > parts.len() {
        true
    } else {
        &&& and_exact(base, parts, roots, verdict, (n - 1) as nat)
        &&& match and_fold(base, parts, roots, verdict, (n - 1) as nat) {
            Some(cur) => {
                proof {
                    lemma_fdepths(parts);
                }
                negations_exact(cur, parts[n - 1], roots, verdict)
            },
            None => true,
        }
    }
}

/// The negations of the first `n` parts of a disjunction are read exactly.
pub open spec fn or_exact(
    base: SpaceV,
    parts: Seq<FormulaV>,
    roots: Seq<Seq<SymStepV>>,
    verdict: spec_fn(FactV) -> bool,
    n: nat,
) -> bool
    decreases fdepths(parts), 2nat, n,
{
    if n == 0 || n > parts.len() {
        true
    } else {
        proof {
            lemma_fdepths(parts);
        }
        or_exact(base, parts, roots, verdict, (n - 1) as nat) && negations_exact(
            base,
            parts[n - 1],
            roots,
            verdict,
        )
    }
}

/// A formula without negation has every negation read exactly.
pub proof fn lemma_negation_free_is_exact(
    base: SpaceV,
    f: FormulaV,
    roots: Seq<Seq<SymStepV>>,
    verdict: spec_fn(FactV) -> bool,
)
    requires
        negation_free(f),
    ensures
        negations_exact(base, f, roots, verdict),
    decreases fdepth(f), 1nat, 0nat,
{
    match f {
        FormulaV::And(parts) => {
            lemma_all_negation_free_and(base, parts, roots, verdict, parts.len());
        },
        FormulaV::Or(parts) => {
            lemma_all_negation_free_or(base, parts, roots, verdict, parts.len());
        },
        _ => {},
    }
}

proof fn lemma_all_negation_free_and(
    base: SpaceV,
    parts: Seq<FormulaV>,
    roots: Seq<Seq<SymStepV>>,
    verdict: spec_fn(FactV) -> bool,
    n: nat,
)
    requires
        all_negation_free(parts, n),
    ensures
        and_exact(base, parts, roots, verdict, n),
    decreases fdepths(parts), 2nat, n,
{
    if n > 0 && n <= parts.len() {
        lemma_fdepths(parts);
        lemma_all_negation_free_and(base, parts, roots, verdict, (n - 1) as nat);
        if let Some(cur) = and_fold(base, parts, roots, verdict, (n - 1) as nat) {
            lemma_negation_free_is_exact(cur, parts[n - 1], roots, verdict);
        }
    }
}

proof fn lemma_all_negation_free_or(
    base: SpaceV,
    parts: Seq<FormulaV>,
    roots: Seq<Seq<SymStepV>>,
    verdict: spec_fn(FactV) -> bool,
    n: nat,
)
    requires
        all_negation_free(parts, n),
    ensures
        or_exact(base, parts, roots, verdict, n),
    decreases fdepths(parts), 2nat, n,
{
    if n > 0 && n <= parts.len() {
        lemma_fdepths(parts);
        lemma_all_negation_free_or(base, parts, roots, verdict, (n - 1) as nat);
        lemma_negation_free_is_exact(base, parts[n - 1], roots, verdict);
    }
}

/// A guard keeps exactly the values of the space for which it holds: a
/// fact keeps the values whose part at its path fits it, a conjunction
/// those for which every part holds, a disjunction those for which some
/// part holds, and a negation those for which its part does not hold —
/// wherever each negation is read exactly.
pub proof fn law_guard_keeps_values_where_it_holds_with_negations(
    base: SpaceV,
    f: FormulaV,
    roots: Seq<Seq<SymStepV>>,
    verdict: spec_fn(FactV) -> bool,
    v: Val,
)
    requires
        negations_exact(base, f, roots, verdict),
        spec_formula_subset(base, f, roots, verdict) is Some,
    ensures
        contains(spec_formula_subset(base, f, roots, verdict)->0, v) <==> (contains(base, v)
            && formula_holds(f, v, roots, verdict)),
    decreases fdepth(f), 1nat, 0nat,
{
    match f {
        FormulaV::True => {},
        FormulaV::False => {},
        FormulaV::Fact(a) => {
            lemma_fact_keeps(base, a, roots, verdict, v);
        },
        FormulaV::And(parts) => {
            lemma_and_fold_keeps(base, parts, roots, verdict, parts.len(), v);
        },
        FormulaV::Or(parts) => {
            lemma_or_each_keeps(base, parts, roots, verdict, parts.len(), v);
            let spaces = or_each(base, parts, roots, verdict, parts.len())->0;
            let u = SpaceV::Union(spaces);
            law_normalize_keeps_values(u, v);
            lemma_contains_unfold(u, v);
        },
        FormulaV::Not(part) => {
            law_guard_keeps_values_where_it_holds_with_negations(base, *part, roots, verdict, v);
            let inner = spec_formula_subset(base, *part, roots, verdict)->0;
            law_difference_is_exact(base, inner, v);
        },
    }
}

/// A guard without negation keeps exactly the values of the space for
/// which it holds: a fact keeps the values whose part at its path fits it,
/// a conjunction those for which every part holds, a disjunction those for
/// which some part holds.
pub proof fn law_guard_keeps_values_where_it_holds(
    base: SpaceV,
    f: FormulaV,
    roots: Seq<Seq<SymStepV>>,
    verdict: spec_fn(FactV) -> bool,
    v: Val,
)
    requires
        negation_free(f),
        spec_formula_subset(base, f, roots, verdict) is Some,
    ensures
        contains(spec_formula_subset(base, f, roots, verdict)->0, v) <==> (contains(base, v)
            && formula_holds(f, v, roots, verdict)),
{
    lemma_negation_free_is_exact(base, f, roots, verdict);
    law_guard_keeps_values_where_it_holds_with_negations(base, f, roots, verdict, v);
}

// ---------------------------------------------------------------------------
// How the prover knows the scrutinee
// ---------------------------------------------------------------------------

/// A linear form plus a constant.
#[derive(Debug)]
pub struct LinearExpr {
    pub form: LinearForm,
    pub constant: i64,
}

/// A collection as the prover knows it: by its path, or by its length.
#[derive(Debug)]
pub enum SymbolicCollection {
    Path(SymbolPath),
    KnownLength(LinearExpr),
}

/// A record as the prover knows it: by its written fields, or by its path.
#[derive(Debug)]
pub enum SymbolicRecord {
    Literal(Vec<(String, Expr)>),
    Path { base: SymbolPath },
}

/// What the prover knows a value to be.
#[derive(Debug)]
pub enum SymbolicValue {
    Int(LinearExpr),
    Bool(Formula),
    Collection(SymbolicCollection),
    Record(SymbolicRecord),
    /// The protocol state of a handle.
    State { path: SymbolPath, protocol: String },
    /// A state name written as a literal.
    StateLabel(String),
}

/// The paths by which the prover knows the scrutinee, from what it knows
/// the scrutinee to be: the path of an integer that is exactly one path
/// (coefficient one, no constant), of a boolean that is a path being true,
/// of a collection or of a record known by its path; none otherwise.
pub fn coverage_scrutinee_roots(symbolic: Option<SymbolicValue>) -> (r: Vec<SymbolPath>)
    ensures
        match symbolic {
            Some(SymbolicValue::Int(linear)) => if linear.constant == 0 && linear.form.terms@.len()
                == 1 && linear.form.terms@[0].1 == 1 {
                r@ == seq![linear.form.terms@[0].0]
            } else {
                r@.len() == 0
            },
            Some(SymbolicValue::Bool(Formula::Atom(Atom::BoolEq { path, value }))) => if value {
                r@ == seq![path]
            } else {
                r@.len() == 0
            },
            Some(SymbolicValue::Collection(SymbolicCollection::Path(path))) => r@ == seq![path],
            Some(SymbolicValue::Record(SymbolicRecord::Path { base })) => r@ == seq![base],
            _ => r@.len() == 0,
        },
{
    let mut roots: Vec<SymbolPath> = Vec::new();
    match symbolic {
        Some(SymbolicValue::Int(linear)) => {
            let LinearExpr { form, constant } = linear;
            let mut terms = form.terms;
            if constant == 0 && terms.len() == 1 && terms[0].1 == 1 {
                let (path, _) = terms.remove(0);
                roots.push(path);
            }
        },
        Some(SymbolicValue::Bool(Formula::Atom(Atom::BoolEq { path, value }))) => {
            if value {
                roots.push(path);
            }
        },
        Some(SymbolicValue::Collection(SymbolicCollection::Path(path))) => {
            roots.push(path);
        },
        Some(SymbolicValue::Record(SymbolicRecord::Path { base })) => {
            roots.push(base);
        },
        _ => {},
    }
    proof {
        assert(roots@.len() <= 1);
    }
    roots
}

} // verus!
