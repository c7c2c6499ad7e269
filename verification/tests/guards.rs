use sigil::arith::ComparisonOp;
use sigil::guards::{
    atom_to_space_subset, coverage_scrutinee_roots, formula_to_space_subset,
    symbol_path_to_value_path, Atom, Formula, LinearExpr, LinearForm, SymbolPath, SymbolPathStep,
    SymbolicCollection, SymbolicRecord, SymbolicValue, MATCH_SCRUTINEE_BINDING,
};
use sigil::int_ranges::IntRangeSet;
use sigil::refine::ValuePathStep;
use sigil::space::{MatchSpace, PrimitiveSpace, RecordSpace};

fn float_text(bits: u64) -> String {
    format!("{}", f64::from_bits(bits))
}

/// A ground comparison `0 op rhs`, decided by arithmetic.
fn prove_ground(atom: &Atom) -> bool {
    match atom {
        Atom::IntCmp { op, rhs, .. } => match op {
            ComparisonOp::Eq => 0 == *rhs,
            ComparisonOp::Ne => 0 != *rhs,
            ComparisonOp::Lt => 0 < *rhs,
            ComparisonOp::Le => 0 <= *rhs,
            ComparisonOp::Gt => 0 > *rhs,
            ComparisonOp::Ge => 0 >= *rhs,
        },
        _ => false,
    }
}

fn scrutinee(steps: Vec<SymbolPathStep>) -> SymbolPath {
    let mut all = vec![SymbolPathStep::Binding(MATCH_SCRUTINEE_BINDING.to_string())];
    all.extend(steps);
    SymbolPath(all)
}

fn binding(name: &str, steps: Vec<SymbolPathStep>) -> SymbolPath {
    let mut all = vec![SymbolPathStep::Binding(name.to_string())];
    all.extend(steps);
    SymbolPath(all)
}

fn all_ints() -> MatchSpace {
    MatchSpace::Primitive(PrimitiveSpace::Int(IntRangeSet::all()))
}

fn int_cmp(path: SymbolPath, coeff: i64, op: ComparisonOp, rhs: i64) -> Formula {
    Formula::Atom(Atom::IntCmp { form: LinearForm { terms: vec![(path, coeff)] }, op, rhs })
}

fn summaries(space: &MatchSpace) -> Vec<String> {
    sigil::summaries::space_to_case_summaries(space, 8, &float_text)
}

fn bounds(space: &MatchSpace) -> Vec<(Option<i64>, Option<i64>)> {
    match space {
        MatchSpace::Primitive(PrimitiveSpace::Int(r)) => {
            r.intervals().iter().map(|iv| (iv.start, iv.end)).collect()
        }
        MatchSpace::Empty => vec![],
        _ => panic!("not an integer space"),
    }
}

#[test]
fn scrutinee_paths_become_value_paths() {
    let path = scrutinee(vec![SymbolPathStep::Field("age".to_string()), SymbolPathStep::ListHead]);
    let value_path = symbol_path_to_value_path(&path, &[]).unwrap();
    assert_eq!(value_path.len(), 2);
    assert!(matches!(&value_path[0], ValuePathStep::Field(name) if name == "age"));
    assert!(matches!(value_path[1], ValuePathStep::ListHead));
}

#[test]
fn paths_through_a_root_drop_the_root() {
    let roots = vec![binding("x", vec![SymbolPathStep::TupleIndex(1)])];
    let inside = binding("x", vec![SymbolPathStep::TupleIndex(1), SymbolPathStep::VariantField(0)]);
    let value_path = symbol_path_to_value_path(&inside, &roots).unwrap();
    assert_eq!(value_path.len(), 1);
    assert!(matches!(value_path[0], ValuePathStep::VariantField(0)));
    let beside = binding("x", vec![SymbolPathStep::TupleIndex(0)]);
    assert!(symbol_path_to_value_path(&beside, &roots).is_none());
    let unknown = binding("y", vec![]);
    assert!(symbol_path_to_value_path(&unknown, &roots).is_none());
}

#[test]
fn lengths_and_inner_bindings_have_no_value_path() {
    let length = scrutinee(vec![SymbolPathStep::Length]);
    assert!(symbol_path_to_value_path(&length, &[]).is_none());
    assert!(symbol_path_to_value_path(&SymbolPath(vec![]), &[]).is_none());
    let field_first = SymbolPath(vec![SymbolPathStep::Field("a".to_string())]);
    assert!(symbol_path_to_value_path(&field_first, &[]).is_none());
}

#[test]
fn integer_guards_narrow_the_scrutinee() {
    let x = || scrutinee(vec![]);
    let ge = formula_to_space_subset(&all_ints(), &int_cmp(x(), 1, ComparisonOp::Ge, 5), &[], &prove_ground);
    assert_eq!(bounds(&ge.unwrap()), vec![(Some(5), None)]);
    let twice = formula_to_space_subset(&all_ints(), &int_cmp(x(), 2, ComparisonOp::Lt, 7), &[], &prove_ground);
    assert_eq!(bounds(&twice.unwrap()), vec![(None, Some(3))]);
    let eq = formula_to_space_subset(&all_ints(), &int_cmp(x(), 3, ComparisonOp::Eq, 7), &[], &prove_ground);
    assert!(eq.is_none());
    let ne = formula_to_space_subset(&all_ints(), &int_cmp(x(), 1, ComparisonOp::Ne, 0), &[], &prove_ground);
    assert_eq!(bounds(&ne.unwrap()), vec![(None, Some(-1)), (Some(1), None)]);
}

#[test]
fn conjunction_disjunction_and_negation() {
    let x = || scrutinee(vec![]);
    let between = Formula::And(vec![
        int_cmp(x(), 1, ComparisonOp::Ge, 0),
        int_cmp(x(), 1, ComparisonOp::Le, 9),
    ]);
    let kept = formula_to_space_subset(&all_ints(), &between, &[], &prove_ground).unwrap();
    assert_eq!(bounds(&kept), vec![(Some(0), Some(9))]);
    let outside = Formula::Not(Box::new(between));
    let rest = formula_to_space_subset(&all_ints(), &outside, &[], &prove_ground).unwrap();
    assert_eq!(bounds(&rest), vec![(None, Some(-1)), (Some(10), None)]);
    let either = Formula::Or(vec![
        int_cmp(x(), 1, ComparisonOp::Le, 1),
        int_cmp(x(), 1, ComparisonOp::Ge, 2),
    ]);
    let both = formula_to_space_subset(&all_ints(), &either, &[], &prove_ground).unwrap();
    assert_eq!(bounds(&both), vec![(None, None)]);
}

#[test]
fn constant_formulas_and_ground_facts() {
    let base = all_ints();
    assert_eq!(bounds(&formula_to_space_subset(&base, &Formula::True, &[], &prove_ground).unwrap()), vec![(None, None)]);
    assert!(matches!(
        formula_to_space_subset(&base, &Formula::False, &[], &prove_ground),
        Some(MatchSpace::Empty)
    ));
    let holds = Atom::IntCmp { form: LinearForm { terms: vec![] }, op: ComparisonOp::Lt, rhs: 3 };
    let fails = Atom::IntCmp { form: LinearForm { terms: vec![] }, op: ComparisonOp::Gt, rhs: 3 };
    assert_eq!(bounds(&atom_to_space_subset(&base, &holds, &[], &prove_ground).unwrap()), vec![(None, None)]);
    assert!(matches!(atom_to_space_subset(&base, &fails, &[], &prove_ground), Some(MatchSpace::Empty)));
}

#[test]
fn boolean_fields_are_narrowed_in_place() {
    let record = MatchSpace::Record(RecordSpace {
        fields: vec![
            ("done".to_string(), MatchSpace::Primitive(PrimitiveSpace::Bool { allow_true: true, allow_false: true })),
            ("n".to_string(), all_ints()),
        ],
    });
    let fact = Atom::BoolEq { path: scrutinee(vec![SymbolPathStep::Field("done".to_string())]), value: true };
    let kept = atom_to_space_subset(&record, &fact, &[], &prove_ground).unwrap();
    assert_eq!(summaries(&kept), vec!["{done:true,n:_}"]);
}

#[test]
fn facts_that_are_not_understood() {
    let base = all_ints();
    let state = Atom::StateEq { path: scrutinee(vec![]), state: "Open".to_string() };
    assert!(atom_to_space_subset(&base, &state, &[], &prove_ground).is_none());
    let two_terms = Atom::IntCmp {
        form: LinearForm { terms: vec![(scrutinee(vec![]), 1), (binding("y", vec![]), 1)] },
        op: ComparisonOp::Lt,
        rhs: 0,
    };
    assert!(atom_to_space_subset(&base, &two_terms, &[], &prove_ground).is_none());
    let elsewhere = int_cmp(binding("y", vec![]), 1, ComparisonOp::Lt, 0);
    let conj = Formula::And(vec![int_cmp(scrutinee(vec![]), 1, ComparisonOp::Ge, 0), elsewhere]);
    assert!(formula_to_space_subset(&base, &conj, &[], &prove_ground).is_none());
}

fn root_names(roots: &[SymbolPath]) -> Vec<String> {
    roots
        .iter()
        .map(|p| match &p.0[0] {
            SymbolPathStep::Binding(name) => name.clone(),
            _ => "?".to_string(),
        })
        .collect()
}

#[test]
fn scrutinee_roots_come_from_plain_paths() {
    let single = SymbolicValue::Int(LinearExpr { form: LinearForm { terms: vec![(binding("n", vec![]), 1)] }, constant: 0 });
    assert_eq!(root_names(&coverage_scrutinee_roots(Some(single))), vec!["n"]);
    let shifted = SymbolicValue::Int(LinearExpr { form: LinearForm { terms: vec![(binding("n", vec![]), 1)] }, constant: 1 });
    assert!(coverage_scrutinee_roots(Some(shifted)).is_empty());
    let scaled = SymbolicValue::Int(LinearExpr { form: LinearForm { terms: vec![(binding("n", vec![]), 2)] }, constant: 0 });
    assert!(coverage_scrutinee_roots(Some(scaled)).is_empty());
    let flag = SymbolicValue::Bool(Formula::Atom(Atom::BoolEq { path: binding("b", vec![]), value: true }));
    assert_eq!(root_names(&coverage_scrutinee_roots(Some(flag))), vec!["b"]);
    let negated = SymbolicValue::Bool(Formula::Atom(Atom::BoolEq { path: binding("b", vec![]), value: false }));
    assert!(coverage_scrutinee_roots(Some(negated)).is_empty());
    let list = SymbolicValue::Collection(SymbolicCollection::Path(binding("xs", vec![])));
    assert_eq!(root_names(&coverage_scrutinee_roots(Some(list))), vec!["xs"]);
    let record = SymbolicValue::Record(SymbolicRecord::Path { base: binding("r", vec![]) });
    assert_eq!(root_names(&coverage_scrutinee_roots(Some(record))), vec!["r"]);
    assert!(coverage_scrutinee_roots(Some(SymbolicValue::StateLabel("Open".to_string()))).is_empty());
    assert!(coverage_scrutinee_roots(None).is_empty());
}
