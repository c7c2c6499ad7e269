use sigil::arith::ComparisonOp;
use sigil::ast::{Expr, LiteralValue, Pattern};
use sigil::guards::{Atom, Formula, LinearForm, SymbolPath, SymbolPathStep, MATCH_SCRUTINEE_BINDING};
use sigil::int_ranges::{IntInterval, IntRangeSet};
use sigil::match_coverage::{arm_proof, proof_fragment, ArmProof, ArmRefinement, CoverageError, MatchCoverage};
use sigil::space::{MatchSpace, PrimitiveSpace};
use sigil::type_error::refinement_type_support_error;

fn float_text(bits: u64) -> String {
    format!("{}", f64::from_bits(bits))
}

fn bools(t: bool, f: bool) -> MatchSpace {
    MatchSpace::Primitive(PrimitiveSpace::Bool { allow_true: t, allow_false: f })
}

fn arm(space: MatchSpace, pattern: &str) -> ArmProof {
    ArmProof {
        space,
        guard_supported: true,
        facts: vec![pattern.to_string()],
        unsupported_facts: vec![],
        pattern: pattern.to_string(),
        condition_formula: None,
    }
}

fn display_name(path_segments: &Vec<String>, name: &String) -> String {
    if path_segments.is_empty() {
        name.clone()
    } else {
        format!("{}.{}", path_segments.join("::"), name)
    }
}

fn prove_ground(atom: &Atom) -> bool {
    match atom {
        Atom::IntCmp { op: ComparisonOp::Lt, rhs, .. } => 0 < *rhs,
        _ => false,
    }
}

fn positive() -> Formula {
    let path = SymbolPath(vec![SymbolPathStep::Binding(MATCH_SCRUTINEE_BINDING.to_string())]);
    Formula::Atom(Atom::IntCmp { form: LinearForm { terms: vec![(path, 1)] }, op: ComparisonOp::Gt, rhs: 0 })
}

fn n_gt_0() -> Expr {
    Expr::Binary {
        left: Box::new(Expr::Identifier("n".to_string())),
        operator: ">".to_string(),
        right: Box::new(Expr::Literal(LiteralValue::Int(0))),
    }
}

fn all_ints() -> MatchSpace {
    MatchSpace::Primitive(PrimitiveSpace::Int(IntRangeSet::all()))
}

fn int_bounds(space: &MatchSpace) -> Vec<(Option<i64>, Option<i64>)> {
    match space {
        MatchSpace::Primitive(PrimitiveSpace::Int(r)) => r.intervals().iter().map(|iv| (iv.start, iv.end)).collect(),
        _ => panic!("not an integer space"),
    }
}

#[test]
fn complete_boolean_match_is_accepted() {
    let check = MatchCoverage::new(bools(true, true));
    let check = check.check_arm(arm(bools(true, false), "true"), &float_text).ok().unwrap();
    let check = check.check_arm(arm(bools(false, true), "false"), &float_text).ok().unwrap();
    assert_eq!(check.next_arm, 2);
    assert_eq!(check.covered_by.len(), 2);
    assert_eq!(check.covered_by[1].pattern, "false");
    assert!(check.finish(&float_text).is_ok());
}

#[test]
fn missing_case_is_reported() {
    let check = MatchCoverage::new(bools(true, true));
    let check = check.check_arm(arm(bools(true, false), "true"), &float_text).ok().unwrap();
    match check.finish(&float_text) {
        Err(CoverageError::NonExhaustive { uncovered_cases, suggested_missing_arms, covered_by, .. }) => {
            assert_eq!(uncovered_cases, vec!["false"]);
            assert_eq!(suggested_missing_arms, vec!["false"]);
            assert_eq!(covered_by.len(), 1);
            assert_eq!(covered_by[0].arm_index, 0);
        }
        _ => panic!("expected a non-exhaustive match"),
    }
}

#[test]
fn repeated_arm_is_redundant() {
    let check = MatchCoverage::new(bools(true, true));
    let check = check.check_arm(arm(bools(true, false), "true"), &float_text).ok().unwrap();
    match check.check_arm(arm(bools(true, false), "true"), &float_text) {
        Err(CoverageError::RedundantPattern { arm_index, remaining_before_arm, arm_cases, known_facts, .. }) => {
            assert_eq!(arm_index, 1);
            assert_eq!(remaining_before_arm, vec!["false"]);
            assert_eq!(arm_cases, vec!["true"]);
            assert_eq!(known_facts, vec!["true"]);
        }
        _ => panic!("expected a redundant pattern"),
    }
}

#[test]
fn arm_after_a_wildcard_is_unreachable() {
    let check = MatchCoverage::new(bools(true, true));
    let check = check.check_arm(arm(bools(true, true), "_"), &float_text).ok().unwrap();
    let mut late = arm(bools(false, true), "false");
    late.unsupported_facts = vec!["x > y".to_string()];
    match check.check_arm(late, &float_text) {
        Err(CoverageError::UnreachableArm { arm_index, covered_by_arm, covered_by, unsupported_facts }) => {
            assert_eq!(arm_index, 1);
            assert_eq!(covered_by_arm, 0);
            assert_eq!(covered_by.len(), 1);
            assert_eq!(unsupported_facts, vec!["x > y"]);
        }
        _ => panic!("expected an unreachable arm"),
    }
}

#[test]
fn arms_with_guards_not_understood_cover_nothing() {
    let check = MatchCoverage::new(bools(true, true));
    let mut guarded = arm(bools(true, true), "_");
    guarded.guard_supported = false;
    guarded.unsupported_facts = vec!["f(x)".to_string()];
    let check = check.check_arm(guarded, &float_text).ok().unwrap();
    assert_eq!(check.unsupported_facts, vec!["f(x)"]);
    assert!(!check.covered_by[0].guard_supported);
    match check.finish(&float_text) {
        Err(CoverageError::NonExhaustive { uncovered_cases, unsupported_facts, .. }) => {
            assert_eq!(uncovered_cases, vec!["true", "false"]);
            assert_eq!(unsupported_facts, vec!["f(x)"]);
        }
        _ => panic!("expected a non-exhaustive match"),
    }
}

#[test]
fn integer_arms_leave_the_rest_uncovered() {
    let all = MatchSpace::Primitive(PrimitiveSpace::Int(IntRangeSet::all()));
    let small = MatchSpace::Primitive(PrimitiveSpace::Int(IntRangeSet::from_interval(IntInterval {
        start: Some(0),
        end: Some(2),
    })));
    let check = MatchCoverage::new(all).check_arm(arm(small, "0..2"), &float_text).ok().unwrap();
    match check.finish(&float_text) {
        Err(CoverageError::NonExhaustive { uncovered_cases, .. }) => assert_eq!(uncovered_cases, vec!["_"]),
        _ => panic!("expected a non-exhaustive match"),
    }
}

#[test]
fn proof_fragment_lists_the_constructs() {
    assert_eq!(
        proof_fragment(),
        "{\"constructs\":[\"constructors\",\"bool_literals\",\"unit_literal\",\"list_shapes\",\"tuple_shapes\",\"int_literal_equality\",\"int_literal_order\",\"bool_and_or_not\",\"refinement_bool_aliases\",\"match_guard_refinement_facts\"]}"
    );
}

#[test]
fn guard_conditions_narrow_the_arm() {
    let pattern = Pattern::Identifier("n".to_string());
    let guard = n_gt_0();
    let refinement = ArmRefinement { condition_formula: Some(positive()), guard_supported: true, unsupported_facts: vec![] };
    let proof = arm_proof(all_ints(), &pattern, Some(&guard), refinement, &[], &prove_ground, &float_text, &display_name);
    assert_eq!(proof.facts, vec!["n", "n > 0"]);
    assert_eq!(proof.pattern, "n");
    assert!(proof.guard_supported);
    assert!(proof.condition_formula.is_some());
    assert_eq!(int_bounds(&proof.space), vec![(Some(1), None)]);
}

#[test]
fn unreadable_guard_conditions_make_the_arm_cover_nothing_for_sure() {
    let pattern = Pattern::Identifier("n".to_string());
    let guard = n_gt_0();
    let elsewhere = Formula::Atom(Atom::BoolEq {
        path: SymbolPath(vec![SymbolPathStep::Binding("flag".to_string())]),
        value: true,
    });
    let refinement = ArmRefinement {
        condition_formula: Some(elsewhere),
        guard_supported: true,
        unsupported_facts: vec!["flag".to_string()],
    };
    let proof = arm_proof(all_ints(), &pattern, Some(&guard), refinement, &[], &prove_ground, &float_text, &display_name);
    assert!(!proof.guard_supported);
    assert!(proof.condition_formula.is_none());
    assert_eq!(proof.unsupported_facts, vec!["flag"]);
    assert_eq!(int_bounds(&proof.space), vec![(None, None)]);
}

#[test]
fn arms_without_guards_keep_their_pattern_space() {
    let pattern = Pattern::Wildcard;
    let refinement = ArmRefinement { condition_formula: None, guard_supported: true, unsupported_facts: vec![] };
    let proof = arm_proof(all_ints(), &pattern, None, refinement, &[], &prove_ground, &float_text, &display_name);
    assert_eq!(proof.facts, vec!["_"]);
    assert!(proof.guard_supported);
    assert_eq!(int_bounds(&proof.space), vec![(None, None)]);
}

#[test]
fn refinement_support_errors_name_the_type_and_reason() {
    let error = refinement_type_support_error("Age", "division");
    assert_eq!(
        error.message,
        "Type constraint for 'Age' uses unsupported refinement syntax: division. Supported refinement constraints use Bool/Int literals, value, #value, field access, +, -, comparisons, and/or/not."
    );
    assert!(error.location.is_none());
}
