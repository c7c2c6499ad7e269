use sigil::ast::{LiteralPattern, LiteralValue, PatternLiteralType};
use sigil::pattern_space::literal_pattern_space;
use sigil::atoms::{LiteralAtom, PrimitiveEqKind};
use sigil::int_ranges::{IntInterval, IntRangeSet};
use sigil::refine::{int_constraint_space, refine_space_at_path, ValuePathStep};
use sigil::arith::ComparisonOp;
use sigil::space::{normalize_space, space_is_empty, ListSpace, MatchSpace, PrimitiveSpace, RecordSpace, VariantSpace};
use sigil::space_ops::{space_difference, space_intersection, space_subset_of};
use sigil::summaries::{case_summary_atom, int_range_singletons, space_to_case_summaries};

fn float_text(bits: u64) -> String {
    format!("{}", f64::from_bits(bits))
}

fn bools(t: bool, f: bool) -> MatchSpace {
    MatchSpace::Primitive(PrimitiveSpace::Bool { allow_true: t, allow_false: f })
}

fn ints(ranges: IntRangeSet) -> MatchSpace {
    MatchSpace::Primitive(PrimitiveSpace::Int(ranges))
}

fn range(a: i64, b: i64) -> IntRangeSet {
    IntRangeSet::from_interval(IntInterval { start: Some(a), end: Some(b) })
}

fn variant(name: &str, fields: Vec<MatchSpace>) -> MatchSpace {
    MatchSpace::Variant(VariantSpace { owner: "Option".to_string(), name: name.to_string(), fields })
}

fn summaries(space: &MatchSpace, limit: usize) -> Vec<String> {
    space_to_case_summaries(space, limit, &float_text)
}

#[test]
fn int_ranges_union_and_difference() {
    let a = range(1, 5).union(&range(7, 9));
    assert_eq!(a.intervals().len(), 2);
    let b = range(1, 5).union(&range(6, 9));
    assert_eq!(b.intervals().len(), 1);
    assert_eq!(b.intervals()[0].start, Some(1));
    assert_eq!(b.intervals()[0].end, Some(9));
    let d = range(1, 9).difference(&range(3, 4));
    assert_eq!(d.intervals().len(), 2);
    assert_eq!((d.intervals()[0].start, d.intervals()[0].end), (Some(1), Some(2)));
    assert_eq!((d.intervals()[1].start, d.intervals()[1].end), (Some(5), Some(9)));
    assert!(range(1, 3).intersect(&range(4, 6)).is_empty());
    assert!(IntRangeSet::all().difference(&IntRangeSet::less_eq(0)).intervals()[0].start == Some(1));
}

#[test]
fn singletons_are_listed_within_limit() {
    assert_eq!(int_range_singletons(&range(1, 3), 5), Some(vec![1, 2, 3]));
    assert_eq!(int_range_singletons(&range(1, 3), 3), Some(vec![1, 2, 3]));
    assert_eq!(int_range_singletons(&range(1, 3), 2), None);
    assert_eq!(int_range_singletons(&IntRangeSet::greater_eq(1), 5), None);
    assert_eq!(int_range_singletons(&IntRangeSet::empty(), 0), Some(vec![]));
    assert_eq!(int_range_singletons(&range(i64::MIN, i64::MAX), 10), None);
}

#[test]
fn summaries_of_primitives() {
    assert_eq!(summaries(&bools(true, true), 5), vec!["true", "false"]);
    assert_eq!(summaries(&bools(true, true), 1), vec!["true"]);
    assert_eq!(summaries(&bools(false, false), 5), vec!["_"]);
    assert_eq!(summaries(&ints(range(-1, 1)), 5), vec!["-1", "0", "1"]);
    assert_eq!(summaries(&ints(range(-1, 1)), 2), vec!["_"]);
    assert_eq!(summaries(&ints(IntRangeSet::greater_eq(0)), 5), vec!["_"]);
    let chars = MatchSpace::Primitive(PrimitiveSpace::EqFinite {
        kind: PrimitiveEqKind::Char,
        values: vec![LiteralAtom::Char('a'), LiteralAtom::Char('b')],
    });
    assert_eq!(summaries(&chars, 5), vec!["'a'", "'b'"]);
    let strs = MatchSpace::Primitive(PrimitiveSpace::EqFinite {
        kind: PrimitiveEqKind::String,
        values: vec![LiteralAtom::String("a\"b".to_string())],
    });
    assert_eq!(summaries(&strs, 5), vec!["\"a\\\"b\""]);
    let floats = MatchSpace::Primitive(PrimitiveSpace::EqFinite {
        kind: PrimitiveEqKind::Float,
        values: vec![LiteralAtom::Float(1.5f64.to_bits())],
    });
    assert_eq!(summaries(&floats, 5), vec!["1.5"]);
}

#[test]
fn summaries_of_constructors_tuples_and_lists() {
    let opt = MatchSpace::Union(vec![variant("Some", vec![bools(true, false)]), variant("None", vec![])]);
    assert_eq!(summaries(&opt, 5), vec!["Some(true)", "None()"]);
    let pair = MatchSpace::Tuple(vec![bools(true, true), bools(true, true)]);
    assert_eq!(summaries(&pair, 10), vec!["(true,true)", "(true,false)", "(false,true)", "(false,false)"]);
    assert_eq!(summaries(&pair, 3), vec!["_"]);
    let list = MatchSpace::List(ListSpace::Any(Box::new(bools(true, true))));
    assert_eq!(summaries(&list, 5), vec!["[]", "[_,.rest]"]);
    let cons = MatchSpace::List(ListSpace::Cons {
        head: Box::new(bools(true, false)),
        tail: Box::new(MatchSpace::List(ListSpace::Nil)),
    });
    assert_eq!(summaries(&cons, 5), vec!["[true]"]);
    let record = MatchSpace::Record(RecordSpace { fields: vec![("x".to_string(), bools(true, true)), ("y".to_string(), bools(false, true))] });
    assert_eq!(summaries(&record, 5), vec!["{x:_,y:false}"]);
    assert_eq!(case_summary_atom(&bools(true, true), &float_text), "_");
    assert_eq!(summaries(&MatchSpace::Opaque("T".to_string()), 5), vec!["_"]);
}

#[test]
fn refinement_narrows_a_field() {
    let base = MatchSpace::Tuple(vec![bools(true, true), ints(IntRangeSet::all())]);
    let constraint = int_constraint_space(2, ComparisonOp::Lt, 7).unwrap();
    let refined = refine_space_at_path(&base, &[ValuePathStep::TupleIndex(1)], &constraint).unwrap();
    let expected = MatchSpace::Tuple(vec![bools(true, true), ints(IntRangeSet::less_eq(3))]);
    assert!(space_subset_of(&refined, &expected) && space_subset_of(&expected, &refined));
    assert!(refine_space_at_path(&base, &[ValuePathStep::ListHead], &constraint).is_none());
    assert!(refine_space_at_path(&base, &[ValuePathStep::TupleIndex(5)], &constraint).is_none());
}

#[test]
fn refinement_by_path_into_variants_and_records() {
    let base = MatchSpace::Union(vec![variant("Some", vec![bools(true, true)]), variant("None", vec![])]);
    let refined = refine_space_at_path(&base, &[ValuePathStep::VariantField(0)], &bools(true, false)).unwrap();
    assert_eq!(summaries(&refined, 5), vec!["Some(true)"]);
    let record = MatchSpace::Record(RecordSpace { fields: vec![("a".to_string(), bools(true, true))] });
    let refined = refine_space_at_path(&record, &[ValuePathStep::Field("a".to_string())], &bools(false, true)).unwrap();
    assert_eq!(summaries(&refined, 5), vec!["{a:false}"]);
    assert!(refine_space_at_path(&record, &[ValuePathStep::Field("b".to_string())], &bools(false, true)).is_none());
}

#[test]
fn int_constraints_cover_exact_solutions() {
    let eq = int_constraint_space(3, ComparisonOp::Eq, 12).unwrap();
    assert_eq!(summaries(&eq, 5), vec!["4"]);
    assert!(int_constraint_space(3, ComparisonOp::Eq, 13).is_none());
    assert!(int_constraint_space(0, ComparisonOp::Lt, 13).is_none());
    let ne = int_constraint_space(1, ComparisonOp::Ne, 0).unwrap();
    assert!(space_subset_of(&ints(range(1, 10)), &ne));
    assert!(!space_subset_of(&ints(range(0, 0)), &ne));
}

#[test]
fn difference_of_covered_cases() {
    let all = bools(true, true);
    let rest = space_difference(&all, &bools(true, false));
    assert_eq!(summaries(&rest, 5), vec!["false"]);
    assert!(space_is_empty(&space_difference(&all, &all)));
    let both = space_intersection(&ints(range(0, 10)), &ints(range(5, 20)));
    assert_eq!(summaries(&both, 10), vec!["5", "6", "7", "8", "9", "10"]);
    let n = normalize_space(MatchSpace::Union(vec![bools(true, false), bools(false, true)]));
    assert!(space_subset_of(&all, &n));
}

#[test]
fn literal_intersections_agree_in_either_order() {
    let lits = |xs: &[&str]| MatchSpace::Primitive(PrimitiveSpace::EqFinite {
        kind: PrimitiveEqKind::String,
        values: xs.iter().map(|x| LiteralAtom::String(x.to_string())).collect(),
    });
    let a = lits(&["a", "b", "c"]);
    let b = lits(&["b", "c", "d"]);
    let ab = format!("{:?}", space_intersection(&a, &b));
    let ba = format!("{:?}", space_intersection(&b, &a));
    assert_eq!(ab, ba);
    assert_eq!(summaries(&space_intersection(&a, &b), 8), vec!["\"b\"", "\"c\""]);
}

#[test]
fn integer_intersections_agree_in_either_order() {
    let a = ints(range(0, 10).union(&range(20, 30)));
    let b = ints(range(5, 25).union(&IntRangeSet::greater_eq(28)));
    let ab = format!("{:?}", space_intersection(&a, &b));
    let ba = format!("{:?}", space_intersection(&b, &a));
    assert_eq!(ab, ba);
    if let MatchSpace::Primitive(PrimitiveSpace::Int(r)) = space_intersection(&a, &b) {
        let got: Vec<(Option<i64>, Option<i64>)> = r.intervals().iter().map(|iv| (iv.start, iv.end)).collect();
        assert_eq!(got, vec![(Some(5), Some(10)), (Some(20), Some(25)), (Some(28), Some(30))]);
    } else {
        panic!("expected an integer space");
    }
}

#[test]
fn normalizing_twice_gives_the_normal_form() {
    let space = MatchSpace::Union(vec![
        bools(true, false),
        MatchSpace::Union(vec![ints(range(1, 3)), bools(false, true)]),
        ints(range(4, 9)),
        MatchSpace::Empty,
        variant("Some", vec![bools(true, true)]),
        variant("Some", vec![bools(true, true)]),
    ]);
    let once = normalize_space(space);
    let once_text = format!("{:?}", once);
    let twice = normalize_space(once);
    assert_eq!(format!("{:?}", twice), once_text);
    match twice {
        MatchSpace::Union(members) => {
            assert_eq!(members.len(), 3);
            assert!(members.iter().all(|m| !space_is_empty(m)));
        },
        other => panic!("expected a union, got {:?}", other),
    }
}

#[test]
fn difference_keeps_exactly_what_is_not_removed() {
    let rest = space_difference(&ints(range(0, 10)), &ints(range(3, 5)));
    assert_eq!(summaries(&rest, 20), vec!["0", "1", "2", "6", "7", "8", "9", "10"]);
    let some_any = variant("Some", vec![bools(true, true)]);
    let some_true = variant("Some", vec![bools(true, false)]);
    let left = space_difference(&some_any, &some_true);
    assert!(space_subset_of(&left, &variant("Some", vec![bools(false, true)])));
    assert!(space_subset_of(&variant("Some", vec![bools(false, true)]), &left));
}

#[test]
fn literal_patterns_cover_just_their_value() {
    let lit = |literal_type, value| LiteralPattern { literal_type, value };
    let five = literal_pattern_space(&lit(PatternLiteralType::Int, LiteralValue::Int(5)));
    assert_eq!(summaries(&five, 10), vec!["5"]);
    let yes = literal_pattern_space(&lit(PatternLiteralType::Bool, LiteralValue::Bool(true)));
    assert_eq!(summaries(&yes, 10), vec!["true"]);
    let text = literal_pattern_space(&lit(PatternLiteralType::String, LiteralValue::String("hi".to_string())));
    assert_eq!(summaries(&text, 10), vec!["\"hi\""]);
    let mismatched = literal_pattern_space(&lit(PatternLiteralType::Bool, LiteralValue::Int(1)));
    assert!(space_is_empty(&mismatched));
    let zero = literal_pattern_space(&lit(PatternLiteralType::Int, LiteralValue::Bool(true)));
    assert_eq!(summaries(&zero, 10), vec!["0"]);
    assert!(!space_is_empty(&literal_pattern_space(&lit(PatternLiteralType::Unit, LiteralValue::Unit))));
}
