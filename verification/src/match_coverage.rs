//! The decisions of match coverage checking. Arm by arm, the space of
//! scrutinee values not yet matched shrinks by what each arm matches; an
//! arm that meets no value left is unreachable or redundant, and a match
//! that leaves values unmatched is not exhaustive.

use crate::arm_facts::{
    display_names, expr_summary, expr_text, name_renderer, pattern_summary, pattern_text,
};
use crate::ast::{Expr, Pattern};
use crate::guards::{
    formula_runs, formula_to_space_subset, ground_prover, ground_verdicts, paths_v,
    spec_formula_subset, Atom, Formula, SymbolPath,
};
use crate::json::{json_string_array, json_string_array_text, push_text, strings_view};
use crate::semantics::{
    contains, law_difference_covers, law_empty_admits_nothing, law_intersection_keeps_shared_values,
    Val,
};
use crate::space::{space_is_empty, spec_is_empty, MatchSpace, SpaceV};
use crate::space_ops::{
    diff_f, difference_terminates, space_difference, space_intersection, spec_intersection,
    spec_space_difference,
};
use crate::summaries::{case_summaries, float_renderer, float_texts, space_to_case_summaries};
use vstd::prelude::*;

verus! {

/// What is known of one arm: the values its pattern (narrowed by what its
/// guard proves) matches, whether the guard was understood, the facts
/// that describe the arm, facts about it that could not be used, the text
/// of its pattern, and the condition under which it is taken, which later
/// arms may assume false.
pub struct ArmProof {
    pub space: MatchSpace,
    pub guard_supported: bool,
    pub facts: Vec<String>,
    pub unsupported_facts: Vec<String>,
    pub pattern: String,
    pub condition_formula: Option<Formula>,
}

/// What the prover made of an arm's guard: the condition it establishes,
/// whether the guard was understood, and the facts it could not use.
pub struct ArmRefinement {
    pub condition_formula: Option<Formula>,
    pub guard_supported: bool,
    pub unsupported_facts: Vec<String>,
}

/// An arm that was found useful, as later diagnostics list it.
pub struct CoveredArm {
    pub arm_index: usize,
    pub facts: Vec<String>,
    pub guard_supported: bool,
    pub pattern: String,
}

/// Why a match was refused.
pub enum CoverageError {
    /// No value is left for the arm: the arms before it match everything.
    UnreachableArm {
        arm_index: usize,
        covered_by_arm: usize,
        covered_by: Vec<CoveredArm>,
        unsupported_facts: Vec<String>,
    },
    /// The arm matches none of the values left.
    RedundantPattern {
        arm_index: usize,
        covered_by: Vec<CoveredArm>,
        known_facts: Vec<String>,
        remaining_before_arm: Vec<String>,
        arm_cases: Vec<String>,
        unsupported_facts: Vec<String>,
    },
    /// Values are left after the last arm.
    NonExhaustive {
        uncovered_cases: Vec<String>,
        suggested_missing_arms: Vec<String>,
        covered_by: Vec<CoveredArm>,
        unsupported_facts: Vec<String>,
    },
}

/// The state of the check between arms.
pub struct MatchCoverage {
    /// The scrutinee values no arm has matched yet.
    pub remaining: MatchSpace,
    /// The arms found useful so far.
    pub covered_by: Vec<CoveredArm>,
    /// The facts that could not be used, of every arm so far.
    pub unsupported_facts: Vec<String>,
    /// The index of the next arm.
    pub next_arm: usize,
}

/// How many case summaries a diagnostic lists.
pub const CASE_LIMIT: usize = 8;

/// How many missing arms a diagnostic suggests.
pub const SUGGESTION_LIMIT: usize = 4;

/// The check can take the arm's space away from what is left, where it
/// comes to that.
pub open spec fn arm_runs(remaining: SpaceV, arm: ArmProof) -> bool {
    (arm.guard_supported && !spec_is_empty(remaining) && !spec_is_empty(
        spec_intersection(remaining, arm.space@),
    )) ==> difference_terminates(remaining, arm.space@)
}

/// What is left after an accepted arm: its space is taken away when its
/// guard was understood.
pub open spec fn left_after(remaining: SpaceV, space: SpaceV, guard_supported: bool) -> SpaceV {
    if guard_supported {
        spec_space_difference(remaining, space)
    } else {
        remaining
    }
}

impl MatchCoverage {
    /// The check before the first arm: every value of the scrutinee is left.
    pub fn new(scrutinee_space: MatchSpace) -> (r: Self)
        ensures
            r.remaining == scrutinee_space,
            r.covered_by@ == Seq::<CoveredArm>::empty(),
            r.unsupported_facts@ == Seq::<String>::empty(),
            r.next_arm == 0,
    {
        MatchCoverage {
            remaining: scrutinee_space,
            covered_by: Vec::new(),
            unsupported_facts: Vec::new(),
            next_arm: 0,
        }
    }

    /// Checks the next arm. With no value left, the arm is unreachable;
    /// when it matches none of the values left, it is redundant; otherwise
    /// it is recorded, and its space is taken away from what is left when
    /// its guard was understood. Either way its unusable facts are added
    /// to those of the arms before it. Case summaries are listed up to
    /// eight, with floats shown by `float_text`.
    pub fn check_arm<F: Fn(u64) -> String>(self, arm: ArmProof, float_text: &F) -> (r: Result<
        MatchCoverage,
        CoverageError,
    >)
        requires
            float_renderer(*float_text),
            self.next_arm < usize::MAX,
            arm_runs(self.remaining@, arm),
        ensures
            ({
                let index = self.next_arm;
                let unsupported = self.unsupported_facts@ + arm.unsupported_facts@;
                let ft = float_texts(*float_text);
                if spec_is_empty(self.remaining@) {
                    r matches Err(CoverageError::UnreachableArm {
                        arm_index,
                        covered_by_arm,
                        covered_by,
                        unsupported_facts,
                    }) && arm_index == index && covered_by_arm == (if index > 0 {
                        index - 1
                    } else {
                        0
                    }) && covered_by@ == self.covered_by@ && unsupported_facts@ == unsupported
                } else if spec_is_empty(spec_intersection(self.remaining@, arm.space@)) {
                    r matches Err(CoverageError::RedundantPattern {
                        arm_index,
                        covered_by,
                        known_facts,
                        remaining_before_arm,
                        arm_cases,
                        unsupported_facts,
                    }) && arm_index == index && covered_by@ == self.covered_by@ && known_facts
                        == arm.facts && strings_view(remaining_before_arm@) == case_summaries(
                        self.remaining@,
                        CASE_LIMIT as nat,
                        ft,
                    ) && strings_view(arm_cases@) == case_summaries(
                        arm.space@,
                        CASE_LIMIT as nat,
                        ft,
                    ) && unsupported_facts@ == unsupported
                } else {
                    r matches Ok(next) && next.next_arm == index + 1 && next.remaining@
                        == left_after(self.remaining@, arm.space@, arm.guard_supported)
                        && next.covered_by@ == self.covered_by@.push(
                        CoveredArm {
                            arm_index: index,
                            facts: arm.facts,
                            guard_supported: arm.guard_supported,
                            pattern: arm.pattern,
                        },
                    ) && next.unsupported_facts@ == unsupported
                }
            }),
    {
        let MatchCoverage { remaining, covered_by, unsupported_facts, next_arm } = self;
        let ArmProof {
            space,
            guard_supported,
            facts,
            unsupported_facts: arm_unsupported,
            pattern,
            condition_formula: _,
        } = arm;
        let index = next_arm;
        let mut unsupported = unsupported_facts;
        let mut extra = arm_unsupported;
        unsupported.append(&mut extra);
        if space_is_empty(&remaining) {
            let covered_by_arm = if index > 0 {
                index - 1
            } else {
                0
            };
            return Err(
                CoverageError::UnreachableArm {
                    arm_index: index,
                    covered_by_arm,
                    covered_by,
                    unsupported_facts: unsupported,
                },
            );
        }
        let useful = space_intersection(&remaining, &space);
        if space_is_empty(&useful) {
            let remaining_before_arm = space_to_case_summaries(&remaining, CASE_LIMIT, float_text);
            let arm_cases = space_to_case_summaries(&space, CASE_LIMIT, float_text);
            return Err(
                CoverageError::RedundantPattern {
                    arm_index: index,
                    covered_by,
                    known_facts: facts,
                    remaining_before_arm,
                    arm_cases,
                    unsupported_facts: unsupported,
                },
            );
        }
        let left = if guard_supported {
            space_difference(&remaining, &space)
        } else {
            remaining
        };
        let mut covered = covered_by;
        covered.push(CoveredArm { arm_index: index, facts, guard_supported, pattern });
        Ok(
            MatchCoverage {
                remaining: left,
                covered_by: covered,
                unsupported_facts: unsupported,
                next_arm: index + 1,
            },
        )
    }

    /// Ends the check after the last arm: values left make the match
    /// non-exhaustive, listed up to eight as uncovered cases and up to four
    /// as suggested arms.
    pub fn finish<F: Fn(u64) -> String>(self, float_text: &F) -> (r: Result<(), CoverageError>)
        requires
            float_renderer(*float_text),
        ensures
            spec_is_empty(self.remaining@) <==> r is Ok,
            !spec_is_empty(self.remaining@) ==> (r matches Err(CoverageError::NonExhaustive {
                uncovered_cases,
                suggested_missing_arms,
                covered_by,
                unsupported_facts,
            }) && strings_view(uncovered_cases@) == case_summaries(
                self.remaining@,
                CASE_LIMIT as nat,
                float_texts(*float_text),
            ) && strings_view(suggested_missing_arms@) == case_summaries(
                self.remaining@,
                SUGGESTION_LIMIT as nat,
                float_texts(*float_text),
            ) && covered_by@ == self.covered_by@ && unsupported_facts@ == self.unsupported_facts@),
    {
        if space_is_empty(&self.remaining) {
            return Ok(());
        }
        let uncovered_cases = space_to_case_summaries(&self.remaining, CASE_LIMIT, float_text);
        let suggested_missing_arms = space_to_case_summaries(
            &self.remaining,
            SUGGESTION_LIMIT,
            float_text,
        );
        Err(
            CoverageError::NonExhaustive {
                uncovered_cases,
                suggested_missing_arms,
                covered_by: self.covered_by,
                unsupported_facts: self.unsupported_facts,
            },
        )
    }
}

// ---------------------------------------------------------------------------
// What an accepted match guarantees
// ---------------------------------------------------------------------------

/// What is left of `start` after the given arms, each given by its space
/// and whether its guard was understood.
pub open spec fn left_after_arms(start: SpaceV, arms: Seq<(SpaceV, bool)>) -> SpaceV
    decreases arms.len(),
{
    if arms.len() == 0 {
        start
    } else {
        left_after(left_after_arms(start, arms.drop_last()), arms.last().0, arms.last().1)
    }
}

/// Each difference taken along the arms comes to an end.
pub open spec fn arms_run(start: SpaceV, arms: Seq<(SpaceV, bool)>) -> bool
    decreases arms.len(),
{
    arms.len() == 0 || {
        &&& arms_run(start, arms.drop_last())
        &&& arms.last().1 ==> difference_terminates(
            left_after_arms(start, arms.drop_last()),
            arms.last().0,
        )
    }
}

/// Some arm with an understood guard matches `v`.
pub open spec fn some_arm_matches(arms: Seq<(SpaceV, bool)>, v: Val) -> bool {
    exists|i: int| 0 <= i < arms.len() && arms[i].1 && #[trigger] contains(arms[i].0, v)
}

proof fn lemma_left_or_matched(start: SpaceV, arms: Seq<(SpaceV, bool)>, v: Val)
    requires
        arms_run(start, arms),
        contains(start, v),
    ensures
        contains(left_after_arms(start, arms), v) || some_arm_matches(arms, v),
    decreases arms.len(),
{
    if arms.len() > 0 {
        let init = arms.drop_last();
        lemma_left_or_matched(start, init, v);
        let before = left_after_arms(start, init);
        let (space, guarded) = arms.last();
        if some_arm_matches(init, v) {
            let i = choose|i: int| 0 <= i < init.len() && init[i].1 && #[trigger] contains(init[i].0, v);
            assert(arms[i] == init[i]);
        } else if guarded {
            if contains(space, v) {
                assert(arms[arms.len() - 1] == arms.last());
            } else {
                let fuel = choose|f: nat| #[trigger] diff_f(before, space, f) is Some;
                law_difference_covers(before, space, fuel, v);
            }
        }
    }
}

/// A match whose arms leave nothing covers its scrutinee: every value of
/// the scrutinee's space is matched by some arm whose guard was understood.
pub proof fn law_exhausted_arms_cover_every_value(start: SpaceV, arms: Seq<(SpaceV, bool)>, v: Val)
    requires
        arms_run(start, arms),
        spec_is_empty(left_after_arms(start, arms)),
        contains(start, v),
    ensures
        some_arm_matches(arms, v),
{
    lemma_left_or_matched(start, arms, v);
    law_empty_admits_nothing(left_after_arms(start, arms), v);
}

/// An arm refused as redundant matches none of the values the arms before
/// it leave; one refused as unreachable comes when no value is left.
pub proof fn law_refused_arms_match_nothing_left(remaining: SpaceV, arm_space: SpaceV, v: Val)
    requires
        spec_is_empty(remaining) || spec_is_empty(spec_intersection(remaining, arm_space)),
        contains(remaining, v),
    ensures
        !contains(arm_space, v),
{
    if spec_is_empty(remaining) {
        law_empty_admits_nothing(remaining, v);
    } else {
        law_intersection_keeps_shared_values(remaining, arm_space, v);
        law_empty_admits_nothing(spec_intersection(remaining, arm_space), v);
    }
}

// ---------------------------------------------------------------------------
// The constructs the check understands
// ---------------------------------------------------------------------------

/// The constructs coverage proofs reason about.
pub open spec fn proof_constructs() -> Seq<Seq<char>> {
    seq![
        "constructors"@,
        "bool_literals"@,
        "unit_literal"@,
        "list_shapes"@,
        "tuple_shapes"@,
        "int_literal_equality"@,
        "int_literal_order"@,
        "bool_and_or_not"@,
        "refinement_bool_aliases"@,
        "match_guard_refinement_facts"@,
    ]
}

/// The fragment of the language coverage proofs cover, as the JSON object
/// that coverage diagnostics carry: `{"constructs":[...]}`.
pub fn proof_fragment() -> (r: String)
    ensures
        r@ == "{\"constructs\":"@ + json_string_array_text(proof_constructs()) + "}"@,
{
    let mut names: Vec<String> = Vec::new();
    names.push(String::from_str("constructors"));
    names.push(String::from_str("bool_literals"));
    names.push(String::from_str("unit_literal"));
    names.push(String::from_str("list_shapes"));
    names.push(String::from_str("tuple_shapes"));
    names.push(String::from_str("int_literal_equality"));
    names.push(String::from_str("int_literal_order"));
    names.push(String::from_str("bool_and_or_not"));
    names.push(String::from_str("refinement_bool_aliases"));
    names.push(String::from_str("match_guard_refinement_facts"));
    proof {
        assert(strings_view(names@) =~= proof_constructs());
    }
    let mut out = String::from_str("{\"constructs\":");
    push_text(&mut out, &json_string_array(&names));
    out.append("}");
    out
}

/// The facts that describe an arm: its pattern, then its guard if any.
pub open spec fn arm_facts_text(
    pattern: Pattern,
    guard: Option<Expr>,
    ft: spec_fn(u64) -> Seq<char>,
    dn: spec_fn(Vec<String>, String) -> Seq<char>,
) -> Seq<Seq<char>> {
    match guard {
        Some(g) => seq![pattern_text(pattern, ft, dn), expr_text(g, ft)],
        None => seq![pattern_text(pattern, ft, dn)],
    }
}

/// What is known of an arm, from the space its pattern matches and what
/// the prover made of its guard. Where the guard's condition can be read
/// as a part of the pattern's space, the space is narrowed to it; where it
/// cannot, an arm with a guard is treated as matching nothing for sure
/// (its guard counts as not understood, and no condition is passed on).
pub fn arm_proof<
    P: Fn(&Atom) -> bool,
    F: Fn(u64) -> String,
    D: Fn(&Vec<String>, &String) -> String,
>(
    base_space: MatchSpace,
    pattern: &Pattern,
    guard: Option<&Expr>,
    refinement: ArmRefinement,
    scrutinee_roots: &[SymbolPath],
    prove_ground: &P,
    float_text: &F,
    display_name: &D,
) -> (r: ArmProof)
    requires
        ground_prover(*prove_ground),
        float_renderer(*float_text),
        name_renderer(*display_name),
        match refinement.condition_formula {
            Some(c) => formula_runs(
                base_space@,
                c@,
                paths_v(scrutinee_roots@),
                ground_verdicts(*prove_ground),
            ),
            None => true,
        },
    ensures
        strings_view(r.facts@) == arm_facts_text(
            *pattern,
            match guard {
                Some(g) => Some(*g),
                None => None,
            },
            float_texts(*float_text),
            display_names(*display_name),
        ),
        r.pattern@ == pattern_text(*pattern, float_texts(*float_text), display_names(*display_name)),
        r.unsupported_facts == refinement.unsupported_facts,
        ({
            let kept = match refinement.condition_formula {
                Some(c) => spec_formula_subset(
                    base_space@,
                    c@,
                    paths_v(scrutinee_roots@),
                    ground_verdicts(*prove_ground),
                ),
                None => None,
            };
            if refinement.condition_formula is Some && kept is Some {
                &&& r.space@ == spec_intersection(base_space@, kept->0)
                &&& r.guard_supported == refinement.guard_supported
                &&& r.condition_formula == refinement.condition_formula
            } else if refinement.condition_formula is Some && guard is Some {
                &&& r.space == base_space
                &&& !r.guard_supported
                &&& r.condition_formula is None
            } else {
                &&& r.space == base_space
                &&& r.guard_supported == refinement.guard_supported
                &&& r.condition_formula == refinement.condition_formula
            }
        }),
{
    let shown = pattern_summary(pattern, float_text, display_name);
    let mut facts: Vec<String> = Vec::new();
    facts.push(shown.clone());
    if let Some(g) = guard {
        facts.push(expr_summary(g, float_text));
    }
    proof {
        assert(strings_view(facts@) =~= arm_facts_text(
            *pattern,
            match guard {
                Some(g) => Some(*g),
                None => None,
            },
            float_texts(*float_text),
            display_names(*display_name),
        ));
    }
    let ArmRefinement { condition_formula, guard_supported, unsupported_facts } = refinement;
    let narrowed = match &condition_formula {
        Some(condition) => formula_to_space_subset(&base_space, condition, scrutinee_roots, prove_ground),
        None => None,
    };
    match narrowed {
        Some(guard_space) => ArmProof {
            space: space_intersection(&base_space, &guard_space),
            guard_supported,
            facts,
            unsupported_facts,
            pattern: shown,
            condition_formula,
        },
        None => if condition_formula.is_some() && guard.is_some() {
            ArmProof {
                space: base_space,
                guard_supported: false,
                facts,
                unsupported_facts,
                pattern: shown,
                condition_formula: None,
            }
        } else {
            ArmProof {
                space: base_space,
                guard_supported,
                facts,
                unsupported_facts,
                pattern: shown,
                condition_formula,
            }
        },
    }
}

} // verus!
