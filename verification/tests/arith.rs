use sigil::arith::{div_ceil, div_floor, solve_exact_single_var, solve_single_var_interval, ComparisonOp};

#[test]
fn floor_and_ceiling_division_round_outwards() {
    assert_eq!(div_floor(7, 2), 3);
    assert_eq!(div_floor(-7, 2), -4);
    assert_eq!(div_floor(7, -2), -4);
    assert_eq!(div_floor(-7, -2), 3);
    assert_eq!(div_floor(6, 3), 2);
    assert_eq!(div_ceil(7, 2), 4);
    assert_eq!(div_ceil(-7, 2), -3);
    assert_eq!(div_ceil(7, -2), -3);
    assert_eq!(div_ceil(-7, -2), 4);
    assert_eq!(div_floor(i64::MIN, 1), i64::MIN);
    assert_eq!(div_ceil(i64::MAX, -1), -i64::MAX);
}

#[test]
fn exact_solutions_need_divisibility() {
    assert_eq!(solve_exact_single_var(3, 12), Some(4));
    assert_eq!(solve_exact_single_var(-3, 12), Some(-4));
    assert_eq!(solve_exact_single_var(3, 13), None);
    assert_eq!(solve_exact_single_var(0, 0), None);
    assert_eq!(solve_exact_single_var(1, i64::MIN), Some(i64::MIN));
}

#[test]
fn intervals_solve_linear_comparisons() {
    assert_eq!(solve_single_var_interval(2, ComparisonOp::Lt, 7), Some((None, Some(3))));
    assert_eq!(solve_single_var_interval(2, ComparisonOp::Le, 7), Some((None, Some(3))));
    assert_eq!(solve_single_var_interval(2, ComparisonOp::Gt, 7), Some((Some(4), None)));
    assert_eq!(solve_single_var_interval(2, ComparisonOp::Ge, 8), Some((Some(4), None)));
    assert_eq!(solve_single_var_interval(-2, ComparisonOp::Lt, 7), Some((Some(-3), None)));
    assert_eq!(solve_single_var_interval(-1, ComparisonOp::Ge, -5), Some((None, Some(5))));
    assert_eq!(solve_single_var_interval(0, ComparisonOp::Lt, 7), None);
    assert_eq!(solve_single_var_interval(3, ComparisonOp::Eq, 9), None);
    assert_eq!(solve_single_var_interval(3, ComparisonOp::Ne, 9), None);
}

#[test]
fn interval_bounds_match_brute_force() {
    let ops = [ComparisonOp::Lt, ComparisonOp::Le, ComparisonOp::Gt, ComparisonOp::Ge];
    for coeff in -4i64..=4 {
        for rhs in -9i64..=9 {
            for op in ops {
                let bounds = solve_single_var_interval(coeff, op, rhs);
                if coeff == 0 {
                    assert_eq!(bounds, None);
                    continue;
                }
                let (lo, hi) = bounds.unwrap();
                for x in -20i64..=20 {
                    let v = coeff * x;
                    let holds = match op {
                        ComparisonOp::Lt => v < rhs,
                        ComparisonOp::Le => v <= rhs,
                        ComparisonOp::Gt => v > rhs,
                        ComparisonOp::Ge => v >= rhs,
                        _ => unreachable!(),
                    };
                    let inside = lo.map_or(true, |l| l <= x) && hi.map_or(true, |h| x <= h);
                    assert_eq!(holds, inside, "coeff {coeff} rhs {rhs} x {x}");
                }
            }
        }
    }
}
