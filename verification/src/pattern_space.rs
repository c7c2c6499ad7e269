//! The values a literal pattern of a match arm covers, as a match space.

use crate::ast::{LiteralPattern, LiteralValue, PatternLiteralType};
use crate::atoms::{atoms_view, AtomV, LiteralAtom, PrimitiveEqKind};
use crate::int_ranges::{in_interval, in_ranges, IntInterval, IntRangeSet};
use crate::semantics::{contains, Val};
use crate::space::{MatchSpace, PrimV, PrimitiveSpace, SpaceV};
use vstd::prelude::*;

verus! {

/// The value a literal pattern stands for, read at the pattern's type; a
/// value written at another type reads as that type's zero (`0`, the empty
/// string, `'\0'`, the bits of `0.0`), and a boolean pattern whose value
/// is no boolean stands for none.
pub open spec fn literal_value_v(lit: LiteralPattern) -> Option<Val> {
    match lit.literal_type {
        PatternLiteralType::Bool => match lit.value {
            LiteralValue::Bool(b) => Some(Val::Bool(b)),
            _ => None,
        },
        PatternLiteralType::Unit => Some(Val::Unit),
        PatternLiteralType::Int => Some(
            Val::Int(
                match lit.value {
                    LiteralValue::Int(n) => n as int,
                    _ => 0,
                },
            ),
        ),
        PatternLiteralType::String => Some(
            Val::Lit(
                AtomV::Str(
                    match lit.value {
                        LiteralValue::String(s) => s@,
                        _ => Seq::<char>::empty(),
                    },
                ),
            ),
        ),
        PatternLiteralType::Char => Some(
            Val::Lit(
                AtomV::Char(
                    match lit.value {
                        LiteralValue::Char(c) => c,
                        _ => '\0',
                    },
                ),
            ),
        ),
        PatternLiteralType::Float => Some(
            Val::Lit(
                AtomV::Float(
                    match lit.value {
                        LiteralValue::Float(bits) => bits,
                        _ => 0,
                    },
                ),
            ),
        ),
    }
}

/// The space of a literal pattern: the one value it stands for.
pub open spec fn literal_space_v(lit: LiteralPattern) -> SpaceV {
    match lit.literal_type {
        PatternLiteralType::Bool => SpaceV::Prim(
            PrimV::Bool(
                lit.value matches LiteralValue::Bool(b) && b,
                lit.value matches LiteralValue::Bool(b) && !b,
            ),
        ),
        PatternLiteralType::Unit => SpaceV::Prim(PrimV::Unit(true)),
        _ => match literal_value_v(lit) {
            Some(Val::Int(n)) => SpaceV::Prim(
                PrimV::Int(seq![IntInterval { start: Some(n as i64), end: Some(n as i64) }]),
            ),
            Some(Val::Lit(a)) => SpaceV::Prim(PrimV::EqFinite(crate::atoms::kind_of(a), seq![a])),
            _ => SpaceV::Empty,
        },
    }
}

/// The space of values a literal pattern matches.
pub fn literal_pattern_space(literal: &LiteralPattern) -> (r: MatchSpace)
    ensures
        r@ == literal_space_v(*literal),
{
    match literal.literal_type {
        PatternLiteralType::Bool => MatchSpace::Primitive(
            PrimitiveSpace::Bool {
                allow_true: matches!(literal.value, LiteralValue::Bool(true)),
                allow_false: matches!(literal.value, LiteralValue::Bool(false)),
            },
        ),
        PatternLiteralType::Unit => MatchSpace::Primitive(PrimitiveSpace::Unit { present: true }),
        PatternLiteralType::Int => {
            let value: i64 = match literal.value {
                LiteralValue::Int(value) => value,
                _ => 0,
            };
            MatchSpace::Primitive(PrimitiveSpace::Int(IntRangeSet::singleton(value)))
        },
        PatternLiteralType::String => {
            let text = match &literal.value {
                LiteralValue::String(value) => value.clone(),
                _ => String::new(),
            };
            let values = vec![LiteralAtom::String(text)];
            proof {
                assert(atoms_view(values@) =~= seq![values@[0]@]);
            }
            MatchSpace::Primitive(PrimitiveSpace::EqFinite { kind: PrimitiveEqKind::String, values })
        },
        PatternLiteralType::Char => {
            let c: char = match literal.value {
                LiteralValue::Char(value) => value,
                _ => '\0',
            };
            let values = vec![LiteralAtom::Char(c)];
            proof {
                assert(atoms_view(values@) =~= seq![values@[0]@]);
            }
            MatchSpace::Primitive(PrimitiveSpace::EqFinite { kind: PrimitiveEqKind::Char, values })
        },
        PatternLiteralType::Float => {
            let bits: u64 = match literal.value {
                LiteralValue::Float(value) => value,
                _ => 0,
            };
            let values = vec![LiteralAtom::Float(bits)];
            proof {
                assert(atoms_view(values@) =~= seq![values@[0]@]);
            }
            MatchSpace::Primitive(PrimitiveSpace::EqFinite { kind: PrimitiveEqKind::Float, values })
        },
    }
}

/// A literal pattern's space admits exactly the value the literal stands
/// for.
pub proof fn law_literal_space_admits_just_its_value(lit: LiteralPattern, v: Val)
    ensures
        contains(literal_space_v(lit), v) <==> literal_value_v(lit) == Some(v),
{
    match literal_value_v(lit) {
        Some(Val::Int(n)) => {
            let iv = IntInterval { start: Some(n as i64), end: Some(n as i64) };
            if let Val::Int(x) = v {
                if in_ranges(seq![iv], x) {
                    let i = choose|i: int| 0 <= i < 1 && #[trigger] in_interval(seq![iv][i], x);
                    assert(seq![iv][i] == iv);
                }
                if x == n {
                    assert(in_interval(seq![iv][0], x));
                }
            }
        },
        Some(Val::Lit(a)) => {
            if let Val::Lit(b) = v {
                if seq![a].contains(b) {
                    let i = choose|i: int| 0 <= i < 1 && seq![a][i] == b;
                    assert(seq![a][i] == a);
                }
                if a == b {
                    assert(seq![a][0] == b);
                }
            }
        },
        _ => {},
    }
}

} // verus!
