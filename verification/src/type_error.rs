//! Errors the type checker reports, as far as this library builds them.

use crate::ast::SourceLocation;
use vstd::prelude::*;

verus! {

/// A type error: its message, and where in the source it arises, if known.
#[derive(Debug)]
pub struct TypeError {
    pub message: String,
    pub location: Option<SourceLocation>,
}

/// The message for a refinement constraint the prover cannot read.
pub open spec fn refinement_support_message(name: Seq<char>, reason: Seq<char>) -> Seq<char> {
    "Type constraint for '"@ + name + "' uses unsupported refinement syntax: "@ + reason
        + ". Supported refinement constraints use Bool/Int literals, value, #value, field access, +, -, comparisons, and/or/not."@
}

/// The error for a type whose refinement constraint uses syntax the prover
/// cannot read: it names the type and the reason, lists the supported
/// forms, and has no location.
pub fn refinement_type_support_error(name: &str, reason: &str) -> (r: TypeError)
    ensures
        r.message@ == refinement_support_message(name@, reason@),
        r.location is None,
{
    let mut message = String::from_str("Type constraint for '");
    message.append(name);
    message.append("' uses unsupported refinement syntax: ");
    message.append(reason);
    message.append(
        ". Supported refinement constraints use Bool/Int literals, value, #value, field access, +, -, comparisons, and/or/not.",
    );
    TypeError { message, location: None }
}

} // verus!
