//! Surface-form validation: every function declares its return type and
//! the types of its parameters, and type names follow the naming
//! convention.

use crate::ast::{Declaration, Param, Program, SourceLocation, TypeDecl};
use vstd::prelude::*;

verus! {

/// A missing annotation, or a type name that breaks the convention.
#[derive(Debug)]
pub enum ValidationError {
    MissingReturnType { function_name: String, location: SourceLocation },
    MissingParamType { param_name: String, location: SourceLocation },
    InvalidTypeName { name: String, location: SourceLocation },
}

/// What a validation error is about.
pub enum ErrorKind {
    ReturnType,
    ParamType,
    TypeName,
}

/// The view of a validation error: its kind, the name involved, and where.
pub open spec fn error_v(e: ValidationError) -> (ErrorKind, Seq<char>, SourceLocation) {
    match e {
        ValidationError::MissingReturnType { function_name, location } => (
            ErrorKind::ReturnType,
            function_name@,
            location,
        ),
        ValidationError::MissingParamType { param_name, location } => (
            ErrorKind::ParamType,
            param_name@,
            location,
        ),
        ValidationError::InvalidTypeName { name, location } => (
            ErrorKind::TypeName,
            name@,
            location,
        ),
    }
}

pub open spec fn errors_v(es: Seq<ValidationError>) -> Seq<(ErrorKind, Seq<char>, SourceLocation)> {
    Seq::new(es.len(), |i: int| error_v(es[i]))
}

/// An ASCII upper-case letter.
pub open spec fn is_upper_ascii(c: char) -> bool {
    'A' <= c <= 'Z'
}

/// An ASCII letter or digit.
pub open spec fn is_alnum_ascii(c: char) -> bool {
    ('A' <= c <= 'Z') || ('a' <= c <= 'z') || ('0' <= c <= '9')
}

/// The naming convention for types, which the validator's documentation
/// names but does not spell out: this library takes it to be upper camel
/// case over ASCII, a name that starts with an upper-case letter and holds
/// only letters and digits, as the type names of Sigil programs are
/// written.
pub open spec fn type_name_follows_convention(name: Seq<char>) -> bool {
    &&& name.len() > 0
    &&& is_upper_ascii(name[0])
    &&& forall|i: int| 0 <= i < name.len() ==> #[trigger] is_alnum_ascii(name[i])
}

/// One error for each parameter without a type annotation, in order.
pub open spec fn param_errors(params: Seq<Param>) -> Seq<(ErrorKind, Seq<char>, SourceLocation)>
    decreases params.len(),
{
    if params.len() == 0 {
        Seq::empty()
    } else {
        let p = params.last();
        let before = param_errors(params.drop_last());
        if p.type_annotation is None {
            before.push((ErrorKind::ParamType, p.name@, p.location))
        } else {
            before
        }
    }
}

/// The errors of one declaration: a function without a return type, then
/// its parameters without a type; a type whose name breaks the convention.
pub open spec fn declaration_errors(d: Declaration) -> Seq<(ErrorKind, Seq<char>, SourceLocation)> {
    match d {
        Declaration::Type(t) => if type_name_follows_convention(t.name@) {
            Seq::empty()
        } else {
            seq![(ErrorKind::TypeName, t.name@, t.location)]
        },
        Declaration::Function(f) => {
            let head = if f.return_type is None {
                seq![(ErrorKind::ReturnType, f.name@, f.location)]
            } else {
                Seq::empty()
            };
            head + param_errors(f.params@)
        },
        _ => Seq::empty(),
    }
}

/// The errors of a list of declarations, in order.
pub open spec fn program_errors(decls: Seq<Declaration>) -> Seq<(ErrorKind, Seq<char>, SourceLocation)>
    decreases decls.len(),
{
    if decls.len() == 0 {
        Seq::empty()
    } else {
        program_errors(decls.drop_last()) + declaration_errors(decls.last())
    }
}

/// Whether a type name follows the naming convention.
fn type_name_ok(name: &String) -> (r: bool)
    ensures
        r == type_name_follows_convention(name@),
{
    let chars = name.as_str();
    let n = chars.unicode_len();
    if n == 0 {
        return false;
    }
    let first = chars.get_char(0);
    if !('A' <= first && first <= 'Z') {
        return false;
    }
    let mut i: usize = 0;
    while i < n
        invariant
            i <= n,
            n == name@.len(),
            chars@ == name@,
            forall|j: int| 0 <= j < i ==> #[trigger] is_alnum_ascii(name@[j]),
        decreases n - i,
    {
        let c = chars.get_char(i);
        if !(('A' <= c && c <= 'Z') || ('a' <= c && c <= 'z') || ('0' <= c && c <= '9')) {
            proof {
                assert(!is_alnum_ascii(name@[i as int]));
            }
            return false;
        }
        i += 1;
    }
    true
}

/// Checks that every function has a return type annotation and every
/// parameter a type annotation, and that every type name follows the
/// naming convention; all errors are reported, in declaration order.
pub fn validate_surface_form(program: &Program) -> (r: Result<(), Vec<ValidationError>>)
    ensures
        r is Ok <==> program_errors(program.declarations@).len() == 0,
        match r {
            Err(es) => errors_v(es@) == program_errors(program.declarations@),
            Ok(_) => true,
        },
{
    let mut errors: Vec<ValidationError> = Vec::new();
    let mut i: usize = 0;
    while i < program.declarations.len()
        invariant
            i <= program.declarations.len(),
            errors_v(errors@) == program_errors(program.declarations@.take(i as int)),
        decreases program.declarations.len() - i,
    {
        proof {
            let pre = program.declarations@.take(i + 1);
            assert(pre.drop_last() =~= program.declarations@.take(i as int));
        }
        match &program.declarations[i] {
            Declaration::Function(func) => {
                let ghost start = errors_v(errors@);
                if func.return_type.is_none() {
                    errors.push(
                        ValidationError::MissingReturnType {
                            function_name: func.name.clone(),
                            location: func.location,
                        },
                    );
                }
                let ghost head = errors_v(errors@).skip(start.len() as int);
                proof {
                    assert(errors_v(errors@) =~= start + head);
                }
                let mut j: usize = 0;
                while j < func.params.len()
                    invariant
                        j <= func.params.len(),
                        head.len() <= errors@.len(),
                        errors_v(errors@) =~= start + head + param_errors(func.params@.take(j as int)),
                    decreases func.params.len() - j,
                {
                    proof {
                        let pre = func.params@.take(j + 1);
                        assert(pre.drop_last() =~= func.params@.take(j as int));
                    }
                    let param = &func.params[j];
                    if param.type_annotation.is_none() {
                        let ghost before = errors_v(errors@);
                        errors.push(
                            ValidationError::MissingParamType {
                                param_name: param.name.clone(),
                                location: param.location,
                            },
                        );
                        proof {
                            assert(errors_v(errors@) =~= before.push(
                                (ErrorKind::ParamType, param.name@, param.location),
                            ));
                        }
                    }
                    j += 1;
                }
                proof {
                    assert(func.params@.take(func.params@.len() as int) =~= func.params@);
                    assert(head =~= (if func.return_type is None {
                        seq![(ErrorKind::ReturnType, func.name@, func.location)]
                    } else {
                        Seq::empty()
                    }));
                }
            },
            Declaration::Type(t) => {
                if !type_name_ok(&t.name) {
                    let ghost before = errors_v(errors@);
                    errors.push(
                        ValidationError::InvalidTypeName {
                            name: t.name.clone(),
                            location: t.location,
                        },
                    );
                    proof {
                        assert(errors_v(errors@) =~= before.push(
                            (ErrorKind::TypeName, t.name@, t.location),
                        ));
                    }
                }
                proof {
                    assert(errors_v(errors@) =~= program_errors(program.declarations@.take(i as int))
                        + declaration_errors(program.declarations@[i as int]));
                }
            },
            _ => {},
        }
        i += 1;
    }
    proof {
        assert(program.declarations@.take(program.declarations@.len() as int)
            =~= program.declarations@);
    }
    if errors.len() == 0 {
        Ok(())
    } else {
        Err(errors)
    }
}

} // verus!
