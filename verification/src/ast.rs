//! The parts of a parsed Sigil program that validation and code generation
//! read: declarations, their names, flags and annotations.

use vstd::prelude::*;

verus! {

/// A position in a source file.
#[derive(Debug, Clone, Copy, PartialEq, Eq, Structural)]
pub struct Position {
    pub line: usize,
    pub column: usize,
    pub offset: usize,
}

/// A span of a source file.
#[derive(Debug, Clone, Copy, PartialEq, Eq, Structural)]
pub struct SourceLocation {
    pub start: Position,
    pub end: Position,
}

/// A function parameter and its type annotation, as written.
#[derive(Debug)]
pub struct Param {
    pub name: String,
    pub type_annotation: Option<String>,
    pub location: SourceLocation,
}

/// A function declaration.
#[derive(Debug)]
pub struct FunctionDecl {
    pub name: String,
    pub params: Vec<Param>,
    pub return_type: Option<String>,
    pub is_exported: bool,
    pub is_mockable: bool,
    pub location: SourceLocation,
}

/// A type declaration: its name, and where it is.
#[derive(Debug)]
pub struct TypeDecl {
    pub name: String,
    pub location: SourceLocation,
}

/// A constant declaration.
#[derive(Debug)]
pub struct ConstDecl {
    pub name: String,
    pub type_annotation: Option<String>,
    pub is_exported: bool,
}

/// An import of a Sigil module, by its path segments.
#[derive(Debug)]
pub struct ImportDecl {
    pub path_segments: Vec<String>,
}

/// A member named in an extern declaration.
#[derive(Debug)]
pub struct ExternMember {
    pub name: String,
}

/// An extern module, with the members it names, if any.
#[derive(Debug)]
pub struct ExternDecl {
    pub path_segments: Vec<String>,
    pub members: Option<Vec<ExternMember>>,
}

/// A test and its description.
#[derive(Debug)]
pub struct TestDecl {
    pub description: String,
}

/// A top-level declaration.
#[derive(Debug)]
pub enum Declaration {
    Function(FunctionDecl),
    Type(TypeDecl),
    Const(ConstDecl),
    Import(ImportDecl),
    Extern(ExternDecl),
    Test(TestDecl),
}

/// A parsed program.
#[derive(Debug)]
pub struct Program {
    pub declarations: Vec<Declaration>,
    pub location: SourceLocation,
}

/// The type a literal pattern is written at.
#[derive(Debug, Clone, Copy, PartialEq, Eq, Structural)]
pub enum PatternLiteralType {
    Int,
    Float,
    String,
    Char,
    Bool,
    Unit,
}

/// The value of a literal; a float is held by its bits.
#[derive(Debug)]
pub enum LiteralValue {
    Int(i64),
    Float(u64),
    String(String),
    Char(char),
    Bool(bool),
    Unit,
}

/// A literal pattern: the type it is written at and its value.
#[derive(Debug)]
pub struct LiteralPattern {
    pub literal_type: PatternLiteralType,
    pub value: LiteralValue,
}

/// A field of a record pattern, with its own pattern or, in the short
/// form, binding the field's name.
#[derive(Debug)]
pub struct RecordPatternField {
    pub name: String,
    pub pattern: Option<Pattern>,
}

/// A pattern of a match arm.
#[derive(Debug)]
pub enum Pattern {
    Wildcard,
    Identifier(String),
    Literal(LiteralPattern),
    Tuple(Vec<Pattern>),
    /// Leading element patterns, and the name bound to the rest, if any.
    List { patterns: Vec<Pattern>, rest: Option<String> },
    /// A constructor, qualified by the segments of its module path.
    Constructor { path_segments: Vec<String>, name: String, patterns: Vec<Pattern> },
    Record(Vec<RecordPatternField>),
}

/// An expression, as far as diagnostics show it: operators are held by
/// their source text, and forms that diagnostics do not look into are
/// `Other`.
#[derive(Debug)]
pub enum Expr {
    Literal(LiteralValue),
    Identifier(String),
    Unary { operator: String, operand: Box<Expr> },
    Binary { left: Box<Expr>, operator: String, right: Box<Expr> },
    TypeAscription(Box<Expr>),
    FieldAccess { object: Box<Expr>, field: String },
    Application { func: Box<Expr>, args: Vec<Expr> },
    MemberAccess { namespace: Vec<String>, member: String },
    Other,
}

} // verus!
