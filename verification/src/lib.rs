//! Core logic of the Sigil compiler toolchain: match-coverage spaces,
//! integer range sets, project layout rules, and TypeScript code generation.

pub mod int_ranges;
pub mod atoms;
pub mod space;
pub mod normal_form;
pub mod space_ops;
pub mod arith;
pub mod refine;
pub mod json;
pub mod paths;
pub mod project;
pub mod ast;
pub mod surface_form;
pub mod codegen;
pub mod commands;
pub mod module_graph;
pub mod summaries;
pub mod semantics;
pub mod difference_meaning;
pub mod pattern_space;
pub mod guards;
pub mod arm_facts;
pub mod match_coverage;
pub mod type_error;
