//! Core of a query-language engine: the parsed document model, the
//! rule-based validation framework with the lone-anonymous-operation rule,
//! input-object coercion and introspection of defaults, the memoizing type
//! registry with introspection, the choice of the operation to execute, and
//! null propagation over resolved fields.
pub mod ast;
pub mod validation;
pub mod lone_anonymous_operation;
pub mod input;
pub mod registry;
pub mod propagation;
pub mod value;
pub mod executor;
