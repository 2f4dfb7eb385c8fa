/// Append-only storage with typed handles.
pub mod arena;
/// Syntax trees of schema modules, as a parser hands them over.
pub mod ast;
/// The resolved schema: compounds, enums and registry bindings behind arena handles.
pub mod schema;
/// Acyclicity of static `extend` chains.
pub mod inherit;
/// Qualified names and the rewriting of `root` / `super` references.
pub mod names;
/// Resolution of a set of modules into a schema.
pub mod resolve;
/// Checking value trees against a resolved schema.
pub mod validate;
