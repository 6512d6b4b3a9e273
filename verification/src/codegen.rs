//! Code generation for model and tool definitions: source text in, source text
//! out.

pub mod arguments;
pub mod generics;
pub mod ir;
pub mod model_macro;
pub mod schema;
pub mod syntax;
pub mod tool_macro;
pub mod ts;
pub mod validate;
