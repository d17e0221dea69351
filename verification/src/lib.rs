//! A small string template engine: `{name}` variables with dot paths and
//! filters, `{#if}` / `{:else}` conditionals, `{#each}` loops and `{{` escapes.
pub mod text;
pub mod value;
pub mod error;
pub mod lexer;
pub mod parser;
pub mod render;
pub mod template;
pub mod laws;

pub use error::{ParseError, RenderError};
pub use template::Template;
pub use value::{Number, Value, ValueMap};
