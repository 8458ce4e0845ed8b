pub mod ast;
pub mod escape;
pub mod generate;
pub mod interpret;
pub mod laws;
pub mod recover;
pub mod reload;
pub mod runtime;

pub use crate::escape::escape_to_string;
pub use crate::generate::expand;
pub use crate::interpret::expand_runtime_main;
pub use crate::runtime::{expand_runtime, format_str, generate};
