//! Generates the declaration of a tagged error union from a terse list of
//! variants, each naming the error type it wraps.

pub mod assemble;
pub mod error;
pub mod generator;
pub mod grammar;
pub mod laws;
pub mod parser;
pub mod splitting;
pub mod synth;
pub mod table;
pub mod text;

pub use assemble::assemble_declaration;
pub use error::GenerationError;
pub use generator::{confirm_declaration, make_result_error};
pub use parser::idents_from_input;
pub use synth::gen_components;
pub use table::{VariantSpec, VariantTable};
