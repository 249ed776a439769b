//! A verified assembler for the Hack 16-bit computer architecture.
//!
//! The crate translates assembly source text into 16-bit machine words in
//! three stages: a parser turns source lines into typed instructions, a
//! label pass binds label names to program-counter values, and an encoder
//! resolves address symbols and packs compute instructions into their fixed
//! bit fields.

pub use code::add_entry_for;
pub use code::render_word;
pub use code::translate;
pub use code::translate_a_instruction;
pub use code::translate_c_instruction;
pub use error::AsmError;
pub use parser::needs_parsing;
pub use parser::parse;
pub use parser::remove_trailing_comments;
pub use parser::Instruction;
pub use symbol::Labels;
pub use symbol::Variables;

mod code;
mod error;
mod parser;
mod symbol;
