//! A verified recursive-descent parser for an eight-symbol instruction
//! language. Source text built from `>`, `<`, `+`, `-`, `.`, `,` and
//! bracket-delimited loops is turned into a tree of [`Instruction`] nodes;
//! malformed input is rejected with a structured [`ParseError`].

mod ast;
mod grammar;
mod parser;

pub use ast::BrainfuckProgram;
pub use ast::Instruction;
pub use ast::inst_source;
pub use ast::insts_source;
pub use grammar::balanced;
pub use grammar::depth_at;
pub use grammar::is_leaf_symbol;
pub use grammar::is_symbol;
pub use grammar::lemma_foreign_char_not_balanced;
pub use grammar::run_clean;
pub use parser::ParseError;
pub use parser::parse;
pub use parser::parse_instruction;
pub use parser::parse_loop;
