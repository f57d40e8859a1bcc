//! A small compiler for an eight-symbol tape-machine language: a parser that
//! builds a nested token tree, a peephole optimizer over that tree, a code
//! generator that lowers the tree to C source text, and a direct interpreter
//! used to validate that the generated code and the token tree agree.

pub mod codegen;
pub mod equiv;
pub mod error;
pub mod interp;
pub mod optimizer;
pub mod parser;
pub mod stream;
pub mod text;
pub mod token;

pub use codegen::{brainfuck_codegen, Code, CodeGen, Function, Import, Scope};
pub use error::BfError;
pub use interp::{add, brainfuck_interpreter, RunStatus, TAPE_LEN};
pub use optimizer::brainfuck_optimizer;
pub use parser::brainfuck_parser;
pub use text::prettify_memory;
pub use token::Token;
