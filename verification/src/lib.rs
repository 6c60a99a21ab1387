//! GX runtime core: the lexer, the runtime value model, the builtins and
//! helpers of the interpreter, and the pure parts of the language server,
//! each with its contract.

pub mod text;
pub mod lexer;
pub mod value;
pub mod interpreter;
pub mod lsp;
pub mod framing;
