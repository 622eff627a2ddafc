pub mod driver;
pub mod elab;
pub mod errors;
pub mod eval;
pub mod lexer;
pub mod lines;
pub mod parse;
pub mod pretty;
pub mod readback;
pub mod readterm;
pub mod soundness;
pub mod syntax;
pub mod text;

pub use driver::run_program;
pub use errors::Error;
