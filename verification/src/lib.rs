pub mod ast;
pub mod context;
pub mod decimal;
pub mod eval;
pub mod functions;
pub mod laws;
pub mod ops;
pub mod value;
