pub mod utils;
pub mod error;
pub mod lox;
pub mod frontend;
pub mod backend;
