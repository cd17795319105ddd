pub mod interpreter;
pub mod native_fn;
pub mod utils;
