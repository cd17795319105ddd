pub mod binary_op;
pub mod validator;
