use vstd::prelude::*;

use crate::backend::interpreter::callable::{Callable, NativeFn, SFun};
use crate::frontend::lexer::token::{LitVal, SLit};

verus! {

/// The clock: a function of no arguments that asks the host for the time.
pub fn clock() -> (r: LitVal)
    ensures
        r@ == SLit::Fun(Box::new(SFun::Native { id: 0, arity: 0 })),
{
    LitVal::Callable(Box::new(Callable::Native(NativeFn { id: 0, arity: 0 })))
}

} // verus!
