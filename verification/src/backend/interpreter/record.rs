use vstd::prelude::*;

use crate::backend::interpreter::semantics::{HostReq, SReq};
use crate::frontend::lexer::token::{LitVal, SLit};

verus! {

/// The model of a record of requests and answers.
pub open spec fn trace_view(t: Seq<(HostReq, LitVal)>) -> Seq<(SReq, SLit)> {
    Seq::new(t.len(), |i: int| (t[i].0@, t[i].1@))
}

/// The answers of a record, in order.
pub open spec fn answers(t: Seq<(HostReq, LitVal)>) -> Seq<SLit> {
    Seq::new(t.len(), |i: int| t[i].1@)
}

/// `b` begins with `a`.
pub open spec fn extends(a: Seq<SLit>, b: Seq<SLit>) -> bool {
    a.len() <= b.len() && b.subrange(0, a.len() as int) == a
}

pub broadcast proof fn lemma_extends_trans(a: Seq<SLit>, b: Seq<SLit>, c: Seq<SLit>)
    requires
        #[trigger] extends(a, b),
        #[trigger] extends(b, c),
    ensures
        extends(a, c),
{
    assert forall|i: int| 0 <= i < a.len() implies c.subrange(0, a.len() as int)[i] == a[i] by {
        assert(c.subrange(0, b.len() as int)[i] == b[i]);
        assert(b.subrange(0, a.len() as int)[i] == a[i]);
    }
    assert(c.subrange(0, a.len() as int) =~= a);
}

/// `t1` is `t0` followed by requests of which each answer is one `host` can give.
pub open spec fn grows<F: Fn(HostReq) -> LitVal>(host: &F, t0: Seq<(HostReq, LitVal)>, t1: Seq<(HostReq, LitVal)>) -> bool {
    &&& t0.len() <= t1.len()
    &&& t1.subrange(0, t0.len() as int) == t0
    &&& extends(answers(t0), answers(t1))
    &&& forall|i: int| t0.len() <= i < t1.len() ==> host.ensures((t1[i].0,), t1[i].1)
}

pub broadcast proof fn lemma_grows_trans<F: Fn(HostReq) -> LitVal>(host: &F, a: Seq<(HostReq, LitVal)>, b: Seq<(HostReq, LitVal)>, c: Seq<(HostReq, LitVal)>)
    requires
        #[trigger] grows(host, a, b),
        #[trigger] grows(host, b, c),
    ensures
        grows(host, a, c),
{
    broadcast use lemma_extends_trans;
    assert(c.subrange(0, a.len() as int) =~= c.subrange(0, b.len() as int).subrange(0, a.len() as int));
    assert forall|i: int| a.len() <= i < c.len() implies host.ensures((c[i].0,), c[i].1) by {
        if i < b.len() {
            assert(c[i] == c.subrange(0, b.len() as int)[i]);
        }
    }
}

pub proof fn lemma_grows_refl<F: Fn(HostReq) -> LitVal>(host: &F, t: Seq<(HostReq, LitVal)>)
    ensures
        grows(host, t, t),
{
    assert(t.subrange(0, t.len() as int) =~= t);
    assert(answers(t).subrange(0, answers(t).len() as int) =~= answers(t));
}

} // verus!
