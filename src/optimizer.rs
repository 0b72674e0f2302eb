//! Optimizers: each pairs an ordered list of parameter nodes with its
//! configuration and per-parameter caches, indexed by position in that list.
use vstd::prelude::*;
use crate::fixed::{Fixed, spec_add, spec_sub};
use crate::graph::{Graph, Node};

pub mod rmsprop;
pub mod sgd;


use crate::optimizer::rmsprop::{RMSPropConfig, rms_outcome};
use crate::optimizer::sgd::{SGDConfig, sgd_outcome};


verus! {

pub enum Optimizer {
    SGD(Vec<usize>, SGDConfig),
    RMSProp(Vec<usize>, RMSPropConfig),
}

/// Why a step was refused; nothing is changed when one is.
#[derive(Clone, Copy, Debug, PartialEq, Eq, Structural)]
pub enum StepError {
    /// A parameter index lies outside the graph, or one appears twice.
    InvalidParameters,
    /// A cache was allocated for a parameter list of another length.
    CacheMismatch,
}

/// Every parameter is a node of the graph, and none is listed twice.
pub open spec fn params_ok(params: Seq<usize>, len: nat) -> bool {
    &&& forall|k: int| 0 <= k < params.len() ==> #[trigger] params[k] < len
    &&& forall|k1: int, k2: int|
        0 <= k1 < params.len() && 0 <= k2 < params.len() && k1 != k2 ==> #[trigger] params[k1]
            != #[trigger] params[k2]
}

/// A cache is either not yet allocated or has one slot per parameter.
pub open spec fn cache_fits(c: Option<Vec<Fixed>>, n: nat) -> bool {
    match c {
        Some(v) => v@.len() == n,
        None => true,
    }
}

/// The slots of a cache, zero-filled when it is not yet allocated.
pub open spec fn slots(c: Option<Vec<Fixed>>, n: nat) -> Seq<Fixed> {
    match c {
        Some(v) => v@,
        None => Seq::new(n, |i: int| Fixed { raw: 0 }),
    }
}

/// A step moves `v` by `step`: down when minimising, up when maximising.
pub open spec fn apply_step(v: int, step: int, maximize: bool) -> int {
    if maximize {
        spec_add(v, step)
    } else {
        spec_sub(v, step)
    }
}

/// The two graphs agree but for the values of the listed parameters.
pub open spec fn only_params_moved(x: Seq<Node>, y: Seq<Node>, params: Seq<usize>) -> bool {
    &&& x.len() == y.len()
    &&& forall|j: int| 0 <= j < x.len() ==> {
        &&& (#[trigger] y[j]).grad == x[j].grad
        &&& y[j].requires_grad == x[j].requires_grad
        &&& y[j].op == x[j].op
    }
    &&& forall|j: int|
        0 <= j < x.len() && (forall|k: int| 0 <= k < params.len() ==> params[k] != j)
            ==> #[trigger] y[j] == x[j]
}

/// The outcome of a step with the reported positions dropped.
pub open spec fn unit_result(r: Result<Vec<usize>, StepError>) -> Result<(), StepError> {
    match r {
        Ok(_) => Ok(()),
        Err(e) => Err(e),
    }
}

pub(crate) fn check_params(params: &Vec<usize>, len: usize) -> (r: bool)
    ensures
        r == params_ok(params@, len as nat),
{
    let mut seen: Vec<bool> = Vec::new();
    let mut j: usize = 0;
    while j < len
        invariant
            j <= len,
            seen@.len() == j,
            forall|x: int| 0 <= x < j ==> !seen@[x],
        decreases len - j,
    {
        seen.push(false);
        j += 1;
    }
    let mut k: usize = 0;
    while k < params.len()
        invariant
            k <= params@.len(),
            seen@.len() == len,
            forall|i: int| 0 <= i < k ==> #[trigger] params@[i] < len,
            forall|i1: int, i2: int|
                0 <= i1 < k && 0 <= i2 < k && i1 != i2 ==> #[trigger] params@[i1]
                    != #[trigger] params@[i2],
            forall|x: int| 0 <= x < len ==> (#[trigger] seen@[x] <==> exists|i: int|
                0 <= i < k && params@[i] == x),
        decreases params@.len() - k,
    {
        let p = params[k];
        if p >= len {
            return false;
        }
        if seen[p] {
            let ghost i = choose|i: int| 0 <= i < k && params@[i] == p;
            assert(params@[i] == params@[k as int]);
            return false;
        }
        seen.set(p, true);
        k += 1;
    }
    true
}

pub(crate) fn cache_fits_exec(c: &Option<Vec<Fixed>>, n: usize) -> (r: bool)
    ensures
        r == cache_fits(*c, n as nat),
{
    match c {
        Some(v) => v.len() == n,
        None => true,
    }
}

/// The slots of a cache for `n` parameters, allocated zero-filled when absent.
pub(crate) fn cache_or_zeros(c: Option<Vec<Fixed>>, n: usize) -> (r: Vec<Fixed>)
    requires
        cache_fits(c, n as nat),
    ensures
        r@ == slots(c, n as nat),
{
    match c {
        Some(v) => v,
        None => {
            let mut v: Vec<Fixed> = Vec::new();
            let mut i: usize = 0;
            while i < n
                invariant
                    i <= n,
                    v@.len() == i,
                    forall|x: int| 0 <= x < i ==> v@[x].raw == 0,
                decreases n - i,
            {
                v.push(Fixed::zero());
                i += 1;
            }
            assert(v@ =~= slots(c, n as nat));
            v
        },
    }
}

impl Optimizer {
    pub open spec fn params(&self) -> Seq<usize> {
        match self {
            Optimizer::SGD(p, _) => p@,
            Optimizer::RMSProp(p, _) => p@,
        }
    }

    /// Resets the gradient of every parameter to zero.
    pub fn zero_grad(&self, graph: &mut Graph)
        requires
            old(graph).wf(),
        ensures
            final(graph).wf(),
            final(graph)@.len() == old(graph)@.len(),
            forall|j: int| 0 <= j < old(graph)@.len() ==> {
                &&& (#[trigger] final(graph)@[j]).data == old(graph)@[j].data
                &&& final(graph)@[j].requires_grad == old(graph)@[j].requires_grad
                &&& final(graph)@[j].op == old(graph)@[j].op
                &&& final(graph)@[j].grad == if exists|k: int|
                    0 <= k < self.params().len() && self.params()[k] == j {
                    Fixed { raw: 0 }
                } else {
                    old(graph)@[j].grad
                }
            },
    {
        let params = match self {
            Optimizer::SGD(p, _) => p,
            Optimizer::RMSProp(p, _) => p,
        };
        let ghost g0 = graph@;
        let mut k: usize = 0;
        while k < params.len()
            invariant
                params@ == self.params(),
                k <= params@.len(),
                graph.wf(),
                graph@.len() == g0.len(),
                forall|j: int| 0 <= j < g0.len() ==> {
                    &&& (#[trigger] graph@[j]).data == g0[j].data
                    &&& graph@[j].requires_grad == g0[j].requires_grad
                    &&& graph@[j].op == g0[j].op
                    &&& graph@[j].grad == if exists|i: int| 0 <= i < k && params@[i] == j {
                        Fixed { raw: 0 }
                    } else {
                        g0[j].grad
                    }
                },
            decreases params@.len() - k,
        {
            let p = params[k];
            if p < graph.len() {
                graph.clear_grad(p);
            }
            proof {
                assert forall|j: int| 0 <= j < g0.len() implies (#[trigger] graph@[j]).grad == if exists|i: int|
                    0 <= i < k + 1 && params@[i] == j {
                    Fixed { raw: 0 }
                } else {
                    g0[j].grad
                } by {
                    if j == p {
                        assert(params@[k as int] == j);
                    } else if exists|i: int| 0 <= i < k + 1 && params@[i] == j {
                        let i = choose|i: int| 0 <= i < k + 1 && params@[i] == j;
                        assert(i < k);
                    }
                }
            }
            k += 1;
        }
    }
    /// One step of whichever optimizer this is. For RMSProp it returns the
    /// positions whose update was undefined; for SGD, none.
    pub fn step(&mut self, graph: &mut Graph) -> (r: Result<Vec<usize>, StepError>)
        requires
            old(graph).wf(),
        ensures
            final(graph).wf(),
            match *old(self) {
                Optimizer::SGD(p0, c0) => match *final(self) {
                    Optimizer::SGD(p1, c1) => {
                        &&& p1@ == p0@
                        &&& sgd_outcome(p0@, c0, c1, old(graph)@, final(graph)@, unit_result(r))
                        &&& r is Ok ==> r->Ok_0@.len() == 0
                    },
                    _ => false,
                },
                Optimizer::RMSProp(p0, c0) => match *final(self) {
                    Optimizer::RMSProp(p1, c1) => p1@ == p0@ && rms_outcome(p0@, c0, c1, old(graph)@, final(graph)@, r),
                    _ => false,
                },
            },
    {
        match self {
            Optimizer::SGD(_, _) => match self.sgd(graph) {
                Ok(()) => Ok(Vec::new()),
                Err(e) => Err(e),
            },
            Optimizer::RMSProp(_, _) => self.rmsprop(graph),
        }
    }
}

} // verus!
