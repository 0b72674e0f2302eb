//! Stochastic gradient descent, with optional momentum, dampening,
//! Nesterov momentum and weight decay.
use vstd::prelude::*;
use crate::fixed::{Fixed, SCALE, spec_add, spec_sub, spec_mul, lemma_zero_facts};
use crate::graph::{Graph, Node};
use crate::optimizer::{
    Optimizer, StepError, params_ok, cache_fits, slots, apply_step, only_params_moved,
    check_params, cache_fits_exec, cache_or_zeros,
};

verus! {

/// The momentum buffer, allocated on the first step.
pub struct SGDCache {
    pub velocity: Option<Vec<Fixed>>,
}

impl Default for SGDCache {
    fn default() -> (r: Self)
        ensures
            r.velocity is None,
    {
        SGDCache { velocity: None }
    }
}

pub struct SGDConfig {
    pub lr: Fixed,
    pub momentum: Fixed,
    pub dampening: Fixed,
    pub weight_decay: Fixed,
    pub nesterov: bool,
    pub maximize: bool,
    pub cache: SGDCache,
}

impl Default for SGDConfig {
    /// `lr = 0.01`, plain descent: no momentum, dampening or weight decay.
    fn default() -> (r: Self)
        ensures
            r.lr.val() == SCALE / 100,
            r.momentum.val() == 0,
            r.dampening.val() == 0,
            r.weight_decay.val() == 0,
            !r.nesterov,
            !r.maximize,
            r.cache.velocity is None,
    {
        SGDConfig {
            lr: Fixed::from_raw(SCALE / 100),
            momentum: Fixed::zero(),
            dampening: Fixed::zero(),
            weight_decay: Fixed::zero(),
            nesterov: false,
            maximize: false,
            cache: SGDCache::default(),
        }
    }
}

/// One parameter's update: the new value and momentum buffer.
///
/// `grad' = grad + weight_decay * value`,
/// `buf = momentum * buf + (1 - dampening) * grad'`, and the step is
/// `lr * (grad' + momentum * buf)` with Nesterov momentum, else `lr * buf`.
pub open spec fn sgd_slot(c: SGDConfig, x: Node, vel: int) -> (int, int) {
    let eg = spec_add(x.grad.val(), spec_mul(x.data.val(), c.weight_decay.val()));
    let vel1 = spec_add(
        spec_mul(c.momentum.val(), vel),
        spec_mul(spec_sub(SCALE as int, c.dampening.val()), eg),
    );
    let d = if c.nesterov {
        spec_add(eg, spec_mul(c.momentum.val(), vel1))
    } else {
        vel1
    };
    (apply_step(x.data.val(), spec_mul(c.lr.val(), d), c.maximize), vel1)
}

pub open spec fn sgd_same_settings(a: SGDConfig, b: SGDConfig) -> bool {
    &&& a.lr == b.lr
    &&& a.momentum == b.momentum
    &&& a.dampening == b.dampening
    &&& a.weight_decay == b.weight_decay
    &&& a.nesterov == b.nesterov
    &&& a.maximize == b.maximize
}

pub open spec fn sgd_slot_done(
    params: Seq<usize>,
    c0: SGDConfig,
    n0: Seq<Node>,
    n1: Seq<Node>,
    vel1: Seq<Fixed>,
    k: int,
) -> bool {
    let r = sgd_slot(c0, n0[params[k] as int], slots(c0.cache.velocity, params.len())[k].val());
    &&& n1[params[k] as int].data.val() == r.0
    &&& vel1[k].val() == r.1
}

/// What one SGD step over `params` does: on success every parameter is
/// updated by `sgd_slot` and the buffer holds the new slots; it fails
/// exactly when the parameters are not distinct nodes of the graph or an
/// allocated buffer has the wrong length, and then nothing changes.
pub open spec fn sgd_outcome(
    params: Seq<usize>,
    c0: SGDConfig,
    c1: SGDConfig,
    n0: Seq<Node>,
    n1: Seq<Node>,
    r: Result<(), StepError>,
) -> bool {
    let n = params.len();
    &&& (r is Ok <==> params_ok(params, n0.len()) && cache_fits(c0.cache.velocity, n))
    &&& (r == Err::<(), StepError>(StepError::InvalidParameters) <==> !params_ok(params, n0.len()))
    &&& r is Err ==> c1 == c0 && n1 == n0
    &&& r is Ok ==> {
        &&& sgd_same_settings(c0, c1)
        &&& c1.cache.velocity is Some
        &&& c1.cache.velocity->Some_0@.len() == n
        &&& only_params_moved(n0, n1, params)
        &&& forall|k: int| 0 <= k < n ==> #[trigger] sgd_slot_done(params, c0, n0, n1,
            c1.cache.velocity->Some_0@, k)
    }
}

proof fn lemma_sgd_zero_slot(c: SGDConfig, x: Node, vel: int)
    requires
        x.grad.val() == 0,
        c.weight_decay.val() == 0,
        vel == 0,
    ensures
        sgd_slot(c, x, vel).0 == x.data.val(),
        sgd_slot(c, x, vel).1 == 0,
{
    lemma_zero_facts(x.data.val());
    lemma_zero_facts(c.momentum.val());
    lemma_zero_facts(c.lr.val());
    lemma_zero_facts(spec_sub(SCALE as int, c.dampening.val()));
}

/// With every parameter's gradient zero, no weight decay and a momentum
/// buffer that is zero (or not yet allocated), an SGD step leaves every value
/// in the graph where it was, and the buffer stays zero.
pub proof fn lemma_sgd_zero_grad_keeps_values(
    params: Seq<usize>,
    c0: SGDConfig,
    c1: SGDConfig,
    n0: Seq<Node>,
    n1: Seq<Node>,
    r: Result<(), StepError>,
)
    requires
        sgd_outcome(params, c0, c1, n0, n1, r),
        r is Ok,
        c0.weight_decay.val() == 0,
        forall|k: int| 0 <= k < params.len() ==> #[trigger] n0[params[k] as int].grad.val() == 0,
        forall|k: int| 0 <= k < params.len() ==> #[trigger] slots(c0.cache.velocity, params.len())[k].val() == 0,
    ensures
        n1.len() == n0.len(),
        forall|j: int| 0 <= j < n0.len() ==> #[trigger] n1[j].data == n0[j].data,
        forall|k: int| 0 <= k < params.len() ==> #[trigger] c1.cache.velocity->Some_0@[k].val() == 0,
{
    assert forall|j: int| 0 <= j < n0.len() implies #[trigger] n1[j].data == n0[j].data by {
        if exists|k: int| 0 <= k < params.len() && params[k] == j {
            let k = choose|k: int| 0 <= k < params.len() && params[k] == j;
            assert(sgd_slot_done(params, c0, n0, n1, c1.cache.velocity->Some_0@, k));
            lemma_sgd_zero_slot(c0, n0[j], slots(c0.cache.velocity, params.len())[k].val());
        }
    }
    assert forall|k: int| 0 <= k < params.len() implies #[trigger] c1.cache.velocity->Some_0@[k].val() == 0 by {
        assert(sgd_slot_done(params, c0, n0, n1, c1.cache.velocity->Some_0@, k));
        lemma_sgd_zero_slot(c0, n0[params[k] as int], slots(c0.cache.velocity, params.len())[k].val());
    }
}

fn sgd_step(params: &Vec<usize>, config: &mut SGDConfig, graph: &mut Graph) -> (r: Result<
    (),
    StepError,
>)
    requires
        old(graph).wf(),
    ensures
        final(graph).wf(),
        sgd_outcome(params@, *old(config), *final(config), old(graph)@, final(graph)@, r),
{
    let n = params.len();
    if !check_params(params, graph.len()) {
        return Err(StepError::InvalidParameters);
    }
    if !cache_fits_exec(&config.cache.velocity, n) {
        return Err(StepError::CacheMismatch);
    }
    let ghost c0 = *config;
    let ghost g0 = graph@;
    let mut taken: Option<Vec<Fixed>> = None;
    std::mem::swap(&mut taken, &mut config.cache.velocity);
    let mut vel = cache_or_zeros(taken, n);
    let one_minus_dampening = Fixed::one().sub(config.dampening);
    let mut k: usize = 0;
    while k < n
        invariant
            n == params@.len(),
            params_ok(params@, g0.len()),
            sgd_same_settings(c0, *config),
            one_minus_dampening.val() == spec_sub(SCALE as int, c0.dampening.val()),
            graph.wf(),
            k <= n,
            vel@.len() == n,
            graph@.len() == g0.len(),
            forall|j: int| 0 <= j < g0.len() ==> {
                &&& (#[trigger] graph@[j]).grad == g0[j].grad
                &&& graph@[j].requires_grad == g0[j].requires_grad
                &&& graph@[j].op == g0[j].op
            },
            forall|j: int|
                0 <= j < g0.len() && (forall|i: int| 0 <= i < k ==> params@[i] != j)
                    ==> #[trigger] graph@[j] == g0[j],
            forall|i: int| k <= i < n ==> #[trigger] vel@[i] == slots(c0.cache.velocity, n as nat)[i],
            forall|i: int| 0 <= i < k ==> #[trigger] sgd_slot_done(params@, c0, g0, graph@, vel@, i),
        decreases n - k,
    {
        let id = params[k];
        proof {
            assert(params@[k as int] < g0.len());
            assert forall|i: int| 0 <= i < k implies params@[i] != id by {
                assert(params@[i] != params@[k as int]);
            }
        }
        let x = graph.node(id);
        assert(x == g0[id as int]);
        let v = x.data;
        let eg = x.grad.add(v.mul(config.weight_decay));
        let vel1 = config.momentum.mul(vel[k]).add(one_minus_dampening.mul(eg));
        let d = if config.nesterov {
            eg.add(config.momentum.mul(vel1))
        } else {
            vel1
        };
        let step = config.lr.mul(d);
        let nv = if config.maximize {
            v.add(step)
        } else {
            v.sub(step)
        };
        let ghost prev_graph = graph@;
        let ghost prev_vel = vel@;
        vel.set(k, vel1);
        graph.set_data(id, nv);
        proof {
            assert forall|i: int| 0 <= i < k + 1 implies #[trigger] sgd_slot_done(
                params@, c0, g0, graph@, vel@, i) by {
                if i < k {
                    assert(sgd_slot_done(params@, c0, g0, prev_graph, prev_vel, i));
                    assert(params@[i] != id);
                }
            }
        }
        k += 1;
    }
    config.cache.velocity = Some(vel);
    proof {
        assert forall|i: int| 0 <= i < n implies #[trigger] sgd_slot_done(params@, c0, g0, graph@,
            config.cache.velocity->Some_0@, i) by {
            assert(sgd_slot_done(params@, c0, g0, graph@, vel@, i));
        }
    }
    Ok(())
}

impl Optimizer {
    /// One SGD step over the parameters; any other optimizer is left alone.
    pub fn sgd(&mut self, graph: &mut Graph) -> (r: Result<(), StepError>)
        requires
            old(graph).wf(),
        ensures
            final(graph).wf(),
            match *old(self) {
                Optimizer::SGD(p0, c0) => match *final(self) {
                    Optimizer::SGD(p1, c1) => p1@ == p0@ && sgd_outcome(p0@, c0, c1, old(graph)@, final(graph)@, r),
                    _ => false,
                },
                _ => *final(self) == *old(self) && final(graph)@ == old(graph)@ && r is Ok,
            },
    {
        match self {
            Optimizer::SGD(params, config) => sgd_step(params, config, graph),
            _ => Ok(()),
        }
    }
}

} // verus!
