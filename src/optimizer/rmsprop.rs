//! RMSProp: steps scaled by a moving average of squared gradients.
use vstd::prelude::*;
use crate::fixed::{Fixed, SCALE, spec_add, spec_sub, spec_mul, spec_div, spec_sqrt, lemma_zero_facts};
use crate::graph::{Graph, Node};
use crate::optimizer::{
    Optimizer, StepError, params_ok, cache_fits, slots, apply_step, only_params_moved,
    check_params, cache_fits_exec, cache_or_zeros,
};

verus! {

/// Per-parameter caches, allocated on the first step.
pub struct RMSPropCache {
    pub prev_gradients: Option<Vec<Fixed>>,
    pub moving_avg: Option<Vec<Fixed>>,
    pub avg_gradients: Option<Vec<Fixed>>,
}

impl Default for RMSPropCache {
    fn default() -> (r: Self)
        ensures
            r.prev_gradients is None,
            r.moving_avg is None,
            r.avg_gradients is None,
    {
        RMSPropCache { prev_gradients: None, moving_avg: None, avg_gradients: None }
    }
}

pub struct RMSPropConfig {
    pub lr: Fixed,
    pub alpha: Fixed,
    pub eps: Fixed,
    pub momentum: Fixed,
    pub weight_decay: Fixed,
    pub centered: bool,
    pub maximize: bool,
    pub cache: RMSPropCache,
}

impl Default for RMSPropConfig {
    /// `lr = 0.01`, `alpha = 0.99`, `eps = 1e-8`, no momentum, no weight
    /// decay, not centered, minimising, caches not yet allocated.
    fn default() -> (r: Self)
        ensures
            r.lr.val() == SCALE / 100,
            r.alpha.val() == SCALE / 100 * 99,
            r.eps.val() == SCALE / 100_000_000,
            r.momentum.val() == 0,
            r.weight_decay.val() == 0,
            !r.centered,
            !r.maximize,
            r.cache.prev_gradients is None,
            r.cache.moving_avg is None,
            r.cache.avg_gradients is None,
    {
        RMSPropConfig {
            lr: Fixed::from_raw(SCALE / 100),
            alpha: Fixed::from_raw(SCALE / 100 * 99),
            eps: Fixed::from_raw(SCALE / 100_000_000),
            momentum: Fixed::zero(),
            weight_decay: Fixed::zero(),
            centered: false,
            maximize: false,
            cache: RMSPropCache::default(),
        }
    }
}

/// The gradient with weight decay: `grad + weight_decay * value`.
pub open spec fn rms_effective_grad(c: RMSPropConfig, v: int, g: int) -> int {
    spec_add(g, spec_mul(v, c.weight_decay.val()))
}

/// `alpha * avg + (1 - alpha) * grad^2`.
pub open spec fn rms_moving_avg(c: RMSPropConfig, avg: int, eg: int) -> int {
    spec_add(spec_mul(c.alpha.val(), avg), spec_mul(spec_sub(SCALE as int, c.alpha.val()), spec_mul(eg, eg)))
}

/// When centered, `alpha * avg_grad + (1 - alpha) * grad`; else unchanged.
pub open spec fn rms_avg_grad(c: RMSPropConfig, ag: int, eg: int) -> int {
    if c.centered {
        spec_add(spec_mul(c.alpha.val(), ag), spec_mul(spec_sub(SCALE as int, c.alpha.val()), eg))
    } else {
        ag
    }
}

/// The second moment, or when centered the variance estimate
/// `avg - avg_grad^2`.
pub open spec fn rms_variance(c: RMSPropConfig, avg: int, ag: int) -> int {
    if c.centered {
        spec_sub(avg, spec_mul(ag, ag))
    } else {
        avg
    }
}

/// `momentum * buf + grad / (sqrt(variance) + eps)`, for a variance that is
/// not negative.
pub open spec fn rms_buffer(c: RMSPropConfig, buf: int, eg: int, var: int) -> int {
    spec_add(
        spec_mul(c.momentum.val(), buf),
        spec_div(eg, spec_add(spec_sqrt(var as nat), c.eps.val())),
    )
}

/// One parameter's update from its node and cache slots: the new value,
/// moving average, average gradient and momentum buffer, and whether the
/// update was defined. A negative variance estimate has no square root:
/// the value and momentum buffer then stay, and the update is reported.
pub open spec fn rms_slot(c: RMSPropConfig, x: Node, avg: int, ag: int, buf: int) -> (
    int,
    int,
    int,
    int,
    bool,
) {
    let eg = rms_effective_grad(c, x.data.val(), x.grad.val());
    let avg1 = rms_moving_avg(c, avg, eg);
    let ag1 = rms_avg_grad(c, ag, eg);
    let var = rms_variance(c, avg1, ag1);
    if var >= 0 {
        let buf1 = rms_buffer(c, buf, eg, var);
        (apply_step(x.data.val(), spec_mul(c.lr.val(), buf1), c.maximize), avg1, ag1, buf1, true)
    } else {
        (x.data.val(), avg1, ag1, buf, false)
    }
}

pub open spec fn same_settings(a: RMSPropConfig, b: RMSPropConfig) -> bool {
    &&& a.lr == b.lr
    &&& a.alpha == b.alpha
    &&& a.eps == b.eps
    &&& a.momentum == b.momentum
    &&& a.weight_decay == b.weight_decay
    &&& a.centered == b.centered
    &&& a.maximize == b.maximize
}

/// The step succeeds exactly when the parameters are distinct nodes of the
/// graph and every allocated cache has one slot per parameter.
pub open spec fn rms_can_step(params: Seq<usize>, c: RMSPropConfig, nodes: Seq<Node>) -> bool {
    &&& params_ok(params, nodes.len())
    &&& cache_fits(c.cache.prev_gradients, params.len())
    &&& cache_fits(c.cache.moving_avg, params.len())
    &&& cache_fits(c.cache.avg_gradients, params.len())
}

/// Parameter `k` has been updated from `n0` and the old caches of `c0`.
pub open spec fn rms_slot_done(
    params: Seq<usize>,
    c0: RMSPropConfig,
    n0: Seq<Node>,
    n1: Seq<Node>,
    avg1: Seq<Fixed>,
    ag1: Seq<Fixed>,
    buf1: Seq<Fixed>,
    flagged: Seq<usize>,
    k: int,
) -> bool {
    let n = params.len();
    let r = rms_slot(
        c0,
        n0[params[k] as int],
        slots(c0.cache.moving_avg, n)[k].val(),
        slots(c0.cache.avg_gradients, n)[k].val(),
        slots(c0.cache.prev_gradients, n)[k].val(),
    );
    &&& n1[params[k] as int].data.val() == r.0
    &&& avg1[k].val() == r.1
    &&& ag1[k].val() == r.2
    &&& buf1[k].val() == r.3
    &&& (flagged.contains(k as usize) <==> !r.4)
}

/// What one RMSProp step over `params` does: on success every parameter is
/// updated by `rms_slot`, the caches hold the new slots, and the positions
/// whose update was undefined are returned; on failure nothing changes.
pub open spec fn rms_outcome(
    params: Seq<usize>,
    c0: RMSPropConfig,
    c1: RMSPropConfig,
    n0: Seq<Node>,
    n1: Seq<Node>,
    r: Result<Vec<usize>, StepError>,
) -> bool {
    let n = params.len();
    &&& (r is Ok <==> rms_can_step(params, c0, n0))
    &&& (r == Err::<Vec<usize>, StepError>(StepError::InvalidParameters) <==> !params_ok(params, n0.len()))
    &&& r is Err ==> c1 == c0 && n1 == n0
    &&& r is Ok ==> {
        &&& same_settings(c0, c1)
        &&& c1.cache.prev_gradients is Some
        &&& c1.cache.moving_avg is Some
        &&& c1.cache.avg_gradients is Some
        &&& c1.cache.prev_gradients->Some_0@.len() == n
        &&& c1.cache.moving_avg->Some_0@.len() == n
        &&& c1.cache.avg_gradients->Some_0@.len() == n
        &&& only_params_moved(n0, n1, params)
        &&& forall|i: int| 0 <= i < r->Ok_0@.len() ==> #[trigger] r->Ok_0@[i] < n
        &&& forall|k: int| 0 <= k < n ==> #[trigger] rms_slot_done(params, c0, n0, n1,
            c1.cache.moving_avg->Some_0@, c1.cache.avg_gradients->Some_0@,
            c1.cache.prev_gradients->Some_0@, r->Ok_0@, k)
    }
}

/// With every parameter's gradient zero and no weight decay, an RMSProp step
/// still decays its averages: each moving average becomes `alpha` times
/// itself, and so does each average gradient when centered.
pub proof fn lemma_rmsprop_zero_grad_decays(
    params: Seq<usize>,
    c0: RMSPropConfig,
    c1: RMSPropConfig,
    n0: Seq<Node>,
    n1: Seq<Node>,
    r: Result<Vec<usize>, StepError>,
)
    requires
        rms_outcome(params, c0, c1, n0, n1, r),
        r is Ok,
        c0.weight_decay.val() == 0,
        forall|k: int| 0 <= k < params.len() ==> #[trigger] n0[params[k] as int].grad.val() == 0,
    ensures
        forall|k: int| 0 <= k < params.len() ==> #[trigger] c1.cache.moving_avg->Some_0@[k].val()
            == spec_mul(c0.alpha.val(), slots(c0.cache.moving_avg, params.len())[k].val()),
        c0.centered ==> forall|k: int| 0 <= k < params.len() ==> #[trigger] c1.cache.avg_gradients->Some_0@[k].val()
            == spec_mul(c0.alpha.val(), slots(c0.cache.avg_gradients, params.len())[k].val()),
{
    assert forall|k: int| 0 <= k < params.len() implies {
        &&& #[trigger] c1.cache.moving_avg->Some_0@[k].val() == spec_mul(
            c0.alpha.val(), slots(c0.cache.moving_avg, params.len())[k].val())
        &&& c0.centered ==> c1.cache.avg_gradients->Some_0@[k].val() == spec_mul(
            c0.alpha.val(), slots(c0.cache.avg_gradients, params.len())[k].val())
    } by {
        assert(rms_slot_done(params, c0, n0, n1, c1.cache.moving_avg->Some_0@,
            c1.cache.avg_gradients->Some_0@, c1.cache.prev_gradients->Some_0@, r->Ok_0@, k));
        let x = n0[params[k] as int];
        assert(x.grad.val() == 0);
        lemma_zero_facts(x.data.val());
        lemma_zero_facts(spec_sub(SCALE as int, c0.alpha.val()));
        lemma_zero_facts(spec_mul(c0.alpha.val(), slots(c0.cache.moving_avg, params.len())[k].val()));
        lemma_zero_facts(spec_mul(c0.alpha.val(), slots(c0.cache.avg_gradients, params.len())[k].val()));
    }
    if c0.centered {
        assert forall|k: int| 0 <= k < params.len() implies #[trigger] c1.cache.avg_gradients->Some_0@[k].val()
            == spec_mul(c0.alpha.val(), slots(c0.cache.avg_gradients, params.len())[k].val()) by {
            assert(c1.cache.moving_avg->Some_0@[k].val() == spec_mul(
                c0.alpha.val(), slots(c0.cache.moving_avg, params.len())[k].val()));
        }
    }
}

#[verifier::rlimit(40)]
fn rmsprop_step(params: &Vec<usize>, config: &mut RMSPropConfig, graph: &mut Graph) -> (r: Result<
    Vec<usize>,
    StepError,
>)
    requires
        old(graph).wf(),
    ensures
        final(graph).wf(),
        rms_outcome(params@, *old(config), *final(config), old(graph)@, final(graph)@, r),
{
    let n = params.len();
    if !check_params(params, graph.len()) {
        return Err(StepError::InvalidParameters);
    }
    if !cache_fits_exec(&config.cache.prev_gradients, n) || !cache_fits_exec(
        &config.cache.moving_avg,
        n,
    ) || !cache_fits_exec(&config.cache.avg_gradients, n) {
        return Err(StepError::CacheMismatch);
    }
    let ghost c0 = *config;
    let ghost g0 = graph@;
    let mut taken: Option<Vec<Fixed>> = None;
    std::mem::swap(&mut taken, &mut config.cache.prev_gradients);
    let mut buf = cache_or_zeros(taken, n);
    let mut taken: Option<Vec<Fixed>> = None;
    std::mem::swap(&mut taken, &mut config.cache.moving_avg);
    let mut avg = cache_or_zeros(taken, n);
    let mut taken: Option<Vec<Fixed>> = None;
    std::mem::swap(&mut taken, &mut config.cache.avg_gradients);
    let mut ag = cache_or_zeros(taken, n);
    let one_minus_alpha = Fixed::one().sub(config.alpha);
    let mut flagged: Vec<usize> = Vec::new();
    let mut k: usize = 0;
    while k < n
        invariant
            n == params@.len(),
            params_ok(params@, g0.len()),
            same_settings(c0, *config),
            one_minus_alpha.val() == spec_sub(SCALE as int, c0.alpha.val()),
            graph.wf(),
            k <= n,
            buf@.len() == n,
            avg@.len() == n,
            ag@.len() == n,
            graph@.len() == g0.len(),
            forall|j: int| 0 <= j < g0.len() ==> {
                &&& (#[trigger] graph@[j]).grad == g0[j].grad
                &&& graph@[j].requires_grad == g0[j].requires_grad
                &&& graph@[j].op == g0[j].op
            },
            forall|j: int|
                0 <= j < g0.len() && (forall|i: int| 0 <= i < k ==> params@[i] != j)
                    ==> #[trigger] graph@[j] == g0[j],
            forall|i: int| k <= i < n ==> #[trigger] buf@[i] == slots(c0.cache.prev_gradients, n as nat)[i],
            forall|i: int| k <= i < n ==> #[trigger] avg@[i] == slots(c0.cache.moving_avg, n as nat)[i],
            forall|i: int| k <= i < n ==> #[trigger] ag@[i] == slots(c0.cache.avg_gradients, n as nat)[i],
            forall|i: int| 0 <= i < flagged@.len() ==> #[trigger] flagged@[i] < k,
            forall|i: int| 0 <= i < k ==> #[trigger] rms_slot_done(params@, c0, g0, graph@, avg@, ag@, buf@, flagged@, i),
        decreases n - k,
    {
        let id = params[k];
        proof {
            assert(params@[k as int] < g0.len());
            assert forall|i: int| 0 <= i < k implies params@[i] != id by {
                assert(params@[i] != params@[k as int]);
            }
        }
        let x = graph.node(id);
        assert(x == g0[id as int]);
        let v = x.data;
        let eg = x.grad.add(v.mul(config.weight_decay));
        let avg1 = config.alpha.mul(avg[k]).add(one_minus_alpha.mul(eg.square()));
        let ag1 = if config.centered {
            config.alpha.mul(ag[k]).add(one_minus_alpha.mul(eg))
        } else {
            ag[k]
        };
        let var = if config.centered {
            avg1.sub(ag1.square())
        } else {
            avg1
        };
        let ghost prev_graph = graph@;
        let ghost prev_flagged = flagged@;
        let ghost prev_buf = buf@;
        let ghost prev_avg = avg@;
        let ghost prev_ag = ag@;
        avg.set(k, avg1);
        ag.set(k, ag1);
        match var.sqrt() {
            Some(root) => {
                let b = config.momentum.mul(buf[k]).add(eg.div(root.add(config.eps)));
                buf.set(k, b);
                let step = config.lr.mul(b);
                let nv = if config.maximize {
                    v.add(step)
                } else {
                    v.sub(step)
                };
                graph.set_data(id, nv);
            },
            None => {
                flagged.push(k);
            },
        }
        proof {
            assert forall|i: int| 0 <= i < k + 1 implies #[trigger] rms_slot_done(
                params@, c0, g0, graph@, avg@, ag@, buf@, flagged@, i) by {
                if i < k {
                    assert(rms_slot_done(params@, c0, g0, prev_graph, prev_avg, prev_ag, prev_buf, prev_flagged, i));
                    assert(params@[i] != id);
                    assert(flagged@.contains(i as usize) == prev_flagged.contains(i as usize)) by {
                        if flagged@.contains(i as usize) && !prev_flagged.contains(i as usize) {
                            let t = choose|t: int| 0 <= t < flagged@.len() && flagged@[t] == i as usize;
                            assert(t == prev_flagged.len());
                        }
                        if prev_flagged.contains(i as usize) {
                            let t = choose|t: int| 0 <= t < prev_flagged.len() && prev_flagged[t] == i as usize;
                            assert(flagged@[t] == i as usize);
                        }
                    }
                } else {
                    assert(!prev_flagged.contains(k));
                    if flagged@.len() > prev_flagged.len() {
                        assert(flagged@[prev_flagged.len() as int] == k);
                    }
                    else {
                        assert(!flagged@.contains(k)) by {
                            assert(flagged@ == prev_flagged);
                        }
                    }
                }
            }
        }
        k += 1;
    }
    config.cache.prev_gradients = Some(buf);
    config.cache.moving_avg = Some(avg);
    config.cache.avg_gradients = Some(ag);
    proof {
        assert forall|i: int| 0 <= i < n implies #[trigger] rms_slot_done(params@, c0, g0, graph@,
            config.cache.moving_avg->Some_0@, config.cache.avg_gradients->Some_0@,
            config.cache.prev_gradients->Some_0@, flagged@, i) by {
            assert(rms_slot_done(params@, c0, g0, graph@, avg@, ag@, buf@, flagged@, i));
        }
    }
    Ok(flagged)
}

impl Optimizer {
    /// One RMSProp step over the parameters; any other optimizer is left
    /// alone. Returns the positions whose variance estimate came out
    /// negative, whose values were therefore left where they were.
    pub fn rmsprop(&mut self, graph: &mut Graph) -> (r: Result<Vec<usize>, StepError>)
        requires
            old(graph).wf(),
        ensures
            final(graph).wf(),
            match *old(self) {
                Optimizer::RMSProp(p0, c0) => match *final(self) {
                    Optimizer::RMSProp(p1, c1) => p1@ == p0@ && rms_outcome(p0@, c0, c1, old(graph)@, final(graph)@, r),
                    _ => false,
                },
                _ => *final(self) == *old(self) && final(graph)@ == old(graph)@ && r is Ok && r->Ok_0@.len() == 0,
            },
    {
        match self {
            Optimizer::RMSProp(params, config) => rmsprop_step(params, config, graph),
            _ => Ok(Vec::new()),
        }
    }
}

} // verus!
