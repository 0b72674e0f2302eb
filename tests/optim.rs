use micrograd_rs::fixed::{Fixed, SCALE};
use micrograd_rs::graph::Graph;
use micrograd_rs::optimizer::rmsprop::{RMSPropCache, RMSPropConfig};
use micrograd_rs::optimizer::sgd::{SGDCache, SGDConfig};
use micrograd_rs::optimizer::{Optimizer, StepError};

fn fx(v: f64) -> Fixed {
    Fixed::from_raw((v * SCALE as f64).round() as i64)
}

/// A parameter `x` with gradient `grad`, taken from `y = x * grad`.
fn param_with_grad(g: &mut Graph, value: f64, grad: f64) -> usize {
    let x = g.leaf(fx(value), true);
    let c = g.leaf(fx(grad), false);
    let y = g.mul(x, c);
    g.backward(y);
    x
}

fn rms_cache(o: &Optimizer) -> &RMSPropCache {
    match o {
        Optimizer::RMSProp(_, c) => &c.cache,
        _ => panic!("not rmsprop"),
    }
}

#[test]
fn rmsprop_default_config() {
    let c = RMSPropConfig::default();
    assert_eq!(c.lr, fx(0.01));
    assert_eq!(c.alpha, fx(0.99));
    assert_eq!(c.eps, fx(1e-8));
    assert_eq!(c.momentum, Fixed::zero());
    assert_eq!(c.weight_decay, Fixed::zero());
    assert!(!c.centered && !c.maximize);
    assert!(c.cache.moving_avg.is_none());
    assert!(c.cache.prev_gradients.is_none());
    assert!(c.cache.avg_gradients.is_none());
}

#[test]
fn rmsprop_first_step_exact() {
    let mut g = Graph::new();
    let x = param_with_grad(&mut g, 1.0, 0.5);
    let mut o = Optimizer::RMSProp(vec![x], RMSPropConfig::default());
    let flagged = o.rmsprop(&mut g).unwrap();
    assert!(flagged.is_empty());
    // avg = 0.01 * 0.25, sqrt = 0.05, buf = 0.5 / (0.05 + 1e-8), step = 0.01 * buf
    assert_eq!(g.data(x).raw, 900_000_020);
    let cache = rms_cache(&o);
    assert_eq!(cache.moving_avg.as_ref().unwrap()[0].raw, 2_500_000);
    assert_eq!(cache.prev_gradients.as_ref().unwrap()[0].raw, 9_999_998_000);
    assert_eq!(cache.avg_gradients.as_ref().unwrap()[0].raw, 0);
    // gradients are left alone by a step
    assert_eq!(g.grad(x), fx(0.5));
}

#[test]
fn rmsprop_maximize_moves_up() {
    let mut g = Graph::new();
    let x = param_with_grad(&mut g, 1.0, 0.5);
    let mut cfg = RMSPropConfig::default();
    cfg.maximize = true;
    let mut o = Optimizer::RMSProp(vec![x], cfg);
    o.step(&mut g).unwrap();
    assert_eq!(g.data(x).raw, 1_099_999_980);
}

#[test]
fn rmsprop_weight_decay_adds_to_gradient() {
    let mut g = Graph::new();
    let x = param_with_grad(&mut g, 1.0, 0.0);
    let mut cfg = RMSPropConfig::default();
    cfg.weight_decay = fx(0.5);
    let mut o = Optimizer::RMSProp(vec![x], cfg);
    o.rmsprop(&mut g).unwrap();
    // same effective gradient as the first-step case
    assert_eq!(g.data(x).raw, 900_000_020);
}

#[test]
fn rmsprop_zero_gradient_decays_average() {
    let mut g = Graph::new();
    let x = param_with_grad(&mut g, 1.0, 0.0);
    let mut cfg = RMSPropConfig::default();
    cfg.cache.moving_avg = Some(vec![fx(1.0)]);
    let mut o = Optimizer::RMSProp(vec![x], cfg);
    o.rmsprop(&mut g).unwrap();
    assert_eq!(rms_cache(&o).moving_avg.as_ref().unwrap()[0], fx(0.99));
    assert_eq!(g.data(x), fx(1.0));
    o.rmsprop(&mut g).unwrap();
    assert_eq!(rms_cache(&o).moving_avg.as_ref().unwrap()[0], fx(0.9801));
}

#[test]
fn rmsprop_negative_variance_is_reported() {
    let mut g = Graph::new();
    let x = param_with_grad(&mut g, 1.0, 0.0);
    let y = param_with_grad(&mut g, 2.0, 0.5);
    let mut cfg = RMSPropConfig::default();
    cfg.centered = true;
    cfg.cache.moving_avg = Some(vec![Fixed::zero(), Fixed::zero()]);
    cfg.cache.avg_gradients = Some(vec![fx(1.0), Fixed::zero()]);
    let mut o = Optimizer::RMSProp(vec![x, y], cfg);
    let flagged = o.rmsprop(&mut g).unwrap();
    assert_eq!(flagged, vec![0]);
    assert_eq!(g.data(x), fx(1.0));
    assert_ne!(g.data(y), fx(2.0));
    let cache = rms_cache(&o);
    assert_eq!(cache.avg_gradients.as_ref().unwrap()[0], fx(0.99));
    assert_eq!(cache.prev_gradients.as_ref().unwrap()[0], Fixed::zero());
}

#[test]
fn rmsprop_rejects_duplicate_parameters() {
    let mut g = Graph::new();
    let x = param_with_grad(&mut g, 1.0, 0.5);
    let mut o = Optimizer::RMSProp(vec![x, x], RMSPropConfig::default());
    assert_eq!(o.rmsprop(&mut g), Err(StepError::InvalidParameters));
    assert_eq!(g.data(x), fx(1.0));
    assert!(rms_cache(&o).moving_avg.is_none());
}

#[test]
fn rmsprop_rejects_unknown_parameter() {
    let mut g = Graph::new();
    let x = param_with_grad(&mut g, 1.0, 0.5);
    let mut o = Optimizer::RMSProp(vec![x, 99], RMSPropConfig::default());
    assert_eq!(o.rmsprop(&mut g), Err(StepError::InvalidParameters));
}

#[test]
fn rmsprop_rejects_cache_of_other_length() {
    let mut g = Graph::new();
    let x = param_with_grad(&mut g, 1.0, 0.5);
    let mut cfg = RMSPropConfig::default();
    cfg.cache.prev_gradients = Some(vec![Fixed::zero(), Fixed::zero()]);
    let mut o = Optimizer::RMSProp(vec![x], cfg);
    assert_eq!(o.rmsprop(&mut g), Err(StepError::CacheMismatch));
    assert_eq!(g.data(x), fx(1.0));
    assert_eq!(rms_cache(&o).prev_gradients.as_ref().unwrap().len(), 2);
}

#[test]
fn rmsprop_leaves_sgd_alone() {
    let mut g = Graph::new();
    let x = param_with_grad(&mut g, 1.0, 0.5);
    let mut o = Optimizer::SGD(vec![x], SGDConfig::default());
    assert_eq!(o.rmsprop(&mut g), Ok(vec![]));
    assert_eq!(g.data(x), fx(1.0));
}

#[test]
fn rmsprop_cache_default_is_empty() {
    let c = RMSPropCache::default();
    assert!(c.prev_gradients.is_none() && c.moving_avg.is_none() && c.avg_gradients.is_none());
}

#[test]
fn sgd_plain_step() {
    let mut g = Graph::new();
    let x = param_with_grad(&mut g, 1.0, 0.5);
    let mut cfg = SGDConfig::default();
    cfg.lr = fx(0.1);
    let mut o = Optimizer::SGD(vec![x], cfg);
    assert_eq!(o.step(&mut g), Ok(vec![]));
    assert_eq!(g.data(x), fx(0.95));
}

#[test]
fn sgd_momentum_blends_steps() {
    let mut g = Graph::new();
    let x = param_with_grad(&mut g, 1.0, 0.5);
    let mut o = Optimizer::SGD(
        vec![x],
        SGDConfig { lr: fx(0.1), momentum: fx(0.3), ..SGDConfig::default() },
    );
    o.sgd(&mut g).unwrap();
    assert_eq!(g.data(x), fx(0.95));
    o.sgd(&mut g).unwrap();
    // buf = 0.3 * 0.5 + 0.5 = 0.65
    assert_eq!(g.data(x), fx(0.885));
    match &o {
        Optimizer::SGD(_, c) => assert_eq!(c.cache.velocity.as_ref().unwrap()[0], fx(0.65)),
        _ => panic!("not sgd"),
    }
}

#[test]
fn sgd_nesterov_and_maximize() {
    let mut g = Graph::new();
    let x = param_with_grad(&mut g, 1.0, 0.5);
    let mut o = Optimizer::SGD(
        vec![x],
        SGDConfig {
            lr: fx(0.1),
            momentum: fx(0.5),
            nesterov: true,
            maximize: true,
            ..SGDConfig::default()
        },
    );
    o.sgd(&mut g).unwrap();
    // buf = 0.5, direction = 0.5 + 0.5 * 0.5
    assert_eq!(g.data(x), fx(1.075));
}

#[test]
fn sgd_zero_gradient_leaves_values() {
    let mut g = Graph::new();
    let x = param_with_grad(&mut g, 1.0, 0.0);
    let y = param_with_grad(&mut g, -2.0, 0.0);
    let mut o = Optimizer::SGD(
        vec![x, y],
        SGDConfig { lr: fx(0.1), momentum: fx(0.3), ..SGDConfig::default() },
    );
    for _ in 0..3 {
        o.step(&mut g).unwrap();
    }
    assert_eq!(g.data(x), fx(1.0));
    assert_eq!(g.data(y), fx(-2.0));
}

#[test]
fn sgd_default_config() {
    let c = SGDConfig::default();
    assert_eq!(c.lr, fx(0.01));
    assert_eq!(c.momentum, Fixed::zero());
    assert!(c.cache.velocity.is_none());
    assert!(SGDCache::default().velocity.is_none());
}

#[test]
fn sgd_rejects_cache_of_other_length() {
    let mut g = Graph::new();
    let x = param_with_grad(&mut g, 1.0, 0.5);
    let mut cfg = SGDConfig::default();
    cfg.cache.velocity = Some(vec![]);
    let mut o = Optimizer::SGD(vec![x], cfg);
    assert_eq!(o.step(&mut g), Err(StepError::CacheMismatch));
    assert_eq!(g.data(x), fx(1.0));
}

#[test]
fn optimizer_zero_grad_only_touches_parameters() {
    let mut g = Graph::new();
    let x = g.leaf(fx(2.0), true);
    let w = g.leaf(fx(3.0), true);
    let y = g.mul(x, w);
    g.backward(y);
    let o = Optimizer::SGD(vec![x], SGDConfig::default());
    o.zero_grad(&mut g);
    assert_eq!(g.grad(x), Fixed::zero());
    assert_eq!(g.grad(w), fx(2.0));
    assert_eq!(g.data(x), fx(2.0));
}

/// Fits `w * x + b` to `2 x + 1` on a few points, in the
/// forward, zero_grad, backward, step order.
#[test]
fn training_reduces_loss() {
    let mut g = Graph::new();
    let w = g.leaf(fx(0.0), true);
    let b = g.leaf(fx(0.0), true);
    let mut o = Optimizer::SGD(
        vec![w, b],
        SGDConfig { lr: fx(0.05), momentum: fx(0.3), ..SGDConfig::default() },
    );
    let xs = [1.0, 2.0, -1.0, 0.5];
    let mut losses = Vec::new();
    for _ in 0..20 {
        let mut loss = g.leaf(Fixed::zero(), false);
        for &x in xs.iter() {
            let xi = g.leaf(fx(x), false);
            let yi = g.leaf(fx(2.0 * x + 1.0), false);
            let p = g.mul(w, xi);
            let q = g.add(p, b);
            let e = g.sub(q, yi);
            let s = g.mul(e, e);
            loss = g.add(loss, s);
        }
        losses.push(g.data(loss));
        o.zero_grad(&mut g);
        g.backward(loss);
        o.step(&mut g).unwrap();
    }
    assert!(losses[10].raw < losses[0].raw);
    assert!(losses[19].raw < losses[10].raw);
}
