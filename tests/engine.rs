use micrograd_rs::fixed::{Fixed, SCALE};
use micrograd_rs::graph::{Graph, Op};
use micrograd_rs::tensor::{ShapeError, Tensor};

fn fx(v: f64) -> Fixed {
    Fixed::from_raw((v * SCALE as f64).round() as i64)
}

fn to_f64(x: Fixed) -> f64 {
    x.raw as f64 / SCALE as f64
}

#[test]
fn fixed_arithmetic_exact_values() {
    assert_eq!(fx(1.5).add(fx(2.25)), fx(3.75));
    assert_eq!(fx(1.5).sub(fx(2.25)), fx(-0.75));
    assert_eq!(fx(1.5).mul(fx(-2.0)), fx(-3.0));
    assert_eq!(fx(1.0).div(fx(4.0)), fx(0.25));
    assert_eq!(fx(1.0).div(fx(3.0)).raw, 333_333_333);
    assert_eq!(fx(-1.0).div(fx(3.0)).raw, -333_333_333);
    assert_eq!(fx(2.0).neg(), fx(-2.0));
    assert_eq!(fx(-2.0).relu(), Fixed::zero());
    assert_eq!(fx(2.0).relu(), fx(2.0));
    assert_eq!(Fixed::from_int(7), fx(7.0));
}

#[test]
fn fixed_square_uses_exact_product() {
    assert_eq!(fx(1.5).square(), fx(2.25));
    assert_eq!(fx(-3.0).square(), fx(9.0));
    assert_eq!(Fixed::from_raw(i64::MIN).square().raw, i64::MAX);
}

#[test]
fn fixed_saturates_instead_of_overflowing() {
    let big = Fixed::from_raw(i64::MAX);
    assert_eq!(big.add(fx(1.0)).raw, i64::MAX);
    assert_eq!(Fixed::from_raw(i64::MIN).sub(fx(1.0)).raw, i64::MIN);
    assert_eq!(big.mul(fx(2.0)).raw, i64::MAX);
    assert_eq!(Fixed::from_raw(i64::MIN).neg().raw, i64::MAX);
    assert_eq!(Fixed::from_int(i64::MAX).raw, i64::MAX);
}

#[test]
fn fixed_division_by_zero_saturates() {
    assert_eq!(fx(1.0).div(Fixed::zero()).raw, i64::MAX);
    assert_eq!(fx(-1.0).div(Fixed::zero()).raw, i64::MIN);
    assert_eq!(Fixed::zero().div(Fixed::zero()).raw, 0);
}

#[test]
fn fixed_sqrt() {
    assert_eq!(fx(4.0).sqrt(), Some(fx(2.0)));
    assert_eq!(fx(0.0025).sqrt(), Some(fx(0.05)));
    assert_eq!(fx(2.0).sqrt().unwrap().raw, 1_414_213_562);
    assert_eq!(fx(-1.0).sqrt(), None);
}

#[test]
fn forward_values_and_operation_tags() {
    let mut g = Graph::new();
    let a = g.leaf(fx(2.0), true);
    let b = g.leaf(fx(-3.0), true);
    let s = g.add(a, b);
    let d = g.sub(a, b);
    let m = g.mul(a, b);
    let q = g.div(a, b);
    let n = g.neg(b);
    let r = g.relu(b);
    assert_eq!(g.data(s), fx(-1.0));
    assert_eq!(g.data(d), fx(5.0));
    assert_eq!(g.data(m), fx(-6.0));
    assert_eq!(g.data(q).raw, -666_666_666);
    assert_eq!(g.data(n), fx(3.0));
    assert_eq!(g.data(r), Fixed::zero());
    assert_eq!(g.node(m).op, Op::Mul(a, b));
    assert_eq!(g.node(a).op, Op::Leaf);
    assert_eq!(g.len(), 8);
}

#[test]
fn accumulation_x_plus_x() {
    let mut g = Graph::new();
    let x = g.leaf(fx(3.0), true);
    let y = g.add(x, x);
    g.backward(y);
    assert_eq!(g.grad(y), fx(1.0));
    assert_eq!(g.grad(x), fx(2.0));
}

#[test]
fn accumulation_over_three_uses() {
    let mut g = Graph::new();
    let x = g.leaf(fx(3.0), true);
    let a = g.mul(x, x);
    let y = g.add(a, x);
    g.backward(y);
    // d(x*x + x)/dx = 2x + 1
    assert_eq!(g.grad(x), fx(7.0));
}

#[test]
fn topological_shared_subexpressions() {
    let mut g = Graph::new();
    let a = g.leaf(fx(2.0), true);
    let b = g.leaf(fx(3.0), true);
    let c = g.leaf(fx(4.0), true);
    let ab = g.mul(a, b);
    let ac = g.mul(a, c);
    let y = g.add(ab, ac);
    g.backward(y);
    assert_eq!(g.grad(a), fx(7.0));
    assert_eq!(g.grad(b), fx(2.0));
    assert_eq!(g.grad(c), fx(2.0));
}

#[test]
fn topological_deep_shared_node() {
    let mut g = Graph::new();
    let a = g.leaf(fx(2.0), true);
    let b = g.leaf(fx(3.0), true);
    let d = g.mul(a, b);
    let e = g.mul(d, d);
    let y = g.add(e, d);
    g.backward(y);
    // y = (ab)^2 + ab; dy/dd = 2d + 1 = 13
    assert_eq!(g.grad(d), fx(13.0));
    assert_eq!(g.grad(a), fx(39.0));
    assert_eq!(g.grad(b), fx(26.0));
}

#[test]
fn no_grad_isolation() {
    let mut g = Graph::new();
    let c = g.leaf(fx(2.0), false);
    let x = g.leaf(fx(3.0), true);
    let k = g.neg(c);
    let y = g.mul(k, x);
    assert!(!g.node(k).requires_grad);
    assert!(g.node(y).requires_grad);
    g.backward(y);
    assert_eq!(g.grad(c), Fixed::zero());
    assert_eq!(g.grad(k), Fixed::zero());
    assert_eq!(g.grad(x), fx(-2.0));
}

#[test]
fn no_grad_does_not_block_ancestors() {
    let mut g = Graph::new();
    let x = g.leaf(fx(3.0), true);
    let c = g.leaf(fx(5.0), false);
    let s = g.add(x, c);
    let y = g.mul(s, s);
    g.backward(y);
    assert_eq!(g.grad(c), Fixed::zero());
    assert_eq!(g.grad(x), fx(16.0));
}

#[test]
fn backward_from_no_grad_root_changes_nothing() {
    let mut g = Graph::new();
    let c = g.leaf(fx(5.0), false);
    let y = g.mul(c, c);
    g.backward(y);
    assert_eq!(g.grad(y), Fixed::zero());
    assert_eq!(g.grad(c), Fixed::zero());
}

#[test]
fn zero_grad_clears_all_gradients() {
    let mut g = Graph::new();
    let x = g.leaf(fx(3.0), true);
    let y = g.mul(x, x);
    g.backward(y);
    assert_eq!(g.grad(x), fx(6.0));
    g.zero_grad();
    assert_eq!(g.grad(x), Fixed::zero());
    assert_eq!(g.grad(y), Fixed::zero());
    assert_eq!(g.data(x), fx(3.0));
}

#[test]
fn gradients_accumulate_across_passes_without_zeroing() {
    let mut g = Graph::new();
    let x = g.leaf(fx(3.0), true);
    let y = g.mul(x, x);
    g.backward(y);
    g.backward(y);
    assert_eq!(g.grad(x), fx(12.0));
}

fn unary_value(op: &str, x: f64, y: f64) -> (f64, f64, f64) {
    // returns (value, d/dx, d/dy) of the operation through the graph
    let mut g = Graph::new();
    let a = g.leaf(fx(x), true);
    let b = g.leaf(fx(y), true);
    let r = match op {
        "add" => g.add(a, b),
        "sub" => g.sub(a, b),
        "mul" => g.mul(a, b),
        "div" => g.div(a, b),
        "neg" => g.neg(a),
        "pow" => g.pow(a, 3),
        _ => g.relu(a),
    };
    g.backward(r);
    (to_f64(g.data(r)), to_f64(g.grad(a)), to_f64(g.grad(b)))
}

#[test]
fn chain_rule_matches_finite_difference() {
    let h = 1e-3;
    let points = [(0.7, -1.3), (2.0, 0.5), (-0.01, 0.02), (3.0, 0.05), (-1.5, -2.5)];
    for op in ["add", "sub", "mul", "div", "neg", "pow", "relu"] {
        for &(x, y) in points.iter() {
            let (_, dx, dy) = unary_value(op, x, y);
            let num_dx = (unary_value(op, x + h, y).0 - unary_value(op, x - h, y).0) / (2.0 * h);
            let num_dy = (unary_value(op, x, y + h).0 - unary_value(op, x, y - h).0) / (2.0 * h);
            let tol = 1e-2 * (1.0 + num_dx.abs());
            assert!((dx - num_dx).abs() <= tol, "{} at {:?}: {} vs {}", op, (x, y), dx, num_dx);
            let tol = 1e-2 * (1.0 + num_dy.abs());
            assert!((dy - num_dy).abs() <= tol, "{} at {:?}: {} vs {}", op, (x, y), dy, num_dy);
        }
    }
}

#[test]
fn broadcasting_shape_and_gradient() {
    let mut g = Graph::new();
    let row = Tensor::from_values(&mut g, 1, 3, &vec![fx(1.0), fx(2.0), fx(3.0)], true).unwrap();
    let vals: Vec<Fixed> = (0..12).map(|i| Fixed::from_int(i)).collect();
    let m = Tensor::from_values(&mut g, 4, 3, &vals, true).unwrap();
    let s = row.add(&mut g, &m).unwrap();
    assert_eq!(s.shape(), (4, 3));
    assert_eq!(s.len(), 12);
    assert!(!s.is_empty());
    for i in 0..4 {
        for j in 0..3 {
            let id = s.ids[i * 3 + j];
            assert_eq!(g.data(id), Fixed::from_int((i * 3 + j) as i64 + j as i64 + 1));
        }
    }
    // reduce every output into one scalar and differentiate it
    let mut total = s.ids[0];
    for k in 1..12 {
        total = g.add(total, s.ids[k]);
    }
    g.backward(total);
    for k in 0..3 {
        assert_eq!(g.grad(row.ids[k]), fx(4.0));
    }
    for k in 0..12 {
        assert_eq!(g.grad(m.ids[k]), fx(1.0));
    }
}

#[test]
fn broadcasting_column_against_row() {
    let mut g = Graph::new();
    let col = Tensor::from_values(&mut g, 2, 1, &vec![fx(10.0), fx(20.0)], true).unwrap();
    let row = Tensor::from_values(&mut g, 1, 3, &vec![fx(1.0), fx(2.0), fx(3.0)], true).unwrap();
    let s = col.add(&mut g, &row).unwrap();
    assert_eq!(s.shape(), (2, 3));
    let got: Vec<Fixed> = s.ids.iter().map(|&id| g.data(id)).collect();
    let want: Vec<Fixed> = [11.0, 12.0, 13.0, 21.0, 22.0, 23.0].iter().map(|&v| fx(v)).collect();
    assert_eq!(got, want);
}

#[test]
fn broadcasting_mismatch_is_rejected() {
    let mut g = Graph::new();
    let a = Tensor::from_values(&mut g, 2, 3, &vec![Fixed::zero(); 6], true).unwrap();
    let b = Tensor::from_values(&mut g, 4, 3, &vec![Fixed::zero(); 12], true).unwrap();
    let before = g.len();
    assert!(matches!(a.add(&mut g, &b), Err(ShapeError::Mismatch)));
    assert_eq!(g.len(), before);
}

#[test]
fn tensor_data_must_fill_shape() {
    let mut g = Graph::new();
    let r = Tensor::from_values(&mut g, 2, 2, &vec![Fixed::zero(); 3], true);
    assert!(matches!(r, Err(ShapeError::Mismatch)));
    assert_eq!(g.len(), 0);
}

#[test]
fn empty_tensor() {
    let mut g = Graph::new();
    let t = Tensor::from_values(&mut g, 0, 3, &Vec::new(), true).unwrap();
    assert!(t.is_empty());
    let u = t.add(&mut g, &t).unwrap();
    assert_eq!(u.shape(), (0, 3));
    assert_eq!(g.len(), 0);
}

#[test]
fn backward_ignores_unreachable_nodes() {
    let mut g = Graph::new();
    let x = g.leaf(fx(3.0), true);
    let old = g.mul(x, x);
    g.backward(old);
    g.zero_grad();
    let w = g.leaf(fx(2.0), true);
    let y = g.mul(x, w);
    let after = g.add(y, w);
    g.backward(after);
    // `old` consumed `x` but is not reachable from `after`
    assert_eq!(g.grad(old), Fixed::zero());
    assert_eq!(g.grad(x), fx(2.0));
    assert_eq!(g.grad(w), fx(4.0));
}

#[test]
fn tensor_sum_reduces_to_scalar() {
    let mut g = Graph::new();
    let t = Tensor::from_values(&mut g, 1, 3, &vec![fx(1.0), fx(2.0), fx(3.5)], true).unwrap();
    let s = t.sum(&mut g).unwrap();
    assert_eq!(g.data(s), fx(6.5));
    assert_eq!(s + 1, g.len());
    g.backward(s);
    for k in 0..3 {
        assert_eq!(g.grad(t.ids[k]), fx(1.0));
    }
}

#[test]
fn tensor_sum_of_empty_is_zero() {
    let mut g = Graph::new();
    let t = Tensor::from_values(&mut g, 0, 0, &Vec::new(), true).unwrap();
    let s = t.sum(&mut g).unwrap();
    assert_eq!(g.data(s), Fixed::zero());
    assert!(!g.node(s).requires_grad);
}

#[test]
fn matmul_values_and_gradients() {
    let mut g = Graph::new();
    let a_vals: Vec<Fixed> = [1.0, 2.0, 3.0, 4.0, 5.0, 6.0].iter().map(|&v| fx(v)).collect();
    let b_vals: Vec<Fixed> = [7.0, 8.0, 9.0, 10.0, 11.0, 12.0].iter().map(|&v| fx(v)).collect();
    let a = Tensor::from_values(&mut g, 2, 3, &a_vals, true).unwrap();
    let b = Tensor::from_values(&mut g, 3, 2, &b_vals, true).unwrap();
    let before = g.len();
    let c = a.matmul(&mut g, &b).unwrap();
    assert_eq!(c.shape(), (2, 2));
    assert_eq!(g.len(), before + 4 * (1 + 2 * 3));
    let got: Vec<Fixed> = c.ids.iter().map(|&id| g.data(id)).collect();
    let want: Vec<Fixed> = [58.0, 64.0, 139.0, 154.0].iter().map(|&v| fx(v)).collect();
    assert_eq!(got, want);
    let s = c.sum(&mut g).unwrap();
    g.backward(s);
    // d(sum of a b)/d a[i][k] = sum over j of b[k][j]
    let a_grads: Vec<Fixed> = a.ids.iter().map(|&id| g.grad(id)).collect();
    let want: Vec<Fixed> = [15.0, 19.0, 23.0, 15.0, 19.0, 23.0].iter().map(|&v| fx(v)).collect();
    assert_eq!(a_grads, want);
    // d/d b[k][j] = sum over i of a[i][k]
    let b_grads: Vec<Fixed> = b.ids.iter().map(|&id| g.grad(id)).collect();
    let want: Vec<Fixed> = [5.0, 5.0, 7.0, 7.0, 9.0, 9.0].iter().map(|&v| fx(v)).collect();
    assert_eq!(b_grads, want);
}

#[test]
fn matmul_inner_dimension_mismatch() {
    let mut g = Graph::new();
    let a = Tensor::from_values(&mut g, 2, 3, &vec![Fixed::zero(); 6], true).unwrap();
    let before = g.len();
    assert!(matches!(a.matmul(&mut g, &a), Err(ShapeError::Mismatch)));
    assert_eq!(g.len(), before);
}

#[test]
fn matmul_with_empty_inner_dimension() {
    let mut g = Graph::new();
    let a = Tensor::from_values(&mut g, 2, 0, &Vec::new(), true).unwrap();
    let b = Tensor::from_values(&mut g, 0, 2, &Vec::new(), true).unwrap();
    let c = a.matmul(&mut g, &b).unwrap();
    assert_eq!(c.shape(), (2, 2));
    for &id in c.ids.iter() {
        assert_eq!(g.data(id), Fixed::zero());
    }
}

#[test]
fn power_values_and_gradient() {
    let mut g = Graph::new();
    let x = g.leaf(fx(2.0), true);
    let c = g.pow(x, 3);
    let one = g.pow(x, 0);
    assert_eq!(g.data(c), fx(8.0));
    assert_eq!(g.data(one), fx(1.0));
    assert_eq!(g.node(c).op, Op::Pow(x, 3));
    let y = g.add(c, one);
    g.backward(y);
    assert_eq!(g.grad(x), fx(12.0));
    assert_eq!(fx(-1.5).pow(2), fx(2.25));
    assert_eq!(fx(0.5).pow(0), fx(1.0));
}

#[test]
fn tensor_mean_divides_by_count() {
    let mut g = Graph::new();
    let t = Tensor::from_values(&mut g, 2, 2, &vec![fx(1.0), fx(2.0), fx(3.0), fx(4.0)], true).unwrap();
    let m = t.mean(&mut g).unwrap();
    assert_eq!(g.data(m), fx(2.5));
    g.backward(m);
    for k in 0..4 {
        assert_eq!(g.grad(t.ids[k]), fx(0.25));
    }
}

#[test]
fn tensor_mean_of_empty_is_zero() {
    let mut g = Graph::new();
    let t = Tensor::from_values(&mut g, 0, 1, &Vec::new(), true).unwrap();
    let m = t.mean(&mut g).unwrap();
    assert_eq!(g.data(m), Fixed::zero());
}
