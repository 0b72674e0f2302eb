//! The computation graph: an arena of scalar nodes addressed by index.
//!
//! A node records its value, its accumulated gradient, whether it takes
//! part in differentiation, and the operation that produced it. Operands
//! are stored by index and always precede the node that uses them, so the
//! graph is acyclic and descending index order is a valid order in which
//! every consumer comes before its operands.
use vstd::prelude::*;
use crate::fixed::{
    Fixed, SCALE, clamp, spec_add, spec_sub, spec_neg, spec_mul, spec_div, spec_relu, spec_pow,
};

verus! {

/// How a node was produced; operands are node indices.
#[derive(Clone, Copy, Debug, PartialEq, Eq, Structural)]
pub enum Op {
    Leaf,
    Add(usize, usize),
    Sub(usize, usize),
    Mul(usize, usize),
    Div(usize, usize),
    Neg(usize),
    Relu(usize),
    /// A power with a whole exponent.
    Pow(usize, u32),
}

#[derive(Clone, Copy, Debug, PartialEq, Eq, Structural)]
pub struct Node {
    pub data: Fixed,
    pub grad: Fixed,
    pub requires_grad: bool,
    pub op: Op,
}

/// The operand indices of an operation, in order.
pub open spec fn operands(op: Op) -> Seq<int> {
    match op {
        Op::Leaf => seq![],
        Op::Add(a, b) => seq![a as int, b as int],
        Op::Sub(a, b) => seq![a as int, b as int],
        Op::Mul(a, b) => seq![a as int, b as int],
        Op::Div(a, b) => seq![a as int, b as int],
        Op::Neg(a) => seq![a as int],
        Op::Relu(a) => seq![a as int],
        Op::Pow(a, _) => seq![a as int],
    }
}

/// Node `i` only uses earlier nodes, and takes part in differentiation
/// exactly when one of its operands does (a leaf decides for itself).
pub open spec fn node_wf(nodes: Seq<Node>, i: int) -> bool {
    let ops = operands(nodes[i].op);
    &&& forall|k: int| 0 <= k < ops.len() ==> 0 <= #[trigger] ops[k] < i
    &&& ops.len() > 0 ==> (nodes[i].requires_grad <==> exists|k: int|
        0 <= k < ops.len() && nodes[#[trigger] ops[k]].requires_grad)
}

pub open spec fn graph_wf(nodes: Seq<Node>) -> bool {
    forall|i: int| 0 <= i < nodes.len() ==> #[trigger] node_wf(nodes, i)
}

/// The two graphs differ at most in their gradients.
pub open spec fn same_structure(x: Seq<Node>, y: Seq<Node>) -> bool {
    &&& x.len() == y.len()
    &&& forall|j: int| 0 <= j < x.len() ==> {
        &&& (#[trigger] x[j]).data == y[j].data
        &&& x[j].requires_grad == y[j].requires_grad
        &&& x[j].op == y[j].op
    }
}

pub open spec fn grads(nodes: Seq<Node>) -> Seq<int> {
    Seq::new(nodes.len(), |j: int| nodes[j].grad.val())
}

/// The value of an operation on operand values `x` (and `y`).
pub open spec fn eval(op: Op, x: int, y: int) -> int {
    match op {
        Op::Leaf => 0,
        Op::Add(_, _) => spec_add(x, y),
        Op::Sub(_, _) => spec_sub(x, y),
        Op::Mul(_, _) => spec_mul(x, y),
        Op::Div(_, _) => spec_div(x, y),
        Op::Neg(_) => spec_neg(x),
        Op::Relu(_) => spec_relu(x),
        Op::Pow(_, n) => spec_pow(x, n as nat),
    }
}

/// The chain-rule term that node `i`, holding upstream gradient `u`,
/// passes to its first operand.
pub open spec fn first_term(nodes: Seq<Node>, i: int, u: int) -> int {
    match nodes[i].op {
        Op::Leaf => 0,
        Op::Add(_, _) => u,
        Op::Sub(_, _) => u,
        Op::Mul(_, b) => spec_mul(u, nodes[b as int].data.val()),
        Op::Div(_, b) => spec_div(u, nodes[b as int].data.val()),
        Op::Neg(_) => spec_neg(u),
        Op::Relu(_) => if nodes[i].data.val() > 0 { u } else { 0 },
        Op::Pow(a, n) => if n == 0 {
            0
        } else {
            spec_mul(u, spec_mul(clamp(n * SCALE), spec_pow(nodes[a as int].data.val(), (n - 1) as nat)))
        },
    }
}

/// The chain-rule term that node `i` passes to its second operand:
/// `d(a / b) / db = -(a / b) / b`.
pub open spec fn second_term(nodes: Seq<Node>, i: int, u: int) -> int {
    match nodes[i].op {
        Op::Add(_, _) => u,
        Op::Sub(_, _) => spec_neg(u),
        Op::Mul(a, _) => spec_mul(u, nodes[a as int].data.val()),
        Op::Div(_, b) => spec_neg(
            spec_div(spec_mul(u, nodes[i].data.val()), nodes[b as int].data.val()),
        ),
        _ => 0,
    }
}

/// The gradient `v` of node `j` after node `i`, with upstream gradient `u`,
/// has added its terms: once per use of `j` as an operand of `i`, and
/// never into a node that takes no part in differentiation.
pub open spec fn apply(nodes: Seq<Node>, u: int, i: int, j: int, v: int) -> int {
    let ops = operands(nodes[i].op);
    if !nodes[j].requires_grad {
        v
    } else {
        let v1 = if ops.len() >= 1 && ops[0] == j {
            spec_add(v, first_term(nodes, i, u))
        } else {
            v
        };
        if ops.len() >= 2 && ops[1] == j {
            spec_add(v1, second_term(nodes, i, u))
        } else {
            v1
        }
    }
}

/// Gradients after node `i` has propagated its own gradient.
pub open spec fn step(nodes: Seq<Node>, g: Seq<int>, i: int) -> Seq<int> {
    Seq::new(g.len(), |j: int| apply(nodes, g[i], i, j, g[j]))
}

/// `j` is an operand of node `i`.
pub open spec fn is_operand(nodes: Seq<Node>, i: int, j: int) -> bool {
    let ops = operands(nodes[i].op);
    (ops.len() >= 1 && ops[0] == j) || (ops.len() >= 2 && ops[1] == j)
}

/// Reachability marks after node `i` has been visited: a marked node marks
/// its operands.
pub open spec fn mark_step(nodes: Seq<Node>, m: Seq<bool>, i: int) -> Seq<bool> {
    if m[i] {
        Seq::new(m.len(), |j: int| m[j] || is_operand(nodes, i, j))
    } else {
        m
    }
}

/// Gradients and marks after nodes `i, i - 1, ..., 0` have been visited in
/// that order; a node passes its gradient on only when it is marked, that
/// is, reachable from the root.
pub open spec fn run(nodes: Seq<Node>, g: Seq<int>, m: Seq<bool>, i: int) -> (Seq<int>, Seq<bool>)
    decreases i + 1,
{
    if i < 0 {
        (g, m)
    } else {
        let g1 = if m[i] { step(nodes, g, i) } else { g };
        run(nodes, g1, mark_step(nodes, m, i), i - 1)
    }
}

/// Gradients at the start of a backward pass from `root`: the root is seeded
/// with one.
pub open spec fn seeded(nodes: Seq<Node>, root: int) -> Seq<int> {
    grads(nodes).update(root, SCALE as int)
}

/// Marks at the start of a backward pass: the root alone.
pub open spec fn start_marks(len: nat, root: int) -> Seq<bool> {
    Seq::new(len, |j: int| j == root)
}

/// Gradients after a backward pass from `root`. A root that takes no part in
/// differentiation changes nothing.
pub open spec fn backward_grads(nodes: Seq<Node>, root: int) -> Seq<int> {
    if nodes[root].requires_grad {
        run(nodes, seeded(nodes, root), start_marks(nodes.len(), root), root).0
    } else {
        grads(nodes)
    }
}

/// The nodes that a backward pass from `root` visits.
pub open spec fn backward_marks(nodes: Seq<Node>, root: int) -> Seq<bool> {
    run(nodes, seeded(nodes, root), start_marks(nodes.len(), root), root).1
}

/// Changing gradients keeps a graph well formed.
pub proof fn lemma_same_structure_wf(x: Seq<Node>, y: Seq<Node>)
    requires
        graph_wf(x),
        same_structure(x, y),
    ensures
        graph_wf(y),
{
    assert forall|i: int| 0 <= i < y.len() implies #[trigger] node_wf(y, i) by {
        assert(node_wf(x, i));
        assert(x[i].op == y[i].op);
        let ops = operands(x[i].op);
        assert forall|k: int| 0 <= k < ops.len() implies y[#[trigger] ops[k]].requires_grad
            == x[ops[k]].requires_grad by {
            assert(0 <= ops[k] < i);
            assert(x[ops[k]].requires_grad == y[ops[k]].requires_grad);
        }
    }
}

/// A step depends on the structure of the graph, not on its gradients.
pub proof fn lemma_step_structure(x: Seq<Node>, y: Seq<Node>, g: Seq<int>, i: int)
    requires
        same_structure(x, y),
        0 <= i < x.len(),
        g.len() == x.len(),
        graph_wf(x),
    ensures
        step(x, g, i) == step(y, g, i),
{
    assert(node_wf(x, i));
    let ops = operands(x[i].op);
    assert forall|k: int| 0 <= k < ops.len() implies x[#[trigger] ops[k]] == x[ops[k]] by {}
    assert(x[i].op == y[i].op && x[i].data == y[i].data);
    assert forall|j: int| 0 <= j < g.len() implies #[trigger] step(x, g, i)[j] == step(y, g, i)[j] by {
        assert(x[j].requires_grad == y[j].requires_grad);
        match x[i].op {
            Op::Mul(a, b) => {
                assert(x[a as int].data == y[a as int].data);
                assert(x[b as int].data == y[b as int].data);
            },
            Op::Div(a, b) => {
                assert(x[b as int].data == y[b as int].data);
            },
            Op::Pow(a, _) => {
                assert(ops[0] == a);
                assert(x[a as int].data == y[a as int].data);
            },
            _ => {},
        }
    }
    assert(step(x, g, i) =~= step(y, g, i));
}

/// The gradient `v` of node `j` after each marked node among `i, i - 1,
/// ..., j + 1` has added its terms to it, every node `k` at its gradient
/// `fin[k]`; `fm` holds the marks.
pub open spec fn collect(nodes: Seq<Node>, fin: Seq<int>, fm: Seq<bool>, j: int, v: int, i: int) -> int
    decreases i - j,
{
    if i <= j {
        v
    } else {
        let v1 = if fm[i] { apply(nodes, fin[i], i, j, v) } else { v };
        collect(nodes, fin, fm, j, v1, i - 1)
    }
}

/// `j` is marked at the end: it is the root, or an operand of a marked
/// node among `i, ..., j + 1` (its consumers).
pub open spec fn marked_by(nodes: Seq<Node>, fm: Seq<bool>, j: int, i: int) -> bool {
    exists|k: int| j < k <= i && fm[k] && is_operand(nodes, k, j)
}

proof fn lemma_step_keeps_upper(nodes: Seq<Node>, g: Seq<int>, m: Seq<bool>, i: int)
    requires
        graph_wf(nodes),
        0 <= i < nodes.len(),
        g.len() == nodes.len(),
        m.len() == nodes.len(),
    ensures
        step(nodes, g, i).len() == g.len(),
        mark_step(nodes, m, i).len() == m.len(),
        forall|k: int| i <= k < g.len() ==> #[trigger] step(nodes, g, i)[k] == g[k],
        forall|k: int| i <= k < g.len() ==> #[trigger] mark_step(nodes, m, i)[k] == m[k],
{
    assert(node_wf(nodes, i));
    let ops = operands(nodes[i].op);
    if ops.len() >= 1 {
        assert(ops[0] < i);
    }
    if ops.len() >= 2 {
        assert(ops[1] < i);
    }
    assert forall|k: int| i <= k < g.len() implies #[trigger] step(nodes, g, i)[k] == g[k] by {}
    assert forall|k: int| i <= k < g.len() implies #[trigger] mark_step(nodes, m, i)[k] == m[k] by {}
}

proof fn lemma_run_keeps_upper(nodes: Seq<Node>, g: Seq<int>, m: Seq<bool>, i: int)
    requires
        graph_wf(nodes),
        -1 <= i < nodes.len(),
        g.len() == nodes.len(),
        m.len() == nodes.len(),
    ensures
        run(nodes, g, m, i).0.len() == g.len(),
        run(nodes, g, m, i).1.len() == g.len(),
        forall|k: int| i < k < g.len() ==> #[trigger] run(nodes, g, m, i).0[k] == g[k],
        forall|k: int| i < k < g.len() ==> #[trigger] run(nodes, g, m, i).1[k] == m[k],
    decreases i + 1,
{
    if i >= 0 {
        lemma_step_keeps_upper(nodes, g, m, i);
        let g1 = if m[i] { step(nodes, g, i) } else { g };
        lemma_run_keeps_upper(nodes, g1, mark_step(nodes, m, i), i - 1);
    }
}

proof fn lemma_run_collects(nodes: Seq<Node>, g: Seq<int>, m: Seq<bool>, i: int)
    requires
        graph_wf(nodes),
        -1 <= i < nodes.len(),
        g.len() == nodes.len(),
        m.len() == nodes.len(),
    ensures
        forall|j: int| 0 <= j <= i ==> #[trigger] run(nodes, g, m, i).0[j] == collect(
            nodes, run(nodes, g, m, i).0, run(nodes, g, m, i).1, j, g[j], i),
        forall|j: int| 0 <= j <= i ==> (#[trigger] run(nodes, g, m, i).1[j] <==> m[j]
            || marked_by(nodes, run(nodes, g, m, i).1, j, i)),
    decreases i + 1,
{
    if i >= 0 {
        let g1 = if m[i] { step(nodes, g, i) } else { g };
        let m1 = mark_step(nodes, m, i);
        let fin = run(nodes, g, m, i).0;
        let fm = run(nodes, g, m, i).1;
        lemma_step_keeps_upper(nodes, g, m, i);
        lemma_run_keeps_upper(nodes, g1, m1, i - 1);
        lemma_run_collects(nodes, g1, m1, i - 1);
        assert(fin == run(nodes, g1, m1, i - 1).0);
        assert(fm == run(nodes, g1, m1, i - 1).1);
        assert(fin[i] == g[i]);
        assert(fm[i] == m[i]);
        assert forall|j: int| 0 <= j <= i implies #[trigger] fin[j] == collect(
            nodes, fin, fm, j, g[j], i) by {
            if j < i {
                assert(fin[j] == collect(nodes, fin, fm, j, g1[j], i - 1));
            }
        }
        assert forall|j: int| 0 <= j <= i implies (#[trigger] fm[j] <==> m[j] || marked_by(
            nodes, fm, j, i)) by {
            if j < i {
                assert(fm[j] <==> m1[j] || marked_by(nodes, fm, j, i - 1));
                if marked_by(nodes, fm, j, i - 1) {
                    let k = choose|k: int| j < k <= i - 1 && fm[k] && is_operand(nodes, k, j);
                    assert(j < k <= i && fm[k] && is_operand(nodes, k, j));
                }
                if marked_by(nodes, fm, j, i) && !marked_by(nodes, fm, j, i - 1) {
                    let k = choose|k: int| j < k <= i && fm[k] && is_operand(nodes, k, j);
                    assert(k == i);
                }
            } else {
                assert(!marked_by(nodes, fm, j, i));
            }
        }
    }
}

proof fn lemma_run_keeps_no_grad(nodes: Seq<Node>, g: Seq<int>, m: Seq<bool>, i: int)
    requires
        -1 <= i < nodes.len(),
        g.len() == nodes.len(),
        m.len() == nodes.len(),
    ensures
        run(nodes, g, m, i).0.len() == g.len(),
        forall|j: int| 0 <= j < g.len() && !nodes[j].requires_grad ==> #[trigger] run(
            nodes, g, m, i).0[j] == g[j],
    decreases i + 1,
{
    if i >= 0 {
        let g1 = if m[i] { step(nodes, g, i) } else { g };
        lemma_run_keeps_no_grad(nodes, g1, mark_step(nodes, m, i), i - 1);
    }
}

/// Accumulation in consumer order over the reachable nodes: a backward pass
/// from `root` visits the root and, recursively, the operands of every
/// visited node. Each gradient up to `root` ends as its starting gradient
/// with the chain-rule terms of its visited consumers `root, root - 1, ...`
/// added in turn, one per use as an operand, each consumer's terms taken at
/// that consumer's final gradient: every consumer is complete before its
/// operands are processed. Nodes after `root` keep their gradients.
pub proof fn lemma_backward_accumulates(nodes: Seq<Node>, root: int)
    requires
        graph_wf(nodes),
        0 <= root < nodes.len(),
        nodes[root].requires_grad,
    ensures
        backward_grads(nodes, root).len() == nodes.len(),
        forall|j: int| 0 <= j <= root ==> #[trigger] backward_grads(nodes, root)[j] == collect(
            nodes, backward_grads(nodes, root), backward_marks(nodes, root), j,
            seeded(nodes, root)[j], root),
        forall|j: int| 0 <= j <= root ==> (#[trigger] backward_marks(nodes, root)[j] <==> j == root
            || marked_by(nodes, backward_marks(nodes, root), j, root)),
        forall|j: int| root < j < nodes.len() ==> #[trigger] backward_grads(nodes, root)[j]
            == nodes[j].grad.val(),
{
    let m0 = start_marks(nodes.len(), root);
    lemma_run_collects(nodes, seeded(nodes, root), m0, root);
    lemma_run_keeps_upper(nodes, seeded(nodes, root), m0, root);
}

/// An arena of nodes in creation order.
pub struct Graph {
    nodes: Vec<Node>,
}

impl View for Graph {
    type V = Seq<Node>;

    closed spec fn view(&self) -> Seq<Node> {
        self.nodes@
    }
}

impl Graph {
    pub open spec fn wf(&self) -> bool {
        graph_wf(self@)
    }

    pub fn new() -> (r: Graph)
        ensures
            r.wf(),
            r@.len() == 0,
    {
        Graph { nodes: Vec::new() }
    }

    pub fn len(&self) -> (r: usize)
        ensures
            r == self@.len(),
    {
        self.nodes.len()
    }

    pub fn node(&self, id: usize) -> (r: Node)
        requires
            id < self@.len(),
        ensures
            r == self@[id as int],
    {
        self.nodes[id]
    }

    pub fn data(&self, id: usize) -> (r: Fixed)
        requires
            id < self@.len(),
        ensures
            r == self@[id as int].data,
    {
        self.nodes[id].data
    }

    pub fn grad(&self, id: usize) -> (r: Fixed)
        requires
            id < self@.len(),
        ensures
            r == self@[id as int].grad,
    {
        self.nodes[id].grad
    }

    fn push(&mut self, data: Fixed, requires_grad: bool, op: Op) -> (r: usize)
        requires
            old(self).wf(),
            old(self)@.len() < usize::MAX,
            node_wf(old(self)@.push(Node { data, grad: Fixed { raw: 0 }, requires_grad, op }),
                old(self)@.len() as int),
        ensures
            final(self).wf(),
            r == old(self)@.len(),
            final(self)@ == old(self)@.push(
                Node { data, grad: Fixed { raw: 0 }, requires_grad, op },
            ),
    {
        let r = self.nodes.len();
        let ghost before = self@;
        self.nodes.push(Node { data, grad: Fixed::zero(), requires_grad, op });
        assert forall|i: int| 0 <= i < self@.len() implies #[trigger] node_wf(self@, i) by {
            if i < r {
                assert(node_wf(before, i));
                let ops = operands(before[i].op);
                assert forall|k: int| 0 <= k < ops.len() implies self@[#[trigger] ops[k]]
                    == before[ops[k]] by {
                    assert(0 <= ops[k] < i);
                }
            }
        }
        r
    }

    /// A new leaf: a constant or a trainable parameter.
    pub fn leaf(&mut self, data: Fixed, requires_grad: bool) -> (r: usize)
        requires
            old(self).wf(),
            old(self)@.len() < usize::MAX,
        ensures
            final(self).wf(),
            r == old(self)@.len(),
            final(self)@ == old(self)@.push(
                Node { data, grad: Fixed { raw: 0 }, requires_grad, op: Op::Leaf },
            ),
    {
        self.push(data, requires_grad, Op::Leaf)
    }

    fn binary(&mut self, op: Op, a: usize, b: usize) -> (r: usize)
        requires
            old(self).wf(),
            old(self)@.len() < usize::MAX,
            a < old(self)@.len(),
            b < old(self)@.len(),
            operands(op) == seq![a as int, b as int],
        ensures
            final(self).wf(),
            r == old(self)@.len(),
            final(self)@ == old(self)@.push(
                Node {
                    data: Fixed { raw: eval(op, old(self)@[a as int].data.val(),
                        old(self)@[b as int].data.val()) as i64 },
                    grad: Fixed { raw: 0 },
                    requires_grad: old(self)@[a as int].requires_grad
                        || old(self)@[b as int].requires_grad,
                    op,
                },
            ),
    {
        let x = self.nodes[a];
        let y = self.nodes[b];
        let data = match op {
            Op::Add(_, _) => x.data.add(y.data),
            Op::Sub(_, _) => x.data.sub(y.data),
            Op::Mul(_, _) => x.data.mul(y.data),
            _ => x.data.div(y.data),
        };
        let rg = x.requires_grad || y.requires_grad;
        proof {
            let n = Node { data, grad: Fixed { raw: 0 }, requires_grad: rg, op };
            let s = self@.push(n);
            let ops = operands(op);
            assert(s[a as int] == x && s[b as int] == y);
            if rg {
                if x.requires_grad {
                    assert(s[ops[0]].requires_grad);
                } else {
                    assert(s[ops[1]].requires_grad);
                }
            }
        }
        self.push(data, rg, op)
    }

    fn unary(&mut self, op: Op, a: usize) -> (r: usize)
        requires
            old(self).wf(),
            old(self)@.len() < usize::MAX,
            a < old(self)@.len(),
            operands(op) == seq![a as int],
            op is Neg || op is Relu || op is Pow,
        ensures
            final(self).wf(),
            r == old(self)@.len(),
            final(self)@ == old(self)@.push(
                Node {
                    data: Fixed { raw: eval(op, old(self)@[a as int].data.val(), 0) as i64 },
                    grad: Fixed { raw: 0 },
                    requires_grad: old(self)@[a as int].requires_grad,
                    op,
                },
            ),
    {
        let x = self.nodes[a];
        let data = match op {
            Op::Neg(_) => x.data.neg(),
            Op::Pow(_, n) => x.data.pow(n),
            _ => x.data.relu(),
        };
        proof {
            let n = Node { data, grad: Fixed { raw: 0 }, requires_grad: x.requires_grad, op };
            let s = self@.push(n);
            let ops = operands(op);
            assert(s[ops[0]] == x);
        }
        self.push(data, x.requires_grad, op)
    }
    /// A new node `a + b`.
    pub fn add(&mut self, a: usize, b: usize) -> (r: usize)
        requires
            old(self).wf(),
            old(self)@.len() < usize::MAX,
            a < old(self)@.len(),
            b < old(self)@.len(),
        ensures
            final(self).wf(),
            r == old(self)@.len(),
            final(self)@ == old(self)@.push(
                Node {
                    data: Fixed { raw: eval(Op::Add(a, b), old(self)@[a as int].data.val(),
                        old(self)@[b as int].data.val()) as i64 },
                    grad: Fixed { raw: 0 },
                    requires_grad: old(self)@[a as int].requires_grad
                        || old(self)@[b as int].requires_grad,
                    op: Op::Add(a, b),
                },
            ),
    {
        self.binary(Op::Add(a, b), a, b)
    }

    /// A new node `a - b`.
    pub fn sub(&mut self, a: usize, b: usize) -> (r: usize)
        requires
            old(self).wf(),
            old(self)@.len() < usize::MAX,
            a < old(self)@.len(),
            b < old(self)@.len(),
        ensures
            final(self).wf(),
            r == old(self)@.len(),
            final(self)@ == old(self)@.push(
                Node {
                    data: Fixed { raw: eval(Op::Sub(a, b), old(self)@[a as int].data.val(),
                        old(self)@[b as int].data.val()) as i64 },
                    grad: Fixed { raw: 0 },
                    requires_grad: old(self)@[a as int].requires_grad
                        || old(self)@[b as int].requires_grad,
                    op: Op::Sub(a, b),
                },
            ),
    {
        self.binary(Op::Sub(a, b), a, b)
    }

    /// A new node `a * b`.
    pub fn mul(&mut self, a: usize, b: usize) -> (r: usize)
        requires
            old(self).wf(),
            old(self)@.len() < usize::MAX,
            a < old(self)@.len(),
            b < old(self)@.len(),
        ensures
            final(self).wf(),
            r == old(self)@.len(),
            final(self)@ == old(self)@.push(
                Node {
                    data: Fixed { raw: eval(Op::Mul(a, b), old(self)@[a as int].data.val(),
                        old(self)@[b as int].data.val()) as i64 },
                    grad: Fixed { raw: 0 },
                    requires_grad: old(self)@[a as int].requires_grad
                        || old(self)@[b as int].requires_grad,
                    op: Op::Mul(a, b),
                },
            ),
    {
        self.binary(Op::Mul(a, b), a, b)
    }

    /// A new node `a / b`.
    pub fn div(&mut self, a: usize, b: usize) -> (r: usize)
        requires
            old(self).wf(),
            old(self)@.len() < usize::MAX,
            a < old(self)@.len(),
            b < old(self)@.len(),
        ensures
            final(self).wf(),
            r == old(self)@.len(),
            final(self)@ == old(self)@.push(
                Node {
                    data: Fixed { raw: eval(Op::Div(a, b), old(self)@[a as int].data.val(),
                        old(self)@[b as int].data.val()) as i64 },
                    grad: Fixed { raw: 0 },
                    requires_grad: old(self)@[a as int].requires_grad
                        || old(self)@[b as int].requires_grad,
                    op: Op::Div(a, b),
                },
            ),
    {
        self.binary(Op::Div(a, b), a, b)
    }

    /// A new node `-a`.
    pub fn neg(&mut self, a: usize) -> (r: usize)
        requires
            old(self).wf(),
            old(self)@.len() < usize::MAX,
            a < old(self)@.len(),
        ensures
            final(self).wf(),
            r == old(self)@.len(),
            final(self)@ == old(self)@.push(
                Node {
                    data: Fixed { raw: eval(Op::Neg(a), old(self)@[a as int].data.val(), 0) as i64 },
                    grad: Fixed { raw: 0 },
                    requires_grad: old(self)@[a as int].requires_grad,
                    op: Op::Neg(a),
                },
            ),
    {
        self.unary(Op::Neg(a), a)
    }

    /// A new node `max(a, 0)`.
    pub fn relu(&mut self, a: usize) -> (r: usize)
        requires
            old(self).wf(),
            old(self)@.len() < usize::MAX,
            a < old(self)@.len(),
        ensures
            final(self).wf(),
            r == old(self)@.len(),
            final(self)@ == old(self)@.push(
                Node {
                    data: Fixed { raw: eval(Op::Relu(a), old(self)@[a as int].data.val(), 0) as i64 },
                    grad: Fixed { raw: 0 },
                    requires_grad: old(self)@[a as int].requires_grad,
                    op: Op::Relu(a),
                },
            ),
    {
        self.unary(Op::Relu(a), a)
    }
    /// A new node `a` to the power `n`.
    pub fn pow(&mut self, a: usize, n: u32) -> (r: usize)
        requires
            old(self).wf(),
            old(self)@.len() < usize::MAX,
            a < old(self)@.len(),
        ensures
            final(self).wf(),
            r == old(self)@.len(),
            final(self)@ == old(self)@.push(
                Node {
                    data: Fixed { raw: spec_pow(old(self)@[a as int].data.val(), n as nat) as i64 },
                    grad: Fixed { raw: 0 },
                    requires_grad: old(self)@[a as int].requires_grad,
                    op: Op::Pow(a, n),
                },
            ),
    {
        self.unary(Op::Pow(a, n), a)
    }

    /// Adds `c` to the gradient of node `j`, if it takes part in
    /// differentiation.
    fn accumulate(&mut self, j: usize, c: Fixed)
        requires
            old(self).wf(),
            j < old(self)@.len(),
        ensures
            final(self).wf(),
            same_structure(old(self)@, final(self)@),
            final(self)@ == if old(self)@[j as int].requires_grad {
                old(self)@.update(j as int, Node {
                    grad: Fixed { raw: spec_add(old(self)@[j as int].grad.val(), c.val()) as i64 },
                    ..old(self)@[j as int]
                })
            } else {
                old(self)@
            },
    {
        let mut n = self.nodes[j];
        if n.requires_grad {
            n.grad = n.grad.add(c);
            self.nodes.set(j, n);
            proof {
                lemma_same_structure_wf(old(self)@, self@);
            }
        }
    }

    /// Node `i` passes its gradient on to its operands.
    fn propagate(&mut self, i: usize)
        requires
            old(self).wf(),
            i < old(self)@.len(),
        ensures
            final(self).wf(),
            same_structure(old(self)@, final(self)@),
            grads(final(self)@) == step(old(self)@, grads(old(self)@), i as int),
    {
        let ghost s0 = self@;
        let n = self.nodes[i];
        let u = n.grad;
        proof {
            assert(node_wf(s0, i as int));
        }
        match n.op {
            Op::Leaf => {},
            Op::Add(a, b) => {
                assert(operands(n.op)[0] == a && operands(n.op)[1] == b);
                self.accumulate(a, u);
                self.accumulate(b, u);
            },
            Op::Sub(a, b) => {
                assert(operands(n.op)[0] == a && operands(n.op)[1] == b);
                self.accumulate(a, u);
                self.accumulate(b, u.neg());
            },
            Op::Mul(a, b) => {
                assert(operands(n.op)[0] == a && operands(n.op)[1] == b);
                let da = self.nodes[a].data;
                let db = self.nodes[b].data;
                self.accumulate(a, u.mul(db));
                self.accumulate(b, u.mul(da));
            },
            Op::Div(a, b) => {
                assert(operands(n.op)[0] == a && operands(n.op)[1] == b);
                let db = self.nodes[b].data;
                self.accumulate(a, u.div(db));
                self.accumulate(b, u.mul(n.data).div(db).neg());
            },
            Op::Neg(a) => {
                assert(operands(n.op)[0] == a);
                self.accumulate(a, u.neg());
            },
            Op::Relu(a) => {
                assert(operands(n.op)[0] == a);
                let t = if n.data.raw > 0 { u } else { Fixed::zero() };
                self.accumulate(a, t);
            },
            Op::Pow(a, e) => {
                assert(operands(n.op)[0] == a);
                let t = if e == 0 {
                    Fixed::zero()
                } else {
                    let x = self.nodes[a].data;
                    u.mul(Fixed::from_int(e as i64).mul(x.pow(e - 1)))
                };
                self.accumulate(a, t);
            },
        }
        assert(grads(self@) =~= step(s0, grads(s0), i as int));
    }

    /// Marks the operands of node `i`.
    fn mark_operands(&self, marks: &mut Vec<bool>, i: usize)
        requires
            self.wf(),
            i < self@.len(),
            old(marks)@.len() == self@.len(),
        ensures
            final(marks)@ == Seq::new(old(marks)@.len(), |j: int| old(marks)@[j] || is_operand(self@, i as int, j)),
    {
        let ghost m0 = marks@;
        proof {
            assert(node_wf(self@, i as int));
        }
        let op = self.nodes[i].op;
        let ghost ops = operands(op);
        match op {
            Op::Leaf => {},
            Op::Add(a, b) | Op::Sub(a, b) | Op::Mul(a, b) | Op::Div(a, b) => {
                assert(ops[0] == a && ops[1] == b);
                marks.set(a, true);
                marks.set(b, true);
            },
            Op::Neg(a) | Op::Relu(a) | Op::Pow(a, _) => {
                assert(ops[0] == a);
                marks.set(a, true);
            },
        }
        assert(marks@ =~= Seq::new(m0.len(), |j: int| m0[j] || is_operand(self@, i as int, j)));
    }

    /// Backward pass from `root`: seeds its gradient with one, then visits
    /// the nodes reachable from it in descending order, consumers before
    /// their operands, and lets each pass its gradient on. A root that takes
    /// no part in differentiation changes nothing.
    pub fn backward(&mut self, root: usize)
        requires
            old(self).wf(),
            root < old(self)@.len(),
        ensures
            final(self).wf(),
            same_structure(old(self)@, final(self)@),
            grads(final(self)@) == backward_grads(old(self)@, root as int),
    {
        if !self.nodes[root].requires_grad {
            return;
        }
        let ghost s0 = self@;
        let len = self.nodes.len();
        let mut marks: Vec<bool> = Vec::new();
        let mut j: usize = 0;
        while j < len
            invariant
                j <= len,
                marks@.len() == j,
                forall|x: int| 0 <= x < j ==> marks@[x] == (x == root),
            decreases len - j,
        {
            marks.push(j == root);
            j += 1;
        }
        assert(marks@ =~= start_marks(len as nat, root as int));
        let mut n = self.nodes[root];
        n.grad = Fixed::one();
        self.nodes.set(root, n);
        proof {
            lemma_same_structure_wf(s0, self@);
            assert(grads(self@) =~= seeded(s0, root as int));
        }
        let mut i: usize = root + 1;
        while i > 0
            invariant
                self.wf(),
                root < len == s0.len(),
                same_structure(s0, self@),
                i <= root + 1,
                s0.len() == self@.len(),
                marks@.len() == len,
                run(s0, grads(self@), marks@, i - 1) == run(s0, seeded(s0, root as int),
                    start_marks(len as nat, root as int), root as int),
            decreases i,
        {
            i -= 1;
            let ghost g = grads(self@);
            let ghost m = marks@;
            if marks[i] {
                let ghost cur = self@;
                self.propagate(i);
                proof {
                    lemma_step_structure(cur, s0, g, i as int);
                }
                self.mark_operands(&mut marks, i);
                proof {
                    assert(self@[i as int].op == s0[i as int].op);
                    assert(marks@ =~= mark_step(s0, m, i as int));
                }
            }
        }
    }

    /// Resets every gradient to zero.
    pub fn zero_grad(&mut self)
        requires
            old(self).wf(),
        ensures
            final(self).wf(),
            same_structure(old(self)@, final(self)@),
            forall|j: int| 0 <= j < final(self)@.len() ==> final(self)@[j].grad.val() == 0,
    {
        let ghost s0 = self@;
        let mut i: usize = 0;
        while i < self.nodes.len()
            invariant
                self.wf(),
                same_structure(s0, self@),
                i <= self@.len(),
                forall|j: int| 0 <= j < i ==> self@[j].grad.val() == 0,
            decreases self@.len() - i,
        {
            let mut n = self.nodes[i];
            n.grad = Fixed::zero();
            let ghost prev = self@;
            self.nodes.set(i, n);
            proof {
                lemma_same_structure_wf(prev, self@);
            }
            i += 1;
        }
    }

    /// Overwrites the value of node `id`; gradients and structure stay.
    pub(crate) fn set_data(&mut self, id: usize, data: Fixed)
        requires
            old(self).wf(),
            id < old(self)@.len(),
        ensures
            final(self).wf(),
            final(self)@ == old(self)@.update(id as int, Node { data, ..old(self)@[id as int] }),
    {
        let mut n = self.nodes[id];
        n.data = data;
        let ghost prev = self@;
        self.nodes.set(id, n);
        proof {
            assert forall|i: int| 0 <= i < self@.len() implies #[trigger] node_wf(self@, i) by {
                assert(node_wf(prev, i));
                let ops = operands(prev[i].op);
                assert forall|k: int| 0 <= k < ops.len() implies self@[#[trigger] ops[k]].requires_grad
                    == prev[ops[k]].requires_grad by {}
            }
        }
    }
    /// Resets the gradient of node `id` to zero.
    pub(crate) fn clear_grad(&mut self, id: usize)
        requires
            old(self).wf(),
            id < old(self)@.len(),
        ensures
            final(self).wf(),
            final(self)@ == old(self)@.update(id as int, Node { grad: Fixed { raw: 0 }, ..old(self)@[id as int] }),
    {
        let mut n = self.nodes[id];
        n.grad = Fixed::zero();
        let ghost prev = self@;
        self.nodes.set(id, n);
        proof {
            lemma_same_structure_wf(prev, self@);
        }
    }
}

} // verus!
