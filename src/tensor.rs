//! Two-dimensional tensors: shaped, row-major lists of graph nodes.
//!
//! A tensor holds no gradient of its own; its operations create ordinary
//! scalar nodes, so backward passes differentiate through them unchanged.
use vstd::prelude::*;
use crate::fixed::{Fixed, SCALE, clamp, spec_add, spec_mul, spec_div};
use crate::graph::{Graph, Node, Op, eval};

verus! {

#[derive(Clone, Copy, Debug, PartialEq, Eq, Structural)]
pub enum ShapeError {
    /// The shapes cannot be broadcast together, or the data does not fill
    /// the shape.
    Mismatch,
    /// The result would not fit in the graph.
    TooLarge,
}

/// Broadcasting along one axis: equal sizes, or one side of size 1.
pub open spec fn broadcast_dim(a: nat, b: nat) -> Option<nat> {
    if a == b {
        Some(a)
    } else if a == 1 {
        Some(b)
    } else if b == 1 {
        Some(a)
    } else {
        None
    }
}

/// The flat index read from a tensor of shape `(rows, cols)` for output
/// position `(i, j)`: an axis of size 1 is repeated.
pub open spec fn source_index(rows: nat, cols: nat, i: nat, j: nat) -> int {
    (if rows == 1 { 0 } else { i as int }) * cols + (if cols == 1 { 0 } else { j as int })
}

/// Output element `p` of a broadcast sum with `cols` columns: an `Add` node
/// of the elements it reads from `a` and `b`.
pub open spec fn sum_node(a: Tensor, b: Tensor, nodes: Seq<Node>, cols: nat, p: int) -> Node {
    let i = (p / cols as int) as nat;
    let j = (p % cols as int) as nat;
    let x = a.ids@[source_index(a.rows as nat, a.cols as nat, i, j)];
    let y = b.ids@[source_index(b.rows as nat, b.cols as nat, i, j)];
    Node {
        data: Fixed { raw: spec_add(nodes[x as int].data.val(), nodes[y as int].data.val()) as i64 },
        grad: Fixed { raw: 0 },
        requires_grad: nodes[x as int].requires_grad || nodes[y as int].requires_grad,
        op: Op::Add(x, y),
    }
}

/// A fresh leaf holding `data`.
pub open spec fn leaf_node(data: Fixed, requires_grad: bool) -> Node {
    Node { data, grad: Fixed { raw: 0 }, requires_grad, op: Op::Leaf }
}

/// `t` is a new `(rows, cols)` tensor of leaves appended to `n0`, giving
/// `n1`, holding `values` in row-major order.
pub open spec fn leaves_made(
    t: Tensor,
    rows: usize,
    cols: usize,
    values: Seq<Fixed>,
    requires_grad: bool,
    n0: Seq<Node>,
    n1: Seq<Node>,
) -> bool {
    &&& t.rows == rows && t.cols == cols
    &&& t.wf_in(n1.len())
    &&& n1.len() == n0.len() + values.len()
    &&& forall|j: int| 0 <= j < n0.len() ==> #[trigger] n1[j] == n0[j]
    &&& forall|k: int| 0 <= k < values.len() ==> {
        &&& #[trigger] t.ids@[k] == n0.len() + k
        &&& n1[n0.len() + k] == leaf_node(values[k], requires_grad)
    }
}

/// `t` is the broadcast sum of `a` and `b`, its nodes appended to `n0`,
/// giving `n1`.
pub open spec fn sum_made(a: Tensor, b: Tensor, t: Tensor, n0: Seq<Node>, n1: Seq<Node>) -> bool {
    &&& broadcast_dim(a.rows as nat, b.rows as nat) == Some(t.rows as nat)
    &&& broadcast_dim(a.cols as nat, b.cols as nat) == Some(t.cols as nat)
    &&& t.wf_in(n1.len())
    &&& n1.len() == n0.len() + t.ids@.len()
    &&& forall|j: int| 0 <= j < n0.len() ==> #[trigger] n1[j] == n0[j]
    &&& forall|p: int| 0 <= p < t.ids@.len() ==> {
        &&& #[trigger] t.ids@[p] == n0.len() + p
        &&& n1[n0.len() + p] == sum_node(a, b, n0, t.cols as nat, p)
    }
}

/// The saturating sum of the values of the nodes `ids[0..k]`, added left
/// to right.
pub open spec fn fold_sum(nodes: Seq<Node>, ids: Seq<usize>, k: int) -> int
    decreases k,
{
    if k <= 0 {
        0
    } else {
        spec_add(fold_sum(nodes, ids, k - 1), nodes[ids[k - 1] as int].data.val())
    }
}

/// The saturating dot product of row `i` of `a` and column `j` of `b` over
/// their first `k` terms, added left to right.
pub open spec fn dot(nodes: Seq<Node>, a: Tensor, b: Tensor, i: int, j: int, k: int) -> int
    decreases k,
{
    if k <= 0 {
        0
    } else {
        spec_add(
            dot(nodes, a, b, i, j, k - 1),
            spec_mul(
                nodes[a.ids@[i * a.cols + (k - 1)] as int].data.val(),
                nodes[b.ids@[(k - 1) * b.cols + j] as int].data.val(),
            ),
        )
    }
}

/// Nodes that a product of `(rows, inner)` by `(inner, cols)` creates: per
/// output element, a zero leaf and a product and a sum per term.
pub open spec fn product_size(rows: nat, inner: nat, cols: nat) -> nat {
    rows * cols * (1 + 2 * inner)
}

/// `t` is the matrix product of `a` and `b`, its nodes appended to `n0`,
/// giving `n1`: element `p` holds the dot product of its row and column.
pub open spec fn product_made(a: Tensor, b: Tensor, t: Tensor, n0: Seq<Node>, n1: Seq<Node>) -> bool {
    &&& t.rows == a.rows && t.cols == b.cols
    &&& t.wf_in(n1.len())
    &&& n1.len() == n0.len() + product_size(a.rows as nat, a.cols as nat, b.cols as nat)
    &&& forall|j: int| 0 <= j < n0.len() ==> #[trigger] n1[j] == n0[j]
    &&& forall|p: int| 0 <= p < t.ids@.len() ==> #[trigger] n1[t.ids@[p] as int].data.val() == dot(
        n0, a, b, p / t.cols as int, p % t.cols as int, a.cols as int)
}

pub struct Tensor {
    pub rows: usize,
    pub cols: usize,
    pub ids: Vec<usize>,
}

proof fn lemma_index_bound(i: int, j: int, rows: int, cols: int)
    requires
        0 <= i < rows,
        0 <= j < cols,
    ensures
        0 <= i * cols + j < rows * cols,
{
    assert(i * cols + j < rows * cols) by (nonlinear_arith)
        requires 0 <= i < rows, 0 <= j < cols;
    assert(0 <= i * cols) by (nonlinear_arith)
        requires 0 <= i, 0 <= cols;
}

proof fn lemma_div_mod_bound(p: int, rows: int, cols: int)
    requires
        0 <= p < rows * cols,
        0 <= rows,
        0 <= cols,
    ensures
        cols > 0,
        0 <= p / cols < rows,
        0 <= p % cols < cols,
{
    if cols == 0 {
        assert(rows * cols == 0);
    }
    assert(p / cols < rows) by (nonlinear_arith)
        requires 0 <= p < rows * cols, cols > 0;
}

fn src_exec(rows: usize, cols: usize, i: usize, j: usize) -> (r: usize)
    requires
        i < rows || rows == 1,
        j < cols || cols == 1,
        rows >= 1,
        cols >= 1,
        rows * cols <= usize::MAX,
    ensures
        r == source_index(rows as nat, cols as nat, i as nat, j as nat),
        r < rows * cols,
{
    let ii: usize = if rows == 1 { 0 } else { i };
    let jj: usize = if cols == 1 { 0 } else { j };
    proof {
        lemma_index_bound(ii as int, jj as int, rows as int, cols as int);
    }
    ii * cols + jj
}

impl Tensor {
    /// Every element is a node of a graph with `len` nodes, and the element
    /// count is the product of the dimensions.
    pub open spec fn wf_in(&self, len: nat) -> bool {
        &&& self.ids@.len() == self.rows * self.cols
        &&& forall|k: int| 0 <= k < self.ids@.len() ==> #[trigger] self.ids@[k] < len
    }

    pub fn shape(&self) -> (r: (usize, usize))
        ensures
            r == (self.rows, self.cols),
    {
        (self.rows, self.cols)
    }

    pub fn len(&self) -> (r: usize)
        ensures
            r == self.ids@.len(),
    {
        self.ids.len()
    }

    pub fn is_empty(&self) -> (r: bool)
        ensures
            r == (self.ids@.len() == 0),
    {
        self.ids.len() == 0
    }

    /// A tensor of new leaves holding `values` in row-major order.
    pub fn from_values(
        graph: &mut Graph,
        rows: usize,
        cols: usize,
        values: &Vec<Fixed>,
        requires_grad: bool,
    ) -> (r: Result<Tensor, ShapeError>)
        requires
            old(graph).wf(),
        ensures
            final(graph).wf(),
            (r == Err::<Tensor, ShapeError>(ShapeError::Mismatch)) <==> values@.len() != rows * cols,
            (r == Err::<Tensor, ShapeError>(ShapeError::TooLarge)) <==> (values@.len() == rows * cols
                && old(graph)@.len() + values@.len() >= usize::MAX),
            r is Err ==> final(graph)@ == old(graph)@,
            r is Ok ==> leaves_made(r->Ok_0, rows, cols, values@, requires_grad, old(graph)@, final(graph)@),
    {
        let n = values.len();
        assert((rows as u128) * (cols as u128) <= 0xffff_ffff_ffff_ffff_ffff_ffff_ffff_ffff) by (nonlinear_arith)
            requires rows <= usize::MAX, cols <= usize::MAX, usize::MAX <= 0xffff_ffff_ffff_ffff;
        if (rows as u128) * (cols as u128) != n as u128 {
            return Err(ShapeError::Mismatch);
        }
        let base = graph.len();
        if n >= usize::MAX - base {
            return Err(ShapeError::TooLarge);
        }
        let ghost g0 = graph@;
        let mut ids: Vec<usize> = Vec::new();
        let mut k: usize = 0;
        while k < n
            invariant
                n == values@.len(),
                base == g0.len(),
                n < usize::MAX - base,
                k <= n,
                graph.wf(),
                graph@.len() == base + k,
                ids@.len() == k,
                forall|j: int| 0 <= j < base ==> #[trigger] graph@[j] == g0[j],
                forall|q: int| 0 <= q < k ==> #[trigger] ids@[q] == base + q,
                forall|q: int| 0 <= q < k ==> #[trigger] graph@[base + q] == leaf_node(values@[q], requires_grad),
            decreases n - k,
        {
            let ghost prev = graph@;
            let ghost prev_ids = ids@;
            let id = graph.leaf(values[k], requires_grad);
            ids.push(id);
            proof {
                assert(ids@[k as int] == base + k);
                assert(graph@[base + k] == prev.push(Node {
                    data: values@[k as int],
                    grad: Fixed { raw: 0 },
                    requires_grad,
                    op: Op::Leaf,
                })[base + k]);
                assert forall|q: int| 0 <= q < k + 1 implies #[trigger] ids@[q] == base + q by {
                    if q < k {
                        assert(prev_ids[q] == ids@[q]);
                    }
                }
                assert forall|q: int| 0 <= q < k + 1 implies #[trigger] graph@[base + q] == leaf_node(values@[q], requires_grad) by {
                    if q < k {
                        assert(prev[base + q] == graph@[base + q]);
                    }
                }
            }
            k += 1;
        }
        assert forall|q: int| 0 <= q < ids@.len() implies #[trigger] ids@[q] < graph@.len() by {
            assert(ids@[q] == base + q);
        }
        let t = Tensor { rows, cols, ids };
        assert(t.wf_in(graph@.len()));
        assert forall|k: int| 0 <= k < values@.len() implies {
            &&& #[trigger] t.ids@[k] == g0.len() + k
            &&& graph@[g0.len() + k] == leaf_node(values@[k], requires_grad)
        } by {
            assert(t.ids@[k] == ids@[k]);
            assert(graph@[base + k] == leaf_node(values@[k], requires_grad));
        }
        assert(leaves_made(t, rows, cols, values@, requires_grad, g0, graph@));
        Ok(t)
    }

    /// Elementwise sum with broadcasting: the result has the broadcast
    /// shape, and its element `(i, j)` is a new `Add` node of the elements
    /// that position reads from each side.
    pub fn add(&self, graph: &mut Graph, other: &Tensor) -> (r: Result<Tensor, ShapeError>)
        requires
            old(graph).wf(),
            self.wf_in(old(graph)@.len()),
            other.wf_in(old(graph)@.len()),
        ensures
            final(graph).wf(),
            (r == Err::<Tensor, ShapeError>(ShapeError::Mismatch)) <==> (broadcast_dim(
                self.rows as nat, other.rows as nat) is None || broadcast_dim(self.cols as nat, other.cols as nat) is None),
            r is Err ==> final(graph)@ == old(graph)@,
            r is Ok ==> sum_made(*self, *other, r->Ok_0, old(graph)@, final(graph)@),
    {
        let rows = if self.rows == other.rows || other.rows == 1 {
            self.rows
        } else if self.rows == 1 {
            other.rows
        } else {
            return Err(ShapeError::Mismatch);
        };
        let cols = if self.cols == other.cols || other.cols == 1 {
            self.cols
        } else if self.cols == 1 {
            other.cols
        } else {
            return Err(ShapeError::Mismatch);
        };
        let base = graph.len();
        assert((rows as u128) * (cols as u128) <= 0xffff_ffff_ffff_ffff_ffff_ffff_ffff_ffff) by (nonlinear_arith)
            requires rows <= usize::MAX, cols <= usize::MAX, usize::MAX <= 0xffff_ffff_ffff_ffff;
        let wide: u128 = (rows as u128) * (cols as u128);
        if wide >= (usize::MAX - base) as u128 {
            return Err(ShapeError::TooLarge);
        }
        let n: usize = wide as usize;
        let ghost g0 = graph@;
        let mut ids: Vec<usize> = Vec::new();
        let mut p: usize = 0;
        while p < n
            invariant
                n == rows * cols,
                base == g0.len(),
                n < usize::MAX - base,
                self.wf_in(g0.len()),
                other.wf_in(g0.len()),
                broadcast_dim(self.rows as nat, other.rows as nat) == Some(rows as nat),
                broadcast_dim(self.cols as nat, other.cols as nat) == Some(cols as nat),
                p <= n,
                graph.wf(),
                graph@.len() == base + p,
                ids@.len() == p,
                forall|j: int| 0 <= j < base ==> #[trigger] graph@[j] == g0[j],
                forall|q: int| 0 <= q < p ==> #[trigger] ids@[q] == base + q,
                forall|q: int| 0 <= q < p ==> graph@[base + q] == #[trigger] sum_node(*self, *other, g0, cols as nat, q),
            decreases n - p,
        {
            proof {
                lemma_div_mod_bound(p as int, rows as int, cols as int);
            }
            let i = p / cols;
            let j = p % cols;
            let sa = src_exec(self.rows, self.cols, i, j);
            let sb = src_exec(other.rows, other.cols, i, j);
            let x = self.ids[sa];
            let y = other.ids[sb];
            let ghost prev = graph@;
            let ghost prev_ids = ids@;
            let id = graph.add(x, y);
            ids.push(id);
            proof {
                assert(ids@[p as int] == base + p);
                assert(i == (p as int / cols as int) as nat);
                assert(j == (p as int % cols as int) as nat);
                assert(prev[x as int] == g0[x as int]);
                assert(prev[y as int] == g0[y as int]);
                assert forall|q: int| 0 <= q < p + 1 implies #[trigger] ids@[q] == base + q by {
                    if q < p {
                        assert(prev_ids[q] == ids@[q]);
                    }
                }
                assert forall|q: int| 0 <= q < p + 1 implies graph@[base + q] == #[trigger] sum_node(*self, *other, g0, cols as nat, q) by {
                    if q < p {
                        assert(prev_ids[q] == ids@[q]);
                        assert(prev[base + q] == graph@[base + q]);
                    } else {
                        assert(q == p);
                        assert(graph@[base + q] == (Node {
                            data: Fixed { raw: eval(Op::Add(x, y), prev[x as int].data.val(), prev[y as int].data.val()) as i64 },
                            grad: Fixed { raw: 0 },
                            requires_grad: prev[x as int].requires_grad || prev[y as int].requires_grad,
                            op: Op::Add(x, y),
                        }));
                        assert(sum_node(*self, *other, g0, cols as nat, q) == (Node {
                            data: Fixed { raw: spec_add(g0[x as int].data.val(), g0[y as int].data.val()) as i64 },
                            grad: Fixed { raw: 0 },
                            requires_grad: g0[x as int].requires_grad || g0[y as int].requires_grad,
                            op: Op::Add(x, y),
                        }));
                    }
                }
            }
            p += 1;
        }
        assert forall|q: int| 0 <= q < ids@.len() implies #[trigger] ids@[q] < graph@.len() by {
            assert(ids@[q] == base + q);
        }
        let t = Tensor { rows, cols, ids };
        assert(t.wf_in(graph@.len()));
        assert forall|q: int| 0 <= q < t.ids@.len() implies {
            &&& #[trigger] t.ids@[q] == base + q
            &&& graph@[base + q] == sum_node(*self, *other, g0, t.cols as nat, q)
        } by {
            assert(t.ids@[q] == ids@[q]);
            assert(graph@[base + q] == sum_node(*self, *other, g0, cols as nat, q));
        }
        assert(sum_made(*self, *other, t, g0, graph@));
        Ok(t)
    }
    /// Sums every element into one scalar node, returned: a constant zero
    /// leaf followed by one `Add` node per element, in row-major order.
    pub fn sum(&self, graph: &mut Graph) -> (r: Option<usize>)
        requires
            old(graph).wf(),
            self.wf_in(old(graph)@.len()),
        ensures
            final(graph).wf(),
            r is None <==> old(graph)@.len() + self.ids@.len() + 1 >= usize::MAX,
            r is None ==> final(graph)@ == old(graph)@,
            r is Some ==> {
                &&& r->Some_0 + 1 == final(graph)@.len()
                &&& final(graph)@.len() == old(graph)@.len() + self.ids@.len() + 1
                &&& final(graph)@[r->Some_0 as int].data.val() == fold_sum(old(graph)@, self.ids@, self.ids@.len() as int)
                &&& forall|j: int| 0 <= j < old(graph)@.len() ==> #[trigger] final(graph)@[j] == old(graph)@[j]
            },
    {
        let n = self.ids.len();
        let base = graph.len();
        if base >= usize::MAX - 1 || n >= usize::MAX - 1 - base {
            return None;
        }
        let ghost g0 = graph@;
        let mut acc = graph.leaf(Fixed::zero(), false);
        let mut k: usize = 0;
        while k < n
            invariant
                n == self.ids@.len(),
                base == g0.len(),
                n < usize::MAX - 1 - base,
                self.wf_in(g0.len()),
                k <= n,
                graph.wf(),
                graph@.len() == base + k + 1,
                acc + 1 == graph@.len(),
                graph@[acc as int].data.val() == fold_sum(g0, self.ids@, k as int),
                forall|j: int| 0 <= j < base ==> #[trigger] graph@[j] == g0[j],
            decreases n - k,
        {
            let x = self.ids[k];
            assert(graph@[x as int] == g0[x as int]);
            acc = graph.add(acc, x);
            k += 1;
        }
        Some(acc)
    }
    /// Matrix product: element `(i, j)` is a chain of ordinary `Mul` and
    /// `Add` nodes summing row `i` of `self` times column `j` of `other`,
    /// starting from a constant zero leaf.
    pub fn matmul(&self, graph: &mut Graph, other: &Tensor) -> (r: Result<Tensor, ShapeError>)
        requires
            old(graph).wf(),
            self.wf_in(old(graph)@.len()),
            other.wf_in(old(graph)@.len()),
        ensures
            final(graph).wf(),
            (r == Err::<Tensor, ShapeError>(ShapeError::Mismatch)) <==> self.cols != other.rows,
            (r == Err::<Tensor, ShapeError>(ShapeError::TooLarge)) <==> (self.cols == other.rows
                && old(graph)@.len() + product_size(self.rows as nat, self.cols as nat, other.cols as nat)
                >= usize::MAX),
            r is Err ==> final(graph)@ == old(graph)@,
            r is Ok ==> product_made(*self, *other, r->Ok_0, old(graph)@, final(graph)@),
    {
        if self.cols != other.rows {
            return Err(ShapeError::Mismatch);
        }
        let rows = self.rows;
        let inner = self.cols;
        let cols = other.cols;
        let base = graph.len();
        assert((rows as u128) * (cols as u128) <= 0xffff_ffff_ffff_ffff_ffff_ffff_ffff_ffff) by (nonlinear_arith)
            requires rows <= usize::MAX, cols <= usize::MAX, usize::MAX <= 0xffff_ffff_ffff_ffff;
        let cnt: u128 = (rows as u128) * (cols as u128);
        let per: u128 = 1 + 2 * (inner as u128);
        let ghost size = product_size(rows as nat, inner as nat, cols as nat);
        assert(size == cnt * per);
        let room: u128 = (usize::MAX - base) as u128;
        let too_large = if cnt == 0 {
            room == 0
        } else if cnt >= 0x1_0000_0000_0000_0000 {
            assert(cnt * per >= cnt) by (nonlinear_arith)
                requires per >= 1, cnt >= 0;
            true
        } else if per >= 0x1_0000_0000_0000_0000 {
            assert(cnt * per >= per) by (nonlinear_arith)
                requires per >= 1, cnt >= 1;
            true
        } else {
            assert(cnt * per < 0x1_0000_0000_0000_0000_0000_0000_0000_0000) by (nonlinear_arith)
                requires cnt < 0x1_0000_0000_0000_0000, per < 0x1_0000_0000_0000_0000;
            cnt * per >= room
        };
        if too_large {
            return Err(ShapeError::TooLarge);
        }
        if cnt == 0 {
            let t = Tensor { rows, cols, ids: Vec::new() };
            assert(product_size(rows as nat, inner as nat, cols as nat) == 0) by (nonlinear_arith)
                requires rows * cols == 0;
            return Ok(t);
        }
        assert(cnt < 0x1_0000_0000_0000_0000 && per < 0x1_0000_0000_0000_0000);
        assert(cnt * per < room);
        assert(cnt <= cnt * per && per <= cnt * per) by (nonlinear_arith)
            requires cnt >= 1, per >= 1;
        let alen = self.ids.len();
        let blen = other.ids.len();
        let total: usize = cnt as usize;
        let perz: usize = per as usize;
        let ghost g0 = graph@;
        let mut ids: Vec<usize> = Vec::new();
        let mut p: usize = 0;
        while p < total
            invariant
                total == rows * cols,
                perz == 1 + 2 * inner,
                inner == self.cols,
                rows == self.rows,
                cols == other.cols,
                other.rows == inner,
                base == g0.len(),
                base + total * perz < usize::MAX,
                self.wf_in(g0.len()),
                other.wf_in(g0.len()),
                alen == self.ids@.len(),
                blen == other.ids@.len(),
                p <= total,
                graph.wf(),
                graph@.len() == base + p * perz,
                ids@.len() == p,
                forall|x: int| 0 <= x < base ==> #[trigger] graph@[x] == g0[x],
                forall|q: int| 0 <= q < p ==> #[trigger] ids@[q] < graph@.len(),
                forall|q: int| 0 <= q < p ==> #[trigger] graph@[ids@[q] as int].data.val() == dot(
                    g0, *self, *other, q / cols as int, q % cols as int, inner as int),
            decreases total - p,
        {
            proof {
                lemma_div_mod_bound(p as int, rows as int, cols as int);
                assert((p + 1) * perz <= total * perz) by (nonlinear_arith)
                    requires p + 1 <= total, perz >= 0;
                assert((p + 1) * perz == p * perz + perz) by (nonlinear_arith);
            }
            let i = p / cols;
            let j = p % cols;
            let ghost start = graph@;
            let mut acc = graph.leaf(Fixed::zero(), false);
            let mut k: usize = 0;
            while k < inner
                invariant
                    i < rows,
                    j < cols,
                    inner == self.cols,
                    rows == self.rows,
                    cols == other.cols,
                    other.rows == inner,
                    base == g0.len(),
                    start.len() == base + p * perz,
                    start.len() + perz < usize::MAX,
                    perz == 1 + 2 * inner,
                    self.wf_in(g0.len()),
                    other.wf_in(g0.len()),
                    alen == self.ids@.len(),
                    blen == other.ids@.len(),
                    k <= inner,
                    graph.wf(),
                    graph@.len() == start.len() + 1 + 2 * k,
                    acc < graph@.len(),
                    forall|x: int| 0 <= x < start.len() ==> #[trigger] graph@[x] == start[x],
                    forall|x: int| 0 <= x < base ==> #[trigger] g0[x] == start[x],
                    graph@[acc as int].data.val() == dot(g0, *self, *other, i as int, j as int, k as int),
                decreases inner - k,
            {
                proof {
                    lemma_index_bound(i as int, k as int, rows as int, inner as int);
                    lemma_index_bound(k as int, j as int, inner as int, cols as int);
                }
                let x = self.ids[i * inner + k];
                let y = other.ids[k * cols + j];
                assert(graph@[x as int] == g0[x as int]);
                assert(graph@[y as int] == g0[y as int]);
                let m = graph.mul(x, y);
                acc = graph.add(acc, m);
                k += 1;
            }
            let ghost prev_ids = ids@;
            ids.push(acc);
            proof {
                assert(i == p as int / cols as int);
                assert(j == p as int % cols as int);
                assert forall|q: int| 0 <= q < p + 1 implies #[trigger] ids@[q] < graph@.len() by {
                    if q < p {
                        assert(prev_ids[q] == ids@[q]);
                    }
                }
                assert forall|q: int| 0 <= q < p + 1 implies #[trigger] graph@[ids@[q] as int].data.val() == dot(
                    g0, *self, *other, q / cols as int, q % cols as int, inner as int) by {
                    if q < p {
                        assert(prev_ids[q] == ids@[q]);
                        assert(graph@[ids@[q] as int] == start[ids@[q] as int]);
                    }
                }
            }
            p += 1;
        }
        let t = Tensor { rows, cols, ids };
        assert(t.wf_in(graph@.len()));
        assert forall|q: int| 0 <= q < t.ids@.len() implies #[trigger] graph@[t.ids@[q] as int].data.val() == dot(
            g0, *self, *other, q / t.cols as int, q % t.cols as int, self.cols as int) by {
            assert(t.ids@[q] == ids@[q]);
        }
        assert(graph@.len() == g0.len() + product_size(rows as nat, inner as nat, cols as nat));
        Ok(t)
    }
    /// The mean of every element: their sum (as `sum` builds it) divided by
    /// a constant leaf holding the element count.
    pub fn mean(&self, graph: &mut Graph) -> (r: Option<usize>)
        requires
            old(graph).wf(),
            self.wf_in(old(graph)@.len()),
        ensures
            final(graph).wf(),
            r is None <==> (old(graph)@.len() + self.ids@.len() + 3 >= usize::MAX
                || self.ids@.len() > i64::MAX),
            r is None ==> final(graph)@ == old(graph)@,
            r is Some ==> {
                &&& r->Some_0 + 1 == final(graph)@.len()
                &&& final(graph)@.len() == old(graph)@.len() + self.ids@.len() + 3
                &&& final(graph)@[r->Some_0 as int].data.val() == spec_div(
                    fold_sum(old(graph)@, self.ids@, self.ids@.len() as int),
                    clamp(self.ids@.len() * SCALE),
                )
                &&& forall|j: int| 0 <= j < old(graph)@.len() ==> #[trigger] final(graph)@[j] == old(graph)@[j]
            },
    {
        let n = self.ids.len();
        let base = graph.len();
        if n as u64 > i64::MAX as u64 || base >= usize::MAX - 3 || n >= usize::MAX - 3 - base {
            return None;
        }
        let ghost g0 = graph@;
        match self.sum(graph) {
            Some(s) => {
                let c = graph.leaf(Fixed::from_int(n as i64), false);
                let m = graph.div(s, c);
                Some(m)
            },
            None => None,
        }
    }
}

} // verus!
