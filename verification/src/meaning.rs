//! What the steps of a plan compute.
//!
//! A tensor is a function from indices to real numbers. Arithmetic is exact:
//! rounding and overflow of the element types are left out. Functions beyond
//! arithmetic (the exponential, recurrent layers and the like) are whatever a
//! reading takes them to be.
use crate::builder::{BinaryOp, ConstDataV, Direction, OpV, OperandV, ReduceOp, UnaryOp};
use crate::bytes;
use crate::floats::FloatBits;
use crate::types::DataType;
use vstd::arithmetic::power2::{lemma_pow2_pos, pow2};
use vstd::prelude::*;

verus! {

// ---------------------------------------------------------------------------
// Indices
// ---------------------------------------------------------------------------

/// The number of elements of a shape.
pub open spec fn size(shape: Seq<int>) -> int
    decreases shape.len(),
{
    if shape.len() == 0 {
        1
    } else {
        size(shape.drop_last()) * shape.last()
    }
}

/// The index names an element of the shape.
pub open spec fn valid(i: Seq<int>, shape: Seq<int>) -> bool {
    i.len() == shape.len() && forall|a: int| 0 <= a < i.len() ==> 0 <= #[trigger] i[a] < shape[a]
}

/// The place of an element in row-major order.
pub open spec fn place(i: Seq<int>, shape: Seq<int>) -> int
    decreases shape.len(),
{
    if shape.len() == 0 {
        0
    } else {
        place(i.drop_last(), shape.drop_last()) * shape.last() + i.last()
    }
}

/// The index of the element at a place.
pub open spec fn index_at(n: int, shape: Seq<int>) -> Seq<int>
    decreases shape.len(),
{
    if shape.len() == 0 {
        seq![]
    } else {
        index_at(n / shape.last(), shape.drop_last()).push(n % shape.last())
    }
}

pub proof fn lemma_place(i: Seq<int>, shape: Seq<int>)
    requires
        valid(i, shape),
    ensures
        0 <= place(i, shape) < size(shape),
        index_at(place(i, shape), shape) == i,
    decreases shape.len(),
{
    if shape.len() > 0 {
        let f = i.drop_last();
        let g = shape.drop_last();
        assert forall|a: int| 0 <= a < f.len() implies 0 <= #[trigger] f[a] < g[a] by {
            assert(f[a] == i[a]);
        }
        lemma_place(f, g);
        let p = place(f, g);
        let d = shape.last();
        let x = i.last();
        assert(0 <= i[i.len() - 1] < shape[shape.len() - 1]);
        assert(0 <= p * d + x < size(g) * d) by (nonlinear_arith)
            requires
                0 <= p < size(g),
                0 <= x < d,
        ;
        vstd::arithmetic::div_mod::lemma_fundamental_div_mod_converse(p * d + x, d, p, x);
        assert(f.push(x) =~= i);
    } else {
        assert(i =~= seq![]);
    }
}

pub proof fn lemma_index_at(n: int, shape: Seq<int>)
    requires
        0 <= n < size(shape),
        forall|a: int| 0 <= a < shape.len() ==> #[trigger] shape[a] >= 0,
    ensures
        valid(index_at(n, shape), shape),
        place(index_at(n, shape), shape) == n,
    decreases shape.len(),
{
    if shape.len() > 0 {
        let g = shape.drop_last();
        let d = shape.last();
        assert(shape[shape.len() - 1] >= 0);
        assert(d > 0) by (nonlinear_arith)
            requires
                0 < size(g) * d,
                d >= 0,
        ;
        assert(0 <= n / d < size(g)) by (nonlinear_arith)
            requires
                0 <= n < size(g) * d,
                d > 0,
        ;
        vstd::arithmetic::div_mod::lemma_fundamental_div_mod(n, d);
        vstd::arithmetic::div_mod::lemma_mod_bound(n, d);
        assert forall|a: int| 0 <= a < g.len() implies #[trigger] g[a] >= 0 by {
            assert(g[a] == shape[a]);
        }
        lemma_index_at(n / d, g);
        let i = index_at(n, shape);
        assert(i.drop_last() =~= index_at(n / d, g));
        assert forall|a: int| 0 <= a < i.len() implies 0 <= #[trigger] i[a] < shape[a] by {
            if a < g.len() {
                assert(i[a] == index_at(n / d, g)[a]);
            }
        }
        assert(place(i, shape) == (n / d) * d + n % d);
        assert((n / d) * d == d * (n / d)) by (nonlinear_arith);
    }
}

/// Places and sizes in few dimensions.
pub proof fn lemma_place_1(i: Seq<int>, s: Seq<int>)
    requires
        i.len() == 1,
        s.len() == 1,
    ensures
        place(i, s) == i[0],
        size(s) == s[0],
{
    reveal_with_fuel(place, 2);
    reveal_with_fuel(size, 2);
}

pub proof fn lemma_place_2(i: Seq<int>, s: Seq<int>)
    requires
        i.len() == 2,
        s.len() == 2,
    ensures
        place(i, s) == i[0] * s[1] + i[1],
        size(s) == s[0] * s[1],
{
    lemma_place_1(i.drop_last(), s.drop_last());
}

pub proof fn lemma_place_3(i: Seq<int>, s: Seq<int>)
    requires
        i.len() == 3,
        s.len() == 3,
    ensures
        place(i, s) == (i[0] * s[1] + i[1]) * s[2] + i[2],
        size(s) == s[0] * s[1] * s[2],
{
    lemma_place_2(i.drop_last(), s.drop_last());
}

pub proof fn lemma_place_4(i: Seq<int>, s: Seq<int>)
    requires
        i.len() == 4,
        s.len() == 4,
    ensures
        place(i, s) == ((i[0] * s[1] + i[1]) * s[2] + i[2]) * s[3] + i[3],
        size(s) == s[0] * s[1] * s[2] * s[3],
{
    lemma_place_3(i.drop_last(), s.drop_last());
}

pub proof fn lemma_place_5(i: Seq<int>, s: Seq<int>)
    requires
        i.len() == 5,
        s.len() == 5,
    ensures
        place(i, s) == (((i[0] * s[1] + i[1]) * s[2] + i[2]) * s[3] + i[3]) * s[4] + i[4],
        size(s) == s[0] * s[1] * s[2] * s[3] * s[4],
{
    lemma_place_4(i.drop_last(), s.drop_last());
}

/// The place of an index made of two parts.
pub proof fn lemma_place_join(i: Seq<int>, j: Seq<int>, s: Seq<int>, t: Seq<int>)
    requires
        i.len() == s.len(),
        j.len() == t.len(),
    ensures
        place(i + j, s + t) == place(i, s) * size(t) + place(j, t),
        size(s + t) == size(s) * size(t),
    decreases t.len(),
{
    if t.len() == 0 {
        assert(i + j =~= i);
        assert(s + t =~= s);
    } else {
        let d = t.last();
        lemma_place_join(i, j.drop_last(), s, t.drop_last());
        assert((i + j).drop_last() =~= i + j.drop_last());
        assert((s + t).drop_last() =~= s + t.drop_last());
        let p = place(i, s);
        let q = place(j.drop_last(), t.drop_last());
        let z = size(t.drop_last());
        assert((p * z + q) * d == p * (z * d) + q * d && (size(s) * z) * d == size(s) * (z * d))
            by (nonlinear_arith);
    }
}

// ---------------------------------------------------------------------------
// Sums and maxima
// ---------------------------------------------------------------------------

/// The sum of `f(0)` to `f(n - 1)`.
pub open spec fn sum(n: int, f: spec_fn(int) -> real) -> real
    decreases n,
{
    if n <= 0 {
        0real
    } else {
        sum(n - 1, f) + f(n - 1)
    }
}

/// The largest of `f(0)` to `f(n - 1)`.
pub open spec fn largest(n: int, f: spec_fn(int) -> real) -> real
    decreases n,
{
    if n <= 1 {
        f(0)
    } else {
        let front = largest(n - 1, f);
        if f(n - 1) > front {
            f(n - 1)
        } else {
            front
        }
    }
}

pub proof fn lemma_sum_same(n: int, f: spec_fn(int) -> real, g: spec_fn(int) -> real)
    requires
        forall|i: int| 0 <= i < n ==> #[trigger] f(i) == g(i),
    ensures
        sum(n, f) == sum(n, g),
    decreases n,
{
    if n > 0 {
        lemma_sum_same(n - 1, f, g);
        assert(f(n - 1) == g(n - 1));
    }
}

/// The largest is one of the values, and none is larger.
pub proof fn lemma_largest(n: int, f: spec_fn(int) -> real) -> (at: int)
    requires
        n >= 1,
    ensures
        0 <= at < n,
        largest(n, f) == f(at),
        forall|i: int| 0 <= i < n ==> #[trigger] f(i) <= f(at),
    decreases n,
{
    if n == 1 {
        0
    } else {
        let at = lemma_largest(n - 1, f);
        if f(n - 1) > f(at) {
            n - 1
        } else {
            at
        }
    }
}

/// The sum of a function over all indices of a shape.
pub open spec fn sum_all(shape: Seq<int>, f: spec_fn(Seq<int>) -> real) -> real {
    sum(size(shape), |n: int| f(index_at(n, shape)))
}

/// The largest value of a function over all indices of a shape.
pub open spec fn largest_of_all(shape: Seq<int>, f: spec_fn(Seq<int>) -> real) -> real {
    largest(size(shape), |n: int| f(index_at(n, shape)))
}

/// `n` is the largest integer that is not above `x`.
pub open spec fn is_whole(n: int, x: real) -> bool {
    n as real <= x < (n + 1) as real
}

/// The largest integer that is not above a number.
pub open spec fn whole(x: real) -> int {
    choose|n: int| is_whole(n, x)
}

pub proof fn lemma_whole(x: real, n: int)
    requires
        n as real <= x < (n + 1) as real,
    ensures
        whole(x) == n,
{
    let m = whole(x);
    assert(is_whole(n, x));
    assert(is_whole(m, x));
    assert(m as real <= x < (m + 1) as real);
    assert(m == n) by {
        if m < n {
            assert((m + 1) as real <= n as real);
        } else if m > n {
            assert((n + 1) as real <= m as real);
        }
    }
}

// ---------------------------------------------------------------------------
// Tensors
// ---------------------------------------------------------------------------

pub struct Tensor {
    pub dtype: DataType,
    pub shape: Seq<int>,
    pub at: spec_fn(Seq<int>) -> real,
}

impl Tensor {
    pub open spec fn at1(self, a: int) -> real {
        (self.at)(seq![a])
    }

    pub open spec fn at2(self, a: int, b: int) -> real {
        (self.at)(seq![a, b])
    }

    pub open spec fn at3(self, a: int, b: int, c: int) -> real {
        (self.at)(seq![a, b, c])
    }

    pub open spec fn at4(self, a: int, b: int, c: int, d: int) -> real {
        (self.at)(seq![a, b, c, d])
    }

    pub open spec fn at5(self, a: int, b: int, c: int, d: int, e: int) -> real {
        (self.at)(seq![a, b, c, d, e])
    }
}

pub open spec fn is_float(dtype: DataType) -> bool {
    dtype == DataType::Float32 || dtype == DataType::Float16
}

pub open spec fn ints(s: Seq<i64>) -> Seq<int> {
    Seq::new(s.len(), |i: int| s[i] as int)
}

pub open spec fn naturals(s: Seq<u32>) -> Seq<int> {
    Seq::new(s.len(), |i: int| s[i] as int)
}

/// The elements in row-major order under another shape.
pub open spec fn reshape(x: Tensor, shape: Seq<int>) -> Tensor {
    Tensor {
        dtype: x.dtype,
        shape,
        at: |i: Seq<int>| (x.at)(index_at(place(i, shape), x.shape)),
    }
}

pub proof fn lemma_reshape(x: Tensor, shape: Seq<int>, i: Seq<int>, j: Seq<int>)
    requires
        valid(j, x.shape),
        place(i, shape) == place(j, x.shape),
    ensures
        (reshape(x, shape).at)(i) == (x.at)(j),
{
    lemma_place(j, x.shape);
}

/// Axis `a` of the result is axis `p[a]` of the operand.
pub open spec fn transpose(x: Tensor, p: Seq<int>) -> Tensor {
    Tensor {
        dtype: x.dtype,
        shape: Seq::new(p.len(), |a: int| x.shape[p[a]]),
        at: |i: Seq<int>| (x.at)(Seq::new(x.shape.len(), |a: int| i[p.index_of(a)])),
    }
}

/// Every axis is named once.
pub open spec fn is_permutation(p: Seq<int>) -> bool {
    p.no_duplicates() && forall|a: int| 0 <= a < p.len() ==> p.contains(a)
}

pub proof fn lemma_transpose(x: Tensor, p: Seq<int>, j: Seq<int>)
    requires
        j.len() == x.shape.len(),
        p.len() == x.shape.len(),
        forall|a: int| 0 <= a < p.len() ==> p.contains(a),
    ensures
        (transpose(x, p).at)(Seq::new(p.len(), |a: int| j[p[a]])) == (x.at)(j),
{
    let i = Seq::new(p.len(), |a: int| j[p[a]]);
    assert(Seq::new(x.shape.len(), |a: int| i[p.index_of(a)]) =~= j) by {
        assert forall|a: int| 0 <= a < j.len() implies i[p.index_of(a)] == j[a] by {
            assert(p.contains(a));
            assert(p[p.index_of(a)] == a);
        }
    }
}

/// The element of a shape that an index of a larger shape is spread from: axes
/// are aligned at the end, and an axis of one is repeated.
pub open spec fn aligned(i: Seq<int>, shape: Seq<int>) -> Seq<int> {
    Seq::new(
        shape.len(),
        |a: int|
            if shape[a] == 1 {
                0
            } else {
                i[i.len() - shape.len() + a]
            },
    )
}

pub proof fn lemma_aligned(i: Seq<int>, shape: Seq<int>)
    requires
        valid(i, shape),
    ensures
        aligned(i, shape) == i,
{
    assert(aligned(i, shape) =~= i);
}

/// The shape that two shapes are spread to.
pub open spec fn joint_shape(a: Seq<int>, b: Seq<int>) -> Seq<int> {
    let n = if a.len() >= b.len() {
        a.len()
    } else {
        b.len()
    };
    Seq::new(
        n,
        |k: int|
            {
                let x = k - (n - a.len());
                let y = k - (n - b.len());
                if x < 0 || (y >= 0 && a[x] == 1) {
                    b[y]
                } else {
                    a[x]
                }
            },
    )
}

pub open spec fn expand(x: Tensor, shape: Seq<int>) -> Tensor {
    Tensor { dtype: x.dtype, shape, at: |i: Seq<int>| (x.at)(aligned(i, x.shape)) }
}

/// The quotient of two numbers, without its fraction between integers.
pub open spec fn quotient(x: real, y: real, dtype: DataType) -> real {
    if is_float(dtype) {
        x / y
    } else if x / y >= 0real {
        whole(x / y) as real
    } else {
        -(whole(-(x / y)) as real)
    }
}

pub open spec fn combined(op: BinaryOp, x: real, y: real, dtype: DataType) -> real {
    match op {
        BinaryOp::Add => x + y,
        BinaryOp::Sub => x - y,
        BinaryOp::Mul => x * y,
        BinaryOp::Div => quotient(x, y, dtype),
        _ => if x == y {
            1real
        } else {
            0real
        },
    }
}

/// An operation on the elements of two tensors, spread to a common shape.
pub open spec fn elementwise(op: BinaryOp, a: Tensor, b: Tensor) -> Tensor {
    Tensor {
        dtype: if op == BinaryOp::Equal {
            DataType::Uint8
        } else {
            a.dtype
        },
        shape: joint_shape(a.shape, b.shape),
        at: |i: Seq<int>|
            combined(op, (a.at)(aligned(i, a.shape)), (b.at)(aligned(i, b.shape)), a.dtype),
    }
}

/// The matrix products of the last two axes, for every index of the others.
pub open spec fn matmul(a: Tensor, b: Tensor) -> Tensor {
    let ra = a.shape.len() as int;
    let rb = b.shape.len() as int;
    let fa = a.shape.take(ra - 2);
    let fb = b.shape.take(rb - 2);
    Tensor {
        dtype: a.dtype,
        shape: joint_shape(fa, fb) + seq![a.shape[ra - 2], b.shape[rb - 1]],
        at: |i: Seq<int>|
            {
                let front = i.take(i.len() - 2);
                let x = i[i.len() - 2];
                let y = i[i.len() - 1];
                sum(
                    a.shape[ra - 1],
                    |t: int|
                        (a.at)(aligned(front, fa) + seq![x, t]) * (b.at)(
                            aligned(front, fb) + seq![t, y],
                        ),
                )
            },
    }
}

/// How many axes below `a` are not among `axes`.
pub open spec fn kept_below(axes: Seq<int>, a: int) -> int
    decreases a,
{
    if a <= 0 {
        0
    } else if axes.contains(a - 1) {
        kept_below(axes, a - 1)
    } else {
        kept_below(axes, a - 1) + 1
    }
}

/// The axes that are not among `axes`, by their sizes.
pub open spec fn kept_shape(shape: Seq<int>, axes: Seq<int>) -> Seq<int>
    decreases shape.len(),
{
    if shape.len() == 0 {
        seq![]
    } else if axes.contains(shape.len() - 1) {
        kept_shape(shape.drop_last(), axes)
    } else {
        kept_shape(shape.drop_last(), axes).push(shape.last())
    }
}

/// The index of an operand that has `j` on the reduced axes and `i` elsewhere.
pub open spec fn refilled(
    i: Seq<int>,
    j: Seq<int>,
    rank: int,
    axes: Seq<int>,
    keep: bool,
) -> Seq<int> {
    Seq::new(
        rank as nat,
        |a: int|
            if axes.contains(a) {
                j[axes.index_of(a)]
            } else if keep {
                i[a]
            } else {
                i[kept_below(axes, a)]
            },
    )
}

pub open spec fn reduce(op: ReduceOp, x: Tensor, axes: Seq<int>, keep: bool) -> Tensor {
    let rank = x.shape.len() as int;
    let inner = Seq::new(axes.len(), |k: int| x.shape[axes[k]]);
    Tensor {
        dtype: x.dtype,
        shape: if keep {
            Seq::new(
                x.shape.len(),
                |a: int|
                    if axes.contains(a) {
                        1
                    } else {
                        x.shape[a]
                    },
            )
        } else {
            kept_shape(x.shape, axes)
        },
        at: |i: Seq<int>|
            match op {
                ReduceOp::Sum => sum_all(
                    inner,
                    |j: Seq<int>| (x.at)(refilled(i, j, rank, axes, keep)),
                ),
                ReduceOp::Max => largest_of_all(
                    inner,
                    |j: Seq<int>| (x.at)(refilled(i, j, rank, axes, keep)),
                ),
            },
    }
}

/// Each element's share of the exponentials along an axis.
pub open spec fn softmax(x: Tensor, axis: int, exp: spec_fn(real) -> real) -> Tensor {
    Tensor {
        dtype: x.dtype,
        shape: x.shape,
        at: |i: Seq<int>|
            exp((x.at)(i)) / sum(
                x.shape[axis],
                |t: int| exp((x.at)(i.update(axis, t))),
            ),
    }
}

/// A number as an element of a type: integers have no fraction.
pub open spec fn converted(x: real, dtype: DataType) -> real {
    if is_float(dtype) {
        x
    } else {
        quotient(x, 1real, dtype)
    }
}

pub open spec fn cast(x: Tensor, dtype: DataType) -> Tensor {
    Tensor { dtype, shape: x.shape, at: |i: Seq<int>| converted((x.at)(i), dtype) }
}

pub open spec fn clamped(x: real, min: Option<u32>, max: Option<u32>) -> real {
    let low = match min {
        Some(b) => if x < single(b) {
            single(b)
        } else {
            x
        },
        None => x,
    };
    match max {
        Some(b) => if low > single(b) {
            single(b)
        } else {
            low
        },
        None => low,
    }
}

pub open spec fn mapped(x: Tensor, f: spec_fn(real) -> real) -> Tensor {
    Tensor { dtype: x.dtype, shape: x.shape, at: |i: Seq<int>| f((x.at)(i)) }
}

/// The stride of a slice along an axis; without strides it is one.
pub open spec fn stride_at(strides: Seq<int>, a: int) -> int {
    if strides.len() == 0 {
        1
    } else {
        strides[a]
    }
}

/// The part of a tensor from `starts` on. Sizes describe the extent of the
/// operand that is walked by the strides.
pub open spec fn slice(x: Tensor, starts: Seq<int>, sizes: Seq<int>, strides: Seq<int>) -> Tensor {
    Tensor {
        dtype: x.dtype,
        shape: Seq::new(
            sizes.len(),
            |a: int| (sizes[a] + stride_at(strides, a) - 1) / stride_at(strides, a),
        ),
        at: |i: Seq<int>|
            (x.at)(Seq::new(i.len(), |a: int| starts[a] + i[a] * stride_at(strides, a))),
    }
}

/// The sum of the first `k` sizes.
pub open spec fn offset(sizes: Seq<int>, k: int) -> int
    decreases k,
{
    if k <= 0 {
        0
    } else {
        offset(sizes, k - 1) + sizes[k - 1]
    }
}

/// Part `k` of a tensor that is cut along an axis.
pub open spec fn split(x: Tensor, sizes: Seq<int>, axis: int, k: int) -> Tensor {
    Tensor {
        dtype: x.dtype,
        shape: x.shape.update(axis, sizes[k]),
        at: |i: Seq<int>| (x.at)(i.update(axis, i[axis] + offset(sizes, k))),
    }
}

/// The element at an index of tensors one after the other along an axis.
pub open spec fn joined_at(parts: Seq<Tensor>, axis: int, i: Seq<int>) -> real
    decreases parts.len(),
{
    if parts.len() == 0 {
        0real
    } else if i[axis] < parts[0].shape[axis] {
        (parts[0].at)(i)
    } else {
        joined_at(parts.drop_first(), axis, i.update(axis, i[axis] - parts[0].shape[axis]))
    }
}

/// Tensors one after the other along an axis.
pub open spec fn concat(parts: Seq<Tensor>, axis: int) -> Tensor {
    Tensor {
        dtype: parts[0].dtype,
        shape: parts[0].shape.update(
            axis,
            offset(Seq::new(parts.len(), |k: int| parts[k].shape[axis]), parts.len() as int),
        ),
        at: |i: Seq<int>| joined_at(parts, axis, i),
    }
}

pub proof fn lemma_concat(parts: Seq<Tensor>, axis: int, i: Seq<int>)
    requires
        parts.len() == 2,
        0 <= axis < parts[0].shape.len(),
        i.len() == parts[0].shape.len(),
        i[axis] < parts[0].shape[axis] + parts[1].shape[axis],
    ensures
        concat(parts, axis).shape == parts[0].shape.update(
            axis,
            parts[0].shape[axis] + parts[1].shape[axis],
        ),
        (concat(parts, axis).at)(i) == (if i[axis] < parts[0].shape[axis] {
            (parts[0].at)(i)
        } else {
            (parts[1].at)(i.update(axis, i[axis] - parts[0].shape[axis]))
        }),
{
    let lens = Seq::new(parts.len(), |k: int| parts[k].shape[axis]);
    reveal_with_fuel(offset, 3);
    assert(offset(lens, 2) == lens[0] + lens[1]);
    reveal_with_fuel(joined_at, 3);
    assert(parts.drop_first()[0] == parts[1]);
}

/// The slices of a tensor along an axis that the indices name.
pub open spec fn gather(x: Tensor, indices: Tensor, axis: int) -> Tensor {
    let n = indices.shape.len() as int;
    Tensor {
        dtype: x.dtype,
        shape: x.shape.take(axis) + indices.shape + x.shape.skip(axis + 1),
        at: |i: Seq<int>|
            (x.at)(
                i.take(axis) + seq![whole((indices.at)(i.subrange(axis, axis + n)))] + i.skip(
                    axis + n,
                ),
            ),
    }
}

/// The element of a coarser shape whose block an index falls into.
pub open spec fn block_of(i: Seq<int>, shape: Seq<int>, coarse: Seq<int>) -> Seq<int> {
    Seq::new(i.len(), |a: int| i[a] / (shape[a] / coarse[a]))
}

/// `(x - zero_point) * scale`, with one scale and zero point for each block.
pub open spec fn dequantize(x: Tensor, scale: Tensor, zero: Tensor) -> Tensor {
    Tensor {
        dtype: scale.dtype,
        shape: x.shape,
        at: |i: Seq<int>|
            ((x.at)(i) - (zero.at)(block_of(i, x.shape, zero.shape))) * (scale.at)(
                block_of(i, x.shape, scale.shape),
            ),
    }
}

/// A matrix, transposed where that is asked for.
pub open spec fn oriented(x: Tensor, flip: bool) -> Tensor {
    if flip {
        transpose(x, seq![1, 0])
    } else {
        x
    }
}

pub open spec fn gemm(
    a: Tensor,
    b: Tensor,
    c: Option<Tensor>,
    alpha: real,
    beta: real,
) -> Tensor {
    let p = matmul(a, b);
    Tensor {
        dtype: a.dtype,
        shape: p.shape,
        at: |i: Seq<int>|
            alpha * (p.at)(i) + match c {
                Some(t) => beta * (t.at)(aligned(i, t.shape)),
                None => 0real,
            },
    }
}

// ---------------------------------------------------------------------------
// Constants
// ---------------------------------------------------------------------------

/// `m` times two to the power of `e`.
pub open spec fn scaled(m: int, e: int) -> real {
    if e >= 0 {
        (m * pow2(e as nat)) as real
    } else {
        m as real / (pow2((-e) as nat) as int as real)
    }
}

pub proof fn lemma_scaled_down(m: int, e: nat, q: int)
    requires
        e > 0,
    ensures
        m as real == q as real * (pow2(e) as int as real) ==> scaled(m, -(e as int)) == q as real,
{
    let d = pow2(e) as int as real;
    lemma_pow2_pos(e);
    assert((-(-(e as int))) as nat == e);
    if m as real == q as real * d {
        assert(q as real * d / d == q as real) by (nonlinear_arith)
            requires
                d > 0real,
        ;
    }
}

/// The number a float32 pattern stands for. Infinities and NaN are left out.
pub open spec fn single(f: u32) -> real {
    let e = (f as int / 0x80_0000) % 256;
    let m = f as int % 0x80_0000;
    let v = if e == 0 {
        scaled(m, -149)
    } else {
        scaled(m + 0x80_0000, e - 150)
    };
    if f >= 0x8000_0000 {
        -v
    } else {
        v
    }
}

/// The number a float16 pattern stands for. Infinities and NaN are left out.
pub open spec fn half(f: u16) -> real {
    let e = (f as int / 0x400) % 32;
    let m = f as int % 0x400;
    let v = if e == 0 {
        scaled(m, -24)
    } else {
        scaled(m + 0x400, e - 25)
    };
    if f >= 0x8000 {
        -v
    } else {
        v
    }
}

pub open spec fn number(f: FloatBits) -> real {
    match f {
        FloatBits::Single(b) => single(b),
        FloatBits::Half(b) => half(b),
    }
}

/// Element `n` of a payload. Two 4-bit elements share a byte, low bits first.
pub open spec fn element(b: Seq<u8>, dtype: DataType, n: int) -> real {
    match dtype {
        DataType::Float32 => single(bytes::le_value(b.subrange(4 * n, 4 * n + 4)) as u32),
        DataType::Float16 => half(bytes::le_value(b.subrange(2 * n, 2 * n + 2)) as u16),
        DataType::Int32 => bytes::le_signed(b.subrange(4 * n, 4 * n + 4)) as real,
        DataType::Uint32 => bytes::le_value(b.subrange(4 * n, 4 * n + 4)) as real,
        DataType::Int64 => bytes::le_signed(b.subrange(8 * n, 8 * n + 8)) as real,
        DataType::Uint64 => bytes::le_value(b.subrange(8 * n, 8 * n + 8)) as real,
        DataType::Int8 => bytes::le_signed(b.subrange(n, n + 1)) as real,
        DataType::Uint8 => b[n] as int as real,
        DataType::Uint4 => (if n % 2 == 0 {
            b[n / 2] as int % 16
        } else {
            b[n / 2] as int / 16
        }) as real,
        DataType::Int4 => {
            let v = if n % 2 == 0 {
                b[n / 2] as int % 16
            } else {
                b[n / 2] as int / 16
            };
            (if v >= 8 {
                v - 16
            } else {
                v
            }) as real
        },
    }
}

pub open spec fn constant(
    dtype: DataType,
    shape: Seq<int>,
    data: ConstDataV,
    inverse_sqrt: spec_fn(int) -> real,
) -> Tensor {
    Tensor {
        dtype,
        shape,
        at: |i: Seq<int>|
            match data {
                ConstDataV::Bytes(b) => element(b, dtype, place(i, shape)),
                ConstDataV::InverseSqrt(n) => inverse_sqrt(n as int),
                ConstDataV::Floats(v) => number(v[place(i, shape)]),
                ConstDataV::Products(v) => number(v[place(i, shape)].0) * number(
                    v[place(i, shape)].1,
                ),
            },
    }
}

// ---------------------------------------------------------------------------
// Recurrent layers
// ---------------------------------------------------------------------------

/// What a recurrent layer works on.
pub struct Layer {
    pub x: Tensor,
    pub w: Tensor,
    pub r: Tensor,
    pub steps: int,
    pub hidden_size: int,
    pub bias: Option<Tensor>,
    pub recurrent_bias: Option<Tensor>,
    pub initial_hidden: Option<Tensor>,
    pub initial_cell: Option<Tensor>,
    pub reset_after: bool,
    pub direction: Direction,
}

/// What a recurrent layer computes: the last hidden state, the last cell state
/// of an LSTM, and the hidden states of all steps.
pub struct States {
    pub hidden: Tensor,
    pub cell: Tensor,
    pub sequence: Tensor,
}

// ---------------------------------------------------------------------------
// Plans
// ---------------------------------------------------------------------------

/// The functions that arithmetic does not give.
pub struct Functions {
    pub exp: spec_fn(real) -> real,
    pub sigmoid: spec_fn(real) -> real,
    pub gelu: spec_fn(real) -> real,
    pub inverse_sqrt: spec_fn(int) -> real,
    pub gru: spec_fn(Layer) -> States,
    pub lstm: spec_fn(Layer) -> States,
}

/// What the operands and the names of a plan stand for.
pub struct Reading {
    pub value: spec_fn(OperandV) -> Tensor,
    pub named: spec_fn(Seq<char>) -> Tensor,
    pub functions: Functions,
}

impl Reading {
    pub open spec fn of(self, o: OperandV) -> Tensor {
        (self.value)(o)
    }

    pub open spec fn opt(self, o: Option<OperandV>) -> Option<Tensor> {
        match o {
            Some(v) => Some(self.of(v)),
            None => None,
        }
    }

    pub open spec fn name(self, n: Seq<char>) -> Tensor {
        (self.named)(n)
    }

    pub open spec fn name_opt(self, n: Option<Seq<char>>) -> Option<Tensor> {
        match n {
            Some(v) => Some(self.name(v)),
            None => None,
        }
    }

    pub open spec fn all(self, v: Seq<OperandV>) -> Seq<Tensor> {
        Seq::new(v.len(), |i: int| self.of(v[i]))
    }
}

pub open spec fn unary(op: UnaryOp, f: Functions) -> spec_fn(real) -> real {
    match op {
        UnaryOp::Relu => |x: real|
            if x > 0real {
                x
            } else {
                0real
            },
        UnaryOp::Gelu => f.gelu,
        UnaryOp::Sigmoid => f.sigmoid,
    }
}

pub open spec fn gru_layer(op: OpV, m: Reading) -> Layer {
    match op {
        OpV::Gru {
            x,
            w,
            r,
            steps,
            hidden_size,
            bias,
            recurrent_bias,
            direction,
            reset_after,
            ..
        } => Layer {
            x: m.of(x),
            w: m.of(w),
            r: m.of(r),
            steps: steps as int,
            hidden_size: hidden_size as int,
            bias: m.opt(bias),
            recurrent_bias: m.opt(recurrent_bias),
            initial_hidden: None,
            initial_cell: None,
            reset_after,
            direction,
        },
        _ => arbitrary(),
    }
}

pub open spec fn lstm_layer(op: OpV, m: Reading) -> Layer {
    match op {
        OpV::Lstm {
            x,
            w,
            r,
            steps,
            hidden_size,
            bias,
            recurrent_bias,
            initial_hidden_state,
            initial_cell_state,
            direction,
            ..
        } => Layer {
            x: m.of(x),
            w: m.of(w),
            r: m.of(r),
            steps: steps as int,
            hidden_size: hidden_size as int,
            bias: m.opt(bias),
            recurrent_bias: m.opt(recurrent_bias),
            initial_hidden: m.opt(initial_hidden_state),
            initial_cell: m.opt(initial_cell_state),
            reset_after: false,
            direction,
        },
        _ => arbitrary(),
    }
}

/// The reading gives step number `n` the value that the step computes. A name
/// stands for one value throughout a plan.
pub open spec fn agrees(op: OpV, n: int, m: Reading) -> bool {
    let r = m.of(OperandV { step: n, output: 0 });
    match op {
        OpV::Input { .. } => true,
        OpV::MarkEmptyOptional { .. } => true,
        OpV::Constant { name, dtype, shape, data } => m.name(name) == constant(
            dtype,
            naturals(shape),
            data,
            m.functions.inverse_sqrt,
        ),
        OpV::Resolve { name } => r == m.name(name),
        OpV::Binary { op, a, b, .. } => r == if op == BinaryOp::Matmul {
            matmul(m.of(a), m.of(b))
        } else {
            elementwise(op, m.of(a), m.of(b))
        },
        OpV::Unary { op, input, .. } => r == mapped(m.of(input), unary(op, m.functions)),
        OpV::Reduce { op, input, axes, keep_dimensions, .. } => r == reduce(
            op,
            m.of(input),
            naturals(axes),
            keep_dimensions,
        ),
        OpV::Softmax { input, axis, .. } => r == softmax(
            m.of(input),
            axis as int,
            m.functions.exp,
        ),
        OpV::Cast { input, dtype, .. } => r == cast(m.of(input), dtype),
        OpV::Clamp { input, min, max, .. } => r == mapped(
            m.of(input),
            |x: real| clamped(x, min, max),
        ),
        OpV::Transpose { input, permutation, .. } => r == transpose(
            m.of(input),
            naturals(permutation),
        ),
        OpV::Reshape { input, shape, .. } => r == reshape(m.of(input), ints(shape)),
        OpV::Expand { input, shape, .. } => r == expand(m.of(input), ints(shape)),
        OpV::Slice { input, starts, sizes, strides, .. } => r == slice(
            m.of(input),
            naturals(starts),
            ints(sizes),
            naturals(strides),
        ),
        OpV::Split { input, sizes, axis, .. } => forall|k: int|
            0 <= k < sizes.len() ==> #[trigger] m.of(OperandV { step: n, output: k }) == split(
                m.of(input),
                naturals(sizes),
                axis as int,
                k,
            ),
        OpV::Concat { inputs, axis, .. } => r == concat(m.all(inputs), axis as int),
        OpV::Gather { input, indices, axis, .. } => r == gather(
            m.of(input),
            m.of(indices),
            axis as int,
        ),
        OpV::Squeeze { input, axes, .. } => r == reshape(
            m.of(input),
            kept_shape(m.of(input).shape, naturals(axes)),
        ),
        OpV::Gemm { a, b, c, alpha, beta, a_transpose, b_transpose, .. } => r == gemm(
            oriented(m.of(a), a_transpose),
            oriented(m.of(b), b_transpose),
            m.opt(c),
            single(alpha),
            single(beta),
        ),
        OpV::Dequantize { input, scale, zero_point } => r == dequantize(
            m.of(input),
            m.of(scale),
            m.of(zero_point),
        ),
        OpV::Gru { return_sequence, .. } => {
            let s = (m.functions.gru)(gru_layer(op, m));
            &&& r == s.hidden
            &&& return_sequence ==> m.of(OperandV { step: n, output: 1 }) == s.sequence
        },
        OpV::Lstm { return_sequence, .. } => {
            let s = (m.functions.lstm)(lstm_layer(op, m));
            &&& r == s.hidden
            &&& m.of(OperandV { step: n, output: 1 }) == s.cell
            &&& return_sequence ==> m.of(OperandV { step: n, output: 2 }) == s.sequence
        },
        OpV::RecordOutput { output, label, operand } => m.name(output) == m.of(operand) && m.name(
            label,
        ) == m.of(operand),
        OpV::Record { name, operand } => m.name(name) == m.of(operand),
    }
}

/// The reading gives every step of the plan the value that the step computes.
#[verifier::opaque]
pub open spec fn holds(ops: Seq<OpV>, m: Reading) -> bool {
    forall|i: int| 0 <= i < ops.len() ==> agrees(#[trigger] ops[i], i, m)
}

/// What holds of a plan holds of its front and of its last step.
pub broadcast proof fn lemma_holds_push(ops: Seq<OpV>, op: OpV, m: Reading)
    requires
        #[trigger] holds(ops.push(op), m),
    ensures
        holds(ops, m),
        agrees(op, ops.len() as int, m),
{
    reveal(holds);
    let all = ops.push(op);
    assert(all[ops.len() as int] == op);
    assert forall|i: int| 0 <= i < ops.len() implies agrees(#[trigger] ops[i], i, m) by {
        assert(all[i] == ops[i]);
    }
}

} // verus!
