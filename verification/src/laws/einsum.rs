//! What lowered Einsum equations compute.
use crate::arith;
use crate::builder;
use crate::builder::{BinaryOp, OpV, ReduceOp};
use crate::context::ContextV;
use crate::meaning;
use crate::meaning::{Reading, Tensor};
use crate::ops;
use crate::ops::einsum;
use crate::ops::einsum::TermV;
use crate::protos::NodeV;
use crate::text;
use vstd::prelude::*;

verus! {

// ---------------------------------------------------------------------------
// Labels
// ---------------------------------------------------------------------------

/// The element of a tensor whose axis with label `c` has index `at(c)`.
pub open spec fn labelled(t: Tensor, labels: Seq<char>, at: spec_fn(char) -> int) -> real {
    (t.at)(indices(labels, at))
}

pub open spec fn indices(labels: Seq<char>, at: spec_fn(char) -> int) -> Seq<int> {
    Seq::new(labels.len(), |a: int| at(labels[a]))
}

/// The indices of labels with those in `labels` set to `j`.
pub open spec fn with_labels(
    at: spec_fn(char) -> int,
    labels: Seq<char>,
    j: Seq<int>,
) -> spec_fn(char) -> int {
    |c: char|
        if labels.contains(c) {
            j[text::first_pos(labels, c)]
        } else {
            at(c)
        }
}

/// The sizes of labels.
pub open spec fn sizes(labels: Seq<char>, size: spec_fn(char) -> int) -> Seq<int> {
    Seq::new(labels.len(), |a: int| size(labels[a]))
}

/// The indices are in range.
pub open spec fn in_range(
    at: spec_fn(char) -> int,
    labels: Seq<char>,
    size: spec_fn(char) -> int,
) -> bool {
    forall|c: char| #[trigger] labels.contains(c) ==> 0 <= at(c) < size(c)
}

/// Every axis of a tensor has the size of its label.
pub open spec fn fits(t: Tensor, labels: Seq<char>, size: spec_fn(char) -> int) -> bool {
    t.shape == sizes(labels, size)
}

proof fn lemma_position(labels: Seq<char>, k: int)
    requires
        labels.no_duplicates(),
        0 <= k < labels.len(),
    ensures
        text::first_pos(labels, labels[k]) == k,
{
    assert(labels.contains(labels[k]));
    einsum::lemma_first_pos_found(labels, labels[k]);
}

/// Setting labels gives them the indices they are set to.
proof fn lemma_with_labels(at: spec_fn(char) -> int, labels: Seq<char>, j: Seq<int>)
    requires
        labels.no_duplicates(),
        j.len() == labels.len(),
    ensures
        indices(labels, with_labels(at, labels, j)) == j,
{
    let w = with_labels(at, labels, j);
    assert forall|k: int| 0 <= k < labels.len() implies w(labels[k]) == j[k] by {
        lemma_position(labels, k);
        assert(labels.contains(labels[k]));
    }
    assert(indices(labels, w) =~= j);
}

proof fn lemma_valid_indices(
    at: spec_fn(char) -> int,
    labels: Seq<char>,
    size: spec_fn(char) -> int,
)
    requires
        in_range(at, labels, size),
    ensures
        meaning::valid(indices(labels, at), sizes(labels, size)),
{
    let i = indices(labels, at);
    assert forall|a: int| 0 <= a < i.len() implies 0 <= #[trigger] i[a] < sizes(labels, size)[a] by {
        assert(labels.contains(labels[a]));
    }
}

// ---------------------------------------------------------------------------
// Transposition
// ---------------------------------------------------------------------------

/// A reordered operand has its labels in the target order.
#[verifier::rlimit(40)]
proof fn lemma_reordered(
    ops: Seq<OpV>,
    t: TermV,
    target: Seq<char>,
    label: Seq<char>,
    m: Reading,
    size: spec_fn(char) -> int,
)
    requires
        meaning::holds(einsum::reordered(ops, t, target, label).ops, m),
        einsum::same_labels(t.labels, target),
        fits(m.of(t.operand), t.labels, size),
        t.labels.len() <= u32::MAX,
    ensures
        meaning::holds(ops, m),
        ({
            let r = m.of(einsum::reordered(ops, t, target, label).operand);
            &&& fits(r, target, size)
            &&& forall|at: spec_fn(char) -> int| #[trigger]
                labelled(r, target, at) == labelled(m.of(t.operand), t.labels, at)
        }),
{
    let x = m.of(t.operand);
    let part = einsum::reordered(ops, t, target, label);
    let r = m.of(part.operand);
    let q = einsum::permutation(t.labels, target);
    let p = meaning::naturals(q);
    assert forall|i: int| 0 <= i < target.len() implies 0 <= #[trigger] p[i] < t.labels.len()
        && t.labels[p[i]] == target[i] by {
        assert(target.contains(target[i]));
        einsum::lemma_first_pos_found(t.labels, target[i]);
    }
    if einsum::is_identity(q) {
        assert forall|i: int| 0 <= i < target.len() implies target[i] == t.labels[i] by {
            assert(q[i] == i as u32);
            assert(p[i] == i);
        }
        assert(target =~= t.labels);
    } else {
        assert(meaning::holds(ops, m) && r == meaning::transpose(x, p)) by {
            broadcast use meaning::lemma_holds_push;

        }
        assert forall|a: int| 0 <= a < p.len() implies p.contains(a) by {
            assert(t.labels.contains(t.labels[a]));
            assert(target.contains(t.labels[a]));
            let k = choose|k: int| 0 <= k < target.len() && target[k] == t.labels[a];
            lemma_position(t.labels, a);
            assert(p[k] == a);
        }
        assert(r.shape =~= sizes(target, size));
        assert forall|at: spec_fn(char) -> int| #[trigger] labelled(r, target, at) == labelled(
            x,
            t.labels,
            at,
        ) by {
            let j = indices(t.labels, at);
            meaning::lemma_transpose(x, p, j);
            assert(Seq::new(p.len(), |a: int| j[p[a]]) =~= indices(target, at));
        }
    }
}

// ---------------------------------------------------------------------------
// Labels that are summed away
// ---------------------------------------------------------------------------

/// Where the dropped axes and the kept ones stand.
proof fn lemma_axes(labels: Seq<char>, keep: spec_fn(char) -> bool)
    requires
        labels.len() <= u32::MAX,
    ensures
        ({
            let axes = einsum::dropped_axes(labels, keep);
            let dropped = labels.filter(|c: char| !keep(c));
            &&& axes.len() == dropped.len()
            &&& forall|k: int|
                0 <= k < axes.len() ==> 0 <= #[trigger] axes[k] < labels.len()
                    && labels[axes[k] as int] == dropped[k]
            &&& forall|a: int|
                0 <= a < labels.len() ==> (meaning::naturals(axes).contains(a) <==> !keep(
                    #[trigger] labels[a],
                ))
            &&& forall|i: int, j: int|
                0 <= i < j < axes.len() ==> #[trigger] axes[i] < #[trigger] axes[j]
        }),
    decreases labels.len(),
{
    reveal(Seq::filter);
    let axes = einsum::dropped_axes(labels, keep);
    let ints = meaning::naturals(axes);
    if labels.len() > 0 {
        let front = labels.drop_last();
        lemma_axes(front, keep);
        let less = einsum::dropped_axes(front, keep);
        let ints0 = meaning::naturals(less);
        let n = labels.len() - 1;
        assert forall|k: int| 0 <= k < less.len() implies 0 <= #[trigger] less[k] < n by {
            assert(0 <= less[k] < front.len());
        }
        assert forall|a: int| 0 <= a < labels.len() implies (ints.contains(a) <==> !keep(
            #[trigger] labels[a],
        )) by {
            if a < n {
                assert(front[a] == labels[a]);
                assert(ints0.contains(a) <==> !keep(front[a]));
                if ints.contains(a) {
                    let k = choose|k: int| 0 <= k < ints.len() && ints[k] == a;
                    if k < less.len() {
                        assert(ints0[k] == a);
                    }
                }
                if ints0.contains(a) {
                    let k = choose|k: int| 0 <= k < ints0.len() && ints0[k] == a;
                    assert(ints[k] == a);
                }
            } else {
                if keep(labels[a]) {
                    if ints.contains(a) {
                        let k = choose|k: int| 0 <= k < ints.len() && ints[k] == a;
                        assert(less[k] < n);
                    }
                } else {
                    assert(ints[less.len() as int] == n);
                }
            }
        }
        assert forall|k: int| 0 <= k < axes.len() implies 0 <= #[trigger] axes[k] < labels.len()
            && labels[axes[k] as int] == labels.filter(|c: char| !keep(c))[k] by {
            if k < less.len() {
                assert(less[k] == axes[k]);
                assert(front[less[k] as int] == labels[axes[k] as int]);
            }
        }
    }
}

/// The number of kept axes below one, and what stands there.
proof fn lemma_kept_below(labels: Seq<char>, keep: spec_fn(char) -> bool, axes: Seq<int>, a: int)
    requires
        0 <= a <= labels.len(),
        forall|b: int|
            0 <= b < labels.len() ==> (axes.contains(b) <==> !keep(#[trigger] labels[b])),
    ensures
        meaning::kept_below(axes, a) == labels.take(a).filter(keep).len(),
        labels.take(a).filter(keep).len() <= labels.filter(keep).len(),
        forall|k: int|
            0 <= k < labels.take(a).filter(keep).len() ==> labels.filter(keep)[k]
                == #[trigger] labels.take(a).filter(keep)[k],
        a < labels.len() && keep(labels[a]) ==> meaning::kept_below(axes, a) < labels.filter(
            keep,
        ).len() && labels.filter(keep)[meaning::kept_below(axes, a)] == labels[a],
    decreases a,
{
    reveal(Seq::filter);
    if a > 0 {
        lemma_kept_below(labels, keep, axes, a - 1);
        assert(labels.take(a).drop_last() =~= labels.take(a - 1));
        assert(labels.take(a).last() == labels[a - 1]);
    }
    lemma_filter_front(labels, keep, a);
    if a < labels.len() {
        lemma_filter_front(labels, keep, a + 1);
        assert(labels.take(a + 1).drop_last() =~= labels.take(a));
        assert(labels.take(a + 1).last() == labels[a]);
        if keep(labels[a]) {
            let more = labels.take(a + 1).filter(keep);
            let less = labels.take(a).filter(keep);
            assert(more == less.push(labels[a]));
            assert(more[less.len() as int] == labels[a]);
        }
    }
}

/// What is kept of the front stands in front.
proof fn lemma_filter_front(labels: Seq<char>, keep: spec_fn(char) -> bool, a: int)
    requires
        0 <= a <= labels.len(),
    ensures
        labels.take(a).filter(keep).len() <= labels.filter(keep).len(),
        forall|k: int|
            0 <= k < labels.take(a).filter(keep).len() ==> labels.filter(keep)[k]
                == #[trigger] labels.take(a).filter(keep)[k],
    decreases labels.len() - a,
{
    reveal(Seq::filter);
    if a == labels.len() {
        assert(labels.take(a) =~= labels);
    } else {
        lemma_filter_front(labels, keep, a + 1);
        assert(labels.take(a + 1).drop_last() =~= labels.take(a));
        let more = labels.take(a + 1).filter(keep);
        let less = labels.take(a).filter(keep);
        assert forall|k: int| 0 <= k < less.len() implies labels.filter(keep)[k]
            == #[trigger] less[k] by {
            assert(more[k] == less[k]);
        }
    }
}

/// The shape that is left.
proof fn lemma_kept_shape(
    labels: Seq<char>,
    keep: spec_fn(char) -> bool,
    axes: Seq<int>,
    size: spec_fn(char) -> int,
    n: int,
)
    requires
        0 <= n <= labels.len(),
        forall|b: int|
            0 <= b < labels.len() ==> (axes.contains(b) <==> !keep(#[trigger] labels[b])),
    ensures
        meaning::kept_shape(sizes(labels.take(n), size), axes) == sizes(
            labels.take(n).filter(keep),
            size,
        ),
    decreases n,
{
    reveal(Seq::filter);
    if n > 0 {
        lemma_kept_shape(labels, keep, axes, size, n - 1);
        let s = sizes(labels.take(n), size);
        assert(s.drop_last() =~= sizes(labels.take(n - 1), size));
        assert(labels.take(n).drop_last() =~= labels.take(n - 1));
        assert(labels.take(n).last() == labels[n - 1]);
        assert(axes.contains(n - 1) <==> !keep(labels[n - 1]));
    }
    assert(meaning::kept_shape(sizes(labels.take(n), size), axes) =~= sizes(
        labels.take(n).filter(keep),
        size,
    ));
}

/// What summing a term leaves: the sum over the labels that are dropped.
#[verifier::rlimit(40)]
proof fn lemma_summed(
    ops: Seq<OpV>,
    t: TermV,
    specs: Seq<Seq<char>>,
    output: Seq<char>,
    index: int,
    label: Seq<char>,
    m: Reading,
    size: spec_fn(char) -> int,
)
    requires
        meaning::holds(einsum::sum_term(ops, t, specs, output, index, label).ops, m),
        t.labels.no_duplicates(),
        t.labels.len() <= u32::MAX,
        fits(m.of(t.operand), t.labels, size),
    ensures
        meaning::holds(ops, m),
        ({
            let keep = einsum::keep_fn(specs, output, index);
            let r = einsum::sum_term(ops, t, specs, output, index, label).term;
            let dropped = t.labels.filter(|c: char| !keep(c));
            &&& fits(m.of(r.operand), r.labels, size)
            &&& r.labels == t.labels.filter(keep)
            &&& forall|at: spec_fn(char) -> int| #[trigger]
                labelled(m.of(r.operand), r.labels, at) == meaning::sum_all(
                    sizes(dropped, size),
                    |j: Seq<int>|
                        labelled(m.of(t.operand), t.labels, with_labels(at, dropped, j)),
                )
        }),
{
    let keep = einsum::keep_fn(specs, output, index);
    let labels = t.labels;
    let dropped = labels.filter(|c: char| !keep(c));
    let x = m.of(t.operand);
    let s = einsum::sum_term(ops, t, specs, output, index, label);
    let r = s.term;
    let y = m.of(r.operand);
    let small = einsum::dropped_axes(labels, keep);
    let axes = meaning::naturals(small);
    let kept = labels.filter(keep);
    lemma_axes(labels, keep);
    if small.len() == 0 {
        assert forall|a: int| 0 <= a < labels.len() implies keep(#[trigger] labels[a]) by {}
        lemma_all_kept(labels, keep);
        assert(sizes(dropped, size) =~= seq![]);
        assert forall|at: spec_fn(char) -> int| #[trigger] labelled(y, labels, at)
            == meaning::sum_all(
            sizes(dropped, size),
            |j: Seq<int>| labelled(x, labels, with_labels(at, dropped, j)),
        ) by {
            let f = |j: Seq<int>| labelled(x, labels, with_labels(at, dropped, j));
            reveal_with_fuel(meaning::sum, 2);
            assert(meaning::size(sizes(dropped, size)) == 1);
            let none = meaning::index_at(0, sizes(dropped, size));
            let w = with_labels(at, dropped, none);
            assert(indices(labels, w) =~= indices(labels, at)) by {
                assert forall|k: int| 0 <= k < labels.len() implies w(labels[k]) == at(
                    labels[k],
                ) by {
                    assert(!dropped.contains(labels[k]));
                }
            }
            let g = |n: int| f(meaning::index_at(n, sizes(dropped, size)));
            assert(meaning::sum(1, g) == meaning::sum(0, g) + g(0));
        }
    } else {
        assert(meaning::holds(ops, m) && y == meaning::reduce(ReduceOp::Sum, x, axes, false)) by {
            broadcast use meaning::lemma_holds_push;

        }
        lemma_kept_shape(labels, keep, axes, size, labels.len() as int);
        assert(labels.take(labels.len() as int) =~= labels);
        let rank = labels.len() as int;
        let inner = Seq::new(axes.len(), |k: int| x.shape[axes[k]]);
        assert(inner =~= sizes(dropped, size)) by {
            assert forall|k: int| 0 <= k < axes.len() implies inner[k] == size(dropped[k]) by {
                assert(labels[small[k] as int] == dropped[k]);
            }
        }
        lemma_filter_distinct(labels, |c: char| !keep(c));
        assert forall|at: spec_fn(char) -> int| #[trigger] labelled(y, kept, at)
            == meaning::sum_all(
            sizes(dropped, size),
            |j: Seq<int>| labelled(x, labels, with_labels(at, dropped, j)),
        ) by {
            let i = indices(kept, at);
            let f = |j: Seq<int>| (x.at)(meaning::refilled(i, j, rank, axes, false));
            let g = |j: Seq<int>| labelled(x, labels, with_labels(at, dropped, j));
            assert forall|j: Seq<int>| #[trigger] f(j) == g(j) by {
                let w = with_labels(at, dropped, j);
                assert forall|a: int| 0 <= a < rank implies meaning::refilled(
                    i,
                    j,
                    rank,
                    axes,
                    false,
                )[a] == w(labels[a]) by {
                    if axes.contains(a) {
                        let k = axes.index_of(a);
                        assert(axes[k] == a);
                        assert(small[k] == a);
                        assert(labels[small[k] as int] == dropped[k]);
                        assert(dropped.contains(dropped[k]));
                        lemma_position(dropped, k);
                    } else {
                        assert(keep(labels[a]));
                        lemma_kept_below(labels, keep, axes, a);
                        einsum::lemma_filter(labels, |c: char| !keep(c));
                        assert(!dropped.contains(labels[a]));
                    }
                }
                assert(meaning::refilled(i, j, rank, axes, false) =~= indices(labels, w));
            }
            let shape = sizes(dropped, size);
            let ff = |n: int| f(meaning::index_at(n, shape));
            let gg = |n: int| g(meaning::index_at(n, shape));
            assert forall|n: int| 0 <= n < meaning::size(shape) implies #[trigger] ff(n) == gg(
                n,
            ) by {
                assert(f(meaning::index_at(n, shape)) == g(meaning::index_at(n, shape)));
            }
            meaning::lemma_sum_same(meaning::size(shape), ff, gg);
        }
    }
}

proof fn lemma_filter_distinct(labels: Seq<char>, keep: spec_fn(char) -> bool)
    requires
        labels.no_duplicates(),
    ensures
        labels.filter(keep).no_duplicates(),
{
    einsum::lemma_filter(labels, keep);
}

proof fn lemma_all_kept(labels: Seq<char>, keep: spec_fn(char) -> bool)
    requires
        forall|a: int| 0 <= a < labels.len() ==> keep(#[trigger] labels[a]),
    ensures
        labels.filter(keep) == labels,
        labels.filter(|c: char| !keep(c)) == Seq::<char>::empty(),
    decreases labels.len(),
{
    reveal(Seq::filter);
    if labels.len() > 0 {
        let front = labels.drop_last();
        assert forall|a: int| 0 <= a < front.len() implies keep(#[trigger] front[a]) by {
            assert(front[a] == labels[a]);
        }
        lemma_all_kept(front, keep);
        assert(keep(labels[labels.len() - 1]));
        assert(front.push(labels.last()) =~= labels);
    } else {
        assert(labels.filter(keep) =~= labels);
    }
}

// ---------------------------------------------------------------------------
// Contraction
// ---------------------------------------------------------------------------

/// The product of a list is the number of elements of the shape.
proof fn lemma_product_size(v: Seq<i64>)
    ensures
        arith::product(v) == meaning::size(meaning::ints(v)),
    decreases v.len(),
{
    if v.len() > 0 {
        lemma_product_size(v.drop_last());
        assert(meaning::ints(v).drop_last() =~= meaning::ints(v.drop_last()));
    }
}

/// The sizes of some labels of a term.
proof fn lemma_sizes_of(t: TermV, wanted: Seq<char>, size: spec_fn(char) -> int)
    requires
        meaning::ints(t.dims) == sizes(t.labels, size),
        forall|i: int| 0 <= i < wanted.len() ==> t.labels.contains(#[trigger] wanted[i]),
    ensures
        meaning::ints(einsum::sizes_of(t.labels, t.dims, wanted)) == sizes(wanted, size),
        arith::product(einsum::sizes_of(t.labels, t.dims, wanted)) == meaning::size(
            sizes(wanted, size),
        ),
{
    let v = einsum::sizes_of(t.labels, t.dims, wanted);
    let have = meaning::ints(t.dims);
    assert(have.len() == t.dims.len());
    assert(sizes(t.labels, size).len() == t.labels.len());
    assert forall|i: int| 0 <= i < wanted.len() implies #[trigger] v[i] == size(wanted[i]) by {
        assert(t.labels.contains(wanted[i]));
        einsum::lemma_first_pos_found(t.labels, wanted[i]);
        let k = text::first_pos(t.labels, wanted[i]);
        assert(have[k] == sizes(t.labels, size)[k]);
        assert(have[k] == t.dims[k]);
    }
    assert(meaning::ints(v) =~= sizes(wanted, size));
    lemma_product_size(v);
}

/// A tensor with three groups of labels, flattened to rank three.
proof fn lemma_flat(
    x: Tensor,
    u: Seq<char>,
    v: Seq<char>,
    w: Seq<char>,
    size: spec_fn(char) -> int,
    flat: Seq<int>,
    at: spec_fn(char) -> int,
)
    requires
        fits(x, u + v + w, size),
        in_range(at, u + v + w, size),
        flat == seq![
            meaning::size(sizes(u, size)),
            meaning::size(sizes(v, size)),
            meaning::size(sizes(w, size)),
        ],
    ensures
        meaning::reshape(x, flat).at3(
            meaning::place(indices(u, at), sizes(u, size)),
            meaning::place(indices(v, at), sizes(v, size)),
            meaning::place(indices(w, at), sizes(w, size)),
        ) == labelled(x, u + v + w, at),
{
    lemma_flat_place(u, v, w, size, flat, at);
    lemma_valid_indices(at, u + v + w, size);
    let j = indices(u + v + w, at);
    let i = seq![
        meaning::place(indices(u, at), sizes(u, size)),
        meaning::place(indices(v, at), sizes(v, size)),
        meaning::place(indices(w, at), sizes(w, size)),
    ];
    meaning::lemma_reshape(x, flat, i, j);
}

proof fn lemma_flat_place(
    u: Seq<char>,
    v: Seq<char>,
    w: Seq<char>,
    size: spec_fn(char) -> int,
    flat: Seq<int>,
    at: spec_fn(char) -> int,
)
    requires
        flat == seq![
            meaning::size(sizes(u, size)),
            meaning::size(sizes(v, size)),
            meaning::size(sizes(w, size)),
        ],
    ensures
        meaning::place(
            seq![
                meaning::place(indices(u, at), sizes(u, size)),
                meaning::place(indices(v, at), sizes(v, size)),
                meaning::place(indices(w, at), sizes(w, size)),
            ],
            flat,
        ) == meaning::place(indices(u + v + w, at), sizes(u + v + w, size)),
{
    let (iu, iv, iw) = (indices(u, at), indices(v, at), indices(w, at));
    let (su, sv, sw) = (sizes(u, size), sizes(v, size), sizes(w, size));
    assert(indices(u + v + w, at) =~= iu + iv + iw);
    assert(sizes(u + v + w, size) =~= su + sv + sw);
    meaning::lemma_place_join(iu, iv, su, sv);
    meaning::lemma_place_join(iu + iv, iw, su + sv, sw);
    meaning::lemma_place_3(
        seq![meaning::place(iu, su), meaning::place(iv, sv), meaning::place(iw, sw)],
        flat,
    );
}

/// Batched matrix products.
pub proof fn lemma_matmul_3(x: Tensor, y: Tensor, a: int, b: int, c: int)
    requires
        x.shape.len() == 3,
        y.shape.len() == 3,
        x.shape[0] == y.shape[0],
        0 <= a < x.shape[0],
    ensures
        ({
            let z = meaning::matmul(x, y);
            &&& z.shape == seq![x.shape[0], x.shape[1], y.shape[2]]
            &&& z.at3(a, b, c) == meaning::sum(
                x.shape[2],
                |t: int| x.at3(a, b, t) * y.at3(a, t, c),
            )
        }),
{
    let z = meaning::matmul(x, y);
    let front = x.shape.take(1);
    assert(y.shape.take(1) =~= front);
    assert(meaning::joint_shape(front, front) =~= front);
    assert(z.shape =~= seq![x.shape[0], x.shape[1], y.shape[2]]);
    let i = seq![a, b, c];
    assert(i.take(1) =~= seq![a]);
    assert(meaning::valid(seq![a], front));
    meaning::lemma_aligned(seq![a], front);
    let f = |t: int|
        (x.at)(meaning::aligned(i.take(1), front) + seq![b, t]) * (y.at)(
            meaning::aligned(i.take(1), y.shape.take(1)) + seq![t, c],
        );
    let g = |t: int| x.at3(a, b, t) * y.at3(a, t, c);
    assert forall|t: int| 0 <= t < x.shape[2] implies #[trigger] f(t) == g(t) by {
        assert(seq![a] + seq![b, t] =~= seq![a, b, t]);
        assert(seq![a] + seq![t, c] =~= seq![a, t, c]);
    }
    meaning::lemma_sum_same(x.shape[2], f, g);
}

/// The contraction of two flattened operands over the labels in `con`.
proof fn lemma_contraction(
    x: Tensor,
    y: Tensor,
    batch: Seq<char>,
    fa: Seq<char>,
    con: Seq<char>,
    fb: Seq<char>,
    size: spec_fn(char) -> int,
    at: spec_fn(char) -> int,
)
    requires
        fits(x, batch + fa + con, size),
        fits(y, batch + con + fb, size),
        con.no_duplicates(),
        forall|c: char| #[trigger]
            con.contains(c) ==> !batch.contains(c) && !fa.contains(c) && !fb.contains(c) && size(c)
                >= 0,
        in_range(at, batch, size),
        in_range(at, fa, size),
        in_range(at, fb, size),
    ensures
        ({
            let nb = meaning::size(sizes(batch, size));
            let na = meaning::size(sizes(fa, size));
            let nc = meaning::size(sizes(con, size));
            let nf = meaning::size(sizes(fb, size));
            let p = meaning::matmul(
                meaning::reshape(x, seq![nb, na, nc]),
                meaning::reshape(y, seq![nb, nc, nf]),
            );
            &&& p.shape == seq![nb, na, nf]
            &&& p.at3(
                meaning::place(indices(batch, at), sizes(batch, size)),
                meaning::place(indices(fa, at), sizes(fa, size)),
                meaning::place(indices(fb, at), sizes(fb, size)),
            ) == meaning::sum_all(
                sizes(con, size),
                |j: Seq<int>|
                    labelled(x, batch + fa + con, with_labels(at, con, j)) * labelled(
                        y,
                        batch + con + fb,
                        with_labels(at, con, j),
                    ),
            )
        }),
{
    let (sb, sa, sc, sf) = (sizes(batch, size), sizes(fa, size), sizes(con, size), sizes(fb, size));
    let nb = meaning::size(sb);
    let na = meaning::size(sa);
    let nc = meaning::size(sc);
    let nf = meaning::size(sf);
    let x3 = meaning::reshape(x, seq![nb, na, nc]);
    let y3 = meaning::reshape(y, seq![nb, nc, nf]);
    let ib = indices(batch, at);
    let ia = indices(fa, at);
    let iff = indices(fb, at);
    lemma_valid_indices(at, batch, size);
    meaning::lemma_place(ib, sb);
    let pb = meaning::place(ib, sb);
    let pa = meaning::place(ia, sa);
    let pf = meaning::place(iff, sf);
    lemma_matmul_3(x3, y3, pb, pa, pf);
    let f = |t: int| x3.at3(pb, pa, t) * y3.at3(pb, t, pf);
    let h = |j: Seq<int>|
        labelled(x, batch + fa + con, with_labels(at, con, j)) * labelled(
            y,
            batch + con + fb,
            with_labels(at, con, j),
        );
    let g = |n: int| h(meaning::index_at(n, sc));
    assert forall|a: int| 0 <= a < sc.len() implies #[trigger] sc[a] >= 0 by {
        assert(con.contains(con[a]));
    }
    assert forall|t: int| 0 <= t < nc implies #[trigger] f(t) == g(t) by {
        let j = meaning::index_at(t, sc);
        meaning::lemma_index_at(t, sc);
        let w = with_labels(at, con, j);
        lemma_with_labels(at, con, j);
        assert forall|c: char| #[trigger] con.contains(c) implies 0 <= w(c) < size(c) by {
            einsum::lemma_first_pos_found(con, c);
            let k = text::first_pos(con, c);
            assert(0 <= j[k] < sc[k]);
        }
        lemma_others(at, con, j, batch);
        lemma_others(at, con, j, fa);
        lemma_others(at, con, j, fb);
        lemma_range_join(w, batch, fa, con, size);
        lemma_range_join(w, batch, con, fb, size);
        lemma_flat(x, batch, fa, con, size, seq![nb, na, nc], w);
        lemma_flat(y, batch, con, fb, size, seq![nb, nc, nf], w);
    }
    meaning::lemma_sum_same(nc, f, g);
}

/// Labels that are not set keep their indices.
proof fn lemma_others(at: spec_fn(char) -> int, con: Seq<char>, j: Seq<int>, labels: Seq<char>)
    requires
        forall|c: char| #[trigger] con.contains(c) ==> !labels.contains(c),
    ensures
        indices(labels, with_labels(at, con, j)) == indices(labels, at),
        forall|c: char| #[trigger] labels.contains(c) ==> with_labels(at, con, j)(c) == at(c),
{
    let w = with_labels(at, con, j);
    assert forall|k: int| 0 <= k < labels.len() implies w(labels[k]) == at(labels[k]) by {
        assert(labels.contains(labels[k]));
        assert(!con.contains(labels[k]));
    }
    assert(indices(labels, w) =~= indices(labels, at));
}

proof fn lemma_range_join(
    at: spec_fn(char) -> int,
    u: Seq<char>,
    v: Seq<char>,
    w: Seq<char>,
    size: spec_fn(char) -> int,
)
    requires
        in_range(at, u, size),
        in_range(at, v, size),
        in_range(at, w, size),
    ensures
        in_range(at, u + v + w, size),
{
    let all = u + v + w;
    assert forall|c: char| #[trigger] all.contains(c) implies 0 <= at(c) < size(c) by {
        let k = choose|k: int| 0 <= k < all.len() && all[k] == c;
        if k < u.len() {
            assert(u[k] == c);
            assert(u.contains(c));
        } else if k < u.len() + v.len() {
            assert(v[k - u.len()] == c);
            assert(v.contains(c));
        } else {
            assert(w[k - u.len() - v.len()] == c);
            assert(w.contains(c));
        }
    }
}

/// The sizes of labels, by the shapes of the inputs.
pub open spec fn input_sizes(specs: Seq<Seq<char>>, shapes: Seq<Seq<i64>>) -> spec_fn(char) -> int {
    |c: char| einsum::label_size(specs, shapes, c) as int
}

/// Everything that two terms are contracted by.
#[verifier::rlimit(60)]
proof fn lemma_pair(
    ops: Seq<OpV>,
    a: TermV,
    b: TermV,
    output: Seq<char>,
    label: Seq<char>,
    m: Reading,
    specs: Seq<Seq<char>>,
    shapes: Seq<Seq<i64>>,
)
    requires
        meaning::holds(einsum::contracted_pair(ops, a, b, output, label).ops, m),
        a.labels.no_duplicates(),
        b.labels.no_duplicates(),
        output.no_duplicates(),
        einsum::sized(a, specs, shapes),
        einsum::sized(b, specs, shapes),
        forall|c: char| #[trigger]
            output.contains(c) ==> a.labels.contains(c) || b.labels.contains(c),
        forall|c: char| #[trigger]
            a.labels.contains(c) ==> output.contains(c) || b.labels.contains(c),
        forall|c: char| #[trigger]
            b.labels.contains(c) ==> output.contains(c) || a.labels.contains(c),
        forall|c: char| #[trigger]
            a.labels.contains(c) ==> einsum::label_size(specs, shapes, c) > 0,
        fits(m.of(a.operand), a.labels, input_sizes(specs, shapes)),
        fits(m.of(b.operand), b.labels, input_sizes(specs, shapes)),
        einsum::groups_in_range(a.labels, a.dims, b.labels, b.dims, output),
        a.labels.len() <= u32::MAX,
        b.labels.len() <= u32::MAX,
        output.len() <= u32::MAX,
    ensures
        meaning::holds(ops, m),
        ({
            let size = input_sizes(specs, shapes);
            let r = m.of(einsum::contracted_pair(ops, a, b, output, label).operand);
            let con = a.labels.filter(|c: char| b.labels.contains(c) && !output.contains(c));
            &&& fits(r, output, size)
            &&& forall|at: spec_fn(char) -> int|
                in_range(at, output, size) ==> #[trigger] labelled(r, output, at)
                    == meaning::sum_all(
                    sizes(con, size),
                    |j: Seq<int>|
                        labelled(m.of(a.operand), a.labels, with_labels(at, con, j)) * labelled(
                            m.of(b.operand),
                            b.labels,
                            with_labels(at, con, j),
                        ),
                )
        }),
{
    let size = input_sizes(specs, shapes);
    let g = einsum::groups(a.labels, b.labels, output);
    let con = a.labels.filter(|c: char| b.labels.contains(c) && !output.contains(c));
    einsum::lemma_pair_fits(a, b, output, specs, shapes);
    lemma_filter_same(
        a.labels,
        |c: char| b.labels.contains(c) == true && output.contains(c) == false,
        |c: char| b.labels.contains(c) && !output.contains(c),
    );
    assert(g.contracted == con);
    einsum::lemma_picked(output, a.labels, true, b.labels, true);
    einsum::lemma_picked(a.labels, b.labels, true, output, false);
    einsum::lemma_picked(a.labels, b.labels, false, seq![], false);
    einsum::lemma_picked(b.labels, a.labels, false, seq![], false);
    assert(meaning::ints(a.dims) =~= sizes(a.labels, size));
    assert(meaning::ints(b.dims) =~= sizes(b.labels, size));
    lemma_sizes_of(a, g.batch, size);
    lemma_sizes_of(a, g.free_a, size);
    lemma_sizes_of(a, g.contracted, size);
    lemma_sizes_of(b, g.free_b, size);
    let batch_dims = einsum::sizes_of(a.labels, a.dims, g.batch);
    let fa_dims = einsum::sizes_of(a.labels, a.dims, g.free_a);
    let fb_dims = einsum::sizes_of(b.labels, b.dims, g.free_b);
    let con_dims = einsum::sizes_of(a.labels, a.dims, g.contracted);
    lemma_product_exact(batch_dims);
    lemma_product_exact(fa_dims);
    lemma_product_exact(fb_dims);
    lemma_product_exact(con_dims);
    let nb = arith::product(batch_dims) as i64;
    let fa = arith::product(fa_dims) as i64;
    let fb = arith::product(fb_dims) as i64;
    let c = arith::product(con_dims) as i64;
    let a_order = g.batch + g.free_a + g.contracted;
    let b_order = g.batch + g.contracted + g.free_b;
    let a_t = einsum::reordered(ops, a, a_order, label + "__a_perm"@);
    let op1 = OpV::Reshape {
        input: a_t.operand,
        shape: seq![nb, fa, c],
        label: label + "__a_3d"@,
    };
    let o1 = a_t.ops.push(op1);
    let b_t = einsum::reordered(o1, b, b_order, label + "__b_perm"@);
    let op2 = OpV::Reshape {
        input: b_t.operand,
        shape: seq![nb, c, fb],
        label: label + "__b_3d"@,
    };
    let o2 = b_t.ops.push(op2);
    let op3 = ops::binary_op(
        BinaryOp::Matmul,
        builder::last_operand(o1),
        builder::last_operand(o2),
        label + "__matmul"@,
    );
    let o3 = o2.push(op3);
    let unpacked = batch_dims + fa_dims + fb_dims;
    let op4 = OpV::Reshape {
        input: builder::last_operand(o3),
        shape: unpacked,
        label: label + "__unpacked"@,
    };
    let o4 = o3.push(op4);
    let order = g.batch + g.free_a + g.free_b;
    let t4 = TermV { operand: builder::last_operand(o4), labels: order, dims: unpacked };
    let last = einsum::reordered(o4, t4, output, label + "__out_perm"@);
    assert(einsum::contracted_pair(ops, a, b, output, label) == last);
    lemma_reordered_front(o4, t4, output, label + "__out_perm"@, m);
    meaning::lemma_holds_push(o3, op4, m);
    meaning::lemma_holds_push(o2, op3, m);
    meaning::lemma_holds_push(b_t.ops, op2, m);
    lemma_reordered(o1, b, b_order, label + "__b_perm"@, m, size);
    meaning::lemma_holds_push(a_t.ops, op1, m);
    lemma_reordered(ops, a, a_order, label + "__a_perm"@, m, size);
    let x = m.of(a_t.operand);
    let y = m.of(b_t.operand);
    let (sb, sa, sc, sf) = (
        sizes(g.batch, size),
        sizes(g.free_a, size),
        sizes(g.contracted, size),
        sizes(g.free_b, size),
    );
    let flat_a = seq![meaning::size(sb), meaning::size(sa), meaning::size(sc)];
    let flat_b = seq![meaning::size(sb), meaning::size(sc), meaning::size(sf)];
    let flat = seq![meaning::size(sb), meaning::size(sa), meaning::size(sf)];
    assert(meaning::ints(seq![nb, fa, c]) =~= flat_a);
    assert(meaning::ints(seq![nb, c, fb]) =~= flat_b);
    let product = m.of(builder::last_operand(o3));
    let open = m.of(builder::last_operand(o4));
    assert(product == meaning::matmul(
        meaning::reshape(x, flat_a),
        meaning::reshape(y, flat_b),
    ));
    assert(meaning::ints(unpacked) =~= sizes(order, size)) by {
        assert(meaning::ints(unpacked) =~= meaning::ints(batch_dims) + meaning::ints(fa_dims)
            + meaning::ints(fb_dims));
        assert(sizes(order, size) =~= sb + sa + sf);
    }
    assert(open == meaning::reshape(product, sizes(order, size)));
    lemma_reordered(o4, t4, output, label + "__out_perm"@, m, size);
    let r = m.of(last.operand);
    einsum::lemma_filter(a.labels, |c: char| b.labels.contains(c) && !output.contains(c));
    assert forall|at: spec_fn(char) -> int|
        in_range(at, output, size) implies #[trigger] labelled(r, output, at) == meaning::sum_all(
        sizes(con, size),
        |j: Seq<int>|
            labelled(m.of(a.operand), a.labels, with_labels(at, con, j)) * labelled(
                m.of(b.operand),
                b.labels,
                with_labels(at, con, j),
            ),
    ) by {
        assert(labelled(r, output, at) == labelled(open, order, at));
        assert(in_range(at, g.batch, size)) by {
            assert forall|c: char| #[trigger] g.batch.contains(c) implies output.contains(c) by {
                let k = choose|k: int| 0 <= k < g.batch.len() && g.batch[k] == c;
                assert(output.contains(g.batch[k]));
            }
        }
        assert(in_range(at, g.free_a, size)) by {
            assert forall|c: char| #[trigger] g.free_a.contains(c) implies output.contains(c) by {
                let k = choose|k: int| 0 <= k < g.free_a.len() && g.free_a[k] == c;
                assert(a.labels.contains(g.free_a[k]) && !b.labels.contains(g.free_a[k]));
            }
        }
        assert(in_range(at, g.free_b, size)) by {
            assert forall|c: char| #[trigger] g.free_b.contains(c) implies output.contains(c) by {
                let k = choose|k: int| 0 <= k < g.free_b.len() && g.free_b[k] == c;
                assert(b.labels.contains(g.free_b[k]) && !a.labels.contains(g.free_b[k]));
            }
        }
        assert forall|c: char| #[trigger] con.contains(c) implies !g.batch.contains(c)
            && !g.free_a.contains(c) && !g.free_b.contains(c) && size(c) >= 0 by {
            assert(a.labels.contains(c) && b.labels.contains(c) && !output.contains(c));
            if g.batch.contains(c) {
                let k = choose|k: int| 0 <= k < g.batch.len() && g.batch[k] == c;
                assert(output.contains(g.batch[k]));
            }
            if g.free_a.contains(c) {
                let k = choose|k: int| 0 <= k < g.free_a.len() && g.free_a[k] == c;
                assert(!b.labels.contains(g.free_a[k]));
            }
            if g.free_b.contains(c) {
                let k = choose|k: int| 0 <= k < g.free_b.len() && g.free_b[k] == c;
                assert(!a.labels.contains(g.free_b[k]));
            }
        }
        lemma_contraction(x, y, g.batch, g.free_a, con, g.free_b, size, at);
        // The product unpacked.
        lemma_valid_indices(at, g.batch, size);
        lemma_valid_indices(at, g.free_a, size);
        lemma_valid_indices(at, g.free_b, size);
        meaning::lemma_place(indices(g.batch, at), sb);
        meaning::lemma_place(indices(g.free_a, at), sa);
        meaning::lemma_place(indices(g.free_b, at), sf);
        let i = seq![
            meaning::place(indices(g.batch, at), sb),
            meaning::place(indices(g.free_a, at), sa),
            meaning::place(indices(g.free_b, at), sf),
        ];
        assert(meaning::valid(i, product.shape));
        lemma_flat_place(g.batch, g.free_a, g.free_b, size, flat, at);
        meaning::lemma_reshape(product, sizes(order, size), indices(order, at), i);
        // Both operands by their own labels.
        let f = |j: Seq<int>|
            labelled(x, a_order, with_labels(at, con, j)) * labelled(
                y,
                b_order,
                with_labels(at, con, j),
            );
        let h = |j: Seq<int>|
            labelled(m.of(a.operand), a.labels, with_labels(at, con, j)) * labelled(
                m.of(b.operand),
                b.labels,
                with_labels(at, con, j),
            );
        let ff = |n: int| f(meaning::index_at(n, sizes(con, size)));
        let hh = |n: int| h(meaning::index_at(n, sizes(con, size)));
        assert forall|n: int| 0 <= n < meaning::size(sizes(con, size)) implies #[trigger] ff(n)
            == hh(n) by {
            let w = with_labels(at, con, meaning::index_at(n, sizes(con, size)));
            assert(labelled(x, a_order, w) == labelled(m.of(a.operand), a.labels, w));
            assert(labelled(y, b_order, w) == labelled(m.of(b.operand), b.labels, w));
        }
        meaning::lemma_sum_same(meaning::size(sizes(con, size)), ff, hh);
    }
}

proof fn lemma_product_exact(v: Seq<i64>)
    requires
        arith::product_fits(v),
    ensures
        arith::product(v) as i64 == arith::product(v),
{
    assert(v.take(v.len() as int) =~= v);
    assert(arith::fits_i64(arith::product(v.take(v.len() as int))));
}

proof fn lemma_filter_same(v: Seq<char>, f: spec_fn(char) -> bool, g: spec_fn(char) -> bool)
    requires
        forall|c: char| v.contains(c) ==> f(c) == g(c),
    ensures
        v.filter(f) == v.filter(g),
    decreases v.len(),
{
    reveal(Seq::filter);
    if v.len() > 0 {
        let front = v.drop_last();
        assert forall|c: char| front.contains(c) implies f(c) == g(c) by {
            let k = choose|k: int| 0 <= k < front.len() && front[k] == c;
            assert(v[k] == c);
            assert(v.contains(c));
        }
        lemma_filter_same(front, f, g);
        assert(v.contains(v[v.len() - 1]));
    }
}

#[verifier::rlimit(40)]
proof fn lemma_reordered_front(
    ops: Seq<OpV>,
    t: TermV,
    target: Seq<char>,
    label: Seq<char>,
    m: Reading,
)
    requires
        meaning::holds(einsum::reordered(ops, t, target, label).ops, m),
    ensures
        meaning::holds(ops, m),
{
    broadcast use meaning::lemma_holds_push;

}

// ---------------------------------------------------------------------------
// Nodes
// ---------------------------------------------------------------------------

/// The indices of the output labels at an element of the output.
pub open spec fn output_at(output: Seq<char>, o: Seq<int>) -> spec_fn(char) -> int {
    |c: char| o[text::first_pos(output, c)]
}

/// The labels that only this input has.
pub open spec fn own_labels(labels: Seq<char>, other: Seq<char>, output: Seq<char>) -> Seq<char> {
    labels.filter(|c: char| !other.contains(c) && !output.contains(c))
}

/// The labels that both inputs have and the output has not.
pub open spec fn shared_labels(labels: Seq<char>, other: Seq<char>, output: Seq<char>) -> Seq<char> {
    labels.filter(|c: char| other.contains(c) && !output.contains(c))
}

/// An input summed over the labels that only it has.
pub open spec fn own_sum(
    x: Tensor,
    labels: Seq<char>,
    own: Seq<char>,
    size: spec_fn(char) -> int,
    at: spec_fn(char) -> int,
) -> real {
    meaning::sum_all(
        sizes(own, size),
        |k: Seq<int>| labelled(x, labels, with_labels(at, own, k)),
    )
}

/// An element of an equation on two inputs: over all indices of the shared
/// labels that the output has not, the sum of the products of both inputs, each
/// summed over the labels that only it has.
pub open spec fn contraction(
    x: Tensor,
    y: Tensor,
    a: Seq<char>,
    b: Seq<char>,
    output: Seq<char>,
    size: spec_fn(char) -> int,
    at: spec_fn(char) -> int,
) -> real {
    let con = shared_labels(a, b, output);
    meaning::sum_all(
        sizes(con, size),
        |j: Seq<int>|
            own_sum(x, a, own_labels(a, b, output), size, with_labels(at, con, j)) * own_sum(
                y,
                b,
                own_labels(b, a, output),
                size,
                with_labels(at, con, j),
            ),
    )
}

proof fn lemma_output_indices(output: Seq<char>, o: Seq<int>, size: spec_fn(char) -> int)
    requires
        output.no_duplicates(),
        meaning::valid(o, sizes(output, size)),
    ensures
        indices(output, output_at(output, o)) == o,
        in_range(output_at(output, o), output, size),
{
    let at = output_at(output, o);
    assert forall|k: int| 0 <= k < output.len() implies at(output[k]) == o[k] by {
        lemma_position(output, k);
    }
    assert(indices(output, at) =~= o);
    assert forall|c: char| #[trigger] output.contains(c) implies 0 <= at(c) < size(c) by {
        let k = choose|k: int| 0 <= k < output.len() && output[k] == c;
        assert(at(output[k]) == o[k]);
        assert(0 <= o[k] < sizes(output, size)[k]);
    }
}

/// What is kept of what is kept.
proof fn lemma_filter_twice(
    v: Seq<char>,
    f: spec_fn(char) -> bool,
    g: spec_fn(char) -> bool,
    h: spec_fn(char) -> bool,
)
    requires
        forall|c: char| v.contains(c) ==> h(c) == (f(c) && g(c)),
    ensures
        v.filter(f).filter(g) == v.filter(h),
    decreases v.len(),
{
    reveal(Seq::filter);
    if v.len() > 0 {
        let front = v.drop_last();
        assert forall|c: char| front.contains(c) implies h(c) == (f(c) && g(c)) by {
            let k = choose|k: int| 0 <= k < front.len() && front[k] == c;
            assert(v[k] == c);
            assert(v.contains(c));
        }
        lemma_filter_twice(front, f, g, h);
        let x = v.last();
        assert(v.contains(v[v.len() - 1]));
        if f(x) {
            assert(v.filter(f) == front.filter(f).push(x));
            assert(front.filter(f).push(x).drop_last() =~= front.filter(f));
        }
    }
}

/// The inputs of a node have the shapes that the lowering knows, axes with the
/// same label have the same size, and the lowering succeeds.
pub open spec fn is_lowered(
    node: NodeV,
    name: Seq<char>,
    ctx: ContextV,
    ops: Seq<OpV>,
    m: Reading,
    shapes: Seq<Seq<i64>>,
) -> bool {
    &&& einsum::einsum_params(node, name) matches Ok(p)
    &&& einsum::einsum_outcome(node, name, ctx, ops).result is Ok
    &&& meaning::holds(einsum::einsum_outcome(node, name, ctx, ops).ops, m)
    &&& einsum::einsum_in_range(node, name, ctx)
    &&& shapes.len() == node.input.len()
    &&& forall|i: int|
        0 <= i < shapes.len() ==> ctx.shape(node.input[i]) == Some(#[trigger] shapes[i]) && m.name(
            node.input[i],
        ).shape == meaning::ints(shapes[i])
    &&& einsum::sizes_agree(p.input_specs, shapes)
    &&& forall|i: int| 0 <= i < shapes.len() ==> (#[trigger] p.input_specs[i]).len() <= u32::MAX
    &&& p.output_spec.len() <= u32::MAX
}

/// A lowered `Einsum` node on one input: every element of the output is the sum
/// of the elements of the input that agree with it on the output labels.
#[verifier::rlimit(40)]
pub proof fn law_einsum_of_one_input(
    node: NodeV,
    name: Seq<char>,
    ctx: ContextV,
    ops: Seq<OpV>,
    m: Reading,
    shapes: Seq<Seq<i64>>,
)
    requires
        node.input.len() == 1,
        node.output.len() > 0,
        is_lowered(node, name, ctx, ops, m, shapes),
    ensures
        ({
            let p = einsum::einsum_params(node, name)->Ok_0;
            let a = p.input_specs[0];
            let out = p.output_spec;
            let size = input_sizes(p.input_specs, shapes);
            let y = m.name(node.output[0]);
            &&& y.shape == sizes(out, size)
            &&& forall|o: Seq<int>|
                meaning::valid(o, y.shape) ==> #[trigger] (y.at)(o) == own_sum(
                    m.name(node.input[0]),
                    a,
                    own_labels(a, seq![], out),
                    size,
                    output_at(out, o),
                )
        }),
{
    let p = einsum::einsum_params(node, name)->Ok_0;
    let equation = einsum::node_equation(node)->0;
    let label = node.label(name);
    let specs = p.input_specs;
    let out = p.output_spec;
    let a = specs[0];
    let size = input_sizes(specs, shapes);
    einsum::lemma_labels_differ(equation, 1, name);
    reveal_with_fuel(einsum::load_terms, 2);
    let o1 = ops::resolved(ops, node.input[0]);
    let t0 = TermV { operand: builder::last_operand(o1), labels: a, dims: shapes[0] };
    let loaded = einsum::load_terms(ops, seq![], node, ctx, specs, equation, 0);
    assert(shapes[0] == ctx.shape(node.input[0])->0);
    assert(loaded.ops == o1 && loaded.result == Ok::<Seq<TermV>, crate::error::ErrorV>(
        Seq::<TermV>::empty().push(t0),
    ));
    let first = einsum::sum_term(o1, t0, specs, out, 0, label);
    let last = einsum::reordered(first.ops, first.term, out, label + "__perm"@);
    let end = OpV::RecordOutput { output: node.output[0], label, operand: last.operand };
    assert(einsum::einsum_outcome(node, name, ctx, ops).ops == last.ops.push(end));
    meaning::lemma_holds_push(last.ops, end, m);
    lemma_reordered_front(first.ops, first.term, out, label + "__perm"@, m);
    lemma_term_fits(specs, shapes, 0);
    lemma_sum_front(o1, t0, specs, out, 0, label, m);
    meaning::lemma_holds_push(ops, OpV::Resolve { name: node.input[0] }, m);
    lemma_summed(o1, t0, specs, out, 0, label, m, size);
    einsum::lemma_summed(o1, t0, p, shapes, 0, label);
    assert forall|c: char| #[trigger] first.term.labels.contains(c) <==> out.contains(c) by {
        if out.contains(c) {
            let k = choose|k: int| 0 <= k < out.len() && out[k] == c;
            einsum::lemma_output_known(equation, 1, name, k);
        }
    }
    einsum::lemma_same_length(first.term.labels, out);
    lemma_kept_len(a, einsum::keep_fn(specs, out, 0));
    lemma_reordered(first.ops, first.term, out, label + "__perm"@, m, size);
    let keep = einsum::keep_fn(specs, out, 0);
    lemma_filter_same(
        a,
        |c: char| !keep(c),
        |c: char| !Seq::<char>::empty().contains(c) && !out.contains(c),
    );
    let y = m.name(node.output[0]);
    let x = m.name(node.input[0]);
    assert forall|o: Seq<int>| meaning::valid(o, y.shape) implies #[trigger] (y.at)(o) == own_sum(
        x,
        a,
        own_labels(a, seq![], out),
        size,
        output_at(out, o),
    ) by {
        lemma_output_indices(out, o, size);
        let at = output_at(out, o);
        assert((y.at)(o) == labelled(y, out, at));
        assert(labelled(y, out, at) == labelled(m.of(first.term.operand), first.term.labels, at));
    }
}

proof fn lemma_kept_len(v: Seq<char>, keep: spec_fn(char) -> bool)
    ensures
        v.filter(keep).len() <= v.len(),
    decreases v.len(),
{
    reveal(Seq::filter);
    if v.len() > 0 {
        lemma_kept_len(v.drop_last(), keep);
    }
}

/// The shape of an input, by the sizes of its labels.
proof fn lemma_term_fits(specs: Seq<Seq<char>>, shapes: Seq<Seq<i64>>, i: int)
    requires
        0 <= i < specs.len(),
        einsum::sizes_agree(specs, shapes),
        specs[i].len() == shapes[i].len(),
    ensures
        meaning::ints(shapes[i]) == sizes(specs[i], input_sizes(specs, shapes)),
{
    let s = sizes(specs[i], input_sizes(specs, shapes));
    assert forall|k: int| 0 <= k < s.len() implies s[k] == shapes[i][k] by {
        assert(shapes[i][k] == einsum::label_size(specs, shapes, specs[i][k]));
    }
    assert(meaning::ints(shapes[i]) =~= s);
}

#[verifier::rlimit(40)]
proof fn lemma_sum_front(
    ops: Seq<OpV>,
    t: TermV,
    specs: Seq<Seq<char>>,
    output: Seq<char>,
    index: int,
    label: Seq<char>,
    m: Reading,
)
    requires
        meaning::holds(einsum::sum_term(ops, t, specs, output, index, label).ops, m),
    ensures
        meaning::holds(ops, m),
{
    broadcast use meaning::lemma_holds_push;

}

/// What is left of the labels of an input once it is summed.
proof fn lemma_keeps(specs: Seq<Seq<char>>, output: Seq<char>, index: int, other: int)
    requires
        specs.len() == 2,
        index == 0 && other == 1 || index == 1 && other == 0,
    ensures
        forall|c: char| #[trigger]
            einsum::keeps(specs, output, index, c) == (output.contains(c)
                || specs[other].contains(c)),
        specs[index].filter(|c: char| !einsum::keep_fn(specs, output, index)(c)) == own_labels(
            specs[index],
            specs[other],
            output,
        ),
{
    let keep = einsum::keep_fn(specs, output, index);
    assert forall|c: char| #[trigger] einsum::keeps(specs, output, index, c) == (output.contains(c)
        || specs[other].contains(c)) by {
        if specs[other].contains(c) {
            assert(other != index);
        }
    }
    lemma_filter_same(
        specs[index],
        |c: char| !keep(c),
        |c: char| !specs[other].contains(c) && !output.contains(c),
    );
}

/// A lowered `Einsum` node on two inputs: every element of the output is the
/// sum, over all indices of the labels that the output has not, of the products
/// of the elements of the inputs that the indices name.
#[verifier::rlimit(60)]
pub proof fn law_einsum_of_two_inputs(
    node: NodeV,
    name: Seq<char>,
    ctx: ContextV,
    ops: Seq<OpV>,
    m: Reading,
    shapes: Seq<Seq<i64>>,
)
    requires
        node.input.len() == 2,
        node.output.len() > 0,
        is_lowered(node, name, ctx, ops, m, shapes),
    ensures
        ({
            let p = einsum::einsum_params(node, name)->Ok_0;
            let out = p.output_spec;
            let size = input_sizes(p.input_specs, shapes);
            let y = m.name(node.output[0]);
            &&& y.shape == sizes(out, size)
            &&& forall|o: Seq<int>|
                meaning::valid(o, y.shape) ==> #[trigger] (y.at)(o) == contraction(
                    m.name(node.input[0]),
                    m.name(node.input[1]),
                    p.input_specs[0],
                    p.input_specs[1],
                    out,
                    size,
                    output_at(out, o),
                )
        }),
{
    let p = einsum::einsum_params(node, name)->Ok_0;
    let equation = einsum::node_equation(node)->0;
    let label = node.label(name);
    let specs = p.input_specs;
    let out = p.output_spec;
    let la = specs[0];
    let lb = specs[1];
    let size = input_sizes(specs, shapes);
    einsum::lemma_labels_differ(equation, 2, name);
    reveal_with_fuel(einsum::load_terms, 3);
    let r0 = OpV::Resolve { name: node.input[0] };
    let r1 = OpV::Resolve { name: node.input[1] };
    let o1 = ops.push(r0);
    let o2 = o1.push(r1);
    let t0 = TermV { operand: builder::last_operand(o1), labels: la, dims: shapes[0] };
    let t1 = TermV { operand: builder::last_operand(o2), labels: lb, dims: shapes[1] };
    let loaded = einsum::load_terms(ops, seq![], node, ctx, specs, equation, 0);
    assert(shapes[0] == ctx.shape(node.input[0])->0);
    assert(shapes[1] == ctx.shape(node.input[1])->0);
    let terms = Seq::<TermV>::empty().push(t0).push(t1);
    assert(loaded.ops == o2 && loaded.result == Ok::<Seq<TermV>, crate::error::ErrorV>(terms));
    let first = einsum::sum_term(o2, t0, specs, out, 0, label);
    let second = einsum::sum_term(first.ops, t1, specs, out, 1, label);
    let a = first.term;
    let b = second.term;
    let last = einsum::contracted_pair(second.ops, a, b, out, label);
    let end = OpV::RecordOutput { output: node.output[0], label, operand: last.operand };
    assert(einsum::einsum_outcome(node, name, ctx, ops).ops == last.ops.push(end));
    meaning::lemma_holds_push(last.ops, end, m);
    lemma_pair_front(second.ops, a, b, out, label, m);
    lemma_sum_front(first.ops, t1, specs, out, 1, label, m);
    lemma_sum_front(o2, t0, specs, out, 0, label, m);
    meaning::lemma_holds_push(o1, r1, m);
    meaning::lemma_holds_push(ops, r0, m);
    lemma_term_fits(specs, shapes, 0);
    lemma_term_fits(specs, shapes, 1);
    lemma_summed(o2, t0, specs, out, 0, label, m, size);
    lemma_summed(first.ops, t1, specs, out, 1, label, m, size);
    einsum::lemma_summed(o2, t0, p, shapes, 0, label);
    einsum::lemma_summed(first.ops, t1, p, shapes, 1, label);
    einsum::lemma_sum_term(o2, t0, specs, out, 0, label);
    einsum::lemma_sum_term(first.ops, t1, specs, out, 1, label);
    lemma_keeps(specs, out, 0, 1);
    lemma_keeps(specs, out, 1, 0);
    assert forall|c: char| #[trigger] out.contains(c) implies a.labels.contains(c)
        || b.labels.contains(c) by {
        let k = choose|k: int| 0 <= k < out.len() && out[k] == c;
        einsum::lemma_output_known(equation, 2, name, k);
        assert(la.contains(c) || lb.contains(c));
    }
    assert forall|c: char| #[trigger] a.labels.contains(c) implies out.contains(c)
        || b.labels.contains(c) by {
        assert(einsum::keeps(specs, out, 0, c));
        assert(einsum::keeps(specs, out, 1, c) == (out.contains(c) || la.contains(c)));
    }
    assert forall|c: char| #[trigger] b.labels.contains(c) implies out.contains(c)
        || a.labels.contains(c) by {
        assert(einsum::keeps(specs, out, 1, c));
        assert(einsum::keeps(specs, out, 0, c) == (out.contains(c) || lb.contains(c)));
    }
    assert forall|c: char| #[trigger] a.labels.contains(c) implies einsum::label_size(
        specs,
        shapes,
        c,
    ) > 0 by {
        assert(la.contains(c));
        let k = choose|k: int| 0 <= k < la.len() && la[k] == c;
        assert(shapes[0][k] == einsum::label_size(specs, shapes, specs[0][k]));
    }
    lemma_kept_len(la, einsum::keep_fn(specs, out, 0));
    lemma_kept_len(lb, einsum::keep_fn(specs, out, 1));
    assert(einsum::term_fits(node, ctx, p, 0) && einsum::term_fits(node, ctx, p, 1));
    lemma_pair(second.ops, a, b, out, label, m, specs, shapes);
    let con = shared_labels(la, lb, out);
    assert(a.labels.filter(|c: char| b.labels.contains(c) && !out.contains(c)) == con) by {
        lemma_filter_twice(
            la,
            einsum::keep_fn(specs, out, 0),
            |c: char| b.labels.contains(c) && !out.contains(c),
            |c: char| lb.contains(c) && !out.contains(c),
        );
    }
    let y = m.name(node.output[0]);
    let x0 = m.name(node.input[0]);
    let x1 = m.name(node.input[1]);
    assert forall|o: Seq<int>| meaning::valid(o, y.shape) implies #[trigger] (y.at)(o)
        == contraction(x0, x1, la, lb, out, size, output_at(out, o)) by {
        lemma_output_indices(out, o, size);
        let at = output_at(out, o);
        assert((y.at)(o) == labelled(y, out, at));
        let f = |j: Seq<int>|
            labelled(m.of(a.operand), a.labels, with_labels(at, con, j)) * labelled(
                m.of(b.operand),
                b.labels,
                with_labels(at, con, j),
            );
        let g = |j: Seq<int>|
            own_sum(x0, la, own_labels(la, lb, out), size, with_labels(at, con, j)) * own_sum(
                x1,
                lb,
                own_labels(lb, la, out),
                size,
                with_labels(at, con, j),
            );
        let shape = sizes(con, size);
        let ff = |n: int| f(meaning::index_at(n, shape));
        let gg = |n: int| g(meaning::index_at(n, shape));
        assert forall|n: int| 0 <= n < meaning::size(shape) implies #[trigger] ff(n) == gg(n) by {
            let w = with_labels(at, con, meaning::index_at(n, shape));
            assert(labelled(m.of(a.operand), a.labels, w) == own_sum(
                x0,
                la,
                own_labels(la, lb, out),
                size,
                w,
            ));
            assert(labelled(m.of(b.operand), b.labels, w) == own_sum(
                x1,
                lb,
                own_labels(lb, la, out),
                size,
                w,
            ));
        }
        meaning::lemma_sum_same(meaning::size(shape), ff, gg);
    }
}

#[verifier::rlimit(40)]
proof fn lemma_pair_front(
    ops: Seq<OpV>,
    a: TermV,
    b: TermV,
    output: Seq<char>,
    label: Seq<char>,
    m: Reading,
)
    requires
        meaning::holds(einsum::contracted_pair(ops, a, b, output, label).ops, m),
    ensures
        meaning::holds(ops, m),
{
    broadcast use meaning::lemma_holds_push;

}

} // verus!
