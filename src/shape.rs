//! Shapes of dense tensors: broadcasting rules and row-major strides.

use vstd::prelude::*;

verus! {

/// The number of elements of a row-major tensor of shape `s`.
pub open spec fn shape_size(s: Seq<usize>) -> nat
    decreases s.len(),
{
    if s.len() == 0 {
        1
    } else {
        (s[0] as nat) * shape_size(s.drop_first())
    }
}

/// Every trailing part of the shape has a size that fits in `usize`.
pub open spec fn strides_fit(s: Seq<usize>) -> bool {
    forall|i: int| 0 <= i <= s.len() ==> #[trigger] shape_size(s.subrange(i, s.len() as int)) <= usize::MAX
}

/// The row-major stride of dimension `i`: the size of the dimensions after it.
pub open spec fn stride(s: Seq<usize>, i: int) -> nat {
    shape_size(s.subrange(i + 1, s.len() as int))
}

/// Dimension `i` of `s` counted from the last one, or 1 past its start.
pub open spec fn from_end(s: Seq<usize>, i: int) -> usize {
    if i < s.len() {
        s[s.len() - 1 - i]
    } else {
        1
    }
}

/// `s` padded on the left with ones to length `n`.
pub open spec fn padded(s: Seq<usize>, n: int) -> Seq<usize> {
    Seq::new(n as nat, |i: int| from_end(s, n - 1 - i))
}

/// Two shapes broadcast together: aligned from the last dimension, each
/// pair of dimensions is equal or one of them is 1.
pub open spec fn broadcastable(a: Seq<usize>, b: Seq<usize>) -> bool {
    forall|i: int|
        0 <= i < a.len() && i < b.len() ==> #[trigger] from_end(a, i) == from_end(b, i) || from_end(a, i)
            == 1 || from_end(b, i) == 1
}

pub open spec fn max_len(a: Seq<usize>, b: Seq<usize>) -> int {
    if a.len() < b.len() {
        b.len() as int
    } else {
        a.len() as int
    }
}

/// The shape two shapes broadcast to: aligned from the last dimension,
/// the larger of each pair, a missing dimension counting as 1.
pub open spec fn target(a: Seq<usize>, b: Seq<usize>) -> Seq<usize> {
    let n = max_len(a, b);
    Seq::new(
        n as nat,
        |i: int|
            if from_end(a, n - 1 - i) < from_end(b, n - 1 - i) {
                from_end(b, n - 1 - i)
            } else {
                from_end(a, n - 1 - i)
            },
    )
}

/// Whether two shapes are compatible for broadcasting.
pub fn compatible(shape1: &[usize], shape2: &[usize]) -> (r: bool)
    ensures
        r == broadcastable(shape1@, shape2@),
{
    let n1 = shape1.len();
    let n2 = shape2.len();
    let mut i: usize = 0;
    while i < n1 && i < n2
        invariant
            n1 == shape1@.len(),
            n2 == shape2@.len(),
            i <= n1,
            i <= n2,
            forall|k: int|
                0 <= k < i ==> #[trigger] from_end(shape1@, k) == from_end(shape2@, k) || from_end(
                    shape1@,
                    k,
                ) == 1 || from_end(shape2@, k) == 1,
        decreases n1 - i,
    {
        let a = shape1[n1 - 1 - i];
        let b = shape2[n2 - 1 - i];
        assert(a == from_end(shape1@, i as int));
        assert(b == from_end(shape2@, i as int));
        if !(a == b || a == 1 || b == 1) {
            return false;
        }
        i += 1;
    }
    true
}

fn dim_from_end(s: &[usize], i: usize) -> (r: usize)
    ensures
        r == from_end(s@, i as int),
{
    if i < s.len() {
        s[s.len() - 1 - i]
    } else {
        1
    }
}

/// The shape that two shapes broadcast to.
pub fn target_shape(shape1: &[usize], shape2: &[usize]) -> (r: Vec<usize>)
    ensures
        r@ == target(shape1@, shape2@),
{
    let n = if shape1.len() < shape2.len() {
        shape2.len()
    } else {
        shape1.len()
    };
    let mut r: Vec<usize> = Vec::new();
    let mut i: usize = 0;
    while i < n
        invariant
            n == max_len(shape1@, shape2@),
            i <= n,
            r@.len() == i,
            forall|k: int| 0 <= k < i ==> r@[k] == #[trigger] target(shape1@, shape2@)[k],
        decreases n - i,
    {
        let a = dim_from_end(shape1, n - 1 - i);
        let b = dim_from_end(shape2, n - 1 - i);
        r.push(if a < b { b } else { a });
        i += 1;
    }
    assert(r@ =~= target(shape1@, shape2@));
    r
}

/// How one dimension of a dense tensor is walked when it is broadcast.
#[derive(Clone, Copy, Debug, PartialEq, Eq, Structural)]
pub struct BroadcastDimension {
    /// The size of the slice below this dimension.
    pub size: usize,
    /// The step between iterations: 0 for a broadcast dimension.
    pub stride: usize,
    /// The number of iterations.
    pub target: usize,
}

/// The broadcast dimension for a dimension `a` of stride `s` walked to the
/// dimension `b` of the target shape.
pub open spec fn broadcast_dim(a: usize, b: usize, s: usize) -> BroadcastDimension {
    BroadcastDimension {
        stride: if a == 1 {
            0
        } else {
            s
        },
        size: s,
        target: if a < b {
            b
        } else {
            a
        },
    }
}

pub open spec fn min3(a: nat, b: nat, c: nat) -> nat {
    if a <= b && a <= c {
        a
    } else if b <= c {
        b
    } else {
        c
    }
}

impl BroadcastDimension {
    /// The broadcast dimensions of a shape with the given strides, walked
    /// to the dimensions of `bshape`, position by position.
    pub fn shape_from_iters(shape: &[usize], bshape: &[usize], strides: &[usize]) -> (r: Vec<
        BroadcastDimension,
    >)
        ensures
            r@.len() == min3(shape@.len(), bshape@.len(), strides@.len()),
            forall|i: int|
                0 <= i < r@.len() ==> #[trigger] r@[i] == broadcast_dim(
                    shape@[i],
                    bshape@[i],
                    strides@[i],
                ),
    {
        let mut r: Vec<BroadcastDimension> = Vec::new();
        let mut i: usize = 0;
        while i < shape.len() && i < bshape.len() && i < strides.len()
            invariant
                i <= shape@.len(),
                i <= bshape@.len(),
                i <= strides@.len(),
                r@.len() == i,
                forall|k: int|
                    0 <= k < i ==> #[trigger] r@[k] == broadcast_dim(shape@[k], bshape@[k], strides@[k]),
            decreases shape@.len() - i,
        {
            let a = shape[i];
            let b = bshape[i];
            let s = strides[i];
            r.push(
                BroadcastDimension {
                    stride: if a == 1 {
                        0
                    } else {
                        s
                    },
                    size: s,
                    target: if a < b {
                        b
                    } else {
                        a
                    },
                },
            );
            i += 1;
        }
        r
    }
}

/// The broadcast dimensions of `shape`, with the given strides, walked to
/// `bshape`.
pub fn broadcast_dims(bshape: &[usize], shape: &[usize], strides: &[usize]) -> (r: Vec<
    BroadcastDimension,
>)
    ensures
        r@.len() == min3(shape@.len(), bshape@.len(), strides@.len()),
        forall|i: int|
            0 <= i < r@.len() ==> #[trigger] r@[i] == broadcast_dim(shape@[i], bshape@[i], strides@[i]),
{
    BroadcastDimension::shape_from_iters(shape, bshape, strides)
}

proof fn lemma_suffix_step(s: Seq<usize>, i: int)
    requires
        0 <= i < s.len(),
    ensures
        shape_size(s.subrange(i, s.len() as int)) == (s[i] as nat) * shape_size(
            s.subrange(i + 1, s.len() as int),
        ),
{
    assert(s.subrange(i, s.len() as int).drop_first() =~= s.subrange(i + 1, s.len() as int));
}

/// The row-major strides of a shape: for each dimension, the size of the
/// dimensions after it.
pub fn dense_strides(shape: &[usize]) -> (r: Vec<usize>)
    requires
        strides_fit(shape@),
    ensures
        r@.len() == shape@.len(),
        forall|i: int| 0 <= i < r@.len() ==> r@[i] as nat == #[trigger] stride(shape@, i),
{
    let n = shape.len();
    let mut r: Vec<usize> = Vec::new();
    let mut k: usize = 0;
    while k < n
        invariant
            n == shape@.len(),
            k <= n,
            r@.len() == k,
        decreases n - k,
    {
        r.push(0);
        k += 1;
    }
    let mut acc: usize = 1;
    let mut i: usize = n;
    assert(shape@.subrange(n as int, n as int) =~= Seq::<usize>::empty());
    while i > 0
        invariant
            n == shape@.len(),
            strides_fit(shape@),
            i <= n,
            r@.len() == n,
            acc as nat == shape_size(shape@.subrange(i as int, n as int)),
            forall|q: int| i <= q < n ==> r@[q] as nat == #[trigger] stride(shape@, q),
        decreases i,
    {
        r.set(i - 1, acc);
        let d = shape[i - 1];
        proof {
            lemma_suffix_step(shape@, i - 1);
            assert(shape_size(shape@.subrange(i - 1, n as int)) <= usize::MAX);
            assert((acc as nat) * (d as nat) == (d as nat) * (acc as nat)) by (nonlinear_arith);
        }
        acc = acc * d;
        i -= 1;
    }
    r
}

/// Walks the strides of a dense shape, one dimension at a time.
pub struct DenseStrideIter {
    strides: Vec<usize>,
    index: usize,
}

impl DenseStrideIter {
    pub closed spec fn spec_strides(&self) -> Seq<usize> {
        self.strides@
    }

    pub closed spec fn spec_index(&self) -> usize {
        self.index
    }

    pub fn new(shape: &[usize]) -> (r: DenseStrideIter)
        requires
            strides_fit(shape@),
        ensures
            r.spec_index() == 0,
            r.spec_strides().len() == shape@.len(),
            forall|i: int| 0 <= i < shape@.len() ==> r.spec_strides()[i] as nat == #[trigger] stride(shape@, i),
    {
        DenseStrideIter { strides: dense_strides(shape), index: 0 }
    }

    /// The stride of the next dimension, or `None` past the last one.
    pub fn next(&mut self) -> (r: Option<usize>)
        ensures
            final(self).spec_strides() == old(self).spec_strides(),
            old(self).spec_index() < old(self).spec_strides().len() ==> r == Some(
                old(self).spec_strides()[old(self).spec_index() as int],
            ) && final(self).spec_index() == old(self).spec_index() + 1,
            old(self).spec_index() >= old(self).spec_strides().len() ==> r is None,
    {
        if self.index < self.strides.len() {
            let s = self.strides[self.index];
            self.index = self.index + 1;
            Some(s)
        } else {
            None
        }
    }
}

/// The dimensions of a dense tensor.
pub struct TensorShape {
    dimensions: Vec<usize>,
}

impl TensorShape {
    pub closed spec fn spec_dimensions(&self) -> Seq<usize> {
        self.dimensions@
    }

    pub fn new(dimensions: Vec<usize>) -> (r: TensorShape)
        ensures
            r.spec_dimensions() == dimensions@,
    {
        TensorShape { dimensions }
    }

    pub fn dimensions(&self) -> (r: &[usize])
        ensures
            r@ == self.spec_dimensions(),
    {
        self.dimensions.as_slice()
    }

    /// Whether the two shapes are compatible for broadcasting.
    pub fn is_broadcast_compat(&self, other: &TensorShape) -> (r: bool)
        ensures
            r == broadcastable(self.spec_dimensions(), other.spec_dimensions()),
    {
        compatible(self.dimensions.as_slice(), other.dimensions.as_slice())
    }

    /// The shape both broadcast to, if they are compatible.
    pub fn broadcast_shape(&self, other: &TensorShape) -> (r: Option<TensorShape>)
        ensures
            r is Some <==> broadcastable(self.spec_dimensions(), other.spec_dimensions()),
            r matches Some(t) ==> t.spec_dimensions() == target(
                self.spec_dimensions(),
                other.spec_dimensions(),
            ),
    {
        if self.is_broadcast_compat(other) {
            Some(TensorShape { dimensions: target_shape(self.dimensions.as_slice(), other.dimensions.as_slice()) })
        } else {
            None
        }
    }

    /// The number of elements of the shape.
    pub fn big_stride(&self) -> (r: usize)
        requires
            strides_fit(self.spec_dimensions()),
        ensures
            r as nat == shape_size(self.spec_dimensions()),
    {
        let d = self.dimensions.as_slice();
        let mut acc: usize = 1;
        let mut i: usize = d.len();
        assert(d@.subrange(d@.len() as int, d@.len() as int) =~= Seq::<usize>::empty());
        while i > 0
            invariant
                d@ == self.spec_dimensions(),
                strides_fit(d@),
                i <= d@.len(),
                acc as nat == shape_size(d@.subrange(i as int, d@.len() as int)),
            decreases i,
        {
            let x = d[i - 1];
            proof {
                lemma_suffix_step(d@, i - 1);
                assert(shape_size(d@.subrange(i - 1, d@.len() as int)) <= usize::MAX);
                assert((acc as nat) * (x as nat) == (x as nat) * (acc as nat)) by (nonlinear_arith);
            }
            acc = acc * x;
            i -= 1;
        }
        assert(d@.subrange(0, d@.len() as int) =~= d@);
        acc
    }

    /// Walks the row-major strides of the shape.
    pub fn dense_strides_iter(&self) -> (r: DenseStrideIter)
        requires
            strides_fit(self.spec_dimensions()),
        ensures
            r.spec_index() == 0,
            r.spec_strides().len() == self.spec_dimensions().len(),
            forall|i: int|
                0 <= i < self.spec_dimensions().len() ==> r.spec_strides()[i] as nat == #[trigger] stride(
                    self.spec_dimensions(),
                    i,
                ),
    {
        DenseStrideIter::new(self.dimensions.as_slice())
    }

    /// How each dimension of this shape is walked to the shape it
    /// broadcasts to with `other`, if they are compatible. A shape shorter
    /// than the target is padded on the left with dimensions of 1 whose
    /// stride is the size of the whole shape.
    pub fn dense_broadcast_dimensions(&self, other: &TensorShape) -> (r: Option<Vec<BroadcastDimension>>)
        requires
            strides_fit(self.spec_dimensions()),
        ensures
            r is Some <==> broadcastable(self.spec_dimensions(), other.spec_dimensions()),
            r matches Some(v) ==> v@.len() == max_len(self.spec_dimensions(), other.spec_dimensions())
                && forall|i: int|
                0 <= i < v@.len() ==> (#[trigger] v@[i]).target == target(
                    self.spec_dimensions(),
                    other.spec_dimensions(),
                )[i] && v@[i].stride == (if padded(
                    self.spec_dimensions(),
                    v@.len() as int,
                )[i] == 1 {
                    0
                } else {
                    v@[i].size
                }) && v@[i].size as nat == (if i < v@.len() - self.spec_dimensions().len() {
                    shape_size(self.spec_dimensions())
                } else {
                    stride(self.spec_dimensions(), i - (v@.len() - self.spec_dimensions().len()))
                }),
    {
        if !self.is_broadcast_compat(other) {
            return None;
        }
        let a = self.dimensions.as_slice();
        let b = target_shape(a, other.dimensions.as_slice());
        let strides = dense_strides(a);
        let big = self.big_stride();
        let n = b.len();
        let pad = n - a.len();
        let mut r: Vec<BroadcastDimension> = Vec::new();
        let mut i: usize = 0;
        while i < n
            invariant
                n == b@.len(),
                b@ == target(a@, other.spec_dimensions()),
                a@ == self.spec_dimensions(),
                a@.len() <= n,
                pad == n - a@.len(),
                strides@.len() == a@.len(),
                forall|q: int| 0 <= q < a@.len() ==> strides@[q] as nat == #[trigger] stride(a@, q),
                big as nat == shape_size(a@),
                i <= n,
                r@.len() == i,
                forall|k: int|
                    0 <= k < i ==> (#[trigger] r@[k]).size as nat == (if k < pad {
                        shape_size(a@)
                    } else {
                        stride(a@, k - pad)
                    }),
                forall|k: int|
                    0 <= k < i ==> (#[trigger] r@[k]).target == b@[k] && r@[k].stride == (if padded(
                        a@,
                        n as int,
                    )[k] == 1 {
                        0
                    } else {
                        r@[k].size
                    }),
            decreases n - i,
        {
            let (d, s) = if i < pad {
                (1usize, big)
            } else {
                (a[i - pad], strides[i - pad])
            };
            assert(d == padded(a@, n as int)[i as int]);
            let t = b[i];
            r.push(
                BroadcastDimension {
                    stride: if d == 1 {
                        0
                    } else {
                        s
                    },
                    size: s,
                    target: t,
                },
            );
            i += 1;
        }
        Some(r)
    }
}

/// The dimensions of a tensor.
pub struct Dimensions(Vec<usize>);

impl Dimensions {
    pub closed spec fn spec_dims(&self) -> Seq<usize> {
        self.0@
    }

    pub fn new(d: Vec<usize>) -> (r: Dimensions)
        ensures
            r.spec_dims() == d@,
    {
        Dimensions(d)
    }

    /// The number of dimensions.
    pub fn len(&self) -> (r: usize)
        ensures
            r == self.spec_dims().len(),
    {
        self.0.len()
    }

    pub fn iter(&self) -> (r: &[usize])
        ensures
            r@ == self.spec_dims(),
    {
        self.0.as_slice()
    }

    /// The row-major strides of the dimensions.
    pub fn stride_iter(&self) -> (r: DenseStrideIter)
        requires
            strides_fit(self.spec_dims()),
        ensures
            r.spec_index() == 0,
            r.spec_strides().len() == self.spec_dims().len(),
            forall|i: int|
                0 <= i < self.spec_dims().len() ==> r.spec_strides()[i] as nat == #[trigger] stride(
                    self.spec_dims(),
                    i,
                ),
    {
        DenseStrideIter::new(self.0.as_slice())
    }

    /// Whether the two can broadcast to each other.
    pub fn can_broadcast(&self, other: &Dimensions) -> (r: bool)
        ensures
            r == broadcastable(self.spec_dims(), other.spec_dims()),
    {
        compatible(self.0.as_slice(), other.0.as_slice())
    }

    /// The last dimension.
    pub fn last(&self) -> (r: Option<usize>)
        ensures
            r is None <==> self.spec_dims().len() == 0,
            r matches Some(d) ==> d == self.spec_dims().last(),
    {
        if self.0.len() == 0 {
            None
        } else {
            Some(self.0[self.0.len() - 1])
        }
    }
}

/// A dense tensor's values seen in a broadcast shape.
pub struct DenseSpec<'a, T> {
    bshape: Vec<usize>,
    bdims: Vec<BroadcastDimension>,
    buf: &'a [T],
}

impl<'a, T> DenseSpec<'a, T> {
    pub closed spec fn spec_bshape(&self) -> Seq<usize> {
        self.bshape@
    }

    pub closed spec fn spec_bdims(&self) -> Seq<BroadcastDimension> {
        self.bdims@
    }

    pub closed spec fn spec_buf(&self) -> Seq<T> {
        self.buf@
    }

    /// Views `buf`, of shape `shape`, in the shape it broadcasts to with
    /// `bshape`; `None` when the shapes are not compatible.
    pub fn try_new(bshape: &[usize], shape: &[usize], buf: &'a [T]) -> (r: Option<DenseSpec<'a, T>>)
        requires
            strides_fit(shape@),
        ensures
            r is Some <==> broadcastable(bshape@, shape@),
            r matches Some(d) ==> d.spec_bshape() == target(bshape@, shape@) && d.spec_bdims().len()
                == max_len(bshape@, shape@),
    {
        if compatible(bshape, shape) {
            let t = TensorShape { dimensions: target_shape(bshape, shape) };
            let own = TensorShape { dimensions: crate::util::copy_vec(shape) };
            let other = TensorShape { dimensions: crate::util::copy_vec(bshape) };
            assert(broadcastable(shape@, bshape@)) by {
                assert forall|i: int| 0 <= i < shape@.len() && i < bshape@.len() implies #[trigger] from_end(shape@, i)
                    == from_end(bshape@, i) || from_end(shape@, i) == 1 || from_end(bshape@, i) == 1 by {
                    assert(from_end(bshape@, i) == from_end(bshape@, i));
                }
            }
            match own.dense_broadcast_dimensions(&other) {
                Some(bdims) => {
                    assert(max_len(shape@, bshape@) == max_len(bshape@, shape@));
                    Some(DenseSpec { bshape: t.dimensions, bdims, buf })
                },
                None => None,
            }
        } else {
            None
        }
    }

    /// Drops the last `n` dimensions.
    pub fn chop(&mut self, n: usize)
        requires
            n <= old(self).spec_bshape().len(),
        ensures
            final(self).spec_bshape() == old(self).spec_bshape().subrange(
                0,
                old(self).spec_bshape().len() - n,
            ),
            final(self).spec_bdims() == old(self).spec_bdims().subrange(
                0,
                if old(self).spec_bdims().len() < old(self).spec_bshape().len() - n {
                    old(self).spec_bdims().len() as int
                } else {
                    old(self).spec_bshape().len() - n
                },
            ),
            final(self).spec_buf() == old(self).spec_buf(),
    {
        let len = self.bshape.len() - n;
        self.bshape.truncate(len);
        self.bdims.truncate(len);
    }

    pub fn bshape(&self) -> (r: &[usize])
        ensures
            r@ == self.spec_bshape(),
    {
        self.bshape.as_slice()
    }

    /// Appends a dimension to the broadcast shape.
    pub fn bshape_push(&mut self, dim: usize)
        ensures
            final(self).spec_bshape() == old(self).spec_bshape().push(dim),
            final(self).spec_bdims() == old(self).spec_bdims(),
            final(self).spec_buf() == old(self).spec_buf(),
    {
        self.bshape.push(dim);
    }

    pub fn buf(&self) -> (r: &'a [T])
        ensures
            r@ == self.spec_buf(),
    {
        self.buf
    }
}

} // verus!
