//! The operators: their models and what they do to a frame.

use vstd::prelude::*;
use crate::util::{str_eq, owned, push_decimal, decimal};
use crate::dsl::{DenseTensor, dims_product, Shape, Socket, Node};
use crate::double::{double_of_int, int_to_double};
use crate::frame::{
    Col, ColData, Error, LeapFrame, Result, has_col, col_data, appended,
};

verus! {

/// Floating-point arithmetic on IEEE-754 double bit patterns, supplied by
/// the host. The operators decide which operations run on which values;
/// the host computes them.
pub trait FloatOps {
    /// The sum `a + b`.
    fn add(&self, a: u64, b: u64) -> u64;

    /// The product `a * b`.
    fn mul(&self, a: u64, b: u64) -> u64;

    /// The quotient `a / b`.
    fn div(&self, a: u64, b: u64) -> u64;

    /// The double nearest to `x`.
    fn from_i64(&self, x: i64) -> u64;

    /// The double equal to a single precision bit pattern.
    fn from_f32(&self, x: u32) -> u64;
}

/// The bit pattern of `1.0`.
pub const DOUBLE_ONE: u64 = 0x3ff0_0000_0000_0000;

/// The bit pattern of `+0.0`.
pub const DOUBLE_ZERO: u64 = 0;

/// The bits of a double other than its sign.
pub const DOUBLE_MAGNITUDE: u64 = 0x7fff_ffff_ffff_ffff;

/// A double bit pattern is `+0.0` or `-0.0`.
pub open spec fn is_zero_double(b: u64) -> bool {
    b & DOUBLE_MAGNITUDE == 0
}

/// The position of the last label equal to `l`.
pub open spec fn label_index(labels: Seq<Seq<char>>, l: Seq<char>) -> Option<int>
    decreases labels.len(),
{
    if labels.len() == 0 {
        None
    } else if labels.last() == l {
        Some(labels.len() - 1)
    } else {
        label_index(labels.drop_last(), l)
    }
}

/// Maps each label to its position in a list of labels.
pub struct StringIndexerModel {
    labels: Vec<String>,
}

impl StringIndexerModel {
    pub closed spec fn spec_labels(&self) -> Seq<Seq<char>> {
        self.labels.deep_view()
    }

    pub fn new(labels: Vec<String>) -> (r: StringIndexerModel)
        ensures
            r.spec_labels() == labels.deep_view(),
    {
        StringIndexerModel { labels }
    }

    pub fn labels(&self) -> (r: &Vec<String>)
        ensures
            r.deep_view() == self.spec_labels(),
    {
        &self.labels
    }

    /// The index of a label; `TransformError` for a label that is not
    /// known. A label listed twice has its last position.
    pub fn try_encode(&self, label: &str) -> (r: Result<usize>)
        ensures
            r is Ok <==> label_index(self.spec_labels(), label@) is Some,
            r matches Ok(i) ==> label_index(self.spec_labels(), label@) == Some(i as int),
            r matches Err(e) ==> e is TransformError,
    {
        let mut i: usize = self.labels.len();
        assert(self.spec_labels().subrange(0, i as int) =~= self.spec_labels());
        while i > 0
            invariant
                i <= self.labels@.len(),
                label_index(self.spec_labels(), label@) == label_index(
                    self.spec_labels().subrange(0, i as int),
                    label@,
                ),
            decreases i,
        {
            let ghost pre = self.spec_labels().subrange(0, i as int);
            assert(pre.drop_last() =~= self.spec_labels().subrange(0, i - 1));
            if str_eq(self.labels[i - 1].as_str(), label) {
                return Ok(i - 1);
            }
            i -= 1;
        }
        Err(Error::TransformError(owned("unknown label")))
    }
}

/// The indices that a string indexer gives a column of labels, if it
/// knows every label.
pub open spec fn indexed(labels: Seq<Seq<char>>, input: Seq<String>) -> Option<Seq<i32>> {
    if forall|i: int| 0 <= i < input.len() ==> (#[trigger] label_index(labels, input[i]@)) is Some {
        Some(Seq::new(input.len(), |i: int| (label_index(labels, input[i]@)->0) as i32))
    } else {
        None
    }
}

/// Replaces each label of its input column by its index.
pub struct StringIndexer {
    pub name: String,
    pub input_col: String,
    pub output_col: String,
    pub model: StringIndexerModel,
}

impl StringIndexer {
    /// Appends the column of indices; on an error the frame is unchanged.
    pub fn transform(&self, frame: &mut LeapFrame) -> (r: Result<()>)
        requires
            old(frame).wf(),
        ensures
            r matches Err(e) ==> string_indexer_error(*self, old(frame).spec_cols(), e),
            final(frame).wf(),
            final(frame).spec_size() == old(frame).spec_size(),
            r is Err ==> final(frame).spec_cols() == old(frame).spec_cols(),
            r is Ok <==> (col_data(old(frame).spec_cols(), self.input_col@) matches Some(
                ColData::String(w),
            ) && indexed(self.model.spec_labels(), w@) is Some) && !has_col(
                old(frame).spec_cols(),
                self.output_col@,
            ),
            r is Ok ==> exists|w: Vec<String>, v: Vec<i32>|
                col_data(old(frame).spec_cols(), self.input_col@) == Some(ColData::String(w))
                    && indexed(self.model.spec_labels(), w@) == Some(v@) && appended(
                    old(frame).spec_cols(),
                    final(frame).spec_cols(),
                    self.output_col@,
                    ColData::Int(v),
                ),
    {
        let labels = match frame.try_strings(self.input_col.as_str()) {
            Ok(labels) => labels,
            Err(e) => {
                return Err(e);
            },
        };
        let indices = match self.index_all(labels) {
            Ok(v) => v,
            Err(e) => {
                return Err(e);
            },
        };
        frame.try_with_ints(self.output_col.clone(), indices)
    }

    /// The index of each label, or the error of the first unknown one.
    fn index_all(&self, labels: &[String]) -> (r: Result<Vec<i32>>)
        ensures
            r is Ok <==> indexed(self.model.spec_labels(), labels@) is Some,
            r matches Ok(v) ==> indexed(self.model.spec_labels(), labels@) == Some(v@),
            r matches Err(e) ==> e is TransformError,
    {
        let mut indices: Vec<i32> = Vec::new();
        let mut k: usize = 0;
        while k < labels.len()
            invariant
                k <= labels@.len(),
                indices@.len() == k,
                forall|q: int|
                    0 <= q < k ==> (#[trigger] label_index(self.model.spec_labels(), labels@[q]@))
                        is Some && indices@[q] == (label_index(
                        self.model.spec_labels(),
                        labels@[q]@,
                    )->0) as i32,
            decreases labels@.len() - k,
        {
            match self.model.try_encode(labels[k].as_str()) {
                Ok(x) => indices.push(#[verifier::truncate] (x as i32)),
                Err(e) => {
                    assert(label_index(self.model.spec_labels(), labels@[k as int]@) is None);
                    return Err(e);
                },
            }
            k += 1;
        }
        assert(Seq::new(labels@.len(), |i: int| (label_index(self.model.spec_labels(), labels@[i]@)->0) as i32) =~= indices@);
        Ok(indices)
    }
}

/// The one-hot positions of an integral column: each value as `usize`.
pub open spec fn onehot_indices(d: ColData) -> Option<Seq<usize>> {
    match d {
        ColData::Byte(v) => Some(Seq::new(v@.len(), |i: int| v@[i] as usize)),
        ColData::Short(v) => Some(Seq::new(v@.len(), |i: int| v@[i] as usize)),
        ColData::Int(v) => Some(Seq::new(v@.len(), |i: int| v@[i] as usize)),
        ColData::Long(v) => Some(Seq::new(v@.len(), |i: int| v@[i] as usize)),
        _ => None,
    }
}

/// `t` is the vector of length `size` with a single 1 at `idx`.
pub open spec fn is_one_hot(t: DenseTensor<i64>, size: usize, idx: usize) -> bool {
    t.spec_dimensions() == seq![size] && t.spec_values().len() == size && forall|j: int|
        0 <= j < size ==> #[trigger] t.spec_values()[j] == (if j == idx {
            1i64
        } else {
            0i64
        })
}

/// `out` is the one-hot encoding of the integral column `d` with vectors of
/// length `size`.
pub open spec fn one_hot_column(size: usize, d: ColData, out: ColData) -> bool {
    match (onehot_indices(d), out) {
        (Some(ix), ColData::LongTensor(ts)) => (forall|i: int| 0 <= i < ix.len() ==> #[trigger] ix[i] < size)
            && ts@.len() == ix.len() && forall|i: int|
            0 <= i < ix.len() ==> is_one_hot(#[trigger] ts@[i], size, ix[i]),
        _ => false,
    }
}

/// Encodes integers as one-hot vectors of a fixed length.
pub struct OneHotEncoderModel {
    pub size: usize,
}

impl OneHotEncoderModel {
    /// Each integral value `v` becomes a long tensor of length `size` with
    /// a 1 at `v`; `TransformError` for a value not below `size` or a
    /// column that is not integral.
    pub fn try_encode_col_data(&self, data: &ColData) -> (r: Result<ColData>)
        ensures
            r is Ok <==> (onehot_indices(*data) matches Some(ix) && forall|i: int|
                0 <= i < ix.len() ==> #[trigger] ix[i] < self.size),
            r matches Ok(d) ==> one_hot_column(self.size, *data, d),
            r matches Err(e) ==> e is TransformError,
    {
        let mut ix: Vec<usize> = Vec::new();
        let ghost want = onehot_indices(*data);
        match data {
            ColData::Byte(v) => {
                let mut i: usize = 0;
                while i < v.len()
                    invariant
                        want == Some(Seq::new(v@.len(), |i: int| v@[i] as usize)),
                        i <= v@.len(),
                        ix@ == Seq::new(i as nat, |k: int| v@[k] as usize),
                    decreases v@.len() - i,
                {
                    ix.push(v[i] as usize);
                    i += 1;
                    assert(ix@ =~= Seq::new(i as nat, |k: int| v@[k] as usize));
                }
            },
            ColData::Short(v) => {
                let mut i: usize = 0;
                while i < v.len()
                    invariant
                        want == Some(Seq::new(v@.len(), |i: int| v@[i] as usize)),
                        i <= v@.len(),
                        ix@ == Seq::new(i as nat, |k: int| v@[k] as usize),
                    decreases v@.len() - i,
                {
                    ix.push(v[i] as usize);
                    i += 1;
                    assert(ix@ =~= Seq::new(i as nat, |k: int| v@[k] as usize));
                }
            },
            ColData::Int(v) => {
                let mut i: usize = 0;
                while i < v.len()
                    invariant
                        want == Some(Seq::new(v@.len(), |i: int| v@[i] as usize)),
                        i <= v@.len(),
                        ix@ == Seq::new(i as nat, |k: int| v@[k] as usize),
                    decreases v@.len() - i,
                {
                    ix.push(v[i] as usize);
                    i += 1;
                    assert(ix@ =~= Seq::new(i as nat, |k: int| v@[k] as usize));
                }
            },
            ColData::Long(v) => {
                let mut i: usize = 0;
                while i < v.len()
                    invariant
                        want == Some(Seq::new(v@.len(), |i: int| v@[i] as usize)),
                        i <= v@.len(),
                        ix@ == Seq::new(i as nat, |k: int| v@[k] as usize),
                    decreases v@.len() - i,
                {
                    ix.push(v[i] as usize);
                    i += 1;
                    assert(ix@ =~= Seq::new(i as nat, |k: int| v@[k] as usize));
                }
            },
            _ => {
                return Err(Error::TransformError(owned("expected an integral column")));
            },
        }
        assert(want == Some(ix@));
        match self.try_encode(&ix) {
            Ok(ts) => Ok(ColData::LongTensor(ts)),
            Err(e) => Err(e),
        }
    }

    fn try_encode(&self, ix: &Vec<usize>) -> (r: Result<Vec<DenseTensor<i64>>>)
        ensures
            r is Ok <==> forall|i: int| 0 <= i < ix@.len() ==> #[trigger] ix@[i] < self.size,
            r matches Ok(ts) ==> ts@.len() == ix@.len() && forall|i: int|
                0 <= i < ix@.len() ==> is_one_hot(#[trigger] ts@[i], self.size, ix@[i]),
            r matches Err(e) ==> e is TransformError,
    {
        let mut ts: Vec<DenseTensor<i64>> = Vec::new();
        let mut i: usize = 0;
        while i < ix.len()
            invariant
                i <= ix@.len(),
                ts@.len() == i,
                forall|k: int| 0 <= k < i ==> #[trigger] ix@[k] < self.size,
                forall|k: int| 0 <= k < i ==> is_one_hot(#[trigger] ts@[k], self.size, ix@[k]),
            decreases ix@.len() - i,
        {
            let index = ix[i];
            if index < self.size {
                let mut values: Vec<i64> = Vec::new();
                let mut j: usize = 0;
                while j < self.size
                    invariant
                        j <= self.size,
                        index < self.size,
                        values@.len() == j,
                        forall|q: int| 0 <= q < j ==> values@[q] == (if q == index {
                            1i64
                        } else {
                            0i64
                        }),
                    decreases self.size - j,
                {
                    if j == index {
                        values.push(1);
                    } else {
                        values.push(0);
                    }
                    j += 1;
                }
                let mut dims: Vec<usize> = Vec::new();
                dims.push(self.size);
                proof {
                    assert(dims@ =~= seq![self.size]);
                    assert(dims@.drop_last() =~= Seq::<usize>::empty());
                    assert(dims_product(Seq::<usize>::empty()) == 1);
                    assert(dims@.last() == self.size);
                    assert(dims_product(dims@) == dims_product(dims@.drop_last()) * (dims@.last() as nat));
                    assert(dims_product(dims@) == self.size);
                }
                let t = DenseTensor::from_parts(dims, values);
                ts.push(t);
            } else {
                assert(!(ix@[i as int] < self.size));
                return Err(Error::TransformError(owned("value out of range")));
            }
            i += 1;
        }
        Ok(ts)
    }
}

/// Encodes an integral input column as one-hot long tensors.
pub struct OneHotEncoder {
    pub name: String,
    pub input_col: String,
    pub output_col: String,
    pub model: OneHotEncoderModel,
}

impl OneHotEncoder {
    /// Appends the encoded column; on an error the frame is unchanged.
    pub fn transform(&self, frame: &mut LeapFrame) -> (r: Result<()>)
        requires
            old(frame).wf(),
        ensures
            r matches Err(e) ==> one_hot_encoder_error(*self, old(frame).spec_cols(), e),
            final(frame).wf(),
            final(frame).spec_size() == old(frame).spec_size(),
            r is Err ==> final(frame).spec_cols() == old(frame).spec_cols(),
            r is Ok <==> (col_data(old(frame).spec_cols(), self.input_col@) matches Some(d) && (
            onehot_indices(d) matches Some(ix) && forall|i: int|
                0 <= i < ix.len() ==> #[trigger] ix[i] < self.model.size)) && !has_col(
                old(frame).spec_cols(),
                self.output_col@,
            ),
            r is Ok ==> exists|d: ColData, out: ColData|
                col_data(old(frame).spec_cols(), self.input_col@) == Some(d) && one_hot_column(
                    self.model.size,
                    d,
                    out,
                ) && appended(old(frame).spec_cols(), final(frame).spec_cols(), self.output_col@, out),
    {
        let col = match frame.try_col(self.input_col.as_str()) {
            Ok(c) => c,
            Err(e) => {
                return Err(e);
            },
        };
        let ghost d = col.spec_data();
        let encoded = match self.model.try_encode_col_data(col.data()) {
            Ok(x) => x,
            Err(e) => {
                return Err(e);
            },
        };
        let ghost out = encoded;
        let r = frame.try_with_col(Col::new(self.output_col.clone(), encoded));
        proof {
            if r is Ok {
                assert(frame.spec_cols().drop_last() =~= old(frame).spec_cols());
                assert(appended(old(frame).spec_cols(), frame.spec_cols(), self.output_col@, out));
            }
        }
        r
    }
}

/// The width of the leading dimension of the first tensor of a column.
pub open spec fn first_width<T>(v: Seq<DenseTensor<T>>) -> Option<nat> {
    if v.len() == 0 {
        Some(0)
    } else if v[0].spec_dimensions().len() == 0 {
        Some(1)
    } else {
        Some(v[0].spec_dimensions()[0] as nat)
    }
}

/// How many values a column adds to each assembled row: one for a numeric
/// or boolean scalar, the leading dimension of the first row for a numeric
/// or boolean tensor (none for a column without rows, one for a tensor
/// without dimensions). Other kinds cannot be assembled.
pub open spec fn col_width(d: ColData) -> Option<nat> {
    match d {
        ColData::Bool(_) => Some(1),
        ColData::Byte(_) => Some(1),
        ColData::Short(_) => Some(1),
        ColData::Int(_) => Some(1),
        ColData::Long(_) => Some(1),
        ColData::Float(_) => Some(1),
        ColData::Double(_) => Some(1),
        ColData::BoolTensor(v) => first_width(v@),
        ColData::ByteTensor(v) => first_width(v@),
        ColData::ShortTensor(v) => first_width(v@),
        ColData::IntTensor(v) => first_width(v@),
        ColData::LongTensor(v) => first_width(v@),
        ColData::FloatTensor(v) => first_width(v@),
        ColData::DoubleTensor(v) => first_width(v@),
        _ => None,
    }
}

/// The summed widths of some columns, if each can be assembled.
pub open spec fn total_width(ds: Seq<ColData>) -> Option<nat>
    decreases ds.len(),
{
    if ds.len() == 0 {
        Some(0)
    } else {
        match (total_width(ds.drop_last()), col_width(ds.last())) {
            (Some(a), Some(b)) => Some(a + b),
            _ => None,
        }
    }
}

/// A prefix of some columns is no wider than all of them.
pub proof fn lemma_total_width_prefix(ds: Seq<ColData>, k: int)
    requires
        0 <= k <= ds.len(),
        total_width(ds) is Some,
    ensures
        total_width(ds.subrange(0, k)) matches Some(p) && p <= total_width(ds)->0,
    decreases ds.len(),
{
    if k < ds.len() {
        assert(ds.drop_last().subrange(0, k) =~= ds.subrange(0, k));
        lemma_total_width_prefix(ds.drop_last(), k);
    } else {
        assert(ds.subrange(0, k) =~= ds);
    }
}

/// The data of the columns named `names`, in that order.
pub open spec fn named_data(cols: Seq<Col>, names: Seq<String>) -> Seq<ColData> {
    Seq::new(names.len(), |k: int| col_data(cols, names[k]@)->0)
}

/// Every named column exists, each can be assembled and their widths sum
/// within `usize`.
pub open spec fn assemblable(cols: Seq<Col>, names: Seq<String>) -> bool {
    (forall|k: int| 0 <= k < names.len() ==> has_col(cols, #[trigger] names[k]@)) && match total_width(
        named_data(cols, names),
    ) {
        Some(t) => t <= usize::MAX,
        None => false,
    }
}

fn first_dim<T>(v: &Vec<DenseTensor<T>>) -> (r: Option<usize>)
    ensures
        r matches Some(w) ==> first_width(v@) == Some(w as nat),
        r is None ==> first_width(v@) is None,
{
    if v.len() > 0 {
        let d = v[0].dimensions();
        if d.len() > 0 {
            Some(d[0])
        } else {
            Some(1)
        }
    } else {
        Some(0)
    }
}

fn width(d: &ColData) -> (r: Option<usize>)
    ensures
        r matches Some(w) ==> col_width(*d) == Some(w as nat),
        r is None ==> col_width(*d) is None,
{
    match d {
        ColData::Bool(_) => Some(1),
        ColData::Byte(_) => Some(1),
        ColData::Short(_) => Some(1),
        ColData::Int(_) => Some(1),
        ColData::Long(_) => Some(1),
        ColData::Float(_) => Some(1),
        ColData::Double(_) => Some(1),
        ColData::BoolTensor(v) => first_dim(v),
        ColData::ByteTensor(v) => first_dim(v),
        ColData::ShortTensor(v) => first_dim(v),
        ColData::IntTensor(v) => first_dim(v),
        ColData::LongTensor(v) => first_dim(v),
        ColData::FloatTensor(v) => first_dim(v),
        ColData::DoubleTensor(v) => first_dim(v),
        _ => None,
    }
}

/// The double bit pattern of a boolean: `1.0` or `+0.0`.
pub open spec fn bool_bits(b: bool) -> u64 {
    if b {
        DOUBLE_ONE
    } else {
        DOUBLE_ZERO
    }
}

/// The values that row `r` of a column adds to an assembled row, as double
/// bit patterns; `None` where the host computes the value (longs and
/// single precision values).
pub open spec fn contribution(d: ColData, r: int) -> Seq<Option<u64>> {
    match d {
        ColData::Bool(v) => if 0 <= r < v@.len() { seq![Some(bool_bits(v@[r]))] } else { seq![] },
        ColData::Byte(v) => if 0 <= r < v@.len() { seq![Some(double_of_int(v@[r] as int))] } else { seq![] },
        ColData::Short(v) => if 0 <= r < v@.len() { seq![Some(double_of_int(v@[r] as int))] } else { seq![] },
        ColData::Int(v) => if 0 <= r < v@.len() { seq![Some(double_of_int(v@[r] as int))] } else { seq![] },
        ColData::Long(v) => if 0 <= r < v@.len() { seq![None] } else { seq![] },
        ColData::Float(v) => if 0 <= r < v@.len() { seq![None] } else { seq![] },
        ColData::Double(v) => if 0 <= r < v@.len() { seq![Some(v@[r])] } else { seq![] },
        ColData::BoolTensor(v) => if 0 <= r < v@.len() {
            v@[r].spec_values().map_values(|x: bool| Some(bool_bits(x)))
        } else {
            seq![]
        },
        ColData::ByteTensor(v) => if 0 <= r < v@.len() {
            v@[r].spec_values().map_values(|x: i8| Some(double_of_int(x as int)))
        } else {
            seq![]
        },
        ColData::ShortTensor(v) => if 0 <= r < v@.len() {
            v@[r].spec_values().map_values(|x: i16| Some(double_of_int(x as int)))
        } else {
            seq![]
        },
        ColData::IntTensor(v) => if 0 <= r < v@.len() {
            v@[r].spec_values().map_values(|x: i32| Some(double_of_int(x as int)))
        } else {
            seq![]
        },
        ColData::LongTensor(v) => if 0 <= r < v@.len() {
            v@[r].spec_values().map_values(|x: i64| None::<u64>)
        } else {
            seq![]
        },
        ColData::FloatTensor(v) => if 0 <= r < v@.len() {
            v@[r].spec_values().map_values(|x: u32| None::<u64>)
        } else {
            seq![]
        },
        ColData::DoubleTensor(v) => if 0 <= r < v@.len() {
            v@[r].spec_values().map_values(|x: u64| Some(x))
        } else {
            seq![]
        },
        _ => seq![],
    }
}

/// Row `r` of the columns `ds` assembled: their contributions in order.
pub open spec fn assembled(ds: Seq<ColData>, r: int) -> Seq<Option<u64>>
    decreases ds.len(),
{
    if ds.len() == 0 {
        seq![]
    } else {
        assembled(ds.drop_last(), r) + contribution(ds.last(), r)
    }
}

/// `row` has as many values as `want` and the known ones among them.
pub open spec fn agrees(row: Seq<u64>, want: Seq<Option<u64>>) -> bool {
    row.len() == want.len() && forall|j: int| 0 <= j < row.len() ==> (#[trigger] want[j] matches Some(b) ==> row[j] == b)
}

fn bool_double(b: bool) -> (r: u64)
    ensures
        r == bool_bits(b),
{
    if b {
        DOUBLE_ONE
    } else {
        DOUBLE_ZERO
    }
}

/// Appends to `row` the values that row `r` of a column adds, as doubles.
fn push_row<F: FloatOps>(row: &mut Vec<u64>, d: &ColData, r: usize, ops: &F)
    ensures
        final(row)@.len() == old(row)@.len() + contribution(*d, r as int).len(),
        final(row)@.subrange(0, old(row)@.len() as int) == old(row)@,
        agrees(final(row)@.subrange(old(row)@.len() as int, final(row)@.len() as int), contribution(*d, r as int)),
{
    let ghost start = row@;
    match d {
        ColData::Bool(v) => if r < v.len() {
            row.push(bool_double(v[r]));
        },
        ColData::Byte(v) => if r < v.len() {
            row.push(int_to_double(v[r] as i32));
        },
        ColData::Short(v) => if r < v.len() {
            row.push(int_to_double(v[r] as i32));
        },
        ColData::Int(v) => if r < v.len() {
            row.push(int_to_double(v[r]));
        },
        ColData::Long(v) => if r < v.len() {
            row.push(ops.from_i64(v[r]));
        },
        ColData::Float(v) => if r < v.len() {
            row.push(ops.from_f32(v[r]));
        },
        ColData::Double(v) => if r < v.len() {
            row.push(v[r]);
        },
        ColData::BoolTensor(v) => if r < v.len() {
            let xs = v[r].values();
            let ghost want = contribution(*d, r as int);
            let mut j: usize = 0;
            while j < xs.len()
                invariant
                    *d == ColData::BoolTensor(*v),
                    (r as int) < v@.len(),
                    xs@ == v@[r as int].spec_values(),
                    j <= xs@.len(),
                    want == contribution(*d, r as int),
                    want.len() == xs@.len(),
                    row@.len() == start.len() + j,
                    row@.subrange(0, start.len() as int) == start,
                    forall|q: int|
                        0 <= q < j ==> (#[trigger] want[q] matches Some(b) ==> row@[start.len() + q] == b),
                decreases xs@.len() - j,
            {
                row.push(bool_double(xs[j]));
                j += 1;
            }
        },
        ColData::ByteTensor(v) => if r < v.len() {
            let xs = v[r].values();
            let ghost want = contribution(*d, r as int);
            let mut j: usize = 0;
            while j < xs.len()
                invariant
                    *d == ColData::ByteTensor(*v),
                    (r as int) < v@.len(),
                    xs@ == v@[r as int].spec_values(),
                    j <= xs@.len(),
                    want == contribution(*d, r as int),
                    want.len() == xs@.len(),
                    row@.len() == start.len() + j,
                    row@.subrange(0, start.len() as int) == start,
                    forall|q: int|
                        0 <= q < j ==> (#[trigger] want[q] matches Some(b) ==> row@[start.len() + q] == b),
                decreases xs@.len() - j,
            {
                row.push(int_to_double(xs[j] as i32));
                j += 1;
            }
        },
        ColData::ShortTensor(v) => if r < v.len() {
            let xs = v[r].values();
            let ghost want = contribution(*d, r as int);
            let mut j: usize = 0;
            while j < xs.len()
                invariant
                    *d == ColData::ShortTensor(*v),
                    (r as int) < v@.len(),
                    xs@ == v@[r as int].spec_values(),
                    j <= xs@.len(),
                    want == contribution(*d, r as int),
                    want.len() == xs@.len(),
                    row@.len() == start.len() + j,
                    row@.subrange(0, start.len() as int) == start,
                    forall|q: int|
                        0 <= q < j ==> (#[trigger] want[q] matches Some(b) ==> row@[start.len() + q] == b),
                decreases xs@.len() - j,
            {
                row.push(int_to_double(xs[j] as i32));
                j += 1;
            }
        },
        ColData::IntTensor(v) => if r < v.len() {
            let xs = v[r].values();
            let ghost want = contribution(*d, r as int);
            let mut j: usize = 0;
            while j < xs.len()
                invariant
                    *d == ColData::IntTensor(*v),
                    (r as int) < v@.len(),
                    xs@ == v@[r as int].spec_values(),
                    j <= xs@.len(),
                    want == contribution(*d, r as int),
                    want.len() == xs@.len(),
                    row@.len() == start.len() + j,
                    row@.subrange(0, start.len() as int) == start,
                    forall|q: int|
                        0 <= q < j ==> (#[trigger] want[q] matches Some(b) ==> row@[start.len() + q] == b),
                decreases xs@.len() - j,
            {
                row.push(int_to_double(xs[j]));
                j += 1;
            }
        },
        ColData::LongTensor(v) => if r < v.len() {
            let xs = v[r].values();
            let ghost want = contribution(*d, r as int);
            let mut j: usize = 0;
            while j < xs.len()
                invariant
                    *d == ColData::LongTensor(*v),
                    (r as int) < v@.len(),
                    xs@ == v@[r as int].spec_values(),
                    j <= xs@.len(),
                    want == contribution(*d, r as int),
                    want.len() == xs@.len(),
                    row@.len() == start.len() + j,
                    row@.subrange(0, start.len() as int) == start,
                    forall|q: int|
                        0 <= q < j ==> (#[trigger] want[q] matches Some(b) ==> row@[start.len() + q] == b),
                decreases xs@.len() - j,
            {
                row.push(ops.from_i64(xs[j]));
                j += 1;
            }
        },
        ColData::FloatTensor(v) => if r < v.len() {
            let xs = v[r].values();
            let ghost want = contribution(*d, r as int);
            let mut j: usize = 0;
            while j < xs.len()
                invariant
                    *d == ColData::FloatTensor(*v),
                    (r as int) < v@.len(),
                    xs@ == v@[r as int].spec_values(),
                    j <= xs@.len(),
                    want == contribution(*d, r as int),
                    want.len() == xs@.len(),
                    row@.len() == start.len() + j,
                    row@.subrange(0, start.len() as int) == start,
                    forall|q: int|
                        0 <= q < j ==> (#[trigger] want[q] matches Some(b) ==> row@[start.len() + q] == b),
                decreases xs@.len() - j,
            {
                row.push(ops.from_f32(xs[j]));
                j += 1;
            }
        },
        ColData::DoubleTensor(v) => if r < v.len() {
            let xs = v[r].values();
            let ghost want = contribution(*d, r as int);
            let mut j: usize = 0;
            while j < xs.len()
                invariant
                    *d == ColData::DoubleTensor(*v),
                    (r as int) < v@.len(),
                    xs@ == v@[r as int].spec_values(),
                    j <= xs@.len(),
                    want == contribution(*d, r as int),
                    want.len() == xs@.len(),
                    row@.len() == start.len() + j,
                    row@.subrange(0, start.len() as int) == start,
                    forall|q: int|
                        0 <= q < j ==> (#[trigger] want[q] matches Some(b) ==> row@[start.len() + q] == b),
                decreases xs@.len() - j,
            {
                row.push(xs[j]);
                j += 1;
            }
        },
        _ => {},
    }
    assert(row@.subrange(0, start.len() as int) =~= start);
    assert forall|j: int| 0 <= j < row@.len() - start.len() implies (#[trigger] contribution(*d, r as int)[j] matches Some(b)
        ==> row@.subrange(start.len() as int, row@.len() as int)[j] == b) by {}
}

/// Agreement carries over to concatenations.
proof fn lemma_agrees_concat(a: Seq<u64>, x: Seq<Option<u64>>, b: Seq<u64>, y: Seq<Option<u64>>)
    requires
        agrees(a, x),
        agrees(b, y),
    ensures
        agrees(a + b, x + y),
{
    assert forall|j: int| 0 <= j < (a + b).len() implies (#[trigger] (x + y)[j] matches Some(v) ==> (a + b)[j] == v) by {
        if j < a.len() {
            assert((x + y)[j] == x[j]);
        } else {
            assert((x + y)[j] == y[j - a.len()]);
        }
    }
}

/// Builds a one-dimensional double tensor from a row of values.
fn row_tensor(row: Vec<u64>) -> (r: DenseTensor<u64>)
    ensures
        r.spec_dimensions().len() == 1,
        r.spec_dimensions()[0] == row@.len(),
        r.spec_values() == row@,
        r.wf(),
{
    let mut dims: Vec<usize> = Vec::new();
    dims.push(row.len());
    proof {
        assert(dims@.drop_last() =~= Seq::<usize>::empty());
        assert(dims_product(Seq::<usize>::empty()) == 1);
        assert(dims_product(dims@) == dims_product(dims@.drop_last()) * (dims@.last() as nat));
    }
    DenseTensor::from_parts(dims, row)
}

/// Concatenates columns into one double tensor per row.
pub struct VectorAssemblerModel {}

impl VectorAssemblerModel {
    /// One double tensor per row of the frame, holding the row's values of
    /// the named columns in order, each converted to a double.
    /// `NoSuchColumn` for a missing column; `TransformError` for a column
    /// that cannot be assembled or widths that overflow.
    pub fn try_assemble<F: FloatOps>(col_names: &[String], frame: &LeapFrame, ops: &F) -> (r:
        Result<ColData>)
        requires
            frame.wf(),
        ensures
            r is Ok <==> assemblable(frame.spec_cols(), col_names@),
            r matches Err(e) ==> (e is NoSuchColumn <==> exists|k: int|
                0 <= k < col_names@.len() && !has_col(frame.spec_cols(), #[trigger] col_names@[k]@)),
            r matches Err(e) ==> e is NoSuchColumn || e is TransformError,
            r matches Ok(d) ==> d matches ColData::DoubleTensor(rows) && rows@.len()
                == frame.spec_size() && forall|i: int|
                0 <= i < rows@.len() ==> (#[trigger] rows@[i]).wf() && rows@[i].spec_dimensions().len()
                    == 1 && rows@[i].spec_dimensions()[0] == rows@[i].spec_values().len() && agrees(
                    rows@[i].spec_values(),
                    assembled(named_data(frame.spec_cols(), col_names@), i),
                ),
    {
        let cols = match frame.try_cols(col_names) {
            Ok(c) => c,
            Err(e) => {
                return Err(e);
            },
        };
        let ghost ds = named_data(frame.spec_cols(), col_names@);
        assert forall|k: int| 0 <= k < cols@.len() implies ds[k] == (#[trigger] cols@[k]).spec_data() by {}
        let mut t: usize = 0;
        let mut k: usize = 0;
        assert(ds.subrange(0, 0) =~= Seq::<ColData>::empty());
        while k < cols.len()
            invariant
                frame.wf(),
                ds == named_data(frame.spec_cols(), col_names@),
                cols@.len() == col_names@.len(),
                forall|q: int|
                    0 <= q < col_names@.len() ==> has_col(frame.spec_cols(), #[trigger] col_names@[q]@),
                cols@.len() == ds.len(),
                forall|q: int| 0 <= q < cols@.len() ==> ds[q] == (#[trigger] cols@[q]).spec_data(),
                k <= cols@.len(),
                total_width(ds.subrange(0, k as int)) == Some(t as nat),
            decreases cols@.len() - k,
        {
            assert(ds.subrange(0, k as int + 1).drop_last() =~= ds.subrange(0, k as int));
            match width(cols[k].data()) {
                Some(w) => match t.checked_add(w) {
                    Some(x) => {
                        t = x;
                    },
                    None => {
                        proof {
                            if total_width(ds) is Some {
                                lemma_total_width_prefix(ds, k + 1);
                            }
                        }
                        return Err(Error::TransformError(owned("widths overflow")));
                    },
                },
                None => {
                    proof {
                        if total_width(ds) is Some {
                            lemma_total_width_prefix(ds, k + 1);
                        }
                    }
                    return Err(Error::TransformError(owned("column cannot be assembled")));
                },
            }
            k += 1;
        }
        assert(ds.subrange(0, k as int) =~= ds);
        let n = frame.size();
        let mut rows: Vec<DenseTensor<u64>> = Vec::new();
        let mut i: usize = 0;
        while i < n
            invariant
                i <= n,
                rows@.len() == i,
                cols@.len() == ds.len(),
                forall|q: int| 0 <= q < cols@.len() ==> ds[q] == (#[trigger] cols@[q]).spec_data(),
                forall|q: int|
                    0 <= q < i ==> (#[trigger] rows@[q]).wf() && rows@[q].spec_dimensions().len() == 1
                        && rows@[q].spec_dimensions()[0] == rows@[q].spec_values().len() && agrees(
                        rows@[q].spec_values(),
                        assembled(ds, q),
                    ),
            decreases n - i,
        {
            let mut row: Vec<u64> = Vec::new();
            let mut c: usize = 0;
            assert(ds.subrange(0, 0) =~= Seq::<ColData>::empty());
            assert(row@ =~= Seq::<u64>::empty());
            while c < cols.len()
                invariant
                    c <= cols@.len(),
                    cols@.len() == ds.len(),
                    forall|q: int| 0 <= q < cols@.len() ==> ds[q] == (#[trigger] cols@[q]).spec_data(),
                    agrees(row@, assembled(ds.subrange(0, c as int), i as int)),
                decreases cols@.len() - c,
            {
                let ghost before = row@;
                push_row(&mut row, cols[c].data(), i, ops);
                proof {
                    let tail = row@.subrange(before.len() as int, row@.len() as int);
                    assert(row@ =~= before + tail);
                    assert(ds[c as int] == cols@[c as int].spec_data());
                    lemma_agrees_concat(
                        before,
                        assembled(ds.subrange(0, c as int), i as int),
                        tail,
                        contribution(ds[c as int], i as int),
                    );
                    assert(ds.subrange(0, c as int + 1).drop_last() =~= ds.subrange(0, c as int));
                }
                c += 1;
            }
            assert(ds.subrange(0, cols@.len() as int) =~= ds);
            let t = row_tensor(row);
            rows.push(t);
            i += 1;
        }
        Ok(ColData::DoubleTensor(rows))
    }
}

/// Concatenates its input columns into one double tensor column.
pub struct VectorAssembler {
    pub name: String,
    pub input_cols: Vec<String>,
    pub output_col: String,
}

impl VectorAssembler {
    /// Appends the assembled column; on an error the frame is unchanged.
    pub fn transform<F: FloatOps>(&self, frame: &mut LeapFrame, ops: &F) -> (r: Result<()>)
        requires
            old(frame).wf(),
        ensures
            r matches Err(e) ==> vector_assembler_error(*self, old(frame).spec_cols(), e),
            final(frame).wf(),
            final(frame).spec_size() == old(frame).spec_size(),
            r is Err ==> final(frame).spec_cols() == old(frame).spec_cols(),
            r is Ok <==> assemblable(old(frame).spec_cols(), self.input_cols@) && !has_col(
                old(frame).spec_cols(),
                self.output_col@,
            ),
            r is Ok ==> final(frame).spec_cols().len() == old(frame).spec_cols().len() + 1
                && final(frame).spec_cols().drop_last() == old(frame).spec_cols() && final(frame).spec_cols().last().spec_name() == self.output_col@,
            r is Ok ==> (final(frame).spec_cols().last().spec_data() matches ColData::DoubleTensor(rows)
                && rows@.len() == old(frame).spec_size() && forall|i: int|
                0 <= i < rows@.len() ==> (#[trigger] rows@[i]).wf() && agrees(
                    rows@[i].spec_values(),
                    assembled(named_data(old(frame).spec_cols(), self.input_cols@), i),
                )),
    {
        let d = match VectorAssemblerModel::try_assemble(self.input_cols.as_slice(), frame, ops) {
            Ok(d) => d,
            Err(e) => {
                return Err(e);
            },
        };
        let r = frame.try_with_col(Col::new(self.output_col.clone(), d));
        proof {
            if r is Ok {
                assert(frame.spec_cols().drop_last() =~= old(frame).spec_cols());
            }
        }
        r
    }
}

/// `out` is a row `f` scaled by `std`: as long as the shorter of the two,
/// one-dimensional, and `+0.0` wherever the deviation is zero.
pub open spec fn scaled_row(f: DenseTensor<u64>, std: DenseTensor<u64>, out: DenseTensor<u64>) -> bool {
    let n = if f.spec_values().len() < std.spec_values().len() {
        f.spec_values().len()
    } else {
        std.spec_values().len()
    };
    out.wf() && out.spec_values().len() == n && out.spec_dimensions().len() == 1
        && out.spec_dimensions()[0] == n && forall|j: int|
        0 <= j < n && is_zero_double(#[trigger] std.spec_values()[j]) ==> out.spec_values()[j]
            == DOUBLE_ZERO
}

/// `out` is the double tensor column `d` scaled row by row by `std`.
pub open spec fn scaled_column(d: ColData, std: DenseTensor<u64>, out: ColData) -> bool {
    match (d, out) {
        (ColData::DoubleTensor(rows), ColData::DoubleTensor(o)) => o@.len() == rows@.len() && forall|
            i: int,
        |
            0 <= i < rows@.len() ==> scaled_row(#[trigger] rows@[i], std, o@[i]),
        _ => false,
    }
}

/// Standardizes double tensors with an optional mean and deviation.
pub struct StandardScalerModel {
    pub mean: Option<DenseTensor<u64>>,
    pub std: Option<DenseTensor<u64>>,
}

impl StandardScalerModel {
    /// Divides each value by the deviation at its position, giving `+0.0`
    /// where the deviation is zero. Only a model with a deviation and
    /// without a mean can scale; any other gives `TransformError`. A column
    /// that is not of double tensors gives `InvalidType`.
    pub fn try_scale<F: FloatOps>(&self, data: &ColData, ops: &F) -> (r: Result<ColData>)
        ensures
            r is Ok <==> data is DoubleTensor && self.mean is None && self.std is Some,
            r matches Err(e) ==> (e is InvalidType <==> !(data is DoubleTensor)) && (e is InvalidType
                || e is TransformError),
            r matches Ok(out) ==> scaled_column(*data, self.std->0, out),
    {
        match data {
            ColData::DoubleTensor(rows) => match (&self.mean, &self.std) {
                (None, Some(std)) => {
                    let mut out: Vec<DenseTensor<u64>> = Vec::new();
                    let mut i: usize = 0;
                    while i < rows.len()
                        invariant
                            i <= rows@.len(),
                            out@.len() == i,
                            forall|q: int| 0 <= q < i ==> scaled_row(#[trigger] rows@[q], *std, out@[q]),
                        decreases rows@.len() - i,
                    {
                        out.push(scale_row(&rows[i], std, ops));
                        i += 1;
                    }
                    Ok(ColData::DoubleTensor(out))
                },
                _ => Err(Error::TransformError(owned("a standard scaler needs a deviation and no mean"))),
            },
            _ => Err(Error::InvalidType(owned("expected double tensors"))),
        }
    }
}

fn scale_row<F: FloatOps>(f: &DenseTensor<u64>, std: &DenseTensor<u64>, ops: &F) -> (r: DenseTensor<u64>)
    ensures
        scaled_row(*f, *std, r),
{
    let fv = f.values();
    let sv = std.values();
    let n = if fv.len() < sv.len() {
        fv.len()
    } else {
        sv.len()
    };
    let mut vs: Vec<u64> = Vec::new();
    let mut j: usize = 0;
    while j < n
        invariant
            n <= fv@.len(),
            n <= sv@.len(),
            sv@ == std.spec_values(),
            j <= n,
            vs@.len() == j,
            forall|q: int| 0 <= q < j && is_zero_double(#[trigger] sv@[q]) ==> vs@[q] == DOUBLE_ZERO,
        decreases n - j,
    {
        let s = sv[j];
        if s & DOUBLE_MAGNITUDE != 0 {
            vs.push(ops.mul(fv[j], ops.div(DOUBLE_ONE, s)));
        } else {
            vs.push(DOUBLE_ZERO);
        }
        j += 1;
    }
    row_tensor(vs)
}

/// Scales a double tensor column.
pub struct StandardScaler {
    pub name: String,
    pub input_col: String,
    pub output_col: String,
    pub model: StandardScalerModel,
}

impl StandardScaler {
    /// Appends the scaled column; on an error the frame is unchanged.
    pub fn transform<F: FloatOps>(&self, frame: &mut LeapFrame, ops: &F) -> (r: Result<()>)
        requires
            old(frame).wf(),
        ensures
            r matches Err(e) ==> standard_scaler_error(*self, old(frame).spec_cols(), e),
            final(frame).wf(),
            final(frame).spec_size() == old(frame).spec_size(),
            r is Err ==> final(frame).spec_cols() == old(frame).spec_cols(),
            r is Ok <==> (col_data(old(frame).spec_cols(), self.input_col@) matches Some(
                ColData::DoubleTensor(_),
            )) && self.model.mean is None && self.model.std is Some && !has_col(
                old(frame).spec_cols(),
                self.output_col@,
            ),
            r is Ok ==> exists|d: ColData, out: ColData|
                col_data(old(frame).spec_cols(), self.input_col@) == Some(d) && scaled_column(
                    d,
                    self.model.std->0,
                    out,
                ) && appended(old(frame).spec_cols(), final(frame).spec_cols(), self.output_col@, out),
    {
        let col = match frame.try_col(self.input_col.as_str()) {
            Ok(c) => c,
            Err(e) => {
                return Err(e);
            },
        };
        let scaled = match self.model.try_scale(col.data(), ops) {
            Ok(x) => x,
            Err(e) => {
                return Err(e);
            },
        };
        let ghost out = scaled;
        let r = frame.try_with_col(Col::new(self.output_col.clone(), scaled));
        proof {
            if r is Ok {
                assert(frame.spec_cols().drop_last() =~= old(frame).spec_cols());
                assert(appended(old(frame).spec_cols(), frame.spec_cols(), self.output_col@, out));
            }
        }
        r
    }
}

/// The bit pattern of `-0.0`, where a sum of doubles starts.
pub const DOUBLE_NEG_ZERO: u64 = 0x8000_0000_0000_0000;

/// A linear model: coefficients and an intercept.
pub struct LinearRegressionModel {
    pub coefficients: DenseTensor<u64>,
    pub intercept: u64,
}

impl LinearRegressionModel {
    /// The sum of the products of the features with the coefficients, in
    /// order over the shorter of the two, plus the intercept.
    pub fn predict<F: FloatOps>(&self, features: &DenseTensor<u64>, ops: &F) -> u64 {
        let fv = features.values();
        let cv = self.coefficients.values();
        let n = if fv.len() < cv.len() {
            fv.len()
        } else {
            cv.len()
        };
        let mut dot: u64 = DOUBLE_NEG_ZERO;
        let mut j: usize = 0;
        while j < n
            invariant
                n <= fv@.len(),
                n <= cv@.len(),
                j <= n,
            decreases n - j,
        {
            dot = ops.add(dot, ops.mul(fv[j], cv[j]));
            j += 1;
        }
        ops.add(dot, self.intercept)
    }
}

/// Predicts a double from a double tensor column.
pub struct LinearRegression {
    pub name: String,
    pub features_col: String,
    pub prediction_col: String,
    pub model: LinearRegressionModel,
}

impl LinearRegression {
    /// Appends one prediction per row; on an error the frame is unchanged.
    pub fn transform<F: FloatOps>(&self, frame: &mut LeapFrame, ops: &F) -> (r: Result<()>)
        requires
            old(frame).wf(),
        ensures
            r matches Err(e) ==> linear_regression_error(*self, old(frame).spec_cols(), e),
            final(frame).wf(),
            final(frame).spec_size() == old(frame).spec_size(),
            r is Err ==> final(frame).spec_cols() == old(frame).spec_cols(),
            r is Ok <==> (col_data(old(frame).spec_cols(), self.features_col@) matches Some(
                ColData::DoubleTensor(_),
            )) && !has_col(old(frame).spec_cols(), self.prediction_col@),
            r is Ok ==> exists|rows: Vec<DenseTensor<u64>>, p: Vec<u64>|
                col_data(old(frame).spec_cols(), self.features_col@) == Some(
                    ColData::DoubleTensor(rows),
                ) && p@.len() == rows@.len() && appended(
                    old(frame).spec_cols(),
                    final(frame).spec_cols(),
                    self.prediction_col@,
                    ColData::Double(p),
                ),
    {
        let rows = match frame.try_double_tensors(self.features_col.as_str()) {
            Ok(rows) => rows,
            Err(e) => {
                return Err(e);
            },
        };
        let mut p: Vec<u64> = Vec::new();
        let mut i: usize = 0;
        while i < rows.len()
            invariant
                i <= rows@.len(),
                p@.len() == i,
            decreases rows@.len() - i,
        {
            p.push(self.model.predict(&rows[i], ops));
            i += 1;
        }
        let ghost pv = p;
        let r = frame.try_with_col(Col::from_doubles(self.prediction_col.clone(), p));
        proof {
            if r is Ok {
                assert(frame.spec_cols().drop_last() =~= old(frame).spec_cols());
                assert(appended(
                    old(frame).spec_cols(),
                    frame.spec_cols(),
                    self.prediction_col@,
                    ColData::Double(pv),
                ));
            }
        }
        r
    }
}

/// The ordered children of a pipeline.
pub struct PipelineModel {
    pub children: Vec<DefaultNode>,
}

/// Runs its children in order against the same frame.
pub struct Pipeline {
    pub name: String,
    pub model: PipelineModel,
}

/// A loaded operator, ready to run.
pub enum DefaultNode {
    StringIndexer(StringIndexer),
    OneHotEncoder(OneHotEncoder),
    VectorAssembler(VectorAssembler),
    StandardScaler(StandardScaler),
    LinearRegression(LinearRegression),
    Pipeline(Pipeline),
}

/// The ports of the inputs of a vector assembler: `input0`, `input1`, ...
pub open spec fn input_port(i: nat) -> Seq<char> {
    "input"@ + decimal(i)
}

/// The error a string indexer fails with on a frame.
pub open spec fn string_indexer_error(n: StringIndexer, before: Seq<Col>, e: Error) -> bool {
    match col_data(before, n.input_col@) {
        None => e is NoSuchColumn,
        Some(ColData::String(w)) => if indexed(n.model.spec_labels(), w@) is None {
            e is TransformError
        } else {
            e is ColumnAlreadyExists
        },
        Some(_) => e is InvalidType,
    }
}

/// The error a one-hot encoder fails with on a frame.
pub open spec fn one_hot_encoder_error(n: OneHotEncoder, before: Seq<Col>, e: Error) -> bool {
    match col_data(before, n.input_col@) {
        None => e is NoSuchColumn,
        Some(d) => match onehot_indices(d) {
            Some(ix) => if forall|i: int| 0 <= i < ix.len() ==> #[trigger] ix[i] < n.model.size {
                e is ColumnAlreadyExists
            } else {
                e is TransformError
            },
            None => e is TransformError,
        },
    }
}

/// The error a vector assembler fails with on a frame.
pub open spec fn vector_assembler_error(n: VectorAssembler, before: Seq<Col>, e: Error) -> bool {
    if exists|k: int| 0 <= k < n.input_cols@.len() && !has_col(before, #[trigger] n.input_cols@[k]@) {
        e is NoSuchColumn
    } else if !assemblable(before, n.input_cols@) {
        e is TransformError
    } else {
        e is ColumnAlreadyExists
    }
}

/// The error a standard scaler fails with on a frame.
pub open spec fn standard_scaler_error(n: StandardScaler, before: Seq<Col>, e: Error) -> bool {
    match col_data(before, n.input_col@) {
        None => e is NoSuchColumn,
        Some(ColData::DoubleTensor(_)) => if n.model.mean is None && n.model.std is Some {
            e is ColumnAlreadyExists
        } else {
            e is TransformError
        },
        Some(_) => e is InvalidType,
    }
}

/// The error a linear regression fails with on a frame.
pub open spec fn linear_regression_error(n: LinearRegression, before: Seq<Col>, e: Error) -> bool {
    match col_data(before, n.features_col@) {
        None => e is NoSuchColumn,
        Some(ColData::DoubleTensor(_)) => e is ColumnAlreadyExists,
        Some(_) => e is InvalidType,
    }
}

/// What running a string indexer does to the columns of a frame.
pub open spec fn string_indexer_effect(n: StringIndexer, before: Seq<Col>, after: Seq<Col>, r: Result<()>) -> bool {
    &&& (r is Err ==> after == before)
    &&& (r matches Err(e) ==> string_indexer_error(n, before, e))
    &&& (r is Ok <==> (match col_data(before, n.input_col@) {
        Some(ColData::String(w)) => indexed(n.model.spec_labels(), w@) is Some,
        _ => false,
    }) && !has_col(before, n.output_col@))
    &&& (r is Ok ==> exists|w: Vec<String>, v: Vec<i32>|
        col_data(before, n.input_col@) == Some(ColData::String(w)) && indexed(n.model.spec_labels(), w@)
            == Some(v@) && appended(before, after, n.output_col@, ColData::Int(v)))
}

/// What running a one-hot encoder does to the columns of a frame.
pub open spec fn one_hot_encoder_effect(n: OneHotEncoder, before: Seq<Col>, after: Seq<Col>, r: Result<()>) -> bool {
    &&& (r is Err ==> after == before)
    &&& (r matches Err(e) ==> one_hot_encoder_error(n, before, e))
    &&& (r is Ok <==> (match col_data(before, n.input_col@) {
        Some(d) => match onehot_indices(d) {
            Some(ix) => forall|i: int| 0 <= i < ix.len() ==> #[trigger] ix[i] < n.model.size,
            None => false,
        },
        None => false,
    }) && !has_col(before, n.output_col@))
    &&& (r is Ok ==> exists|d: ColData, out: ColData|
        col_data(before, n.input_col@) == Some(d) && one_hot_column(n.model.size, d, out) && appended(
            before,
            after,
            n.output_col@,
            out,
        ))
}

/// What running a vector assembler does to the columns of a frame of
/// `size` rows.
pub open spec fn vector_assembler_effect(n: VectorAssembler, before: Seq<Col>, after: Seq<Col>, r: Result<()>, size: usize) -> bool {
    &&& (r is Err ==> after == before)
    &&& (r matches Err(e) ==> vector_assembler_error(n, before, e))
    &&& (r is Ok <==> assemblable(before, n.input_cols@) && !has_col(before, n.output_col@))
    &&& (r is Ok ==> after.len() == before.len() + 1 && after.drop_last() == before && after.last().spec_name()
        == n.output_col@)
    &&& (r is Ok ==> match after.last().spec_data() {
        ColData::DoubleTensor(rows) => rows@.len() == size && forall|i: int|
            0 <= i < rows@.len() ==> (#[trigger] rows@[i]).wf() && agrees(
                rows@[i].spec_values(),
                assembled(named_data(before, n.input_cols@), i),
            ),
        _ => false,
    })
}

/// What running a standard scaler does to the columns of a frame.
pub open spec fn standard_scaler_effect(n: StandardScaler, before: Seq<Col>, after: Seq<Col>, r: Result<()>) -> bool {
    &&& (r is Err ==> after == before)
    &&& (r matches Err(e) ==> standard_scaler_error(n, before, e))
    &&& (r is Ok <==> (col_data(before, n.input_col@) matches Some(ColData::DoubleTensor(_))) && n.model.mean is None
        && n.model.std is Some && !has_col(before, n.output_col@))
    &&& (r is Ok ==> exists|d: ColData, out: ColData|
        col_data(before, n.input_col@) == Some(d) && scaled_column(d, n.model.std->0, out) && appended(
            before,
            after,
            n.output_col@,
            out,
        ))
}

/// What running a linear regression does to the columns of a frame.
pub open spec fn linear_regression_effect(n: LinearRegression, before: Seq<Col>, after: Seq<Col>, r: Result<()>) -> bool {
    &&& (r is Err ==> after == before)
    &&& (r matches Err(e) ==> linear_regression_error(n, before, e))
    &&& (r is Ok <==> (col_data(before, n.features_col@) matches Some(ColData::DoubleTensor(_))) && !has_col(
        before,
        n.prediction_col@,
    ))
    &&& (r is Ok ==> exists|rows: Vec<DenseTensor<u64>>, p: Vec<u64>|
        col_data(before, n.features_col@) == Some(ColData::DoubleTensor(rows)) && p@.len() == rows@.len()
            && appended(before, after, n.prediction_col@, ColData::Double(p)))
}

/// What running a node does to the columns of a frame of `size` rows,
/// ending with the result `r`.
pub open spec fn node_effect(node: DefaultNode, before: Seq<Col>, after: Seq<Col>, r: Result<()>, size: usize) -> bool
    decreases node, 2nat,
{
    match node {
        DefaultNode::StringIndexer(n) => string_indexer_effect(n, before, after, r),
        DefaultNode::OneHotEncoder(n) => one_hot_encoder_effect(n, before, after, r),
        DefaultNode::VectorAssembler(n) => vector_assembler_effect(n, before, after, r, size),
        DefaultNode::StandardScaler(n) => standard_scaler_effect(n, before, after, r),
        DefaultNode::LinearRegression(n) => linear_regression_effect(n, before, after, r),
        DefaultNode::Pipeline(p) => pipeline_effect(p.model.children@, before, after, r, size),
    }
}

/// `stages` are the columns of a frame before each child of a pipeline
/// runs and after the last one that ran: every child but the last that ran
/// succeeded, and the last one that ran ended with `r`, which is `Ok` only
/// when all ran.
pub open spec fn pipeline_stages(
    children: Seq<DefaultNode>,
    stages: Seq<Seq<Col>>,
    before: Seq<Col>,
    after: Seq<Col>,
    r: Result<()>,
    size: usize,
) -> bool
    decreases children, 0nat,
{
    &&& stages.len() >= 1
    &&& stages[0] == before
    &&& stages.last() == after
    &&& (r is Ok ==> stages.len() == children.len() + 1)
    &&& (r is Err ==> 2 <= stages.len() <= children.len() + 1 && node_effect(
        children[stages.len() - 2],
        stages[stages.len() - 2],
        stages[stages.len() - 1],
        r,
        size,
    ))
    &&& forall|k: int|
        0 <= k < stages.len() - (if r is Ok {
            1int
        } else {
            2int
        }) ==> node_effect(#[trigger] children[k], stages[k], stages[k + 1], Ok(()), size)
}

/// `stages` run from `before` to `after`.
pub open spec fn stage_ends(stages: Seq<Seq<Col>>, before: Seq<Col>, after: Seq<Col>) -> bool {
    stages.len() >= 1 && stages[0] == before && stages.last() == after
}

/// What running a pipeline with these children does to the columns of a
/// frame of `size` rows: the children run in order, each on the columns
/// the one before it left, and the first failure ends the run with that
/// child's error.
pub open spec fn pipeline_effect(children: Seq<DefaultNode>, before: Seq<Col>, after: Seq<Col>, r: Result<()>, size: usize) -> bool
    decreases children, 1nat,
{
    exists|stages: Seq<Seq<Col>>|
        #[trigger] stage_ends(stages, before, after) && pipeline_stages(children, stages, before, after, r, size)
}

/// A pipeline of a string indexer and then a vector assembler that
/// succeeds leaves a frame as running the indexer and then the assembler
/// on it does: some columns between the two runs satisfy the indexer's
/// effect from the columns before and the assembler's effect to the
/// columns after.
pub proof fn lemma_pipeline_runs_in_sequence(
    si: StringIndexer,
    va: VectorAssembler,
    before: Seq<Col>,
    after: Seq<Col>,
    size: usize,
)
    requires
        pipeline_effect(
            seq![DefaultNode::StringIndexer(si), DefaultNode::VectorAssembler(va)],
            before,
            after,
            Ok(()),
            size,
        ),
    ensures
        exists|mid: Seq<Col>|
            string_indexer_effect(si, before, mid, Ok(())) && vector_assembler_effect(va, mid, after, Ok(()), size),
{
    let children = seq![DefaultNode::StringIndexer(si), DefaultNode::VectorAssembler(va)];
    let stages = choose|stages: Seq<Seq<Col>>|
        #[trigger] stage_ends(stages, before, after) && pipeline_stages(children, stages, before, after, Ok(()), size);
    assert(pipeline_stages(children, stages, before, after, Ok(()), size));
    assert(children.len() == 2);
    assert(stages.len() == 3);
    let k0: int = 0;
    let k1: int = 1;
    assert(node_effect(children[k0], stages[k0], stages[k0 + 1], Ok(()), size));
    assert(node_effect(children[k1], stages[k1], stages[k1 + 1], Ok(()), size));
    assert(string_indexer_effect(si, before, stages[1], Ok(())));
}

impl DefaultNode {
    pub open spec fn spec_name(&self) -> Seq<char> {
        match self {
            DefaultNode::StringIndexer(n) => n.name@,
            DefaultNode::OneHotEncoder(n) => n.name@,
            DefaultNode::VectorAssembler(n) => n.name@,
            DefaultNode::StandardScaler(n) => n.name@,
            DefaultNode::LinearRegression(n) => n.name@,
            DefaultNode::Pipeline(n) => n.name@,
        }
    }

    /// The sockets that describe the node: its input and output columns.
    pub open spec fn spec_shape(&self) -> <Shape as View>::V {
        match self {
            DefaultNode::StringIndexer(n) => (seq![(n.input_col@, "input"@)], seq![(n.output_col@, "output"@)]),
            DefaultNode::OneHotEncoder(n) => (seq![(n.input_col@, "input"@)], seq![(n.output_col@, "output"@)]),
            DefaultNode::StandardScaler(n) => (seq![(n.input_col@, "input"@)], seq![(n.output_col@, "output"@)]),
            DefaultNode::VectorAssembler(n) => (
                Seq::new(n.input_cols@.len(), |i: int| (n.input_cols@[i]@, input_port(i as nat))),
                seq![(n.output_col@, "output"@)],
            ),
            DefaultNode::LinearRegression(n) => (
                seq![(n.features_col@, "features"@)],
                seq![(n.prediction_col@, "prediction"@)],
            ),
            DefaultNode::Pipeline(_) => (Seq::empty(), Seq::empty()),
        }
    }

    pub fn name(&self) -> (r: &str)
        ensures
            r@ == self.spec_name(),
    {
        match self {
            DefaultNode::StringIndexer(n) => n.name.as_str(),
            DefaultNode::OneHotEncoder(n) => n.name.as_str(),
            DefaultNode::VectorAssembler(n) => n.name.as_str(),
            DefaultNode::StandardScaler(n) => n.name.as_str(),
            DefaultNode::LinearRegression(n) => n.name.as_str(),
            DefaultNode::Pipeline(n) => n.name.as_str(),
        }
    }

    /// The shape that describes the node.
    pub fn create_shape(&self) -> (r: Shape)
        ensures
            r@ == self.spec_shape(),
    {
        match self {
            DefaultNode::StringIndexer(n) => standard_shape(&n.input_col, &n.output_col),
            DefaultNode::OneHotEncoder(n) => standard_shape(&n.input_col, &n.output_col),
            DefaultNode::StandardScaler(n) => standard_shape(&n.input_col, &n.output_col),
            DefaultNode::VectorAssembler(n) => {
                let mut inputs: Vec<Socket> = Vec::new();
                let mut i: usize = 0;
                while i < n.input_cols.len()
                    invariant
                        i <= n.input_cols@.len(),
                        inputs@.len() == i,
                        forall|k: int|
                            0 <= k < i ==> (#[trigger] inputs@[k])@ == (n.input_cols@[k]@, input_port(
                                k as nat,
                            )),
                    decreases n.input_cols@.len() - i,
                {
                    let mut port = owned("input");
                    push_decimal(&mut port, i);
                    inputs.push(Socket::new(n.input_cols[i].clone(), port));
                    i += 1;
                }
                let mut outputs: Vec<Socket> = Vec::new();
                outputs.push(Socket::new(n.output_col.clone(), owned("output")));
                let r = Shape::new(inputs, outputs);
                assert(r@.0 =~= self.spec_shape().0);
                assert(r@.1 =~= self.spec_shape().1);
                r
            },
            DefaultNode::LinearRegression(n) => {
                let mut inputs: Vec<Socket> = Vec::new();
                inputs.push(Socket::new(n.features_col.clone(), owned("features")));
                let mut outputs: Vec<Socket> = Vec::new();
                outputs.push(Socket::new(n.prediction_col.clone(), owned("prediction")));
                let r = Shape::new(inputs, outputs);
                assert(r@.0 =~= self.spec_shape().0);
                assert(r@.1 =~= self.spec_shape().1);
                r
            },
            DefaultNode::Pipeline(_) => {
                let r = Shape::empty();
                assert(r@.0 =~= self.spec_shape().0);
                assert(r@.1 =~= self.spec_shape().1);
                r
            },
        }
    }

    /// The node descriptor: the name and the shape.
    pub fn create_node(&self) -> (r: Node)
        ensures
            r@ == (self.spec_name(), self.spec_shape()),
    {
        Node::new(owned(self.name()), self.create_shape())
    }

    /// Runs the node against the frame. Columns are only ever appended; a
    /// pipeline runs its children in order and stops at the first error,
    /// which it returns.
    pub fn transform<F: FloatOps>(&self, frame: &mut LeapFrame, ops: &F) -> (r: Result<()>)
        requires
            old(frame).wf(),
        ensures
            final(frame).wf(),
            final(frame).spec_size() == old(frame).spec_size(),
            final(frame).spec_cols().len() >= old(frame).spec_cols().len(),
            final(frame).spec_cols().subrange(0, old(frame).spec_cols().len() as int) == old(frame).spec_cols(),
            node_effect(*self, old(frame).spec_cols(), final(frame).spec_cols(), r, old(frame).spec_size()),
            (match *self {
                DefaultNode::Pipeline(p) => pipeline_effect(
                    p.model.children@,
                    old(frame).spec_cols(),
                    final(frame).spec_cols(),
                    r,
                    old(frame).spec_size(),
                ),
                _ => true,
            }),
        decreases self,
    {
        let ghost before = frame.spec_cols();
        let r = match self {
            DefaultNode::StringIndexer(n) => n.transform(frame),
            DefaultNode::OneHotEncoder(n) => n.transform(frame),
            DefaultNode::VectorAssembler(n) => n.transform(frame, ops),
            DefaultNode::StandardScaler(n) => n.transform(frame, ops),
            DefaultNode::LinearRegression(n) => n.transform(frame, ops),
            DefaultNode::Pipeline(p) => {
                let ghost children = p.model.children@;
                let ghost size = frame.spec_size();
                let ghost mut stages: Seq<Seq<Col>> = seq![before];
                let mut i: usize = 0;
                while i < p.model.children.len()
                    invariant
                        frame.wf(),
                        frame.spec_size() == old(frame).spec_size(),
                        size == old(frame).spec_size(),
                        frame.spec_cols().len() >= before.len(),
                        frame.spec_cols().subrange(0, before.len() as int) == before,
                        before == old(frame).spec_cols(),
                        *self == DefaultNode::Pipeline(*p),
                        children == p.model.children@,
                        i <= p.model.children@.len(),
                        stages.len() == i + 1,
                        stages[0] == before,
                        stages.last() == frame.spec_cols(),
                        forall|k: int|
                            0 <= k < i ==> node_effect(#[trigger] children[k], stages[k], stages[k + 1], Ok(()), size),
                    decreases p.model.children@.len() - i,
                {
                    let ghost mid = frame.spec_cols();
                    proof {
                        vstd::std_specs::vec::axiom_vec_index_decreases(p.model.children, i as int);
                        assert(decreases_to!(*self => self->Pipeline_0));
                        assert(decreases_to!(self->Pipeline_0 => self->Pipeline_0.model));
                        assert(decreases_to!(self->Pipeline_0.model => self->Pipeline_0.model.children));
                    }
                    let step = p.model.children[i].transform(frame, ops);
                    proof {
                        let old_stages = stages;
                        stages = stages.push(frame.spec_cols());
                        assert forall|k: int| 0 <= k < i implies node_effect(#[trigger] children[k], stages[k], stages[k + 1], Ok(()), size) by {
                            assert(stages[k] == old_stages[k]);
                            assert(stages[k + 1] == old_stages[k + 1]);
                        }
                    }
                    match step {
                        Ok(_) => {},
                        Err(e) => {
                            assert(frame.spec_cols().subrange(0, before.len() as int) =~= mid.subrange(0, before.len() as int));
                            assert(pipeline_stages(children, stages, before, frame.spec_cols(), Err(e), size));
                            assert(stage_ends(stages, before, frame.spec_cols()));
                            return Err(e);
                        },
                    }
                    assert(frame.spec_cols().subrange(0, before.len() as int) =~= mid.subrange(0, before.len() as int));
                    i += 1;
                }
                assert(pipeline_stages(children, stages, before, frame.spec_cols(), Ok(()), size));
                assert(stage_ends(stages, before, frame.spec_cols()));
                Ok(())
            },
        };
        proof {
            if frame.spec_cols().len() == before.len() + 1 && frame.spec_cols().drop_last() == before {
                assert(frame.spec_cols().subrange(0, before.len() as int) =~= before);
            }
            if frame.spec_cols() == before {
                assert(frame.spec_cols().subrange(0, before.len() as int) =~= before);
            }
        }
        r
    }
}

fn standard_shape(input: &String, output: &String) -> (r: Shape)
    ensures
        r@ == (seq![(input@, "input"@)], seq![(output@, "output"@)]),
{
    let r = Shape::with_standard_io(input.clone(), output.clone());
    assert(r@.0 =~= seq![(input@, "input"@)]);
    assert(r@.1 =~= seq![(output@, "output"@)]);
    r
}

} // verus!
