//! The columnar execution substrate: a frame of named, typed columns.

use vstd::prelude::*;
use crate::util::{str_eq, owned};
use crate::dsl::DenseTensor;

verus! {

/// A failure of a transform or of an access to a frame.
#[derive(Debug)]
pub enum Error {
    TransformError(String),
    InvalidType(String),
    ColumnAlreadyExists(String),
    NoSuchColumn(String),
}

pub type Result<T> = core::result::Result<T, Error>;

/// The values of a column: one scalar, vector or tensor per row. Single
/// and double precision values are held as their bit patterns.
pub enum ColData {
    Bool(Vec<bool>),
    String(Vec<String>),
    Byte(Vec<i8>),
    Short(Vec<i16>),
    Int(Vec<i32>),
    Long(Vec<i64>),
    Float(Vec<u32>),
    Double(Vec<u64>),
    ByteString(Vec<Vec<u8>>),
    BoolVector(Vec<Vec<bool>>),
    StringVector(Vec<Vec<String>>),
    ByteVector(Vec<Vec<i8>>),
    ShortVector(Vec<Vec<i16>>),
    IntVector(Vec<Vec<i32>>),
    LongVector(Vec<Vec<i64>>),
    FloatVector(Vec<Vec<u32>>),
    DoubleVector(Vec<Vec<u64>>),
    ByteStringVector(Vec<Vec<Vec<u8>>>),
    BoolTensor(Vec<DenseTensor<bool>>),
    StringTensor(Vec<DenseTensor<String>>),
    ByteTensor(Vec<DenseTensor<i8>>),
    ShortTensor(Vec<DenseTensor<i16>>),
    IntTensor(Vec<DenseTensor<i32>>),
    LongTensor(Vec<DenseTensor<i64>>),
    FloatTensor(Vec<DenseTensor<u32>>),
    DoubleTensor(Vec<DenseTensor<u64>>),
    ByteStringTensor(Vec<DenseTensor<Vec<u8>>>),
}

/// A named column.
pub struct Col {
    name: String,
    data: ColData,
}

impl Col {
    pub closed spec fn spec_name(&self) -> Seq<char> {
        self.name@
    }

    pub closed spec fn spec_data(&self) -> ColData {
        self.data
    }

    pub fn new(name: String, data: ColData) -> (r: Col)
        ensures
            r.spec_name() == name@,
            r.spec_data() == data,
    {
        Col { name, data }
    }

    pub fn from_doubles(name: String, v: Vec<u64>) -> (r: Col)
        ensures
            r.spec_name() == name@,
            r.spec_data() == ColData::Double(v),
    {
        Col { name, data: ColData::Double(v) }
    }

    pub fn from_double_tensors(name: String, v: Vec<DenseTensor<u64>>) -> (r: Col)
        ensures
            r.spec_name() == name@,
            r.spec_data() == ColData::DoubleTensor(v),
    {
        Col { name, data: ColData::DoubleTensor(v) }
    }

    pub fn from_strings(name: String, v: Vec<String>) -> (r: Col)
        ensures
            r.spec_name() == name@,
            r.spec_data() == ColData::String(v),
    {
        Col { name, data: ColData::String(v) }
    }

    pub fn from_ints(name: String, v: Vec<i32>) -> (r: Col)
        ensures
            r.spec_name() == name@,
            r.spec_data() == ColData::Int(v),
    {
        Col { name, data: ColData::Int(v) }
    }

    pub fn from_long_tensors(name: String, v: Vec<DenseTensor<i64>>) -> (r: Col)
        ensures
            r.spec_name() == name@,
            r.spec_data() == ColData::LongTensor(v),
    {
        Col { name, data: ColData::LongTensor(v) }
    }

    pub fn name(&self) -> (r: &str)
        ensures
            r@ == self.spec_name(),
    {
        self.name.as_str()
    }

    pub fn data(&self) -> (r: &ColData)
        ensures
            *r == self.spec_data(),
    {
        &self.data
    }

    pub fn get_doubles(&self) -> (r: Option<&[u64]>)
        ensures
            r is Some <==> self.spec_data() is Double,
            r matches Some(v) ==> self.spec_data() matches ColData::Double(w) && w@ == v@,
    {
        match &self.data {
            ColData::Double(v) => Some(v.as_slice()),
            _ => None,
        }
    }

    pub fn try_doubles(&self) -> (r: Result<&[u64]>)
        ensures
            r is Ok <==> self.spec_data() is Double,
            r matches Ok(v) ==> self.spec_data() matches ColData::Double(w) && w@ == v@,
            r matches Err(e) ==> e is InvalidType,
    {
        match &self.data {
            ColData::Double(v) => Ok(v.as_slice()),
            _ => Err(Error::InvalidType(owned("expected doubles"))),
        }
    }

    pub fn get_ints(&self) -> (r: Option<&[i32]>)
        ensures
            r is Some <==> self.spec_data() is Int,
            r matches Some(v) ==> self.spec_data() matches ColData::Int(w) && w@ == v@,
    {
        match &self.data {
            ColData::Int(v) => Some(v.as_slice()),
            _ => None,
        }
    }

    pub fn try_ints(&self) -> (r: Result<&[i32]>)
        ensures
            r is Ok <==> self.spec_data() is Int,
            r matches Ok(v) ==> self.spec_data() matches ColData::Int(w) && w@ == v@,
            r matches Err(e) ==> e is InvalidType,
    {
        match &self.data {
            ColData::Int(v) => Ok(v.as_slice()),
            _ => Err(Error::InvalidType(owned("expected ints"))),
        }
    }

    pub fn get_double_tensors(&self) -> (r: Option<&[DenseTensor<u64>]>)
        ensures
            r is Some <==> self.spec_data() is DoubleTensor,
            r matches Some(v) ==> self.spec_data() matches ColData::DoubleTensor(w) && w@ == v@,
    {
        match &self.data {
            ColData::DoubleTensor(v) => Some(v.as_slice()),
            _ => None,
        }
    }

    pub fn try_double_tensors(&self) -> (r: Result<&[DenseTensor<u64>]>)
        ensures
            r is Ok <==> self.spec_data() is DoubleTensor,
            r matches Ok(v) ==> self.spec_data() matches ColData::DoubleTensor(w) && w@ == v@,
            r matches Err(e) ==> e is InvalidType,
    {
        match &self.data {
            ColData::DoubleTensor(v) => Ok(v.as_slice()),
            _ => Err(Error::InvalidType(owned("expected double tensors"))),
        }
    }

    pub fn get_strings(&self) -> (r: Option<&[String]>)
        ensures
            r is Some <==> self.spec_data() is String,
            r matches Some(v) ==> self.spec_data() matches ColData::String(w) && w@ == v@,
    {
        match &self.data {
            ColData::String(v) => Some(v.as_slice()),
            _ => None,
        }
    }

    pub fn try_strings(&self) -> (r: Result<&[String]>)
        ensures
            r is Ok <==> self.spec_data() is String,
            r matches Ok(v) ==> self.spec_data() matches ColData::String(w) && w@ == v@,
            r matches Err(e) ==> e is InvalidType,
    {
        match &self.data {
            ColData::String(v) => Ok(v.as_slice()),
            _ => Err(Error::InvalidType(owned("expected strings"))),
        }
    }
}

/// `i` is the position of the column named `name`.
pub open spec fn col_at(cols: Seq<Col>, name: Seq<char>, i: int) -> bool {
    0 <= i < cols.len() && cols[i].spec_name() == name
}

/// Some column is named `name`.
pub open spec fn has_col(cols: Seq<Col>, name: Seq<char>) -> bool {
    exists|i: int| col_at(cols, name, i)
}

/// `c` is the column of `cols` named `name`.
pub open spec fn named_col(cols: Seq<Col>, name: Seq<char>, c: Col) -> bool {
    exists|i: int| col_at(cols, name, i) && c == cols[i]
}

/// The data of the column named `name`.
pub open spec fn col_data(cols: Seq<Col>, name: Seq<char>) -> Option<ColData> {
    if has_col(cols, name) {
        Some(cols[choose|i: int| col_at(cols, name, i)].spec_data())
    } else {
        None
    }
}

/// No two columns share a name.
pub open spec fn names_unique(cols: Seq<Col>) -> bool {
    forall|i: int, j: int| 0 <= i < j < cols.len() ==> cols[i].spec_name() != cols[j].spec_name()
}

pub proof fn lemma_col_data(cols: Seq<Col>, name: Seq<char>, i: int)
    requires
        names_unique(cols),
        col_at(cols, name, i),
    ensures
        col_data(cols, name) == Some(cols[i].spec_data()),
{
    let j = choose|j: int| col_at(cols, name, j);
    assert(col_at(cols, name, j));
    if j < i {
        assert(cols[j].spec_name() != cols[i].spec_name());
    } else if i < j {
        assert(cols[i].spec_name() != cols[j].spec_name());
    }
}

/// `after` is `before` with one more column, named `name`, holding `data`.
pub open spec fn appended(before: Seq<Col>, after: Seq<Col>, name: Seq<char>, data: ColData) -> bool {
    after.len() == before.len() + 1 && after.drop_last() == before && after.last().spec_name() == name
        && after.last().spec_data() == data
}

/// A row count and an append-only list of uniquely named columns.
pub struct LeapFrame {
    size: usize,
    cols: Vec<Col>,
}

impl LeapFrame {
    pub closed spec fn spec_size(&self) -> usize {
        self.size
    }

    pub closed spec fn spec_cols(&self) -> Seq<Col> {
        self.cols@
    }

    /// Column names are unique.
    pub open spec fn wf(&self) -> bool {
        names_unique(self.spec_cols())
    }

    /// An empty frame of `size` rows.
    pub fn with_size(size: usize) -> (r: LeapFrame)
        ensures
            r.spec_size() == size,
            r.spec_cols().len() == 0,
            r.wf(),
    {
        LeapFrame { size, cols: Vec::new() }
    }

    pub fn size(&self) -> (r: usize)
        ensures
            r == self.spec_size(),
    {
        self.size
    }

    pub fn cols(&self) -> (r: &[Col])
        ensures
            r@ == self.spec_cols(),
    {
        self.cols.as_slice()
    }

    fn position(&self, name: &str) -> (r: Option<usize>)
        requires
            self.wf(),
        ensures
            r is None <==> !has_col(self.spec_cols(), name@),
            r is None <==> col_data(self.spec_cols(), name@) is None,
            r matches Some(i) ==> col_at(self.spec_cols(), name@, i as int),
    {
        let mut i: usize = 0;
        while i < self.cols.len()
            invariant
                i <= self.cols@.len(),
                forall|j: int| 0 <= j < i ==> self.cols@[j].spec_name() != name@,
            decreases self.cols@.len() - i,
        {
            if str_eq(self.cols[i].name(), name) {
                assert(col_at(self.spec_cols(), name@, i as int));
                return Some(i);
            }
            i += 1;
        }
        None
    }

    /// Appends a column; `ColumnAlreadyExists` when the name is taken, and
    /// then the frame is unchanged.
    pub fn try_with_col(&mut self, col: Col) -> (r: Result<()>)
        requires
            old(self).wf(),
        ensures
            final(self).wf(),
            final(self).spec_size() == old(self).spec_size(),
            r is Err <==> has_col(old(self).spec_cols(), col.spec_name()),
            r matches Err(e) ==> e is ColumnAlreadyExists && final(self).spec_cols() == old(self).spec_cols(),
            r matches Err(Error::ColumnAlreadyExists(s)) ==> s@ == col.spec_name(),
            r is Ok ==> final(self).spec_cols() == old(self).spec_cols().push(col),
    {
        match self.position(col.name()) {
            Some(_) => Err(Error::ColumnAlreadyExists(owned(col.name()))),
            None => {
                let ghost before = self.cols@;
                let ghost nm = col.spec_name();
                self.cols.push(col);
                proof {
                    assert forall|i: int, j: int|
                        0 <= i < j < self.spec_cols().len() implies self.spec_cols()[i].spec_name()
                        != self.spec_cols()[j].spec_name() by {
                        if j == before.len() {
                            assert(!col_at(before, nm, i));
                        }
                    }
                }
                Ok(())
            },
        }
    }

    pub fn try_with_doubles(&mut self, name: String, v: Vec<u64>) -> (r: Result<()>)
        requires
            old(self).wf(),
        ensures
            final(self).wf(),
            final(self).spec_size() == old(self).spec_size(),
            r is Err <==> has_col(old(self).spec_cols(), name@),
            r matches Err(e) ==> e is ColumnAlreadyExists && final(self).spec_cols() == old(self).spec_cols(),
            r is Ok ==> final(self).spec_cols().len() == old(self).spec_cols().len() + 1
                && final(self).spec_cols().drop_last() == old(self).spec_cols() && final(self).spec_cols().last().spec_name() == name@ && final(self).spec_cols().last().spec_data()
                == ColData::Double(v),
    {
        self.try_with_col(Col::from_doubles(name, v))
    }

    pub fn try_with_double_tensors(&mut self, name: String, v: Vec<DenseTensor<u64>>) -> (r:
        Result<()>)
        requires
            old(self).wf(),
        ensures
            final(self).wf(),
            final(self).spec_size() == old(self).spec_size(),
            r is Err <==> has_col(old(self).spec_cols(), name@),
            r matches Err(e) ==> e is ColumnAlreadyExists && final(self).spec_cols() == old(self).spec_cols(),
            r is Ok ==> final(self).spec_cols().len() == old(self).spec_cols().len() + 1
                && final(self).spec_cols().drop_last() == old(self).spec_cols() && final(self).spec_cols().last().spec_name() == name@ && final(self).spec_cols().last().spec_data()
                == ColData::DoubleTensor(v),
    {
        self.try_with_col(Col::from_double_tensors(name, v))
    }

    pub fn try_with_strings(&mut self, name: String, v: Vec<String>) -> (r: Result<()>)
        requires
            old(self).wf(),
        ensures
            final(self).wf(),
            final(self).spec_size() == old(self).spec_size(),
            r is Err <==> has_col(old(self).spec_cols(), name@),
            r matches Err(e) ==> e is ColumnAlreadyExists && final(self).spec_cols() == old(self).spec_cols(),
            r is Ok ==> final(self).spec_cols().len() == old(self).spec_cols().len() + 1
                && final(self).spec_cols().drop_last() == old(self).spec_cols() && final(self).spec_cols().last().spec_name() == name@ && final(self).spec_cols().last().spec_data()
                == ColData::String(v),
    {
        self.try_with_col(Col::from_strings(name, v))
    }

    pub fn try_with_ints(&mut self, name: String, v: Vec<i32>) -> (r: Result<()>)
        requires
            old(self).wf(),
        ensures
            final(self).wf(),
            final(self).spec_size() == old(self).spec_size(),
            r is Err <==> has_col(old(self).spec_cols(), name@),
            r matches Err(e) ==> e is ColumnAlreadyExists && final(self).spec_cols() == old(self).spec_cols(),
            r is Ok ==> final(self).spec_cols().len() == old(self).spec_cols().len() + 1
                && final(self).spec_cols().drop_last() == old(self).spec_cols() && final(self).spec_cols().last().spec_name() == name@ && final(self).spec_cols().last().spec_data()
                == ColData::Int(v),
    {
        self.try_with_col(Col::from_ints(name, v))
    }

    /// The column named `name`.
    pub fn get_col(&self, name: &str) -> (r: Option<&Col>)
        requires
            self.wf(),
        ensures
            r is None <==> !has_col(self.spec_cols(), name@),
            r matches Some(c) ==> exists|i: int|
                col_at(self.spec_cols(), name@, i) && *c == self.spec_cols()[i],
            r matches Some(c) ==> col_data(self.spec_cols(), name@) == Some(c.spec_data()),
    {
        match self.position(name) {
            Some(i) => {
                proof {
                    lemma_col_data(self.spec_cols(), name@, i as int);
                }
                Some(&self.cols[i])
            },
            None => None,
        }
    }

    /// The column named `name`, or `NoSuchColumn`.
    pub fn try_col(&self, name: &str) -> (r: Result<&Col>)
        requires
            self.wf(),
        ensures
            r is Err <==> !has_col(self.spec_cols(), name@),
            r matches Err(e) ==> e is NoSuchColumn,
            r matches Err(Error::NoSuchColumn(s)) ==> s@ == name@,
            r matches Ok(c) ==> exists|i: int|
                col_at(self.spec_cols(), name@, i) && *c == self.spec_cols()[i],
            r matches Ok(c) ==> col_data(self.spec_cols(), name@) == Some(c.spec_data()),
    {
        match self.position(name) {
            Some(i) => {
                proof {
                    lemma_col_data(self.spec_cols(), name@, i as int);
                }
                Ok(&self.cols[i])
            },
            None => Err(Error::NoSuchColumn(owned(name))),
        }
    }

    /// The columns with the given names, in that order, or `NoSuchColumn`
    /// for the first name that no column has.
    pub fn try_cols(&self, names: &[String]) -> (r: Result<Vec<&Col>>)
        requires
            self.wf(),
        ensures
            r is Err <==> exists|k: int|
                0 <= k < names@.len() && !has_col(self.spec_cols(), #[trigger] names@[k]@),
            r matches Err(e) ==> e is NoSuchColumn,
            r matches Ok(v) ==> v@.len() == names@.len() && forall|k: int|
                0 <= k < v@.len() ==> named_col(self.spec_cols(), names@[k]@, *#[trigger] v@[k])
                    && col_data(self.spec_cols(), names@[k]@) == Some(v@[k].spec_data()),
    {
        let mut cols: Vec<&Col> = Vec::new();
        let mut k: usize = 0;
        while k < names.len()
            invariant
                self.wf(),
                k <= names@.len(),
                cols@.len() == k,
                forall|q: int| 0 <= q < k ==> has_col(self.spec_cols(), #[trigger] names@[q]@),
                forall|q: int|
                    0 <= q < k ==> named_col(self.spec_cols(), names@[q]@, *#[trigger] cols@[q])
                        && col_data(self.spec_cols(), names@[q]@) == Some(cols@[q].spec_data()),
            decreases names@.len() - k,
        {
            match self.try_col(names[k].as_str()) {
                Ok(c) => cols.push(c),
                Err(e) => {
                    return Err(e);
                },
            }
            k += 1;
        }
        Ok(cols)
    }

    pub fn get_doubles(&self, name: &str) -> (r: Option<&[u64]>)
        requires
            self.wf(),
        ensures
            r is Some <==> col_data(self.spec_cols(), name@) matches Some(ColData::Double(_)),
            r matches Some(v) ==> col_data(self.spec_cols(), name@) matches Some(ColData::Double(w))
                && w@ == v@,
    {
        match self.position(name) {
            Some(i) => {
                proof {
                    lemma_col_data(self.spec_cols(), name@, i as int);
                }
                self.cols[i].get_doubles()
            },
            None => None,
        }
    }

    pub fn try_doubles(&self, name: &str) -> (r: Result<&[u64]>)
        requires
            self.wf(),
        ensures
            r is Ok <==> col_data(self.spec_cols(), name@) matches Some(ColData::Double(_)),
            r matches Ok(v) ==> col_data(self.spec_cols(), name@) matches Some(ColData::Double(w))
                && w@ == v@,
            r matches Err(e) ==> (e is NoSuchColumn <==> col_data(self.spec_cols(), name@) is None)
                && (e is NoSuchColumn || e is InvalidType),
    {
        match self.position(name) {
            Some(i) => {
                proof {
                    lemma_col_data(self.spec_cols(), name@, i as int);
                }
                self.cols[i].try_doubles()
            },
            None => Err(Error::NoSuchColumn(owned(name))),
        }
    }

    pub fn get_ints(&self, name: &str) -> (r: Option<&[i32]>)
        requires
            self.wf(),
        ensures
            r is Some <==> col_data(self.spec_cols(), name@) matches Some(ColData::Int(_)),
            r matches Some(v) ==> col_data(self.spec_cols(), name@) matches Some(ColData::Int(w))
                && w@ == v@,
    {
        match self.position(name) {
            Some(i) => {
                proof {
                    lemma_col_data(self.spec_cols(), name@, i as int);
                }
                self.cols[i].get_ints()
            },
            None => None,
        }
    }

    pub fn try_ints(&self, name: &str) -> (r: Result<&[i32]>)
        requires
            self.wf(),
        ensures
            r is Ok <==> col_data(self.spec_cols(), name@) matches Some(ColData::Int(_)),
            r matches Ok(v) ==> col_data(self.spec_cols(), name@) matches Some(ColData::Int(w))
                && w@ == v@,
            r matches Err(e) ==> (e is NoSuchColumn <==> col_data(self.spec_cols(), name@) is None)
                && (e is NoSuchColumn || e is InvalidType),
    {
        match self.position(name) {
            Some(i) => {
                proof {
                    lemma_col_data(self.spec_cols(), name@, i as int);
                }
                self.cols[i].try_ints()
            },
            None => Err(Error::NoSuchColumn(owned(name))),
        }
    }

    pub fn get_double_tensors(&self, name: &str) -> (r: Option<&[DenseTensor<u64>]>)
        requires
            self.wf(),
        ensures
            r is Some <==> col_data(self.spec_cols(), name@) matches Some(ColData::DoubleTensor(_)),
            r matches Some(v) ==> col_data(self.spec_cols(), name@) matches Some(ColData::DoubleTensor(w))
                && w@ == v@,
    {
        match self.position(name) {
            Some(i) => {
                proof {
                    lemma_col_data(self.spec_cols(), name@, i as int);
                }
                self.cols[i].get_double_tensors()
            },
            None => None,
        }
    }

    pub fn try_double_tensors(&self, name: &str) -> (r: Result<&[DenseTensor<u64>]>)
        requires
            self.wf(),
        ensures
            r is Ok <==> col_data(self.spec_cols(), name@) matches Some(ColData::DoubleTensor(_)),
            r matches Ok(v) ==> col_data(self.spec_cols(), name@) matches Some(ColData::DoubleTensor(w))
                && w@ == v@,
            r matches Err(e) ==> (e is NoSuchColumn <==> col_data(self.spec_cols(), name@) is None)
                && (e is NoSuchColumn || e is InvalidType),
    {
        match self.position(name) {
            Some(i) => {
                proof {
                    lemma_col_data(self.spec_cols(), name@, i as int);
                }
                self.cols[i].try_double_tensors()
            },
            None => Err(Error::NoSuchColumn(owned(name))),
        }
    }

    pub fn get_strings(&self, name: &str) -> (r: Option<&[String]>)
        requires
            self.wf(),
        ensures
            r is Some <==> col_data(self.spec_cols(), name@) matches Some(ColData::String(_)),
            r matches Some(v) ==> col_data(self.spec_cols(), name@) matches Some(ColData::String(w))
                && w@ == v@,
    {
        match self.position(name) {
            Some(i) => {
                proof {
                    lemma_col_data(self.spec_cols(), name@, i as int);
                }
                self.cols[i].get_strings()
            },
            None => None,
        }
    }

    pub fn try_strings(&self, name: &str) -> (r: Result<&[String]>)
        requires
            self.wf(),
        ensures
            r is Ok <==> col_data(self.spec_cols(), name@) matches Some(ColData::String(_)),
            r matches Ok(v) ==> col_data(self.spec_cols(), name@) matches Some(ColData::String(w))
                && w@ == v@,
            r matches Err(e) ==> (e is NoSuchColumn <==> col_data(self.spec_cols(), name@) is None)
                && (e is NoSuchColumn || e is InvalidType),
    {
        match self.position(name) {
            Some(i) => {
                proof {
                    lemma_col_data(self.spec_cols(), name@, i as int);
                }
                self.cols[i].try_strings()
            },
            None => Err(Error::NoSuchColumn(owned(name))),
        }
    }
}

} // verus!
