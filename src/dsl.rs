//! The data model of a bundle: attributes, models, sockets, shapes, nodes
//! and the bundle envelope.
//!
//! Floating-point payloads are carried as their IEEE-754 bit patterns
//! (`u32` for single, `u64` for double precision): this layer stores and
//! moves them, it never computes with them.

use vstd::prelude::*;
use crate::util::{str_eq, owned};

verus! {

/// Names whether a text is a version that `semver::Version::parse` accepts.
pub uninterp spec fn semver_parses(s: Seq<char>) -> bool;

/// Relies on `semver::Version::parse`: whether the text is a semantic
/// version.
#[verifier::external_body]
fn semver_accepts(s: &str) -> (r: bool)
    ensures
        r == semver_parses(s@),
{
    semver::Version::parse(s).is_ok()
}

/// Number of values that a row-major tensor of the given dimensions holds.
pub open spec fn dims_product(d: Seq<usize>) -> nat
    decreases d.len(),
{
    if d.len() == 0 {
        1
    } else {
        dims_product(d.drop_last()) * (d.last() as nat)
    }
}

/// A dense N-dimensional array: dimensions and row-major values.
#[derive(Debug, PartialEq)]
pub struct DenseTensor<T> {
    dimensions: Vec<usize>,
    values: Vec<T>,
}

impl<T> DenseTensor<T> {
    /// The number of values matches the product of the dimensions.
    #[verifier::type_invariant]
    spec fn inv(&self) -> bool {
        self.values@.len() == dims_product(self.dimensions@)
    }

    pub closed spec fn spec_dimensions(&self) -> Seq<usize> {
        self.dimensions@
    }

    pub closed spec fn spec_values(&self) -> Seq<T> {
        self.values@
    }

    /// The number of values matches the product of the dimensions.
    pub open spec fn wf(&self) -> bool {
        self.spec_values().len() == dims_product(self.spec_dimensions())
    }

    /// Builds a tensor; `None` when the number of values differs from the
    /// product of the dimensions.
    pub fn new(dimensions: Vec<usize>, values: Vec<T>) -> (r: Option<DenseTensor<T>>)
        ensures
            r is Some <==> values@.len() == dims_product(dimensions@),
            r matches Some(t) ==> t.spec_dimensions() == dimensions@ && t.spec_values()
                == values@ && t.wf(),
    {
        let mut p: usize = 1;
        let mut over = false;
        let mut i: usize = 0;
        while i < dimensions.len()
            invariant
                i <= dimensions@.len(),
                !over ==> p as nat == dims_product(dimensions@.subrange(0, i as int)),
                over ==> dims_product(dimensions@.subrange(0, i as int)) > usize::MAX,
            decreases dimensions@.len() - i,
        {
            let d = dimensions[i];
            proof {
                let pre = dimensions@.subrange(0, i as int);
                assert(dimensions@.subrange(0, i as int + 1).drop_last() == pre);
            }
            let ghost q = dims_product(dimensions@.subrange(0, i as int));
            assert(dims_product(dimensions@.subrange(0, i as int + 1)) == q * (d as nat));
            if d == 0 {
                assert(q * (d as nat) == 0) by (nonlinear_arith)
                    requires
                        d == 0,
                ;
                p = 0;
                over = false;
            } else if over {
                assert(q * (d as nat) >= q) by (nonlinear_arith)
                    requires
                        d >= 1,
                ;
            } else {
                match p.checked_mul(d) {
                    Some(x) => {
                        assert(x as nat == q * (d as nat));
                        p = x;
                    },
                    None => {
                        over = true;
                    },
                }
            }
            i += 1;
        }
        assert(dimensions@.subrange(0, dimensions@.len() as int) == dimensions@);
        let n = values.len();
        if !over && p == n {
            Some(DenseTensor { dimensions, values })
        } else {
            None
        }
    }

    pub fn dimensions(&self) -> (r: &[usize])
        ensures
            r@ == self.spec_dimensions(),
    {
        self.dimensions.as_slice()
    }

    pub fn values(&self) -> (r: &[T])
        ensures
            r@ == self.spec_values(),
    {
        self.values.as_slice()
    }
}

impl<T: Copy> DenseTensor<T> {
    pub fn copy(&self) -> (r: DenseTensor<T>)
        ensures
            r.spec_dimensions() == self.spec_dimensions(),
            r.spec_values() == self.spec_values(),
            self.wf(),
            r.wf(),
    {
        proof {
            use_type_invariant(self);
        }
        DenseTensor {
            dimensions: crate::util::copy_vec(self.dimensions.as_slice()),
            values: crate::util::copy_vec(self.values.as_slice()),
        }
    }
}

impl<T: DeepView> DenseTensor<T> {
    /// The views of the values, in row-major order.
    pub closed spec fn values_view(&self) -> Seq<T::V> {
        self.values.deep_view()
    }

    /// Builds a tensor from parts already known to agree.
    pub fn from_parts(dimensions: Vec<usize>, values: Vec<T>) -> (r: DenseTensor<T>)
        requires
            values@.len() == dims_product(dimensions@),
        ensures
            r.spec_dimensions() == dimensions@,
            r.spec_values() == values@,
            r.values_view() == values.deep_view(),
            r.wf(),
    {
        DenseTensor { dimensions, values }
    }

    /// Builds a tensor; `None` when the number of values differs from the
    /// product of the dimensions.
    pub fn checked(dimensions: Vec<usize>, values: Vec<T>) -> (r: Option<DenseTensor<T>>)
        ensures
            r is Some <==> values@.len() == dims_product(dimensions@),
            r matches Some(t) ==> t.spec_dimensions() == dimensions@ && t.values_view()
                == values.deep_view() && t.wf(),
    {
        let ghost dv = values.deep_view();
        match DenseTensor::new(dimensions, values) {
            Some(t) => {
                assert(t.values_view() =~= dv);
                Some(t)
            },
            None => None,
        }
    }

    /// Tensors with the same values have the same views of them.
    pub proof fn lemma_values_view_eq(a: &Self, b: &Self)
        requires
            a.spec_values() == b.spec_values(),
        ensures
            a.values_view() == b.values_view(),
    {
    }

    pub proof fn lemma_values_view(&self)
        ensures
            self.values_view() == Seq::new(
                self.spec_values().len(),
                |i: int| self.spec_values()[i].deep_view(),
            ),
    {
    }
}

/// A named binding of a frame column to a port of an operator.
#[derive(Debug, PartialEq)]
pub struct Socket {
    name: String,
    port: String,
}

impl View for Socket {
    /// The socket's name and port.
    type V = (Seq<char>, Seq<char>);

    closed spec fn view(&self) -> (Seq<char>, Seq<char>) {
        (self.name@, self.port@)
    }
}

impl DeepView for Socket {
    type V = (Seq<char>, Seq<char>);

    open spec fn deep_view(&self) -> (Seq<char>, Seq<char>) {
        self@
    }
}

impl Socket {
    pub fn new(name: String, port: String) -> (r: Socket)
        ensures
            r@ == (name@, port@),
    {
        Socket { name, port }
    }

    pub fn name(&self) -> (r: &str)
        ensures
            r@ == self@.0,
    {
        self.name.as_str()
    }

    pub fn port(&self) -> (r: &str)
        ensures
            r@ == self@.1,
    {
        self.port.as_str()
    }

    pub fn copy(&self) -> (r: Socket)
        ensures
            r@ == self@,
    {
        Socket { name: self.name.clone(), port: self.port.clone() }
    }
}

/// `i` is the first position of `s` whose socket has port `port`.
pub open spec fn first_port(s: Seq<Socket>, port: Seq<char>, i: int) -> bool {
    0 <= i < s.len() && s[i]@.1 == port && forall|j: int| 0 <= j < i ==> s[j]@.1 != port
}

/// No socket of `s` has port `port`.
pub open spec fn no_port(s: Seq<Socket>, port: Seq<char>) -> bool {
    forall|j: int| 0 <= j < s.len() ==> s[j]@.1 != port
}

/// Finds the first socket of `s` with the given port.
fn find_port<'a>(s: &'a Vec<Socket>, port: &str) -> (r: Option<&'a Socket>)
    ensures
        r is None <==> no_port(s@, port@),
        r matches Some(x) ==> exists|i: int| first_port(s@, port@, i) && *x == s@[i],
{
    let mut i: usize = 0;
    while i < s.len()
        invariant
            i <= s@.len(),
            forall|j: int| 0 <= j < i ==> s@[j]@.1 != port@,
        decreases s@.len() - i,
    {
        if str_eq(s[i].port(), port) {
            assert(first_port(s@, port@, i as int));
            return Some(&s[i]);
        }
        i += 1;
    }
    None
}

/// The input and output sockets of a node.
pub struct Shape {
    inputs: Vec<Socket>,
    outputs: Vec<Socket>,
}

impl Shape {
    pub closed spec fn spec_inputs(&self) -> Seq<Socket> {
        self.inputs@
    }

    pub closed spec fn spec_outputs(&self) -> Seq<Socket> {
        self.outputs@
    }

    pub fn new(inputs: Vec<Socket>, outputs: Vec<Socket>) -> (r: Shape)
        ensures
            r.spec_inputs() == inputs@,
            r.spec_outputs() == outputs@,
    {
        Shape { inputs, outputs }
    }

    pub fn empty() -> (r: Shape)
        ensures
            r.spec_inputs().len() == 0,
            r.spec_outputs().len() == 0,
    {
        Shape { inputs: Vec::new(), outputs: Vec::new() }
    }

    /// One input on port `input` and one output on port `output`.
    pub fn with_standard_io(input: String, output: String) -> (r: Shape)
        ensures
            r.spec_inputs().len() == 1,
            r.spec_inputs()[0]@ == (input@, "input"@),
            r.spec_outputs().len() == 1,
            r.spec_outputs()[0]@ == (output@, "output"@),
    {
        let mut inputs: Vec<Socket> = Vec::new();
        inputs.push(Socket::new(input, owned("input")));
        let mut outputs: Vec<Socket> = Vec::new();
        outputs.push(Socket::new(output, owned("output")));
        Shape { inputs, outputs }
    }

    pub fn inputs(&self) -> (r: &[Socket])
        ensures
            r@ == self.spec_inputs(),
    {
        self.inputs.as_slice()
    }

    pub fn outputs(&self) -> (r: &[Socket])
        ensures
            r@ == self.spec_outputs(),
    {
        self.outputs.as_slice()
    }

    /// The sockets on the ports `input` and `output`.
    pub fn get_standard_io(&self) -> (r: Option<(&Socket, &Socket)>)
        ensures
            r is None <==> no_port(self.spec_inputs(), "input"@) || no_port(
                self.spec_outputs(),
                "output"@,
            ),
            r matches Some((i, o)) ==> (exists|k: int|
                first_port(self.spec_inputs(), "input"@, k) && *i == self.spec_inputs()[k]) && (
            exists|k: int| first_port(self.spec_outputs(), "output"@, k) && *o
                == self.spec_outputs()[k]),
    {
        self.get_io("input", "output")
    }

    /// The first input socket on port `input` and the first output socket on
    /// port `output`, when both exist.
    pub fn get_io(&self, input: &str, output: &str) -> (r: Option<(&Socket, &Socket)>)
        ensures
            r is None <==> no_port(self.spec_inputs(), input@) || no_port(
                self.spec_outputs(),
                output@,
            ),
            r matches Some((i, o)) ==> (exists|k: int|
                first_port(self.spec_inputs(), input@, k) && *i == self.spec_inputs()[k]) && (
            exists|k: int| first_port(self.spec_outputs(), output@, k) && *o
                == self.spec_outputs()[k]),
    {
        match find_port(&self.inputs, input) {
            None => None,
            Some(i) => match find_port(&self.outputs, output) {
                None => None,
                Some(o) => Some((i, o)),
            },
        }
    }

    /// The first output socket on the given port.
    pub fn get_output(&self, port: &str) -> (r: Option<&Socket>)
        ensures
            r is None <==> no_port(self.spec_outputs(), port@),
            r matches Some(x) ==> exists|k: int|
                first_port(self.spec_outputs(), port@, k) && *x == self.spec_outputs()[k],
    {
        let r = find_port(&self.outputs, port);
        assert(self.spec_outputs() == self.outputs@);
        r
    }
}

impl View for Shape {
    /// Names and ports of the inputs, then of the outputs.
    type V = (Seq<(Seq<char>, Seq<char>)>, Seq<(Seq<char>, Seq<char>)>);

    open spec fn view(&self) -> Self::V {
        (
            self.spec_inputs().map_values(|s: Socket| s@),
            self.spec_outputs().map_values(|s: Socket| s@),
        )
    }
}

/// An operator's name within its scope and its shape.
pub struct Node {
    name: String,
    shape: Shape,
}

impl View for Node {
    type V = (Seq<char>, <Shape as View>::V);

    closed spec fn view(&self) -> Self::V {
        (self.name@, self.shape@)
    }
}

impl Node {
    pub closed spec fn spec_shape(&self) -> Shape {
        self.shape
    }

    pub fn new(name: String, shape: Shape) -> (r: Node)
        ensures
            r@ == (name@, shape@),
            r.spec_shape() == shape,
    {
        Node { name, shape }
    }

    pub fn name(&self) -> (r: &str)
        ensures
            r@ == self@.0,
    {
        self.name.as_str()
    }

    pub fn shape(&self) -> (r: &Shape)
        ensures
            *r == self.spec_shape(),
            r@ == self@.1,
    {
        &self.shape
    }
}

#[derive(Clone, Copy, Debug, PartialEq, Eq, Structural)]
pub enum ConcreteFormat {
    Json,
    Proto,
}

/// The wire format of a bundle.
#[derive(Clone, Copy, Debug, PartialEq, Eq, Structural)]
pub enum Format {
    Concrete(ConcreteFormat),
    Mixed,
}

/// A semantic version, held as its text.
pub struct Version {
    text: String,
}

impl Version {
    pub closed spec fn spec_text(&self) -> Seq<char> {
        self.text@
    }

    /// The text is a semantic version.
    #[verifier::type_invariant]
    spec fn inv(&self) -> bool {
        semver_parses(self.text@)
    }

    /// The version a text stands for; `None` when it is not one.
    pub fn parse(s: &str) -> (r: Option<Version>)
        ensures
            r is Some <==> semver_parses(s@),
            r matches Some(v) ==> v.spec_text() == s@,
    {
        if semver_accepts(s) {
            Some(Version { text: owned(s) })
        } else {
            None
        }
    }

    pub fn as_str(&self) -> (r: &str)
        ensures
            r@ == self.spec_text(),
            semver_parses(r@),
    {
        proof {
            use_type_invariant(self);
        }
        self.text.as_str()
    }
}

/// The envelope of a serialized bundle: a unique identifier (the 128 bits
/// of a UUID), a name, a format and a version.
pub struct Bundle {
    uid: u128,
    name: String,
    format: Format,
    version: Version,
}

impl Bundle {
    pub closed spec fn spec_name(&self) -> Seq<char> {
        self.name@
    }

    pub closed spec fn spec_format(&self) -> Format {
        self.format
    }

    pub closed spec fn spec_uid(&self) -> u128 {
        self.uid
    }

    pub closed spec fn spec_version(&self) -> Seq<char> {
        self.version.spec_text()
    }

    /// Name, format, uid and version text.
    pub open spec fn spec_view(&self) -> (Seq<char>, Format, u128, Seq<char>) {
        (self.spec_name(), self.spec_format(), self.spec_uid(), self.spec_version())
    }

    pub fn new(uid: u128, name: String, format: Format, version: Version) -> (r: Bundle)
        ensures
            r.spec_name() == name@,
            r.spec_format() == format,
            r.spec_uid() == uid,
            r.spec_version() == version.spec_text(),
    {
        Bundle { uid, name, format, version }
    }

    pub fn uid(&self) -> (r: u128)
        ensures
            r == self.spec_uid(),
    {
        self.uid
    }

    pub fn name(&self) -> (r: &str)
        ensures
            r@ == self.spec_name(),
    {
        self.name.as_str()
    }

    pub fn format(&self) -> (r: &Format)
        ensures
            *r == self.spec_format(),
    {
        &self.format
    }

    pub fn version(&self) -> (r: &Version)
        ensures
            r.spec_text() == self.spec_version(),
    {
        &self.version
    }
}

/// A scalar attribute value.
#[derive(Debug, PartialEq)]
pub enum BasicValue {
    Bool(bool),
    String(String),
    Byte(i8),
    Short(i16),
    Int(i32),
    Long(i64),
    Float(u32),
    Double(u64),
    ByteString(Vec<u8>),
}

/// A homogeneous list of attribute values.
#[derive(Debug, PartialEq)]
pub enum VectorValue {
    Bool(Vec<bool>),
    String(Vec<String>),
    Byte(Vec<i8>),
    Short(Vec<i16>),
    Int(Vec<i32>),
    Long(Vec<i64>),
    Float(Vec<u32>),
    Double(Vec<u64>),
    ByteString(Vec<Vec<u8>>),
}

/// A homogeneous dense tensor of attribute values.
#[derive(Debug, PartialEq)]
pub enum TensorValue {
    Bool(DenseTensor<bool>),
    String(DenseTensor<String>),
    Byte(DenseTensor<i8>),
    Short(DenseTensor<i16>),
    Int(DenseTensor<i32>),
    Long(DenseTensor<i64>),
    Float(DenseTensor<u32>),
    Double(DenseTensor<u64>),
    ByteString(DenseTensor<Vec<u8>>),
}

/// A typed configuration value of a model.
#[derive(Debug, PartialEq)]
pub enum Attribute {
    Basic(BasicValue),
    Array(VectorValue),
    Tensor(TensorValue),
}

/// The mathematical value of a scalar.
pub enum BasicModel {
    Bool(bool),
    String(Seq<char>),
    Byte(i8),
    Short(i16),
    Int(i32),
    Long(i64),
    Float(u32),
    Double(u64),
    ByteString(Seq<u8>),
}

/// The mathematical value of a homogeneous list.
pub enum VectorModel {
    Bool(Seq<bool>),
    String(Seq<Seq<char>>),
    Byte(Seq<i8>),
    Short(Seq<i16>),
    Int(Seq<i32>),
    Long(Seq<i64>),
    Float(Seq<u32>),
    Double(Seq<u64>),
    ByteString(Seq<Seq<u8>>),
}

/// The mathematical value of an attribute; a tensor is its dimensions and
/// its row-major values.
pub enum AttributeModel {
    Basic(BasicModel),
    Array(VectorModel),
    Tensor(Seq<usize>, VectorModel),
}

impl DeepView for BasicValue {
    type V = BasicModel;

    open spec fn deep_view(&self) -> BasicModel {
        match self {
            BasicValue::Bool(v) => BasicModel::Bool(*v),
            BasicValue::String(v) => BasicModel::String(v@),
            BasicValue::Byte(v) => BasicModel::Byte(*v),
            BasicValue::Short(v) => BasicModel::Short(*v),
            BasicValue::Int(v) => BasicModel::Int(*v),
            BasicValue::Long(v) => BasicModel::Long(*v),
            BasicValue::Float(v) => BasicModel::Float(*v),
            BasicValue::Double(v) => BasicModel::Double(*v),
            BasicValue::ByteString(v) => BasicModel::ByteString(v.deep_view()),
        }
    }
}

impl DeepView for VectorValue {
    type V = VectorModel;

    open spec fn deep_view(&self) -> VectorModel {
        match self {
            VectorValue::Bool(v) => VectorModel::Bool(v.deep_view()),
            VectorValue::String(v) => VectorModel::String(v.deep_view()),
            VectorValue::Byte(v) => VectorModel::Byte(v.deep_view()),
            VectorValue::Short(v) => VectorModel::Short(v.deep_view()),
            VectorValue::Int(v) => VectorModel::Int(v.deep_view()),
            VectorValue::Long(v) => VectorModel::Long(v.deep_view()),
            VectorValue::Float(v) => VectorModel::Float(v.deep_view()),
            VectorValue::Double(v) => VectorModel::Double(v.deep_view()),
            VectorValue::ByteString(v) => VectorModel::ByteString(v.deep_view()),
        }
    }
}

impl TensorValue {
    pub open spec fn spec_dimensions(&self) -> Seq<usize> {
        match self {
            TensorValue::Bool(t) => t.spec_dimensions(),
            TensorValue::String(t) => t.spec_dimensions(),
            TensorValue::Byte(t) => t.spec_dimensions(),
            TensorValue::Short(t) => t.spec_dimensions(),
            TensorValue::Int(t) => t.spec_dimensions(),
            TensorValue::Long(t) => t.spec_dimensions(),
            TensorValue::Float(t) => t.spec_dimensions(),
            TensorValue::Double(t) => t.spec_dimensions(),
            TensorValue::ByteString(t) => t.spec_dimensions(),
        }
    }

    /// The values of the tensor, as a list of the same kind.
    pub open spec fn values_model(&self) -> VectorModel {
        match self {
            TensorValue::Bool(t) => VectorModel::Bool(t.values_view()),
            TensorValue::String(t) => VectorModel::String(t.values_view()),
            TensorValue::Byte(t) => VectorModel::Byte(t.values_view()),
            TensorValue::Short(t) => VectorModel::Short(t.values_view()),
            TensorValue::Int(t) => VectorModel::Int(t.values_view()),
            TensorValue::Long(t) => VectorModel::Long(t.values_view()),
            TensorValue::Float(t) => VectorModel::Float(t.values_view()),
            TensorValue::Double(t) => VectorModel::Double(t.values_view()),
            TensorValue::ByteString(t) => VectorModel::ByteString(t.values_view()),
        }
    }
}

impl DeepView for Attribute {
    type V = AttributeModel;

    open spec fn deep_view(&self) -> AttributeModel {
        match self {
            Attribute::Basic(b) => AttributeModel::Basic(b.deep_view()),
            Attribute::Array(v) => AttributeModel::Array(v.deep_view()),
            Attribute::Tensor(t) => AttributeModel::Tensor(t.spec_dimensions(), t.values_model()),
        }
    }
}

/// Number of values in a list.
pub open spec fn vector_len(v: VectorModel) -> nat {
    match v {
        VectorModel::Bool(s) => s.len(),
        VectorModel::String(s) => s.len(),
        VectorModel::Byte(s) => s.len(),
        VectorModel::Short(s) => s.len(),
        VectorModel::Int(s) => s.len(),
        VectorModel::Long(s) => s.len(),
        VectorModel::Float(s) => s.len(),
        VectorModel::Double(s) => s.len(),
        VectorModel::ByteString(s) => s.len(),
    }
}

/// An attribute whose tensor, if any, has as many values as its dimensions
/// call for.
pub open spec fn attribute_wf(a: AttributeModel) -> bool {
    match a {
        AttributeModel::Tensor(d, v) => vector_len(v) == dims_product(d),
        _ => true,
    }
}

/// The last binding of `k` in a list of named attributes.
pub open spec fn lookup_attr(s: Seq<(Seq<char>, AttributeModel)>, k: Seq<char>) -> Option<
    AttributeModel,
>
    decreases s.len(),
{
    if s.len() == 0 {
        None
    } else if s.last().0 == k {
        Some(s.last().1)
    } else {
        lookup_attr(s.drop_last(), k)
    }
}

/// The map that binds each name to its last value in a list of named
/// attributes.
pub open spec fn attr_seq_map(s: Seq<(Seq<char>, AttributeModel)>) -> Map<Seq<char>, AttributeModel> {
    Map::new(|k: Seq<char>| lookup_attr(s, k) is Some, |k: Seq<char>| lookup_attr(s, k)->0)
}

/// Binding one more name replaces its earlier value.
pub proof fn lemma_attr_seq_map_push(s: Seq<(Seq<char>, AttributeModel)>, e: (Seq<char>, AttributeModel))
    ensures
        attr_seq_map(s.push(e)) == attr_seq_map(s).insert(e.0, e.1),
{
    assert(s.push(e).drop_last() =~= s);
    assert(attr_seq_map(s.push(e)) =~= attr_seq_map(s).insert(e.0, e.1));
}

/// No two entries share a name.
pub open spec fn keys_unique(s: Seq<(Seq<char>, AttributeModel)>) -> bool {
    forall|i: int, j: int| 0 <= i < j < s.len() ==> s[i].0 != s[j].0
}

/// The operator kind identifier and the named attributes of an operator.
pub struct Model {
    op: String,
    attributes: Vec<(String, Attribute)>,
}

impl View for Model {
    /// The operator name and the attributes in the order they were set.
    type V = (Seq<char>, Seq<(Seq<char>, AttributeModel)>);

    closed spec fn view(&self) -> Self::V {
        (self.op@, self.attributes.deep_view())
    }
}

impl Model {
    /// Attribute names are unique and every tensor is well formed.
    pub open spec fn wf(&self) -> bool {
        keys_unique(self@.1) && forall|i: int|
            0 <= i < self@.1.len() ==> attribute_wf(#[trigger] self@.1[i].1)
    }

    /// The attributes as a map from name to value.
    pub open spec fn attribute_map(&self) -> Map<Seq<char>, AttributeModel> {
        attr_seq_map(self@.1)
    }

    /// A model for the given operator with no attributes.
    pub fn new(op: String) -> (r: Model)
        ensures
            r@ == (op@, Seq::<(Seq<char>, AttributeModel)>::empty()),
            r.wf(),
    {
        let r = Model { op, attributes: Vec::new() };
        assert(r@.1 =~= Seq::<(Seq<char>, AttributeModel)>::empty());
        r
    }

    pub fn op(&self) -> (r: &str)
        ensures
            r@ == self@.0,
    {
        self.op.as_str()
    }

    pub fn attributes(&self) -> (r: &[(String, Attribute)])
        ensures
            r@.len() == self@.1.len(),
            forall|i: int| 0 <= i < r@.len() ==> (#[trigger] r@[i]).deep_view() == self@.1[i],
    {
        self.attributes.as_slice()
    }

    /// Position of the attribute named `name`.
    fn position(&self, name: &str) -> (r: Option<usize>)
        ensures
            r matches Some(i) ==> i < self@.1.len() && self@.1[i as int].0 == name@ && (forall|j: int|
                i < j < self@.1.len() ==> self@.1[j].0 != name@),
            r is None ==> forall|j: int| 0 <= j < self@.1.len() ==> self@.1[j].0 != name@,
    {
        let mut i: usize = self.attributes.len();
        while i > 0
            invariant
                i <= self@.1.len(),
                self@.1.len() == self.attributes@.len(),
                forall|j: int| i <= j < self@.1.len() ==> self@.1[j].0 != name@,
            decreases i,
        {
            if str_eq(self.attributes[i - 1].0.as_str(), name) {
                return Some(i - 1);
            }
            i -= 1;
        }
        None
    }

    /// Sets the attribute `name`, replacing an earlier value of that name.
    pub fn with_attr(&mut self, name: &str, attr: Attribute)
        requires
            old(self).wf(),
            attribute_wf(attr.deep_view()),
        ensures
            final(self).wf(),
            final(self)@.0 == old(self)@.0,
            final(self).attribute_map() == old(self).attribute_map().insert(name@, attr.deep_view()),
    {
        let ghost a = attr.deep_view();
        let ghost olds = self@.1;
        match self.position(name) {
            Some(i) => {
                self.attributes.set(i, (owned(name), attr));
                proof {
                    let news = self@.1;
                    assert(news =~= olds.update(i as int, (name@, a)));
                    lemma_lookup_update(olds, i as int, name@, a);
                }
            },
            None => {
                self.attributes.push((owned(name), attr));
                proof {
                    let news = self@.1;
                    assert(news =~= olds.push((name@, a)));
                    assert(news.drop_last() =~= olds);
                    assert forall|k: Seq<char>| lookup_attr(news, k) == (if k == name@ { Some(a) } else { lookup_attr(olds, k) }) by {
                    }
                }
            },
        }
        proof {
            assert(self.attribute_map() =~= old(self).attribute_map().insert(name@, a));
        }
    }

    /// The attribute named `name`.
    pub fn get_attr(&self, name: &str) -> (r: Option<&Attribute>)
        requires
            self.wf(),
        ensures
            r is Some <==> self.attribute_map().contains_key(name@),
            r matches Some(a) ==> a.deep_view() == self.attribute_map()[name@] && attribute_wf(
                a.deep_view(),
            ),
    {
        match self.position(name) {
            Some(i) => {
                proof { lemma_lookup_at(self@.1, i as int, name@); }
                Some(&self.attributes[i].1)
            },
            None => {
                proof { lemma_lookup_absent(self@.1, name@); }
                None
            },
        }
    }

    /// The attribute named `name` when it is a double scalar.
    pub fn get_double(&self, name: &str) -> (r: Option<u64>)
        requires
            self.wf(),
        ensures
            r == (match lookup_attr(self@.1, name@) {
                Some(AttributeModel::Basic(BasicModel::Double(v))) => Some(v),
                _ => None,
            }),
    {
        match self.get_attr(name) {
            Some(Attribute::Basic(BasicValue::Double(v))) => Some(*v),
            _ => None,
        }
    }

    /// The attribute named `name` when it is a long scalar.
    pub fn get_long(&self, name: &str) -> (r: Option<i64>)
        requires
            self.wf(),
        ensures
            r == (match lookup_attr(self@.1, name@) {
                Some(AttributeModel::Basic(BasicModel::Long(v))) => Some(v),
                _ => None,
            }),
    {
        match self.get_attr(name) {
            Some(Attribute::Basic(BasicValue::Long(v))) => Some(*v),
            _ => None,
        }
    }

    /// The attribute named `name` when it is a double tensor.
    pub fn get_double_tensor(&self, name: &str) -> (r: Option<&DenseTensor<u64>>)
        requires
            self.wf(),
        ensures
            r is Some <==> lookup_attr(self@.1, name@) matches Some(
                AttributeModel::Tensor(_, VectorModel::Double(_)),
            ),
            r matches Some(t) ==> lookup_attr(self@.1, name@) == Some(
                AttributeModel::Tensor(t.spec_dimensions(), VectorModel::Double(t.values_view())),
            ) && t.wf(),
    {
        match self.get_attr(name) {
            Some(Attribute::Tensor(TensorValue::Double(t))) => {
                assert(t.values_view().len() == t.spec_values().len());
                Some(t)
            },
            _ => None,
        }
    }

    /// The attribute named `name` when it is a list of strings.
    pub fn get_string_vector(&self, name: &str) -> (r: Option<&[String]>)
        requires
            self.wf(),
        ensures
            r is Some <==> lookup_attr(self@.1, name@) matches Some(
                AttributeModel::Array(VectorModel::String(_)),
            ),
            r matches Some(v) ==> lookup_attr(self@.1, name@) == Some(
                AttributeModel::Array(VectorModel::String(v.deep_view())),
            ),
    {
        match self.get_attr(name) {
            Some(Attribute::Array(VectorValue::String(v))) => Some(v.as_slice()),
            _ => None,
        }
    }
}

proof fn lemma_lookup_absent(s: Seq<(Seq<char>, AttributeModel)>, k: Seq<char>)
    requires
        forall|j: int| 0 <= j < s.len() ==> s[j].0 != k,
    ensures
        lookup_attr(s, k) is None,
    decreases s.len(),
{
    if s.len() > 0 {
        lemma_lookup_absent(s.drop_last(), k);
    }
}

proof fn lemma_lookup_at(s: Seq<(Seq<char>, AttributeModel)>, i: int, k: Seq<char>)
    requires
        0 <= i < s.len(),
        s[i].0 == k,
        forall|j: int| i < j < s.len() ==> s[j].0 != k,
    ensures
        lookup_attr(s, k) == Some(s[i].1),
    decreases s.len(),
{
    if i < s.len() - 1 {
        lemma_lookup_at(s.drop_last(), i, k);
    }
}

proof fn lemma_lookup_update(
    s: Seq<(Seq<char>, AttributeModel)>,
    i: int,
    k: Seq<char>,
    a: AttributeModel,
)
    requires
        0 <= i < s.len(),
        s[i].0 == k,
        keys_unique(s),
    ensures
        forall|q: Seq<char>|
            lookup_attr(#[trigger] s.update(i, (k, a)), q) == (if q == k {
                Some(a)
            } else {
                lookup_attr(s, q)
            }),
    decreases s.len(),
{
    assert forall|q: Seq<char>|
        lookup_attr(#[trigger] s.update(i, (k, a)), q) == (if q == k {
            Some(a)
        } else {
            lookup_attr(s, q)
        }) by {
        let t = s.update(i, (k, a));
        if q == k {
            lemma_lookup_at(t, i, k);
        } else {
            lemma_lookup_other(s, i, k, a, q);
        }
    }
}

proof fn lemma_lookup_other(
    s: Seq<(Seq<char>, AttributeModel)>,
    i: int,
    k: Seq<char>,
    a: AttributeModel,
    q: Seq<char>,
)
    requires
        0 <= i < s.len(),
        s[i].0 == k,
        q != k,
    ensures
        lookup_attr(s.update(i, (k, a)), q) == lookup_attr(s, q),
    decreases s.len(),
{
    let t = s.update(i, (k, a));
    if i < s.len() - 1 {
        assert(t.drop_last() =~= s.drop_last().update(i, (k, a)));
        assert(t.last() == s.last());
        lemma_lookup_other(s.drop_last(), i, k, a, q);
    } else {
        assert(t.drop_last() =~= s.drop_last());
    }
}

} // verus!
