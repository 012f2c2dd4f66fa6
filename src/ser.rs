//! The operator registry and the recursive bundle read/write protocol over
//! a hierarchical store of JSON documents.

use vstd::prelude::*;
use crate::util::{str_eq, owned, copy_strings};
use crate::dsl::{
    Attribute, BasicValue, VectorValue, TensorValue, Model, Node, Bundle, AttributeModel,
    BasicModel, VectorModel, lookup_attr, attr_seq_map, DenseTensor, Shape, Socket,
    first_port, no_port,
};
use crate::json::{
    self, Json, model_to_json, model_from_json, node_to_json, node_from_json, bundle_to_json,
    bundle_from_json,
};
use crate::tform::{
    DefaultNode, StringIndexer, StringIndexerModel, OneHotEncoder, OneHotEncoderModel,
    VectorAssembler, VectorAssemblerModel, StandardScaler, StandardScalerModel, LinearRegression,
    LinearRegressionModel, Pipeline, PipelineModel, input_port,
};

verus! {

/// A failure to store or load a bundle.
#[derive(Debug)]
pub enum Error {
    IoError(String),
    JsonError(json::Error),
    DowncastError(String),
    InvalidOp(String),
    InvalidModel(String),
}

pub type Result<T> = core::result::Result<T, Error>;

/// The codec of one kind of operator.
#[derive(Clone, Copy, Debug, PartialEq, Eq, Structural)]
pub enum Op {
    StringIndexer,
    OneHotEncoder,
    VectorAssembler,
    StandardScaler,
    LinearRegression,
    Pipeline,
}

/// The model of an operator while it is loaded, before its node is built.
pub enum OpModel {
    StringIndexer(StringIndexerModel),
    OneHotEncoder(OneHotEncoderModel),
    VectorAssembler(VectorAssemblerModel),
    StandardScaler(StandardScalerModel),
    LinearRegression(LinearRegressionModel),
    Pipeline(PipelineModel),
}

/// The kind of operator that a node is.
pub open spec fn kind_of(node: DefaultNode) -> Op {
    match node {
        DefaultNode::StringIndexer(_) => Op::StringIndexer,
        DefaultNode::OneHotEncoder(_) => Op::OneHotEncoder,
        DefaultNode::VectorAssembler(_) => Op::VectorAssembler,
        DefaultNode::StandardScaler(_) => Op::StandardScaler,
        DefaultNode::LinearRegression(_) => Op::LinearRegression,
        DefaultNode::Pipeline(_) => Op::Pipeline,
    }
}

/// The kind of operator whose codec loads a model.
pub open spec fn model_kind(m: OpModel) -> Op {
    match m {
        OpModel::StringIndexer(_) => Op::StringIndexer,
        OpModel::OneHotEncoder(_) => Op::OneHotEncoder,
        OpModel::VectorAssembler(_) => Op::VectorAssembler,
        OpModel::StandardScaler(_) => Op::StandardScaler,
        OpModel::LinearRegression(_) => Op::LinearRegression,
        OpModel::Pipeline(_) => Op::Pipeline,
    }
}

impl Op {
    /// The name under which models of this kind are stored.
    pub open spec fn spec_name(self) -> Seq<char> {
        match self {
            Op::StringIndexer => "string_indexer"@,
            Op::OneHotEncoder => "one_hot_encoder"@,
            Op::VectorAssembler => "vector_assembler"@,
            Op::StandardScaler => "standard_scaler"@,
            Op::LinearRegression => "linear_regression"@,
            Op::Pipeline => "pipeline"@,
        }
    }

    pub fn op(&self) -> (r: &'static str)
        ensures
            r@ == self.spec_name(),
    {
        match self {
            Op::StringIndexer => "string_indexer",
            Op::OneHotEncoder => "one_hot_encoder",
            Op::VectorAssembler => "vector_assembler",
            Op::StandardScaler => "standard_scaler",
            Op::LinearRegression => "linear_regression",
            Op::Pipeline => "pipeline",
        }
    }

    /// The kind of operator that a node is.
    pub fn of_node(node: &DefaultNode) -> (r: Op)
        ensures
            r == kind_of(*node),
    {
        match node {
            DefaultNode::StringIndexer(_) => Op::StringIndexer,
            DefaultNode::OneHotEncoder(_) => Op::OneHotEncoder,
            DefaultNode::VectorAssembler(_) => Op::VectorAssembler,
            DefaultNode::StandardScaler(_) => Op::StandardScaler,
            DefaultNode::LinearRegression(_) => Op::LinearRegression,
            DefaultNode::Pipeline(_) => Op::Pipeline,
        }
    }

    /// The node descriptor of a node.
    pub fn node(&self, node: &DefaultNode) -> (r: Node)
        ensures
            r@ == (node.spec_name(), node.spec_shape()),
    {
        node.create_node()
    }

    /// Rebuilds a node from its descriptor and its loaded model:
    /// `DowncastError` when the model is of another kind, `InvalidOp` when
    /// the descriptor lacks a socket the operator needs.
    pub fn load(&self, node: &Node, model: OpModel) -> (r: Result<DefaultNode>)
        ensures
            model_kind(model) != *self ==> (r matches Err(e) && e is DowncastError),
            model_kind(model) == *self ==> (r is Ok <==> loaded_columns(*self, node@.1) is Some),
            r matches Ok(n) ==> kind_of(n) == *self && n.spec_name() == node@.0 && Some(node_columns(n))
                == loaded_columns(*self, node@.1) && node_model_view(n) == model_view(model),
            r matches Ok(n) ==> (n is Pipeline ==> model is Pipeline && n->Pipeline_0.model == model->Pipeline_0),
            r matches Err(e) ==> e is DowncastError || e is InvalidOp,
    {
        proof {
            lemma_port_name(node.spec_shape().spec_inputs(), "input"@);
            lemma_port_name(node.spec_shape().spec_outputs(), "output"@);
            lemma_port_name(node.spec_shape().spec_inputs(), "features"@);
            lemma_port_name(node.spec_shape().spec_outputs(), "prediction"@);
        }
        let name = owned(node.name());
        match (self, model) {
            (Op::StringIndexer, OpModel::StringIndexer(m)) => match node.shape().get_standard_io() {
                Some((i, o)) => Ok(
                    DefaultNode::StringIndexer(
                        StringIndexer {
                            name,
                            input_col: owned(i.name()),
                            output_col: owned(o.name()),
                            model: m,
                        },
                    ),
                ),
                None => Err(Error::InvalidOp(owned("a string indexer needs an input and an output"))),
            },
            (Op::OneHotEncoder, OpModel::OneHotEncoder(m)) => match node.shape().get_standard_io() {
                Some((i, o)) => Ok(
                    DefaultNode::OneHotEncoder(
                        OneHotEncoder {
                            name,
                            input_col: owned(i.name()),
                            output_col: owned(o.name()),
                            model: m,
                        },
                    ),
                ),
                None => Err(Error::InvalidOp(owned("a one-hot encoder needs an input and an output"))),
            },
            (Op::StandardScaler, OpModel::StandardScaler(m)) => match node.shape().get_standard_io() {
                Some((i, o)) => Ok(
                    DefaultNode::StandardScaler(
                        StandardScaler {
                            name,
                            input_col: owned(i.name()),
                            output_col: owned(o.name()),
                            model: m,
                        },
                    ),
                ),
                None => Err(Error::InvalidOp(owned("a standard scaler needs an input and an output"))),
            },
            (Op::LinearRegression, OpModel::LinearRegression(m)) => match node.shape().get_io(
                "features",
                "prediction",
            ) {
                Some((i, o)) => Ok(
                    DefaultNode::LinearRegression(
                        LinearRegression {
                            name,
                            features_col: owned(i.name()),
                            prediction_col: owned(o.name()),
                            model: m,
                        },
                    ),
                ),
                None => Err(
                    Error::InvalidOp(owned("a linear regression needs features and a prediction")),
                ),
            },
            (Op::VectorAssembler, OpModel::VectorAssembler(_)) => match node.shape().get_output(
                "output",
            ) {
                Some(o) => {
                    let inputs = node.shape().inputs();
                    let mut input_cols: Vec<String> = Vec::new();
                    let mut i: usize = 0;
                    while i < inputs.len()
                        invariant
                            i <= inputs@.len(),
                            input_cols@.len() == i,
                            forall|k: int| 0 <= k < i ==> (#[trigger] input_cols@[k])@ == inputs@[k]@.0,
                        decreases inputs@.len() - i,
                    {
                        input_cols.push(owned(inputs[i].name()));
                        i += 1;
                    }
                    assert(input_cols@.map_values(|c: String| c@) =~= node@.1.0.map_values(
                        |x: (Seq<char>, Seq<char>)| x.0,
                    ));
                    Ok(
                        DefaultNode::VectorAssembler(
                            VectorAssembler { name, input_cols, output_col: owned(o.name()) },
                        ),
                    )
                },
                None => Err(Error::InvalidOp(owned("a vector assembler needs an output"))),
            },
            (Op::Pipeline, OpModel::Pipeline(m)) => Ok(
                DefaultNode::Pipeline(Pipeline { name, model: m }),
            ),
            _ => Err(Error::DowncastError(owned("the model is of another operator"))),
        }
    }
}

/// A double tensor as its dimensions and values.
pub open spec fn tensor_view(t: DenseTensor<u64>) -> (Seq<usize>, Seq<u64>) {
    (t.spec_dimensions(), t.values_view())
}

/// The mathematical value of an operator's model.
pub enum ModelView {
    StringIndexer(Seq<Seq<char>>),
    OneHotEncoder(usize),
    VectorAssembler,
    StandardScaler(Option<(Seq<usize>, Seq<u64>)>, Option<(Seq<usize>, Seq<u64>)>),
    LinearRegression((Seq<usize>, Seq<u64>), u64),
    Pipeline(nat),
}

pub open spec fn opt_tensor_view(t: Option<DenseTensor<u64>>) -> Option<(Seq<usize>, Seq<u64>)> {
    match t {
        Some(t) => Some(tensor_view(t)),
        None => None,
    }
}

/// The model of a loaded operator; for a pipeline, its number of children.
pub open spec fn model_view(m: OpModel) -> ModelView {
    match m {
        OpModel::StringIndexer(m) => ModelView::StringIndexer(m.spec_labels()),
        OpModel::OneHotEncoder(m) => ModelView::OneHotEncoder(m.size),
        OpModel::VectorAssembler(_) => ModelView::VectorAssembler,
        OpModel::StandardScaler(m) => ModelView::StandardScaler(opt_tensor_view(m.mean), opt_tensor_view(m.std)),
        OpModel::LinearRegression(m) => ModelView::LinearRegression(tensor_view(m.coefficients), m.intercept),
        OpModel::Pipeline(m) => ModelView::Pipeline(m.children@.len()),
    }
}

/// The model that a node holds.
pub open spec fn node_model_view(n: DefaultNode) -> ModelView {
    match n {
        DefaultNode::StringIndexer(n) => ModelView::StringIndexer(n.model.spec_labels()),
        DefaultNode::OneHotEncoder(n) => ModelView::OneHotEncoder(n.model.size),
        DefaultNode::VectorAssembler(_) => ModelView::VectorAssembler,
        DefaultNode::StandardScaler(n) => ModelView::StandardScaler(
            opt_tensor_view(n.model.mean),
            opt_tensor_view(n.model.std),
        ),
        DefaultNode::LinearRegression(n) => ModelView::LinearRegression(
            tensor_view(n.model.coefficients),
            n.model.intercept,
        ),
        DefaultNode::Pipeline(p) => ModelView::Pipeline(p.model.children@.len()),
    }
}

pub open spec fn tensor_attr(t: (Seq<usize>, Seq<u64>)) -> AttributeModel {
    AttributeModel::Tensor(t.0, VectorModel::Double(t.1))
}

pub open spec fn with_opt(m: Map<Seq<char>, AttributeModel>, k: Seq<char>, t: Option<(Seq<usize>, Seq<u64>)>) -> Map<Seq<char>, AttributeModel> {
    match t {
        Some(t) => m.insert(k, tensor_attr(t)),
        None => m,
    }
}

/// The attributes that the codec of a node's kind writes for it; for a
/// pipeline, those besides its children.
pub open spec fn stored_attrs(n: DefaultNode) -> Map<Seq<char>, AttributeModel> {
    match n {
        DefaultNode::Pipeline(p) => map![
            "nodes"@ => AttributeModel::Array(VectorModel::String(child_names(p.model.children@))),
        ],
        _ => leaf_attrs(n),
    }
}

/// The names of some nodes, in order.
pub open spec fn child_names(cs: Seq<DefaultNode>) -> Seq<Seq<char>> {
    cs.map_values(|c: DefaultNode| c.spec_name())
}

/// The attributes that the codec of a kind other than a pipeline writes.
pub open spec fn leaf_attrs(n: DefaultNode) -> Map<Seq<char>, AttributeModel> {
    match node_model_view(n) {
        ModelView::StringIndexer(l) => map!["labels"@ => AttributeModel::Array(VectorModel::String(l))],
        ModelView::OneHotEncoder(size) => map!["size"@ => AttributeModel::Basic(BasicModel::Long(size as i64))],
        ModelView::VectorAssembler => Map::empty(),
        ModelView::StandardScaler(mean, std) => with_opt(with_opt(Map::empty(), "mean"@, mean), "std"@, std),
        ModelView::LinearRegression(c, i) => map![
            "intercept"@ => AttributeModel::Basic(BasicModel::Double(i)),
            "coefficients"@ => tensor_attr(c),
        ],
        ModelView::Pipeline(_) => Map::empty(),
    }
}

/// The attribute bound to `k`, if any.
pub open spec fn attr_at(attrs: Map<Seq<char>, AttributeModel>, k: Seq<char>) -> Option<AttributeModel> {
    if attrs.contains_key(k) {
        Some(attrs[k])
    } else {
        None
    }
}

pub open spec fn read_tensor_attr(a: Option<AttributeModel>) -> Option<(Seq<usize>, Seq<u64>)> {
    match a {
        Some(AttributeModel::Tensor(d, VectorModel::Double(v))) => Some((d, v)),
        _ => None,
    }
}

/// The model that the codec of a kind other than a pipeline reads from
/// attributes.
pub open spec fn read_model_attrs(op: Op, attrs: Map<Seq<char>, AttributeModel>) -> Option<ModelView> {
    match op {
        Op::StringIndexer => match attr_at(attrs, "labels"@) {
            Some(AttributeModel::Array(VectorModel::String(l))) => Some(ModelView::StringIndexer(l)),
            _ => None,
        },
        Op::OneHotEncoder => match attr_at(attrs, "size"@) {
            Some(AttributeModel::Basic(BasicModel::Long(i))) => Some(ModelView::OneHotEncoder(i as usize)),
            _ => None,
        },
        Op::VectorAssembler => Some(ModelView::VectorAssembler),
        Op::StandardScaler => Some(
            ModelView::StandardScaler(
                read_tensor_attr(attr_at(attrs, "mean"@)),
                read_tensor_attr(attr_at(attrs, "std"@)),
            ),
        ),
        Op::LinearRegression => match (attr_at(attrs, "intercept"@), read_tensor_attr(attr_at(attrs, "coefficients"@))) {
            (Some(AttributeModel::Basic(BasicModel::Double(i))), Some(c)) => Some(
                ModelView::LinearRegression(c, i),
            ),
            _ => None,
        },
        Op::Pipeline => None,
    }
}

proof fn lemma_attr_at(s: Seq<(Seq<char>, AttributeModel)>, k: Seq<char>)
    ensures
        attr_at(attr_seq_map(s), k) == lookup_attr(s, k),
{
}

proof fn lemma_attr_names()
    ensures
        "labels"@ != "size"@,
        "mean"@ != "std"@,
        "intercept"@ != "coefficients"@,
{
    reveal_strlit("labels");
    reveal_strlit("size");
    reveal_strlit("mean");
    reveal_strlit("std");
    reveal_strlit("intercept");
    reveal_strlit("coefficients");
    assert("labels"@.len() == 6);
    assert("size"@.len() == 4);
    assert("mean"@[0] == 'm');
    assert("std"@[0] == 's');
    assert("intercept"@.len() == 9);
    assert("coefficients"@.len() == 12);
}

/// The codec of every operator but a pipeline reads back, from the
/// attributes it writes, the model it wrote.
pub proof fn lemma_model_round_trip(n: DefaultNode)
    requires
        !(n is Pipeline),
    ensures
        read_model_attrs(kind_of(n), stored_attrs(n)) == Some(node_model_view(n)),
{
    lemma_attr_names();
    if let DefaultNode::OneHotEncoder(o) = n {
        let x = o.model.size;
        assert(((x as i64) as usize) == x) by (bit_vector);
    }
}

/// The name of the first socket on port `p`.
pub open spec fn port_name(s: Seq<(Seq<char>, Seq<char>)>, p: Seq<char>) -> Option<Seq<char>>
    decreases s.len(),
{
    if s.len() == 0 {
        None
    } else if s[0].1 == p {
        Some(s[0].0)
    } else {
        port_name(s.drop_first(), p)
    }
}

/// The input and the output columns of a node.
pub open spec fn node_columns(n: DefaultNode) -> (Seq<Seq<char>>, Seq<Seq<char>>) {
    match n {
        DefaultNode::StringIndexer(n) => (seq![n.input_col@], seq![n.output_col@]),
        DefaultNode::OneHotEncoder(n) => (seq![n.input_col@], seq![n.output_col@]),
        DefaultNode::StandardScaler(n) => (seq![n.input_col@], seq![n.output_col@]),
        DefaultNode::VectorAssembler(n) => (n.input_cols@.map_values(|c: String| c@), seq![n.output_col@]),
        DefaultNode::LinearRegression(n) => (seq![n.features_col@], seq![n.prediction_col@]),
        DefaultNode::Pipeline(_) => (Seq::empty(), Seq::empty()),
    }
}

pub open spec fn io_columns(shape: <Shape as View>::V, input: Seq<char>, output: Seq<char>) -> Option<
    (Seq<Seq<char>>, Seq<Seq<char>>),
> {
    match (port_name(shape.0, input), port_name(shape.1, output)) {
        (Some(i), Some(o)) => Some((seq![i], seq![o])),
        _ => None,
    }
}

/// The columns that the codec of a kind reads from a node's shape: the
/// sockets on ports `input` and `output`, `features` and `prediction` for
/// a linear regression, every input and the `output` socket for a vector
/// assembler.
pub open spec fn loaded_columns(op: Op, shape: <Shape as View>::V) -> Option<(Seq<Seq<char>>, Seq<Seq<char>>)> {
    match op {
        Op::StringIndexer => io_columns(shape, "input"@, "output"@),
        Op::OneHotEncoder => io_columns(shape, "input"@, "output"@),
        Op::StandardScaler => io_columns(shape, "input"@, "output"@),
        Op::LinearRegression => io_columns(shape, "features"@, "prediction"@),
        Op::VectorAssembler => match port_name(shape.1, "output"@) {
            Some(o) => Some((shape.0.map_values(|x: (Seq<char>, Seq<char>)| x.0), seq![o])),
            None => None,
        },
        Op::Pipeline => Some((Seq::empty(), Seq::empty())),
    }
}

proof fn lemma_port_name(s: Seq<Socket>, p: Seq<char>)
    ensures
        no_port(s, p) ==> port_name(s.map_values(|x: Socket| x@), p) is None,
        forall|k: int| first_port(s, p, k) ==> port_name(s.map_values(|x: Socket| x@), p) == Some(s[k]@.0),
    decreases s.len(),
{
    let m = s.map_values(|x: Socket| x@);
    if s.len() > 0 {
        lemma_port_name(s.drop_first(), p);
        assert(m.drop_first() =~= s.drop_first().map_values(|x: Socket| x@));
        assert forall|k: int| first_port(s, p, k) implies port_name(m, p) == Some(s[k]@.0) by {
            if k > 0 {
                assert(first_port(s.drop_first(), p, k - 1));
            }
        }
        if no_port(s, p) {
            assert(no_port(s.drop_first(), p));
        }
    }
}

/// Writing a node and reading it back gives the node its codec started
/// from: for every operator but a pipeline, the attributes its codec
/// writes read back as its model, and the shape of its descriptor reads
/// back as its columns.
pub proof fn lemma_node_round_trip(n: DefaultNode)
    requires
        !(n is Pipeline),
    ensures
        read_model_attrs(kind_of(n), stored_attrs(n)) == Some(node_model_view(n)),
        loaded_columns(kind_of(n), n.spec_shape()) == Some(node_columns(n)),
{
    lemma_model_round_trip(n);
    reveal_strlit("input");
    reveal_strlit("output");
    reveal_strlit("features");
    reveal_strlit("prediction");
    match n {
        DefaultNode::VectorAssembler(v) => {
            let ins = Seq::new(v.input_cols@.len(), |i: int| (v.input_cols@[i]@, input_port(i as nat)));
            assert(ins.map_values(|x: (Seq<char>, Seq<char>)| x.0) =~= v.input_cols@.map_values(|c: String| c@));
        },
        _ => {},
    }
}

/// The documents of a scope describe a node of kind `op` named `name`
/// with shape `shape` and attributes `attrs`.
pub open spec fn scope_node(
    docs: Seq<Doc>,
    path: Seq<Seq<char>>,
    ops: Set<Op>,
    op: Op,
    name: Seq<char>,
    shape: <Shape as View>::V,
    attrs: Map<Seq<char>, AttributeModel>,
) -> bool {
    &&& (lookup_doc(docs, (path, "model.json"@)) matches Some(mj) && json::read_model(mj) == Some(
        (op.spec_name(), attrs),
    ))
    &&& (lookup_doc(docs, (path, "node.json"@)) matches Some(nj) && json::read_node(nj) == Some((name, shape)))
    &&& ops.contains(op)
}

/// What the `model.json` of a scope reads as: an operator name and
/// attributes.
pub open spec fn scope_model(docs: Seq<Doc>, path: Seq<Seq<char>>) -> Option<(Seq<char>, Map<Seq<char>, AttributeModel>)> {
    match lookup_doc(docs, (path, "model.json"@)) {
        Some(mj) => json::read_model(mj),
        None => None,
    }
}

/// What the `node.json` of a scope reads as: a name and a shape.
pub open spec fn scope_desc(docs: Seq<Doc>, path: Seq<Seq<char>>) -> Option<<Node as View>::V> {
    match lookup_doc(docs, (path, "node.json"@)) {
        Some(nj) => json::read_node(nj),
        None => None,
    }
}

/// The documents of a scope hold a node that reads back, looking no deeper
/// than paths of length `depth`: a registered operator whose codec reads
/// the model and finds its columns in the descriptor, and for a pipeline,
/// children that read back from the scopes `<name>.node` of the names
/// under `nodes`.
pub open spec fn readable(docs: Seq<Doc>, path: Seq<Seq<char>>, ops: Set<Op>, depth: nat) -> bool
    decreases depth - path.len(),
{
    if path.len() < depth && path.len() + 2 < usize::MAX {
        match (scope_model(docs, path), scope_desc(docs, path)) {
            (Some((o, attrs)), Some((_, shape))) => match resolve(ops, o) {
                Some(op) => loaded_columns(op, shape) is Some && if op == Op::Pipeline {
                    match attr_at(attrs, "nodes"@) {
                        Some(AttributeModel::Array(VectorModel::String(names))) => forall|i: int|
                            0 <= i < names.len() ==> readable(
                                docs,
                                path.push(child_scope(#[trigger] names[i])),
                                ops,
                                depth,
                            ),
                        _ => false,
                    }
                } else {
                    read_model_attrs(op, attrs) is Some
                },
                None => false,
            },
            _ => false,
        }
    } else {
        false
    }
}

/// The children named under `nodes` all read back from their scopes.
pub open spec fn children_readable(
    docs: Seq<Doc>,
    path: Seq<Seq<char>>,
    ops: Set<Op>,
    depth: nat,
    attrs: Map<Seq<char>, AttributeModel>,
) -> bool {
    match attr_at(attrs, "nodes"@) {
        Some(AttributeModel::Array(VectorModel::String(names))) => path.len() < depth && path.len() + 2
            < usize::MAX && forall|i: int|
            0 <= i < names.len() ==> readable(docs, path.push(child_scope(#[trigger] names[i])), ops, depth),
        _ => false,
    }
}

proof fn lemma_child_readable(
    docs: Seq<Doc>,
    path: Seq<Seq<char>>,
    ops: Set<Op>,
    depth: nat,
    attrs: Map<Seq<char>, AttributeModel>,
    nv: Seq<Seq<char>>,
    i: int,
)
    requires
        attr_at(attrs, "nodes"@) == Some(AttributeModel::Array(VectorModel::String(nv))),
        0 <= i < nv.len(),
        children_readable(docs, path, ops, depth, attrs),
    ensures
        readable(docs, path.push(child_scope(nv[i])), ops, depth),
{
    let names = attr_at(attrs, "nodes"@)->Some_0->Array_0->String_0;
    assert(names == nv);
    assert(forall|j: int| 0 <= j < names.len() ==> readable(docs, path.push(child_scope(#[trigger] names[j])), ops, depth));
}

/// The documents of a scope name the kind, the name, the columns and,
/// but for a pipeline, the model of node `n`.
pub open spec fn scope_holds(docs: Seq<Doc>, path: Seq<Seq<char>>, n: DefaultNode) -> bool {
    &&& (lookup_doc(docs, (path, "model.json"@)) matches Some(mj) && (json::read_model(mj) matches Some(m) && m.0
        == kind_of(n).spec_name() && (!(n is Pipeline) ==> read_model_attrs(kind_of(n), m.1) == Some(
        node_model_view(n),
    ))))
    &&& (lookup_doc(docs, (path, "node.json"@)) matches Some(nj) && (json::read_node(nj) matches Some(d) && d.0
        == n.spec_name() && loaded_columns(kind_of(n), d.1) == Some(node_columns(n))))
}

/// The children of a pipeline read from a scope: as many as the names
/// under `nodes`, child `i` held by the scope `<name i>.node`.
pub open spec fn children_held(docs: Seq<Doc>, path: Seq<Seq<char>>, attrs: Map<Seq<char>, AttributeModel>, cs: Seq<DefaultNode>) -> bool {
    match attr_at(attrs, "nodes"@) {
        Some(AttributeModel::Array(VectorModel::String(names))) => cs.len() == names.len() && forall|i: int|
            0 <= i < cs.len() ==> scope_holds(docs, path.push(child_scope(names[i])), #[trigger] cs[i]),
        _ => false,
    }
}

/// A node other than a pipeline that was written in a scope reads back
/// from it.
pub proof fn lemma_written_leaf_readable(docs: Seq<Doc>, path: Seq<Seq<char>>, ops: Set<Op>, n: DefaultNode, depth: nat)
    requires
        !(n is Pipeline),
        path.len() < depth,
        path.len() + 2 < usize::MAX,
        ops.contains(kind_of(n)),
        scope_node(docs, path, ops, kind_of(n), n.spec_name(), n.spec_shape(), stored_attrs(n)),
    ensures
        readable(docs, path, ops, depth),
{
    lemma_node_round_trip(n);
    lemma_resolve(ops, kind_of(n), kind_of(n).spec_name());
    assert(stored_attrs(n) == leaf_attrs(n));
}

/// Two kinds of operators never share a name.
pub proof fn lemma_op_names_distinct(a: Op, b: Op)
    ensures
        a.spec_name() == b.spec_name() ==> a == b,
{
    reveal_strlit("string_indexer");
    reveal_strlit("one_hot_encoder");
    reveal_strlit("vector_assembler");
    reveal_strlit("standard_scaler");
    reveal_strlit("linear_regression");
    reveal_strlit("pipeline");
    if a.spec_name() == b.spec_name() && a != b {
        assert(a.spec_name().len() == b.spec_name().len());
        assert(a.spec_name()[0] == b.spec_name()[0]);
        assert(a.spec_name()[1] == b.spec_name()[1]);
        assert(a.spec_name()[2] == b.spec_name()[2]);
    }
}

/// The registered operator stored under `name`.
pub open spec fn resolve(ops: Set<Op>, name: Seq<char>) -> Option<Op> {
    if exists|o: Op| ops.contains(o) && o.spec_name() == name {
        Some(choose|o: Op| ops.contains(o) && o.spec_name() == name)
    } else {
        None
    }
}

/// Resolution by name is total and exact: a registered operator is found
/// under its own name, and a name that no registered operator has resolves
/// to nothing.
pub proof fn lemma_resolve(ops: Set<Op>, op: Op, name: Seq<char>)
    ensures
        resolve(ops.insert(op), op.spec_name()) == Some(op),
        ops.contains(op) ==> resolve(ops, op.spec_name()) == Some(op),
        (forall|o: Op| ops.contains(o) ==> o.spec_name() != name) ==> resolve(ops, name) is None,
{
    let s = ops.insert(op);
    assert(s.contains(op) && op.spec_name() == op.spec_name());
    let c = choose|o: Op| s.contains(o) && o.spec_name() == op.spec_name();
    lemma_op_names_distinct(c, op);
    if ops.contains(op) {
        let d = choose|o: Op| ops.contains(o) && o.spec_name() == op.spec_name();
        lemma_op_names_distinct(d, op);
    }
}

/// The operators known to a session, looked up by stored name when
/// loading and by the kind of a node when storing.
pub struct Registry {
    ops: Vec<Op>,
}

impl Registry {
    pub closed spec fn spec_ops(&self) -> Set<Op> {
        self.ops@.to_set()
    }

    pub fn new() -> (r: Registry)
        ensures
            r.spec_ops() == Set::<Op>::empty(),
    {
        let r = Registry { ops: Vec::new() };
        assert(r.spec_ops() =~= Set::<Op>::empty());
        r
    }

    pub fn insert_op(&mut self, op: Op)
        ensures
            final(self).spec_ops() == old(self).spec_ops().insert(op),
    {
        let mut i: usize = 0;
        while i < self.ops.len()
            invariant
                i <= self.ops@.len(),
                forall|j: int| 0 <= j < i ==> self.ops@[j] != op,
            decreases self.ops@.len() - i,
        {
            if self.ops[i] == op {
                assert(self.spec_ops() =~= self.spec_ops().insert(op)) by {
                    assert(self.ops@.contains(op));
                }
                return;
            }
            i += 1;
        }
        let ghost before = self.ops@;
        self.ops.push(op);
        proof {
            assert(self.ops@ =~= before.push(op));
            before.lemma_push_to_set_commute(op);
            assert(self.spec_ops() =~= before.to_set().insert(op));
        }
    }

    /// The registered operator stored under `name`.
    pub fn get_op_for_name(&self, name: &str) -> (r: Option<Op>)
        ensures
            r == resolve(self.spec_ops(), name@),
    {
        let mut i: usize = 0;
        while i < self.ops.len()
            invariant
                i <= self.ops@.len(),
                forall|j: int| 0 <= j < i ==> self.ops@[j].spec_name() != name@,
            decreases self.ops@.len() - i,
        {
            let op = self.ops[i];
            if str_eq(op.op(), name) {
                proof {
                    assert(self.ops@.contains(op));
                    lemma_resolve(self.spec_ops(), op, name@);
                }
                return Some(op);
            }
            i += 1;
        }
        proof {
            assert forall|o: Op| self.spec_ops().contains(o) implies o.spec_name() != name@ by {
                let k = choose|k: int| 0 <= k < self.ops@.len() && self.ops@[k] == o;
            }
            lemma_resolve(self.spec_ops(), Op::Pipeline, name@);
        }
        None
    }

    /// The registered operator for the kind of `node`.
    pub fn get_op_for_node(&self, node: &DefaultNode) -> (r: Option<Op>)
        ensures
            r is Some <==> self.spec_ops().contains(kind_of(*node)),
            r matches Some(op) ==> op == kind_of(*node),
    {
        let kind = Op::of_node(node);
        let mut i: usize = 0;
        while i < self.ops.len()
            invariant
                kind == kind_of(*node),
                i <= self.ops@.len(),
                forall|j: int| 0 <= j < i ==> self.ops@[j] != kind,
            decreases self.ops@.len() - i,
        {
            if self.ops[i] == kind {
                assert(self.ops@.contains(kind));
                return Some(kind);
            }
            i += 1;
        }
        assert(!self.ops@.contains(kind));
        None
    }

    /// The registered operator stored under `name`, or `InvalidOp`.
    pub fn try_op_for_name(&self, name: &str) -> (r: Result<Op>)
        ensures
            r is Ok <==> resolve(self.spec_ops(), name@) is Some,
            r matches Ok(op) ==> resolve(self.spec_ops(), name@) == Some(op),
            r matches Err(e) ==> e is InvalidOp,
    {
        match self.get_op_for_name(name) {
            Some(op) => Ok(op),
            None => Err(Error::InvalidOp(owned("no operator is registered under that name"))),
        }
    }

    /// The registered operator for the kind of `node`, or `InvalidOp`.
    pub fn try_op_for_node(&self, node: &DefaultNode) -> (r: Result<Op>)
        ensures
            r is Ok <==> self.spec_ops().contains(kind_of(*node)),
            r matches Ok(op) ==> op == kind_of(*node),
            r matches Err(e) ==> e is InvalidOp,
    {
        match self.get_op_for_node(node) {
            Some(op) => Ok(op),
            None => Err(Error::InvalidOp(owned("no operator is registered for that node"))),
        }
    }
}

/// The names of the scopes from the root down to a scope.
pub open spec fn path_view(p: Seq<String>) -> Seq<Seq<char>> {
    p.map_values(|s: String| s@)
}

fn path_eq(a: &[String], b: &[String]) -> (r: bool)
    ensures
        r == (path_view(a@) == path_view(b@)),
{
    if a.len() != b.len() {
        assert(path_view(a@).len() != path_view(b@).len());
        return false;
    }
    let mut i: usize = 0;
    while i < a.len()
        invariant
            a@.len() == b@.len(),
            i <= a@.len(),
            forall|j: int| 0 <= j < i ==> a@[j]@ == b@[j]@,
        decreases a@.len() - i,
    {
        if !str_eq(a[i].as_str(), b[i].as_str()) {
            assert(path_view(a@)[i as int] != path_view(b@)[i as int]);
            return false;
        }
        i += 1;
    }
    assert(path_view(a@) =~= path_view(b@));
    true
}

/// A document of a store, with its path and name.
pub type Doc = ((Seq<Seq<char>>, Seq<char>), Json);

/// `q` is a path strictly below the path `p`.
pub open spec fn below(p: Seq<Seq<char>>, q: Seq<Seq<char>>) -> bool {
    q.len() > p.len() && q.subrange(0, p.len() as int) == p
}

/// `after` is `before` with more documents, each written at `p` or below it
/// (strictly below when `strict`).
pub open spec fn writes_within(before: Seq<Doc>, after: Seq<Doc>, p: Seq<Seq<char>>, strict: bool) -> bool {
    &&& after.len() >= before.len()
    &&& after.subrange(0, before.len() as int) == before
    &&& forall|k: int|
        before.len() <= k < after.len() ==> (if strict {
            below(p, (#[trigger] after[k]).0.0)
        } else {
            after[k].0.0 == p || below(p, after[k].0.0)
        })
}

/// Every kind in the tree of `n` has a registered operator, and the scopes
/// it is written in, from a path of length `len` down, can grow.
pub open spec fn writable(ops: Set<Op>, n: DefaultNode, len: nat) -> bool
    decreases n,
{
    ops.contains(kind_of(n)) && len + 2 < usize::MAX && match n {
        DefaultNode::Pipeline(p) => forall|i: int|
            0 <= i < p.model.children@.len() ==> writable(ops, #[trigger] p.model.children@[i], len + 1),
        _ => true,
    }
}

/// Every document after the first `from` of `docs` lies in the scope of
/// one of the first `upto` children `cs` of the scope `path`.
pub open spec fn written_under(docs: Seq<Doc>, from: int, path: Seq<Seq<char>>, cs: Seq<DefaultNode>, upto: int) -> bool {
    forall|m: int|
        from <= m < docs.len() ==> exists|j: int|
            0 <= j < upto && within(path.push(child_scope((#[trigger] cs[j]).spec_name())), (#[trigger] docs[m]).0.0)
}

/// Child `k` is the first of `cs` that cannot be written from a path of
/// length `len`.
pub open spec fn first_unwritable(ops: Set<Op>, cs: Seq<DefaultNode>, len: nat, k: int) -> bool {
    0 <= k < cs.len() && (forall|j: int| 0 <= j < k ==> writable(ops, #[trigger] cs[j], len)) && !writable(
        ops,
        cs[k],
        len,
    )
}

/// The error that writing the tree of `n` from a path of length `len`
/// fails with: `InvalidOp` for an unregistered kind, `IoError` when the
/// scope cannot grow, and for a pipeline the error of its first child that
/// cannot be written.
pub open spec fn write_error(ops: Set<Op>, n: DefaultNode, len: nat, e: Error) -> bool
    decreases n,
{
    if !ops.contains(kind_of(n)) {
        e is InvalidOp
    } else if len + 2 >= usize::MAX {
        e is IoError
    } else {
        match n {
            DefaultNode::Pipeline(p) => exists|k: int|
                #[trigger] first_unwritable(ops, p.model.children@, len + 1, k) && write_error(
                    ops,
                    p.model.children@[k],
                    len + 1,
                    e,
                ),
            _ => false,
        }
    }
}

/// The children of every pipeline in the tree of `n` have distinct names.
pub open spec fn distinct_names(n: DefaultNode) -> bool
    decreases n,
{
    match n {
        DefaultNode::Pipeline(p) => (forall|i: int, j: int|
            0 <= i < j < p.model.children@.len() ==> (#[trigger] p.model.children@[i]).spec_name()
                != (#[trigger] p.model.children@[j]).spec_name()) && forall|i: int|
            0 <= i < p.model.children@.len() ==> distinct_names(#[trigger] p.model.children@[i]),
        _ => true,
    }
}

/// `q` is the path `p` or a path below it.
pub open spec fn within(p: Seq<Seq<char>>, q: Seq<Seq<char>>) -> bool {
    q == p || below(p, q)
}

proof fn lemma_child_scopes_apart(p: Seq<Seq<char>>, a: Seq<char>, b: Seq<char>, q: Seq<Seq<char>>)
    requires
        a != b,
        within(p.push(child_scope(a)), q),
    ensures
        !within(p.push(child_scope(b)), q),
{
    assert(child_scope(a).subrange(0, a.len() as int) =~= a);
    assert(child_scope(b).subrange(0, b.len() as int) =~= b);
    if child_scope(a) == child_scope(b) {
        assert(a.len() == b.len());
    }
    let n = p.len() as int;
    assert(q[n] == child_scope(a)) by {
        if q != p.push(child_scope(a)) {
            assert(q.subrange(0, n + 1)[n] == q[n]);
        }
    }
    if within(p.push(child_scope(b)), q) {
        if q != p.push(child_scope(b)) {
            assert(q.subrange(0, n + 1)[n] == q[n]);
        }
    }
}

/// Documents written elsewhere than at `path` or below it, and a larger
/// depth, keep what reads back from `path`.
proof fn lemma_readable_frame(a: Seq<Doc>, c: Seq<Doc>, path: Seq<Seq<char>>, ops: Set<Op>, d1: nat, d2: nat)
    requires
        c.len() >= a.len(),
        c.subrange(0, a.len() as int) == a,
        forall|k: int| a.len() <= k < c.len() ==> !within(path, (#[trigger] c[k]).0.0),
        d1 <= d2,
        readable(a, path, ops, d1),
    ensures
        readable(c, path, ops, d2),
    decreases d1 - path.len(),
{
    lemma_doc_frame_at(a, c, path, "model.json"@);
    lemma_doc_frame_at(a, c, path, "node.json"@);
    let (o, attrs) = scope_model(a, path)->0;
    let op = resolve(ops, o)->0;
    if op == Op::Pipeline {
        let names = attr_at(attrs, "nodes"@)->Some_0->Array_0->String_0;
        assert forall|i: int| 0 <= i < names.len() implies readable(
            c,
            path.push(child_scope(#[trigger] names[i])),
            ops,
            d2,
        ) by {
            let cp = path.push(child_scope(names[i]));
            assert(readable(a, cp, ops, d1));
            assert forall|k: int| a.len() <= k < c.len() implies !within(cp, (#[trigger] c[k]).0.0) by {
                let q = c[k].0.0;
                if within(cp, q) {
                    assert(q.subrange(0, path.len() as int) =~= cp.subrange(0, path.len() as int)) by {
                        if q != cp {
                            assert(q.subrange(0, path.len() as int) =~= q.subrange(0, cp.len() as int).subrange(0, path.len() as int));
                        }
                    }
                    assert(cp.subrange(0, path.len() as int) =~= path);
                    assert(below(path, q));
                }
            }
            lemma_readable_frame(a, c, cp, ops, d1, d2);
        }
    }
}

proof fn lemma_doc_frame_at(a: Seq<Doc>, c: Seq<Doc>, path: Seq<Seq<char>>, name: Seq<char>)
    requires
        c.len() >= a.len(),
        c.subrange(0, a.len() as int) == a,
        forall|k: int| a.len() <= k < c.len() ==> !within(path, (#[trigger] c[k]).0.0),
    ensures
        lookup_doc(c, (path, name)) == lookup_doc(a, (path, name)),
{
    assert forall|k: int| a.len() <= k < c.len() implies (#[trigger] c[k]).0 != (path, name) by {
        assert(!within(path, c[k].0.0));
    }
    lemma_lookup_frame(a, c, (path, name));
}

proof fn lemma_written_under_step(
    a: Seq<Doc>,
    c: Seq<Doc>,
    from: int,
    path: Seq<Seq<char>>,
    cs: Seq<DefaultNode>,
    i: int,
)
    requires
        0 <= from <= a.len(),
        0 <= i < cs.len(),
        written_under(a, from, path, cs, i),
        writes_within(a, c, path.push(child_scope(cs[i].spec_name())), false),
    ensures
        written_under(c, from, path, cs, i + 1),
{
    assert forall|m: int| from <= m < c.len() implies exists|j: int|
        0 <= j < i + 1 && within(path.push(child_scope((#[trigger] cs[j]).spec_name())), (#[trigger] c[m]).0.0) by {
        if m < a.len() {
            assert(c[m] == c.subrange(0, a.len() as int)[m]);
            let j = choose|j: int|
                0 <= j < i && within(path.push(child_scope((#[trigger] cs[j]).spec_name())), (#[trigger] a[m]).0.0);
            assert(within(path.push(child_scope(cs[j].spec_name())), c[m].0.0));
        } else {
            assert(within(path.push(child_scope(cs[i].spec_name())), c[m].0.0));
        }
    }
}

proof fn lemma_lookup_frame(a: Seq<Doc>, c: Seq<Doc>, key: (Seq<Seq<char>>, Seq<char>))
    requires
        c.len() >= a.len(),
        c.subrange(0, a.len() as int) == a,
        forall|k: int| a.len() <= k < c.len() ==> (#[trigger] c[k]).0 != key,
    ensures
        lookup_doc(c, key) == lookup_doc(a, key),
    decreases c.len(),
{
    if c.len() > a.len() {
        assert(c.drop_last().subrange(0, a.len() as int) =~= a);
        lemma_lookup_frame(a, c.drop_last(), key);
    } else {
        assert(c =~= a);
    }
}

proof fn lemma_lookup_keep(a: Seq<Doc>, c: Seq<Doc>, key: (Seq<Seq<char>>, Seq<char>))
    requires
        c.len() >= a.len(),
        c.subrange(0, a.len() as int) == a,
        lookup_doc(a, key) is Some,
    ensures
        lookup_doc(c, key) is Some,
    decreases c.len(),
{
    if c.len() > a.len() {
        assert(c.drop_last().subrange(0, a.len() as int) =~= a);
        lemma_lookup_keep(a, c.drop_last(), key);
    } else {
        assert(c =~= a);
    }
}

proof fn lemma_writes_trans(a: Seq<Doc>, b: Seq<Doc>, c: Seq<Doc>, p: Seq<Seq<char>>, q: Seq<Seq<char>>, s1: bool, s2: bool)
    requires
        writes_within(a, b, p, s1),
        writes_within(b, c, q, s2),
        q == p || below(p, q),
        !s1 || below(p, q),
    ensures
        writes_within(a, c, p, s1 && (s2 || below(p, q))),
{
    assert(c.subrange(0, a.len() as int) =~= b.subrange(0, a.len() as int));
    assert forall|k: int| a.len() <= k < c.len() implies (if s1 && (s2 || below(p, q)) {
        below(p, (#[trigger] c[k]).0.0)
    } else {
        c[k].0.0 == p || below(p, c[k].0.0)
    }) by {
        if k < b.len() {
            assert(c[k] == b[k]);
        } else {
            let r = c[k].0.0;
            if below(q, r) && below(p, q) {
                assert(r.subrange(0, p.len() as int) =~= r.subrange(0, q.len() as int).subrange(0, p.len() as int));
            }
        }
    }
}

proof fn lemma_doc_names()
    ensures
        "node.json"@ != "model.json"@,
        "bundle.json"@ != "model.json"@,
        "bundle.json"@ != "node.json"@,
{
    reveal_strlit("node.json");
    reveal_strlit("model.json");
    reveal_strlit("bundle.json");
    assert("node.json"@[0] != "model.json"@[0]);
    assert("bundle.json"@[0] != "model.json"@[0]);
    assert("bundle.json"@[0] != "node.json"@[0]);
}

/// The document last written under a path and a name.
pub open spec fn lookup_doc(docs: Seq<((Seq<Seq<char>>, Seq<char>), Json)>, key: (Seq<Seq<char>>, Seq<char>)) -> Option<Json>
    decreases docs.len(),
{
    if docs.len() == 0 {
        None
    } else if docs.last().0 == key {
        Some(docs.last().1)
    } else {
        lookup_doc(docs.drop_last(), key)
    }
}

/// A hierarchical store of named JSON documents: each document lives in a
/// scope, named by the path of scope names from the root. A later write of
/// the same path and name replaces the earlier document.
pub struct Store {
    entries: Vec<(Vec<String>, String, Json)>,
    depth: usize,
}

impl Store {
    /// One more than the longest path of a stored document.
    pub closed spec fn spec_depth(&self) -> usize {
        self.depth
    }

    /// The stored documents with their paths and names, in the order
    /// written.
    pub closed spec fn spec_docs(&self) -> Seq<((Seq<Seq<char>>, Seq<char>), Json)> {
        self.entries@.map_values(|e: (Vec<String>, String, Json)| ((path_view(e.0@), e.1@), e.2))
    }

    pub closed spec fn wf(&self) -> bool {
        forall|i: int| 0 <= i < self.entries@.len() ==> (#[trigger] self.entries@[i]).0@.len() < self.depth
    }

    pub fn new() -> (r: Store)
        ensures
            r.wf(),
            r.spec_docs().len() == 0,
    {
        let r = Store { entries: Vec::new(), depth: 0 };
        assert(r.spec_docs() =~= Seq::<((Seq<Seq<char>>, Seq<char>), Json)>::empty());
        r
    }

    /// Stores a document under `path` and `name`.
    pub fn write(&mut self, path: &[String], name: &str, doc: Json)
        requires
            old(self).wf(),
            path@.len() < usize::MAX,
        ensures
            final(self).wf(),
            final(self).spec_docs() == old(self).spec_docs().push(((path_view(path@), name@), doc)),
            final(self).spec_depth() > path@.len(),
            final(self).spec_depth() >= old(self).spec_depth(),
    {
        let ghost before = self.spec_docs();
        let ghost d = doc;
        let p = copy_strings(path);
        assert(path_view(p@) =~= path_view(path@));
        if p.len() >= self.depth {
            self.depth = p.len() + 1;
        }
        self.entries.push((p, owned(name), doc));
        proof {
            assert(self.spec_docs() =~= before.push(((path_view(path@), name@), d)));
        }
    }

    /// The document last stored under `path` and `name`.
    pub fn read(&self, path: &[String], name: &str) -> (r: Option<&Json>)
        requires
            self.wf(),
        ensures
            r is Some ==> path@.len() < self.spec_depth(),
            r is Some <==> lookup_doc(self.spec_docs(), (path_view(path@), name@)) is Some,
            r matches Some(j) ==> lookup_doc(self.spec_docs(), (path_view(path@), name@)) == Some(*j),
    {
        let ghost key = (path_view(path@), name@);
        let mut i: usize = self.entries.len();
        assert(self.spec_docs().subrange(0, i as int) =~= self.spec_docs());
        while i > 0
            invariant
                self.wf(),
                key == (path_view(path@), name@),
                i <= self.entries@.len(),
                lookup_doc(self.spec_docs(), key) == lookup_doc(self.spec_docs().subrange(0, i as int), key),
            decreases i,
        {
            let ghost pre = self.spec_docs().subrange(0, i as int);
            assert(pre.drop_last() =~= self.spec_docs().subrange(0, i - 1));
            let e = &self.entries[i - 1];
            assert(self.spec_docs()[i - 1] == ((path_view(e.0@), e.1@), e.2));
            assert(pre.last() == self.spec_docs()[i - 1]);
            if str_eq(e.1.as_str(), name) && path_eq(e.0.as_slice(), path) {
                proof {
                    assert(*e == self.entries@[i - 1]);
                    assert(self.spec_docs()[i - 1] == ((path_view(e.0@), e.1@), e.2));
                    assert(pre.last() == self.spec_docs()[i - 1]);
                    assert(pre.last().0 == key);
                    assert(self.entries@[i - 1].0@.len() < self.depth);
                    assert(path_view(path@).len() == path@.len());
                    assert(path_view(e.0@).len() == e.0@.len());
                }
                return Some(&e.2);
            }
            i -= 1;
        }
        None
    }

    /// The stored documents, in the order written.
    pub fn entries(&self) -> (r: &[(Vec<String>, String, Json)])
        ensures
            r@.len() == self.spec_docs().len(),
    {
        self.entries.as_slice()
    }
}

/// A scope of a store: the path of scope names from the root.
pub struct Builder {
    path: Vec<String>,
}

impl Builder {
    pub closed spec fn spec_path(&self) -> Seq<Seq<char>> {
        path_view(self.path@)
    }

    pub fn root() -> (r: Builder)
        ensures
            r.spec_path().len() == 0,
    {
        Builder { path: Vec::new() }
    }

    pub fn path(&self) -> (r: &[String])
        ensures
            path_view(r@) == self.spec_path(),
    {
        self.path.as_slice()
    }

    /// The child scope `name`; `IoError` when the path cannot grow.
    pub fn try_next(&self, name: &str) -> (r: Result<Builder>)
        ensures
            r is Ok <==> self.spec_path().len() + 2 < usize::MAX,
            r matches Ok(b) ==> b.spec_path() == self.spec_path().push(name@),
            r matches Err(e) ==> e is IoError,
    {
        let mut path = copy_strings(self.path.as_slice());
        assert(path_view(path@) =~= self.spec_path());
        if path.len() >= usize::MAX - 2 {
            return Err(Error::IoError(owned("the scope is too deep")));
        }
        path.push(owned(name));
        let r = Builder { path };
        assert(r.spec_path() =~= self.spec_path().push(name@));
        Ok(r)
    }
}

/// One bundle session: a scope of the store and the registry that resolves
/// operators.
pub struct Context<'a> {
    builder: Builder,
    registry: &'a Registry,
}

/// The scope name of a pipeline child: its name followed by `.node`.
pub open spec fn child_scope(name: Seq<char>) -> Seq<char> {
    name + ".node"@
}

fn child_scope_name(name: &str) -> (r: String)
    ensures
        r@ == child_scope(name@),
{
    let mut s = owned(name);
    s.append(".node");
    s
}

impl<'a> Context<'a> {
    pub closed spec fn spec_path(&self) -> Seq<Seq<char>> {
        self.builder.spec_path()
    }

    pub closed spec fn spec_registry(&self) -> Registry {
        *self.registry
    }

    pub fn new(builder: Builder, registry: &'a Registry) -> (r: Context<'a>)
        ensures
            r.spec_path() == builder.spec_path(),
            r.spec_registry() == *registry,
    {
        Context { builder, registry }
    }

    pub fn builder(&self) -> (r: &Builder)
        ensures
            r.spec_path() == self.spec_path(),
    {
        &self.builder
    }

    pub fn registry(&self) -> (r: &Registry)
        ensures
            *r == self.spec_registry(),
    {
        self.registry
    }

    /// The session one scope further down, sharing the registry.
    pub fn try_next(&self, name: &str) -> (r: Result<Context<'a>>)
        ensures
            r is Ok <==> self.spec_path().len() + 2 < usize::MAX,
            r matches Ok(c) ==> c.spec_path() == self.spec_path().push(name@)
                && c.spec_registry() == self.spec_registry(),
            r matches Err(e) ==> e is IoError,
    {
        match self.builder.try_next(name) {
            Ok(b) => Ok(Context { builder: b, registry: self.registry }),
            Err(e) => Err(e),
        }
    }

    /// Writes the envelope as `bundle.json`, then the root operator tree in
    /// the scope `root`.
    pub fn write_bundle(&self, store: &mut Store, bundle: &Bundle, root: &DefaultNode) -> (r: Result<()>)
        requires
            old(store).wf(),
        ensures
            final(store).wf(),
            r is Ok <==> self.spec_path().len() + 2 < usize::MAX && writable(
                self.spec_registry().spec_ops(),
                *root,
                self.spec_path().len() + 1,
            ),
            writes_within(old(store).spec_docs(), final(store).spec_docs(), self.spec_path(), false),
            r is Ok ==> exists|bj: Json, nj: Json, mj: Json|
                lookup_doc(final(store).spec_docs(), (self.spec_path(), "bundle.json"@)) == Some(bj)
                    && json::read_bundle(bj) == Some(bundle.spec_view())
                    && lookup_doc(final(store).spec_docs(), (self.spec_path().push("root"@), "node.json"@))
                    == Some(nj) && json::read_node(nj) == Some((root.spec_name(), root.spec_shape()))
                    && lookup_doc(final(store).spec_docs(), (self.spec_path().push("root"@), "model.json"@))
                    == Some(mj) && json::read_model(mj) == Some((kind_of(*root).spec_name(), stored_attrs(*root))),
            r is Ok && distinct_names(*root) ==> readable(
                final(store).spec_docs(),
                self.spec_path().push("root"@),
                self.spec_registry().spec_ops(),
                final(store).spec_depth() as nat,
            ),
    {
        assert(store.spec_docs().subrange(0, store.spec_docs().len() as int) =~= store.spec_docs());
        if self.builder.path.len() >= usize::MAX - 2 {
            return Err(Error::IoError(owned("the scope is too deep")));
        }
        let ghost docs0 = store.spec_docs();
        let ghost path = self.spec_path();
        let bj = bundle_to_json(bundle);
        let ghost bj_v = bj;
        store.write(self.builder.path.as_slice(), "bundle.json", bj);
        let ghost docs1 = store.spec_docs();
        proof {
            assert(docs1.subrange(0, docs0.len() as int) =~= docs0);
            assert(docs1[docs0.len() as int].0.0 == path);
            assert(writes_within(docs0, docs1, path, false));
        }
        match self.try_next("root") {
            Ok(ctx) => {
                let r = ctx.write_node_and_model(store, root);
                proof {
                    let cpath = ctx.spec_path();
                    assert(cpath.subrange(0, path.len() as int) =~= path);
                    lemma_writes_trans(docs0, docs1, store.spec_docs(), path, cpath, false, false);
                    let bkey = (path, "bundle.json"@);
                    assert forall|k: int| docs1.len() <= k < store.spec_docs().len() implies (#[trigger] store.spec_docs()[k]).0 != bkey by {
                        let q = store.spec_docs()[k].0.0;
                        if q == path {
                            assert(q.len() == cpath.len());
                        }
                    }
                    lemma_lookup_frame(docs1, store.spec_docs(), bkey);
                }
                r
            },
            Err(e) => Err(e),
        }
    }

    /// Writes `node.json` and `model.json` for a node in this scope, and
    /// those of a pipeline's children in their own scopes;
    /// `InvalidOp` when no operator is registered for the node's kind.
    pub fn write_node_and_model(&self, store: &mut Store, node: &DefaultNode) -> (r: Result<()>)
        requires
            old(store).wf(),
        ensures
            final(store).wf(),
            r is Ok <==> writable(self.spec_registry().spec_ops(), *node, self.spec_path().len()),
            r matches Err(e) ==> write_error(self.spec_registry().spec_ops(), *node, self.spec_path().len(), e),
            final(store).spec_depth() >= old(store).spec_depth(),
            r is Ok && distinct_names(*node) ==> readable(
                final(store).spec_docs(),
                self.spec_path(),
                self.spec_registry().spec_ops(),
                final(store).spec_depth() as nat,
            ),
            !self.spec_registry().spec_ops().contains(kind_of(*node)) ==> (r matches Err(e)
                && e is InvalidOp) && final(store).spec_docs() == old(store).spec_docs(),
            writes_within(old(store).spec_docs(), final(store).spec_docs(), self.spec_path(), false),
            r is Ok ==> exists|nj: Json, mj: Json|
                lookup_doc(final(store).spec_docs(), (self.spec_path(), "node.json"@)) == Some(nj)
                    && lookup_doc(final(store).spec_docs(), (self.spec_path(), "model.json"@)) == Some(mj)
                    && json::read_node(nj) == Some((node.spec_name(), node.spec_shape()))
                    && json::read_model(mj) == Some((kind_of(*node).spec_name(), stored_attrs(*node))),
            (r is Ok && *node is Pipeline) ==> forall|i: int|
                0 <= i < node->Pipeline_0.model.children@.len() ==> #[trigger] lookup_doc(
                    final(store).spec_docs(),
                    (self.spec_path().push(child_scope(node->Pipeline_0.model.children@[i].spec_name())), "model.json"@),
                ) is Some,
        decreases node, 1nat,
    {
        assert(store.spec_docs().subrange(0, store.spec_docs().len() as int) =~= store.spec_docs());
        let op = match self.registry.try_op_for_node(node) {
            Ok(op) => op,
            Err(e) => {
                return Err(e);
            },
        };
        if self.builder.path.len() >= usize::MAX - 2 {
            return Err(Error::IoError(owned("the scope is too deep")));
        }
        let ghost docs0 = store.spec_docs();
        let ghost path = self.spec_path();
        let nj = node_to_json(&op.node(node));
        let ghost nj_v = nj;
        store.write(self.builder.path.as_slice(), "node.json", nj);
        let mut model = Model::new(owned(op.op()));
        proof {
            assert(model.attribute_map() =~= Map::<Seq<char>, AttributeModel>::empty());
        }
        let ghost docs1 = store.spec_docs();
        proof {
            assert(docs1.subrange(0, docs0.len() as int) =~= docs0);
            assert(docs1[docs0.len() as int].0.0 == path);
            assert(writes_within(docs0, docs1, path, false));
        }
        match op.store_model(node, &mut model, self, store) {
            Ok(_) => {},
            Err(e) => {
                proof {
                    assert(*node is Pipeline);
                    let ops = self.spec_registry().spec_ops();
                    let cs = node->Pipeline_0.model.children@;
                    assert(!writable(self.spec_registry().spec_ops(), *node, path.len()));
                    let k = choose|k: int|
                        #[trigger] first_unwritable(ops, cs, path.len() + 1, k) && write_error(
                            ops,
                            cs[k],
                            path.len() + 1,
                            e,
                        );
                    assert(first_unwritable(ops, cs, path.len() + 1, k));
                    assert(write_error(ops, *node, path.len(), e));
                    assert(writes_within(docs0, docs1, path, false));
                    lemma_writes_trans(docs0, docs1, store.spec_docs(), path, path, false, true);
                }
                return Err(e);
            },
        }
        let ghost docs2 = store.spec_docs();
        let ghost depth2 = store.spec_depth();
        let mj = model_to_json(&model);
        let ghost mj_v = mj;
        store.write(self.builder.path.as_slice(), "model.json", mj);
        proof {
            assert(model.attribute_map() =~= stored_attrs(*node));
            let docs3 = store.spec_docs();
            assert(docs3.subrange(0, docs2.len() as int) =~= docs2);
            assert(docs3[docs2.len() as int].0.0 == path);
            assert(writes_within(docs0, docs1, path, false));
            lemma_writes_trans(docs0, docs1, docs2, path, path, false, true);
            assert(writes_within(docs2, docs3, path, false));
            lemma_writes_trans(docs0, docs2, docs3, path, path, false, false);
            let nkey = (path, "node.json"@);
            lemma_doc_names();
            assert(lookup_doc(docs1, nkey) == Some(nj_v));
            assert forall|k: int| docs1.len() <= k < docs3.len() implies (#[trigger] docs3[k]).0 != nkey by {
                if k < docs2.len() {
                    assert(docs3[k] == docs2[k]);
                    assert(below(path, docs2[k].0.0));
                }
            }
            assert(docs3.subrange(0, docs1.len() as int) =~= docs2.subrange(0, docs1.len() as int));
            lemma_lookup_frame(docs1, docs3, nkey);
            if *node is Pipeline {
                let p = node->Pipeline_0;
                assert forall|i: int| 0 <= i < p.model.children@.len() implies #[trigger] lookup_doc(
                    docs3,
                    (path.push(child_scope(p.model.children@[i].spec_name())), "model.json"@),
                ) is Some by {
                    lemma_lookup_keep(docs2, docs3, (path.push(child_scope(p.model.children@[i].spec_name())), "model.json"@));
                }
            }
            let ops = self.spec_registry().spec_ops();
            let d3 = store.spec_depth() as nat;
            if distinct_names(*node) {
                lemma_resolve(ops, kind_of(*node), kind_of(*node).spec_name());
                assert(scope_model(docs3, path) == Some((kind_of(*node).spec_name(), stored_attrs(*node))));
                assert(scope_desc(docs3, path) == Some((node.spec_name(), node.spec_shape())));
                if *node is Pipeline {
                    let cs = node->Pipeline_0.model.children@;
                    let names = child_names(cs);
                    assert(attr_at(stored_attrs(*node), "nodes"@) == Some(
                        AttributeModel::Array(VectorModel::String(names)),
                    ));
                    assert forall|i: int| 0 <= i < names.len() implies readable(
                        docs3,
                        path.push(child_scope(#[trigger] names[i])),
                        ops,
                        d3,
                    ) by {
                        assert(names[i] == cs[i].spec_name());
                        let cp = path.push(child_scope(cs[i].spec_name()));
                        assert(readable(docs2, cp, ops, depth2 as nat));
                        assert forall|k: int| docs2.len() <= k < docs3.len() implies !within(cp, (#[trigger] docs3[k]).0.0) by {
                            assert(docs3[k].0.0 == path);
                        }
                        lemma_readable_frame(docs2, docs3, cp, ops, depth2 as nat, d3);
                    }
                    assert(loaded_columns(Op::Pipeline, node.spec_shape()) is Some);
                    assert(readable(docs3, path, ops, d3));
                } else {
                    lemma_written_leaf_readable(docs3, path, ops, *node, d3);
                }
            }
        }
        Ok(())
    }

    /// Reads the envelope, then the root operator tree in the scope `root`.
    pub fn read_bundle(&self, store: &Store) -> (r: Result<(Bundle, DefaultNode)>)
        requires
            store.wf(),
        ensures
            r matches Ok((b, n)) ==> self.spec_registry().spec_ops().contains(kind_of(n)) && exists|j: Json|
                lookup_doc(store.spec_docs(), (self.spec_path(), "bundle.json"@)) == Some(j)
                    && json::read_bundle(j) == Some(b.spec_view()),
            r matches Ok((b, n)) ==> scope_holds(store.spec_docs(), self.spec_path().push("root"@), n),
            !(lookup_doc(store.spec_docs(), (self.spec_path(), "bundle.json"@)) matches Some(j)
                && json::read_bundle(j) is Some) ==> r is Err,
            (lookup_doc(store.spec_docs(), (self.spec_path(), "bundle.json"@)) matches Some(j)
                && json::read_bundle(j) is Some) && self.spec_path().len() + 2 < usize::MAX && readable(
                store.spec_docs(),
                self.spec_path().push("root"@),
                self.spec_registry().spec_ops(),
                store.spec_depth() as nat,
            ) ==> r is Ok,
    {
        let bundle = match self.read_dsl_bundle(store) {
            Ok(b) => b,
            Err(e) => {
                return Err(e);
            },
        };
        match self.try_next("root") {
            Ok(ctx) => match ctx.read_node(store) {
                Ok(node) => Ok((bundle, node)),
                Err(e) => Err(e),
            },
            Err(e) => Err(e),
        }
    }

    /// Reads the operator in this scope: its model, the operator registered
    /// under the model's name (else `InvalidOp`), then its node descriptor.
    pub fn read_node(&self, store: &Store) -> (r: Result<DefaultNode>)
        requires
            store.wf(),
        ensures
            r matches Ok(n) ==> self.spec_registry().spec_ops().contains(kind_of(n)),
            r matches Ok(n) ==> !(n is Pipeline) ==> exists|mj: Json, nj: Json|
                lookup_doc(store.spec_docs(), (self.spec_path(), "model.json"@)) == Some(mj)
                    && lookup_doc(store.spec_docs(), (self.spec_path(), "node.json"@)) == Some(nj)
                    && (json::read_model(mj) matches Some((o, attrs)) && o == kind_of(n).spec_name()
                    && read_model_attrs(kind_of(n), attrs) == Some(node_model_view(n))) && (json::read_node(
                    nj,
                ) matches Some((name, shape)) && n.spec_name() == name && loaded_columns(kind_of(n), shape)
                    == Some(node_columns(n))),
            readable(store.spec_docs(), self.spec_path(), self.spec_registry().spec_ops(), store.spec_depth() as nat) ==> r is Ok,
            r matches Ok(n) ==> scope_holds(store.spec_docs(), self.spec_path(), n),
            r matches Ok(n) ==> (n is Pipeline ==> exists|mj: Json, attrs: Map<Seq<char>, AttributeModel>|
                lookup_doc(store.spec_docs(), (self.spec_path(), "model.json"@)) == Some(mj) && json::read_model(
                    mj,
                ) == Some(("pipeline"@, attrs)) && children_held(
                    store.spec_docs(),
                    self.spec_path(),
                    attrs,
                    n->Pipeline_0.model.children@,
                )),
        decreases store.spec_depth() - self.spec_path().len(), 1nat,
    {
        let json = match store.read(self.builder.path.as_slice(), "model.json") {
            Some(j) => j,
            None => {
                return Err(Error::IoError(owned("missing model.json")));
            },
        };
        let model = match model_from_json(json) {
            Ok(m) => m,
            Err(e) => {
                return Err(Error::JsonError(e));
            },
        };
        let op = match self.registry.try_op_for_name(model.op()) {
            Ok(op) => op,
            Err(e) => {
                return Err(e);
            },
        };
        proof {
            lemma_resolve_in(self.spec_registry().spec_ops(), model@.0);
            assert(scope_model(store.spec_docs(), self.spec_path()) == Some((model@.0, model.attribute_map())));
            if readable(store.spec_docs(), self.spec_path(), self.spec_registry().spec_ops(), store.spec_depth() as nat) {
                if op == Op::Pipeline {
                    assert(children_readable(
                        store.spec_docs(),
                        self.spec_path(),
                        self.spec_registry().spec_ops(),
                        store.spec_depth() as nat,
                        model.attribute_map(),
                    ));
                }
            }
        }
        let loaded = match op.load_model(&model, self, store) {
            Ok(m) => m,
            Err(e) => {
                return Err(e);
            },
        };
        let node = match self.read_dsl_node(store) {
            Ok(n) => n,
            Err(e) => {
                return Err(e);
            },
        };
        let r = op.load(&node, loaded);
        r
    }

    /// The envelope stored as `bundle.json` in this scope.
    pub fn read_dsl_bundle(&self, store: &Store) -> (r: Result<Bundle>)
        requires
            store.wf(),
        ensures
            r is Ok <==> (lookup_doc(store.spec_docs(), (self.spec_path(), "bundle.json"@)) matches Some(j)
                && json::read_bundle(j) is Some),
            r matches Ok(b) ==> exists|j: Json|
                lookup_doc(store.spec_docs(), (self.spec_path(), "bundle.json"@)) == Some(j)
                    && json::read_bundle(j) == Some(b.spec_view()),
    {
        match store.read(self.builder.path.as_slice(), "bundle.json") {
            Some(j) => match bundle_from_json(j) {
                Ok(b) => Ok(b),
                Err(e) => Err(Error::JsonError(e)),
            },
            None => Err(Error::IoError(owned("missing bundle.json"))),
        }
    }

    /// The node descriptor stored as `node.json` in this scope.
    pub fn read_dsl_node(&self, store: &Store) -> (r: Result<Node>)
        requires
            store.wf(),
        ensures
            r is Ok <==> (lookup_doc(store.spec_docs(), (self.spec_path(), "node.json"@)) matches Some(j)
                && json::read_node(j) is Some),
            r matches Ok(n) ==> exists|j: Json|
                lookup_doc(store.spec_docs(), (self.spec_path(), "node.json"@)) == Some(j)
                    && json::read_node(j) == Some(n@),
    {
        match store.read(self.builder.path.as_slice(), "node.json") {
            Some(j) => match node_from_json(j) {
                Ok(n) => Ok(n),
                Err(e) => Err(Error::JsonError(e)),
            },
            None => Err(Error::IoError(owned("missing node.json"))),
        }
    }

    /// The model stored as `model.json` in this scope.
    pub fn read_dsl_model(&self, store: &Store) -> (r: Result<Model>)
        requires
            store.wf(),
        ensures
            r is Ok <==> (lookup_doc(store.spec_docs(), (self.spec_path(), "model.json"@)) matches Some(j)
                && json::read_model(j) is Some),
            r matches Ok(m) ==> m.wf() && exists|j: Json|
                lookup_doc(store.spec_docs(), (self.spec_path(), "model.json"@)) == Some(j)
                    && json::read_model(j) == Some((m@.0, m.attribute_map())),
    {
        match store.read(self.builder.path.as_slice(), "model.json") {
            Some(j) => match model_from_json(j) {
                Ok(m) => Ok(m),
                Err(e) => Err(Error::JsonError(e)),
            },
            None => Err(Error::IoError(owned("missing model.json"))),
        }
    }
}

proof fn lemma_resolve_in(ops: Set<Op>, name: Seq<char>)
    ensures
        resolve(ops, name) matches Some(o) ==> ops.contains(o) && o.spec_name() == name,
{
}

impl Op {
    /// Writes the attributes of a node's model; a pipeline also writes each
    /// child in the scope `<child name>.node` and lists the child names
    /// under `nodes`. `InvalidOp` when the node is of another kind.
    pub fn store_model(&self, node: &DefaultNode, model: &mut Model, ctx: &Context, store: &mut Store) -> (r: Result<()>)
        requires
            old(model).wf(),
            old(store).wf(),
        ensures
            final(model).wf(),
            final(model)@.0 == old(model)@.0,
            final(store).wf(),
            kind_of(*node) != *self ==> (r matches Err(e) && e is InvalidOp),
            kind_of(*node) == *self && !(*node is Pipeline) ==> r is Ok,
            kind_of(*node) == *self && *node is Pipeline ==> (r is Ok <==> forall|i: int|
                0 <= i < node->Pipeline_0.model.children@.len() ==> writable(
                    ctx.spec_registry().spec_ops(),
                    #[trigger] node->Pipeline_0.model.children@[i],
                    ctx.spec_path().len() + 1,
                )),
            r is Ok ==> final(model).attribute_map() == old(model).attribute_map().union_prefer_right(
                stored_attrs(*node),
            ),
            !(*node is Pipeline) ==> final(store).spec_docs() == old(store).spec_docs(),
            r is Err ==> final(model)@ == old(model)@,
            final(store).spec_depth() >= old(store).spec_depth(),
            (r is Ok && *node is Pipeline && distinct_names(*node)) ==> forall|i: int|
                0 <= i < node->Pipeline_0.model.children@.len() ==> readable(
                    final(store).spec_docs(),
                    ctx.spec_path().push(child_scope((#[trigger] node->Pipeline_0.model.children@[i]).spec_name())),
                    ctx.spec_registry().spec_ops(),
                    final(store).spec_depth() as nat,
                ),
            (r is Err && kind_of(*node) == *self && *node is Pipeline && ctx.spec_path().len() + 2
                < usize::MAX) ==> exists|k: int|
                #[trigger] first_unwritable(
                    ctx.spec_registry().spec_ops(),
                    node->Pipeline_0.model.children@,
                    ctx.spec_path().len() + 1,
                    k,
                ) && write_error(
                    ctx.spec_registry().spec_ops(),
                    node->Pipeline_0.model.children@[k],
                    ctx.spec_path().len() + 1,
                    r->Err_0,
                ) && written_under(
                    final(store).spec_docs(),
                    old(store).spec_docs().len() as int,
                    ctx.spec_path(),
                    node->Pipeline_0.model.children@,
                    k + 1,
                ),
            writes_within(old(store).spec_docs(), final(store).spec_docs(), ctx.spec_path(), true),
            (r is Ok && *node is Pipeline) ==> forall|i: int|
                0 <= i < node->Pipeline_0.model.children@.len() ==> #[trigger] lookup_doc(
                    final(store).spec_docs(),
                    (ctx.spec_path().push(child_scope(node->Pipeline_0.model.children@[i].spec_name())), "model.json"@),
                ) is Some,
        decreases node, 0nat,
    {
        let ghost m0 = model.attribute_map();
        let ghost docs0 = store.spec_docs();
        proof {
            lemma_attr_names();
        }
        assert(docs0.subrange(0, docs0.len() as int) =~= docs0);
        match (self, node) {
            (Op::StringIndexer, DefaultNode::StringIndexer(n)) => {
                let labels = copy_strings(n.model.labels().as_slice());
                assert(labels.deep_view() =~= n.model.spec_labels());
                model.with_attr("labels", Attribute::Array(VectorValue::String(labels)));
                assert(model.attribute_map() =~= m0.union_prefer_right(stored_attrs(*node)));
                Ok(())
            },
            (Op::OneHotEncoder, DefaultNode::OneHotEncoder(n)) => {
                model.with_attr("size", Attribute::Basic(BasicValue::Long(#[verifier::truncate] (n.model.size as i64))));
                assert(model.attribute_map() =~= m0.union_prefer_right(stored_attrs(*node)));
                Ok(())
            },
            (Op::VectorAssembler, DefaultNode::VectorAssembler(_)) => {
                assert(model.attribute_map() =~= m0.union_prefer_right(stored_attrs(*node)));
                Ok(())
            },
            (Op::StandardScaler, DefaultNode::StandardScaler(n)) => {
                if let Some(mean) = &n.model.mean {
                    let t = mean.copy();
                    proof {
                        t.lemma_values_view();
                        DenseTensor::lemma_values_view_eq(&t, mean);
                    }
                    model.with_attr("mean", Attribute::Tensor(TensorValue::Double(t)));
                }
                let ghost m1 = model.attribute_map();
                assert(m1 =~= with_opt(m0, "mean"@, opt_tensor_view(n.model.mean)));
                if let Some(std) = &n.model.std {
                    let t = std.copy();
                    proof {
                        t.lemma_values_view();
                        DenseTensor::lemma_values_view_eq(&t, std);
                    }
                    model.with_attr("std", Attribute::Tensor(TensorValue::Double(t)));
                }
                assert(model.attribute_map() =~= with_opt(m1, "std"@, opt_tensor_view(n.model.std)));
                assert(model.attribute_map() =~= m0.union_prefer_right(stored_attrs(*node)));
                Ok(())
            },
            (Op::LinearRegression, DefaultNode::LinearRegression(n)) => {
                model.with_attr("intercept", Attribute::Basic(BasicValue::Double(n.model.intercept)));
                let t = n.model.coefficients.copy();
                proof {
                    t.lemma_values_view();
                    DenseTensor::lemma_values_view_eq(&t, &n.model.coefficients);
                }
                model.with_attr("coefficients", Attribute::Tensor(TensorValue::Double(t)));
                assert(model.attribute_map() =~= m0.union_prefer_right(stored_attrs(*node)));
                Ok(())
            },
            (Op::Pipeline, DefaultNode::Pipeline(p)) => {
                let children = &p.model.children;
                let ghost ops = ctx.spec_registry().spec_ops();
                let ghost path = ctx.spec_path();
                let mut names: Vec<String> = Vec::new();
                let mut i: usize = 0;
                while i < children.len()
                    invariant
                        *self == Op::Pipeline,
                        *node == DefaultNode::Pipeline(*p),
                        children == &p.model.children,
                        ops == ctx.spec_registry().spec_ops(),
                        path == ctx.spec_path(),
                        store.wf(),
                        model.wf(),
                        model@.0 == old(model)@.0,
                        model.attribute_map() == m0,
                        m0 == old(model).attribute_map(),
                        docs0 == old(store).spec_docs(),
                        store.spec_depth() >= old(store).spec_depth(),
                        written_under(store.spec_docs(), docs0.len() as int, path, children@, i as int),
                        distinct_names(*node) ==> forall|k: int|
                            0 <= k < i ==> readable(
                                store.spec_docs(),
                                path.push(child_scope((#[trigger] children@[k]).spec_name())),
                                ops,
                                store.spec_depth() as nat,
                            ),
                        i <= children@.len(),
                        names@.len() == i,
                        forall|k: int| 0 <= k < i ==> (#[trigger] names@[k])@ == children@[k].spec_name(),
                        writes_within(docs0, store.spec_docs(), path, true),
                        forall|k: int| 0 <= k < i ==> writable(ops, #[trigger] children@[k], path.len() + 1),
                        forall|k: int|
                            0 <= k < i ==> #[trigger] lookup_doc(
                                store.spec_docs(),
                                (path.push(child_scope(children@[k].spec_name())), "model.json"@),
                            ) is Some,
                    decreases children@.len() - i,
                {
                    let child = &children[i];
                    proof {
                        vstd::std_specs::vec::axiom_vec_index_decreases(p.model.children, i as int);
                        assert(decreases_to!(*node => node->Pipeline_0));
                        assert(decreases_to!(node->Pipeline_0 => node->Pipeline_0.model));
                        assert(decreases_to!(node->Pipeline_0.model => node->Pipeline_0.model.children));
                    }
                    let ghost before = store.spec_docs();
                    let ghost store_depth_before = store.spec_depth();
                    let scope = child_scope_name(child.name());
                    match ctx.try_next(scope.as_str()) {
                        Ok(c) => {
                            let ghost cpath = c.spec_path();
                            proof {
                                assert(cpath.subrange(0, path.len() as int) =~= path);
                            }
                            match c.write_node_and_model(store, child) {
                                Ok(_) => {
                                    proof {
                                        if distinct_names(*node) {
                                            assert(distinct_names(children@[i as int]));
                                            assert forall|k: int| 0 <= k < i implies readable(
                                                store.spec_docs(),
                                                path.push(child_scope((#[trigger] children@[k]).spec_name())),
                                                ops,
                                                store.spec_depth() as nat,
                                            ) by {
                                                let ck = path.push(child_scope(children@[k].spec_name()));
                                                assert(children@[k].spec_name() != children@[i as int].spec_name());
                                                assert forall|m: int| before.len() <= m < store.spec_docs().len() implies !within(ck, (#[trigger] store.spec_docs()[m]).0.0) by {
                                                    lemma_child_scopes_apart(path, children@[i as int].spec_name(), children@[k].spec_name(), store.spec_docs()[m].0.0);
                                                }
                                                lemma_readable_frame(before, store.spec_docs(), ck, ops, store_depth_before as nat, store.spec_depth() as nat);
                                            }
                                        }
                                        lemma_writes_trans(docs0, before, store.spec_docs(), path, cpath, true, false);
                                        lemma_written_under_step(before, store.spec_docs(), docs0.len() as int, path, children@, i as int);
                                        assert forall|k: int| 0 <= k < i implies #[trigger] lookup_doc(
                                            store.spec_docs(),
                                            (path.push(child_scope(children@[k].spec_name())), "model.json"@),
                                        ) is Some by {
                                            lemma_lookup_keep(before, store.spec_docs(), (path.push(child_scope(children@[k].spec_name())), "model.json"@));
                                        }
                                    }
                                },
                                Err(e) => {
                                    proof {
                                        lemma_writes_trans(docs0, before, store.spec_docs(), path, cpath, true, false);
                                        assert(!writable(ops, children@[i as int], path.len() + 1));
                                        assert(first_unwritable(ops, children@, path.len() + 1, i as int));
                                        assert(write_error(ops, children@[i as int], path.len() + 1, e));
                                        lemma_written_under_step(before, store.spec_docs(), docs0.len() as int, path, children@, i as int);
                                    }
                                    return Err(e);
                                },
                            }
                        },
                        Err(e) => {
                            assert(!writable(ops, children@[i as int], path.len() + 1));
                            return Err(e);
                        },
                    }
                    names.push(owned(child.name()));
                    i += 1;
                }
                let ghost nm = names.deep_view();
                assert(nm =~= child_names(p.model.children@));
                model.with_attr("nodes", Attribute::Array(VectorValue::String(names)));
                assert(model.attribute_map() =~= m0.union_prefer_right(stored_attrs(*node)));
                Ok(())
            },
            _ => Err(Error::InvalidOp(owned("the node is of another operator"))),
        }
    }

    /// Reads a model of this kind from its attributes: `labels` for a
    /// string indexer, `size` for a one-hot encoder, `intercept` and
    /// `coefficients` for a linear regression, optional `mean` and `std`
    /// for a standard scaler, and for a pipeline the child names `nodes`,
    /// each child read from the scope `<name>.node`. `InvalidModel` when
    /// an attribute it needs is missing or of another type.
    pub fn load_model(&self, model: &Model, ctx: &Context, store: &Store) -> (r: Result<OpModel>)
        requires
            model.wf(),
            store.wf(),
        ensures
            r matches Ok(m) ==> model_kind(m) == *self,
            *self != Op::Pipeline ==> (r is Ok <==> read_model_attrs(*self, model.attribute_map()) is Some),
            *self != Op::Pipeline ==> (r matches Ok(m) ==> read_model_attrs(*self, model.attribute_map())
                == Some(model_view(m))),
            *self == Op::Pipeline ==> (r matches Ok(m) ==> m is Pipeline && children_held(
                store.spec_docs(),
                ctx.spec_path(),
                model.attribute_map(),
                m->Pipeline_0.children@,
            )),
            *self == Op::Pipeline ==> match attr_at(model.attribute_map(), "nodes"@) {
                Some(AttributeModel::Array(VectorModel::String(names))) => names.len() == 0 ==> r is Ok,
                _ => r matches Err(e) && e is InvalidModel,
            },
            *self == Op::Pipeline && children_readable(
                store.spec_docs(),
                ctx.spec_path(),
                ctx.spec_registry().spec_ops(),
                store.spec_depth() as nat,
                model.attribute_map(),
            ) ==> r is Ok,
        decreases store.spec_depth() - ctx.spec_path().len(), 0nat,
    {
        proof {
            lemma_attr_at(model@.1, "labels"@);
            lemma_attr_at(model@.1, "size"@);
            lemma_attr_at(model@.1, "mean"@);
            lemma_attr_at(model@.1, "std"@);
            lemma_attr_at(model@.1, "intercept"@);
            lemma_attr_at(model@.1, "coefficients"@);
            lemma_attr_at(model@.1, "nodes"@);
        }
        match self {
            Op::StringIndexer => match model.get_string_vector("labels") {
                Some(v) => {
                    let labels = copy_strings(v);
                    assert(labels.deep_view() =~= v.deep_view());
                    Ok(OpModel::StringIndexer(StringIndexerModel::new(labels)))
                },
                None => Err(Error::InvalidModel(owned("a string indexer needs labels"))),
            },
            Op::OneHotEncoder => match model.get_long("size") {
                Some(i) => Ok(OpModel::OneHotEncoder(OneHotEncoderModel { size: #[verifier::truncate] (i as usize) })),
                None => Err(Error::InvalidModel(owned("a one-hot encoder needs a size"))),
            },
            Op::VectorAssembler => Ok(OpModel::VectorAssembler(VectorAssemblerModel {})),
            Op::StandardScaler => {
                let mean = match model.get_double_tensor("mean") {
                    Some(t) => {
                        let c = t.copy();
                        proof {
                            DenseTensor::lemma_values_view_eq(&c, t);
                        }
                        Some(c)
                    },
                    None => None,
                };
                let std = match model.get_double_tensor("std") {
                    Some(t) => {
                        let c = t.copy();
                        proof {
                            DenseTensor::lemma_values_view_eq(&c, t);
                        }
                        Some(c)
                    },
                    None => None,
                };
                Ok(OpModel::StandardScaler(StandardScalerModel { mean, std }))
            },
            Op::LinearRegression => match (model.get_double("intercept"), model.get_double_tensor("coefficients")) {
                (Some(i), Some(c)) => {
                    let coefficients = c.copy();
                    proof {
                        DenseTensor::lemma_values_view_eq(&coefficients, c);
                    }
                    Ok(OpModel::LinearRegression(LinearRegressionModel { coefficients, intercept: i }))
                },
                _ => Err(Error::InvalidModel(owned("a linear regression needs an intercept and coefficients"))),
            },
            Op::Pipeline => match model.get_string_vector("nodes") {
                Some(names) => {
                    let ghost nv = names.deep_view();
                    let mut children: Vec<DefaultNode> = Vec::new();
                    let mut i: usize = 0;
                    while i < names.len()
                        invariant
                            *self == Op::Pipeline,
                            store.wf(),
                            i <= names@.len(),
                            nv == names.deep_view(),
                            nv.len() == names@.len(),
                            attr_at(model.attribute_map(), "nodes"@) == Some(
                                AttributeModel::Array(VectorModel::String(nv)),
                            ),
                            children@.len() == i,
                            forall|k: int|
                                0 <= k < i ==> scope_holds(
                                    store.spec_docs(),
                                    ctx.spec_path().push(child_scope(nv[k])),
                                    #[trigger] children@[k],
                                ),
                        decreases names@.len() - i,
                    {
                        if ctx.builder.path.len() >= store.depth {
                            return Err(Error::IoError(owned("missing child scope")));
                        }
                        let scope = child_scope_name(names[i].as_str());
                        match ctx.try_next(scope.as_str()) {
                            Ok(c) => match c.read_node(store) {
                                Ok(n) => {
                                    assert(nv[i as int] == names@[i as int]@);
                                    children.push(n);
                                },
                                Err(e) => {
                                    proof {
                                        assert(nv[i as int] == names@[i as int]@);
                                        assert(c.spec_path() == ctx.spec_path().push(child_scope(nv[i as int])));
                                        assert(!readable(
                                            store.spec_docs(),
                                            ctx.spec_path().push(child_scope(nv[i as int])),
                                            ctx.spec_registry().spec_ops(),
                                            store.spec_depth() as nat,
                                        ));
                                        assert(attr_at(model.attribute_map(), "nodes"@) == Some(
                                            AttributeModel::Array(VectorModel::String(nv)),
                                        ));
                                        if children_readable(
                                            store.spec_docs(),
                                            ctx.spec_path(),
                                            ctx.spec_registry().spec_ops(),
                                            store.spec_depth() as nat,
                                            model.attribute_map(),
                                        ) {
                                            lemma_child_readable(
                                                store.spec_docs(),
                                                ctx.spec_path(),
                                                ctx.spec_registry().spec_ops(),
                                                store.spec_depth() as nat,
                                                model.attribute_map(),
                                                nv,
                                                i as int,
                                            );
                                        }
                                        assert(!children_readable(
                                            store.spec_docs(),
                                            ctx.spec_path(),
                                            ctx.spec_registry().spec_ops(),
                                            store.spec_depth() as nat,
                                            model.attribute_map(),
                                        ));
                                    }
                                    return Err(e);
                                },
                            },
                            Err(e) => {
                                return Err(e);
                            },
                        }
                        i += 1;
                    }
                    Ok(OpModel::Pipeline(PipelineModel { children }))
                },
                None => Err(Error::InvalidModel(owned("a pipeline needs its node names"))),
            },
        }
    }
}

} // verus!
