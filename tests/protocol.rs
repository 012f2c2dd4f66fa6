use mleap::dsl::{Bundle, DenseTensor, Format};
use mleap::frame::LeapFrame;
use mleap::ser::{Builder, Context, Error, Op, Registry, Store};
use mleap::tform::{
    DefaultNode, FloatOps, LinearRegression, LinearRegressionModel, OneHotEncoder,
    OneHotEncoderModel, Pipeline, PipelineModel, StandardScaler, StandardScalerModel,
    StringIndexer, StringIndexerModel, VectorAssembler,
};

struct Host;

impl FloatOps for Host {
    fn add(&self, a: u64, b: u64) -> u64 {
        (f64::from_bits(a) + f64::from_bits(b)).to_bits()
    }

    fn mul(&self, a: u64, b: u64) -> u64 {
        (f64::from_bits(a) * f64::from_bits(b)).to_bits()
    }

    fn div(&self, a: u64, b: u64) -> u64 {
        (f64::from_bits(a) / f64::from_bits(b)).to_bits()
    }

    fn from_i64(&self, x: i64) -> u64 {
        (x as f64).to_bits()
    }

    fn from_f32(&self, x: u32) -> u64 {
        (f32::from_bits(x) as f64).to_bits()
    }
}

fn all_ops() -> Registry {
    let mut r = Registry::new();
    for op in [
        Op::StringIndexer,
        Op::OneHotEncoder,
        Op::VectorAssembler,
        Op::StandardScaler,
        Op::LinearRegression,
        Op::Pipeline,
    ] {
        r.insert_op(op);
    }
    r
}

fn bits(v: &[f64]) -> Vec<u64> {
    v.iter().map(|x| x.to_bits()).collect()
}

fn tree() -> DefaultNode {
    DefaultNode::Pipeline(Pipeline {
        name: "pipe".to_string(),
        model: PipelineModel {
            children: vec![
                DefaultNode::StringIndexer(StringIndexer {
                    name: "si".to_string(),
                    input_col: "label".to_string(),
                    output_col: "index".to_string(),
                    model: StringIndexerModel::new(vec!["a".to_string(), "b".to_string()]),
                }),
                DefaultNode::OneHotEncoder(OneHotEncoder {
                    name: "ohe".to_string(),
                    input_col: "index".to_string(),
                    output_col: "onehot".to_string(),
                    model: OneHotEncoderModel { size: 2 },
                }),
                DefaultNode::VectorAssembler(VectorAssembler {
                    name: "va".to_string(),
                    input_cols: vec!["x".to_string(), "onehot".to_string()],
                    output_col: "features".to_string(),
                }),
                DefaultNode::StandardScaler(StandardScaler {
                    name: "ss".to_string(),
                    input_col: "features".to_string(),
                    output_col: "scaled".to_string(),
                    model: StandardScalerModel {
                        mean: None,
                        std: Some(DenseTensor::new(vec![3], bits(&[2.0, 1.0, 0.0])).unwrap()),
                    },
                }),
                DefaultNode::LinearRegression(LinearRegression {
                    name: "lr".to_string(),
                    features_col: "scaled".to_string(),
                    prediction_col: "prediction".to_string(),
                    model: LinearRegressionModel {
                        coefficients: DenseTensor::new(vec![3], bits(&[1.0, 10.0, 100.0])).unwrap(),
                        intercept: 0.5f64.to_bits(),
                    },
                }),
            ],
        },
    })
}

fn input() -> LeapFrame {
    let mut f = LeapFrame::with_size(2);
    f.try_with_strings("label".to_string(), vec!["b".to_string(), "a".to_string()]).unwrap();
    f.try_with_doubles("x".to_string(), bits(&[4.0, 6.0])).unwrap();
    f
}

fn bundle() -> Bundle {
    Bundle::new(
        7,
        "hello".to_string(),
        Format::Mixed,
        mleap::dsl::Version::parse("0.6.0-SNAPSHOT").unwrap(),
    )
}

#[test]
fn registry_resolves_by_name_and_kind() {
    let mut r = Registry::new();
    assert!(matches!(r.try_op_for_name("string_indexer"), Err(Error::InvalidOp(_))));
    r.insert_op(Op::StringIndexer);
    assert_eq!(r.get_op_for_name("string_indexer"), Some(Op::StringIndexer));
    assert_eq!(r.try_op_for_name("string_indexer").unwrap(), Op::StringIndexer);
    assert!(matches!(r.try_op_for_name("foo"), Err(Error::InvalidOp(_))));
    let node = match tree() {
        DefaultNode::Pipeline(p) => p.model.children.into_iter().next().unwrap(),
        _ => unreachable!(),
    };
    assert_eq!(r.get_op_for_node(&node), Some(Op::StringIndexer));
    assert!(matches!(r.try_op_for_node(&tree()), Err(Error::InvalidOp(_))));
}

#[test]
fn bundle_round_trip_keeps_shape_order_and_output() {
    let registry = all_ops();
    let ctx = Context::new(Builder::root(), &registry);
    let mut store = Store::new();
    let written = tree();
    ctx.write_bundle(&mut store, &bundle(), &written).unwrap();
    let (b, loaded) = ctx.read_bundle(&store).unwrap();
    assert_eq!(b.name(), "hello");
    assert_eq!(b.uid(), 7);
    assert_eq!(b.version().as_str(), "0.6.0-SNAPSHOT");
    let (p0, p1) = match (&written, &loaded) {
        (DefaultNode::Pipeline(a), DefaultNode::Pipeline(b)) => (a, b),
        _ => panic!("expected pipelines"),
    };
    assert_eq!(p1.name, "pipe");
    assert_eq!(p0.model.children.len(), p1.model.children.len());
    for (x, y) in p0.model.children.iter().zip(p1.model.children.iter()) {
        assert_eq!(x.name(), y.name());
        let (sx, sy) = (x.create_shape(), y.create_shape());
        assert_eq!(sx.inputs(), sy.inputs());
        assert_eq!(sx.outputs(), sy.outputs());
    }
    let mut f0 = input();
    written.transform(&mut f0, &Host).unwrap();
    let mut f1 = input();
    loaded.transform(&mut f1, &Host).unwrap();
    let p0 = f0.get_doubles("prediction").unwrap();
    assert_eq!(p0, f1.get_doubles("prediction").unwrap());
    assert_eq!(f64::from_bits(p0[0]), 0.5 + 2.0 + 0.0 + 0.0);
    assert_eq!(f64::from_bits(p0[1]), 0.5 + 3.0 + 10.0 + 0.0);
}

#[test]
fn bundle_layout_uses_scopes() {
    let registry = all_ops();
    let ctx = Context::new(Builder::root(), &registry);
    let mut store = Store::new();
    ctx.write_bundle(&mut store, &bundle(), &tree()).unwrap();
    let root = vec!["root".to_string()];
    assert!(store.read(&[], "bundle.json").is_some());
    assert!(store.read(&root, "node.json").is_some());
    assert!(store.read(&root, "model.json").is_some());
    let child = vec!["root".to_string(), "si.node".to_string()];
    assert!(store.read(&child, "model.json").is_some());
}

#[test]
fn unregistered_operators_fail_both_ways() {
    let mut registry = Registry::new();
    registry.insert_op(Op::Pipeline);
    let ctx = Context::new(Builder::root(), &registry);
    let mut store = Store::new();
    assert!(matches!(
        ctx.write_bundle(&mut store, &bundle(), &tree()),
        Err(Error::InvalidOp(_))
    ));
    let full = all_ops();
    let mut store = Store::new();
    Context::new(Builder::root(), &full).write_bundle(&mut store, &bundle(), &tree()).unwrap();
    assert!(matches!(ctx.read_bundle(&store), Err(Error::InvalidOp(_))));
    assert!(matches!(ctx.read_bundle(&Store::new()), Err(Error::IoError(_))));
}

#[test]
fn bundle_serializer_test() {
    let mut registry = Registry::new();
    registry.insert_op(Op::LinearRegression);
    let context = Context::new(Builder::root(), &registry);
    let mut store = Store::new();
    let bundle = Bundle::new(
        uuid::Uuid::new_v4().as_u128(),
        "hello".to_string(),
        Format::Mixed,
        mleap::dsl::Version::parse("0.6.0-SNAPSHOT").unwrap(),
    );
    let root = DefaultNode::LinearRegression(LinearRegression {
        name: "my_lr".to_string(),
        features_col: "features".to_string(),
        prediction_col: "prediction".to_string(),
        model: LinearRegressionModel {
            coefficients: DenseTensor::new(vec![0], vec![]).unwrap(),
            intercept: 42.0f64.to_bits(),
        },
    });
    context.write_bundle(&mut store, &bundle, &root).unwrap();
}

#[test]
fn load_checks_model_kind_and_sockets() {
    let node = mleap::dsl::Node::new("x".to_string(), mleap::dsl::Shape::empty());
    assert!(matches!(
        Op::StringIndexer.load(&node, mleap::ser::OpModel::OneHotEncoder(OneHotEncoderModel { size: 1 })),
        Err(Error::DowncastError(_))
    ));
    assert!(matches!(
        Op::OneHotEncoder.load(&node, mleap::ser::OpModel::OneHotEncoder(OneHotEncoderModel { size: 1 })),
        Err(Error::InvalidOp(_))
    ));
}

#[test]
fn missing_attributes_are_invalid_models() {
    let registry = all_ops();
    let ctx = Context::new(Builder::root(), &registry);
    let store = Store::new();
    let empty = mleap::dsl::Model::new("string_indexer".to_string());
    assert!(matches!(Op::StringIndexer.load_model(&empty, &ctx, &store), Err(Error::InvalidModel(_))));
    assert!(matches!(Op::LinearRegression.load_model(&empty, &ctx, &store), Err(Error::InvalidModel(_))));
    assert!(matches!(Op::Pipeline.load_model(&empty, &ctx, &store), Err(Error::InvalidModel(_))));
    assert!(Op::VectorAssembler.load_model(&empty, &ctx, &store).is_ok());
}

#[test]
fn malformed_documents_are_json_errors() {
    let registry = all_ops();
    let ctx = Context::new(Builder::root(), &registry);
    let mut store = Store::new();
    store.write(&[], "model.json", mleap::json::Json::Str("not a model".to_string()));
    assert!(matches!(ctx.read_node(&store), Err(Error::JsonError(_))));
}

#[test]
fn leaf_node_reads_back_with_its_model() {
    let registry = all_ops();
    let ctx = Context::new(Builder::root(), &registry);
    let mut store = Store::new();
    let node = DefaultNode::OneHotEncoder(OneHotEncoder {
        name: "ohe".to_string(),
        input_col: "i".to_string(),
        output_col: "o".to_string(),
        model: OneHotEncoderModel { size: 7 },
    });
    ctx.write_node_and_model(&mut store, &node).unwrap();
    assert_eq!(store.entries().len(), 2);
    match ctx.read_node(&store).unwrap() {
        DefaultNode::OneHotEncoder(o) => {
            assert_eq!(o.name, "ohe");
            assert_eq!(o.input_col, "i");
            assert_eq!(o.output_col, "o");
            assert_eq!(o.model.size, 7);
        }
        _ => panic!("expected a one-hot encoder"),
    }
}
