use mleap::dsl::{
    Attribute, BasicValue, Bundle, Version, ConcreteFormat, DenseTensor, Format, Model, Node, Shape,
    Socket, TensorValue, VectorValue,
};
use mleap::json::{
    attribute_from_json, attribute_to_json, bundle_from_json, bundle_to_json, format_from_json,
    format_to_json, get_field, model_from_json, model_to_json, node_from_json, node_to_json, Json,
    JsonNumber,
};

fn sample_model() -> Model {
    let mut m = Model::new("sample".to_string());
    m.with_attr("flag", Attribute::Basic(BasicValue::Bool(true)));
    m.with_attr("label", Attribute::Basic(BasicValue::String("x".to_string())));
    m.with_attr("b", Attribute::Basic(BasicValue::Byte(-3)));
    m.with_attr("s", Attribute::Basic(BasicValue::Short(300)));
    m.with_attr("i", Attribute::Basic(BasicValue::Int(-70000)));
    m.with_attr("l", Attribute::Basic(BasicValue::Long(1 << 40)));
    m.with_attr("f", Attribute::Basic(BasicValue::Float(1.5f32.to_bits())));
    m.with_attr("d", Attribute::Basic(BasicValue::Double(2.25f64.to_bits())));
    m.with_attr("bytes", Attribute::Basic(BasicValue::ByteString(vec![0, 255, 7])));
    m.with_attr("empty", Attribute::Array(VectorValue::Long(vec![])));
    m.with_attr(
        "names",
        Attribute::Array(VectorValue::String(vec!["a".to_string(), "b".to_string()])),
    );
    m.with_attr("blobs", Attribute::Array(VectorValue::ByteString(vec![vec![1, 2], vec![]])));
    m.with_attr(
        "t",
        Attribute::Tensor(TensorValue::Int(DenseTensor::new(vec![2, 2], vec![1, 2, 3, 4]).unwrap())),
    );
    m.with_attr(
        "zero",
        Attribute::Tensor(TensorValue::Double(DenseTensor::new(vec![0], vec![]).unwrap())),
    );
    m
}

#[test]
fn model_round_trips_through_json() {
    let m = sample_model();
    let j = model_to_json(&m);
    let back = model_from_json(&j).unwrap();
    assert_eq!(back.op(), "sample");
    assert_eq!(back.attributes().len(), m.attributes().len());
    for (name, attr) in m.attributes() {
        assert_eq!(back.get_attr(name), Some(attr));
    }
}

#[test]
fn with_attr_replaces_an_earlier_value() {
    let mut m = Model::new("op".to_string());
    m.with_attr("size", Attribute::Basic(BasicValue::Long(3)));
    m.with_attr("size", Attribute::Basic(BasicValue::Long(4)));
    assert_eq!(m.attributes().len(), 1);
    assert_eq!(m.get_long("size"), Some(4));
    assert_eq!(m.get_double("size"), None);
}

#[test]
fn byte_strings_are_base64_text() {
    let a = Attribute::Basic(BasicValue::ByteString(b"hi".to_vec()));
    let j = attribute_to_json(&a);
    match &j {
        Json::Object(f) => {
            assert_eq!(get_field(f, "type"), Some(&Json::Str("byte_string".to_string())));
            assert_eq!(get_field(f, "value"), Some(&Json::Str("aGk=".to_string())));
        }
        _ => panic!("expected an object"),
    }
    assert_eq!(attribute_from_json(&j).unwrap(), a);
}

#[test]
fn list_and_tensor_schema() {
    let a = Attribute::Array(VectorValue::Int(vec![1, 2]));
    match attribute_to_json(&a) {
        Json::Object(f) => {
            assert_eq!(get_field(&f, "type"), Some(&Json::Str("list".to_string())));
            assert_eq!(get_field(&f, "base"), Some(&Json::Str("int".to_string())));
        }
        _ => panic!("expected an object"),
    }
    let t = Attribute::Tensor(TensorValue::Long(DenseTensor::new(vec![3], vec![1, 0, 0]).unwrap()));
    match attribute_to_json(&t) {
        Json::Object(f) => {
            assert_eq!(get_field(&f, "type"), Some(&Json::Str("tensor".to_string())));
            match get_field(&f, "value") {
                Some(Json::Object(v)) => {
                    assert_eq!(get_field(v, "dimensions"), Some(&Json::Array(vec![Json::UInt(3)])));
                }
                _ => panic!("expected the tensor's value"),
            }
        }
        _ => panic!("expected an object"),
    }
}

#[test]
fn numbers_read_from_text_are_accepted() {
    let number = |int: Option<i64>, double: f64| {
        Json::Number(JsonNumber {
            int,
            uint: int.and_then(|x| if x >= 0 { Some(x as u64) } else { None }),
            double: double.to_bits(),
            single: (double as f32).to_bits(),
        })
    };
    let doc = Json::Object(vec![
        ("type".to_string(), Json::Str("double".to_string())),
        ("value".to_string(), number(None, 0.5)),
    ]);
    assert_eq!(
        attribute_from_json(&doc).unwrap(),
        Attribute::Basic(BasicValue::Double(0.5f64.to_bits()))
    );
    let doc = Json::Object(vec![
        ("type".to_string(), Json::Str("long".to_string())),
        ("value".to_string(), number(Some(-9), -9.0)),
    ]);
    assert_eq!(attribute_from_json(&doc).unwrap(), Attribute::Basic(BasicValue::Long(-9)));
}

#[test]
fn malformed_attributes_are_read_errors() {
    let doc = Json::Object(vec![("type".to_string(), Json::Str("int".to_string()))]);
    assert!(attribute_from_json(&doc).is_err());
    let doc = Json::Object(vec![
        ("type".to_string(), Json::Str("tensor".to_string())),
        ("base".to_string(), Json::Str("int".to_string())),
        (
            "value".to_string(),
            Json::Object(vec![
                ("dimensions".to_string(), Json::Array(vec![Json::UInt(2)])),
                ("values".to_string(), Json::Array(vec![Json::Int(1)])),
            ]),
        ),
    ]);
    assert!(attribute_from_json(&doc).is_err());
    let doc = Json::Object(vec![
        ("type".to_string(), Json::Str("byte_string".to_string())),
        ("value".to_string(), Json::Str("not base64!".to_string())),
    ]);
    assert!(attribute_from_json(&doc).is_err());
    assert!(model_from_json(&Json::Null).is_err());
}

#[test]
fn node_round_trips_through_json() {
    let shape = Shape::new(
        vec![Socket::new("a".to_string(), "input0".to_string())],
        vec![Socket::new("b".to_string(), "output".to_string())],
    );
    let node = Node::new("va".to_string(), shape);
    let back = node_from_json(&node_to_json(&node)).unwrap();
    assert_eq!(back.name(), "va");
    assert_eq!(back.shape().inputs(), node.shape().inputs());
    assert_eq!(back.shape().outputs(), node.shape().outputs());
}

#[test]
fn formats_read_back() {
    for f in [Format::Concrete(ConcreteFormat::Json), Format::Concrete(ConcreteFormat::Proto), Format::Mixed] {
        assert_eq!(format_from_json(&format_to_json(&f)).unwrap(), f);
    }
    assert!(format_from_json(&Json::Str("xml".to_string())).is_err());
}

#[test]
fn bundle_envelope_round_trips() {
    let uid: u128 = 0x1234_5678_9abc_def0_1234_5678_9abc_def0;
    let version = Version::parse("0.6.0-SNAPSHOT").unwrap();
    let b = Bundle::new(uid, "hello".to_string(), Format::Mixed, version);
    let j = bundle_to_json(&b);
    match &j {
        Json::Object(f) => {
            assert_eq!(
                get_field(f, "uid"),
                Some(&Json::Str("12345678-9abc-def0-1234-56789abcdef0".to_string()))
            );
            assert_eq!(get_field(f, "version"), Some(&Json::Str("0.6.0-SNAPSHOT".to_string())));
        }
        _ => panic!("expected an object"),
    }
    let back = bundle_from_json(&j).unwrap();
    assert_eq!(back.name(), "hello");
    assert_eq!(*back.format(), Format::Mixed);
    assert_eq!(back.uid(), uid);
    assert_eq!(back.version().as_str(), "0.6.0-SNAPSHOT");
    assert!(Version::parse("1.02.3").is_none());
}

#[test]
fn bundle_with_bad_version_is_refused() {
    let doc = Json::Object(vec![
        ("uid".to_string(), Json::Str("12345678-9abc-def0-1234-56789abcdef0".to_string())),
        ("name".to_string(), Json::Str("x".to_string())),
        ("format".to_string(), Json::Str("json".to_string())),
        ("version".to_string(), Json::Str("not a version".to_string())),
    ]);
    assert!(bundle_from_json(&doc).is_err());
    let doc = Json::Object(vec![
        ("uid".to_string(), Json::Str("urn:uuid:12345678-9ABC-def0-1234-56789abcdef0".to_string())),
        ("name".to_string(), Json::Str("x".to_string())),
        ("format".to_string(), Json::Str("json".to_string())),
        ("version".to_string(), Json::Str("1.0.0".to_string())),
    ]);
    assert_eq!(bundle_from_json(&doc).unwrap().uid(), 0x1234_5678_9abc_def0_1234_5678_9abc_def0);
}

#[test]
fn shape_sockets_by_port() {
    let shape = Shape::with_standard_io("in".to_string(), "out".to_string());
    let (i, o) = shape.get_standard_io().unwrap();
    assert_eq!(i.name(), "in");
    assert_eq!(o.port(), "output");
    assert!(shape.get_io("features", "prediction").is_none());
    assert_eq!(shape.get_output("output").unwrap().name(), "out");
    assert!(Shape::empty().get_output("output").is_none());
}
