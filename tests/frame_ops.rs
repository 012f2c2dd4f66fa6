use mleap::dsl::DenseTensor;
use mleap::frame::{ColData, Error, LeapFrame};
use mleap::tform::{
    DefaultNode, FloatOps, OneHotEncoderModel, Pipeline, PipelineModel, StandardScaler,
    StandardScalerModel, StringIndexer, StringIndexerModel, VectorAssembler,
};

struct Host;

impl FloatOps for Host {
    fn add(&self, a: u64, b: u64) -> u64 {
        (f64::from_bits(a) + f64::from_bits(b)).to_bits()
    }

    fn mul(&self, a: u64, b: u64) -> u64 {
        (f64::from_bits(a) * f64::from_bits(b)).to_bits()
    }

    fn div(&self, a: u64, b: u64) -> u64 {
        (f64::from_bits(a) / f64::from_bits(b)).to_bits()
    }

    fn from_i64(&self, x: i64) -> u64 {
        (x as f64).to_bits()
    }

    fn from_f32(&self, x: u32) -> u64 {
        (f32::from_bits(x) as f64).to_bits()
    }
}

fn strings(v: &[&str]) -> Vec<String> {
    v.iter().map(|s| s.to_string()).collect()
}

fn doubles(v: &[f64]) -> Vec<u64> {
    v.iter().map(|x| x.to_bits()).collect()
}

fn indexer() -> StringIndexer {
    StringIndexer {
        name: "si".to_string(),
        input_col: "label".to_string(),
        output_col: "index".to_string(),
        model: StringIndexerModel::new(strings(&["a", "b", "c"])),
    }
}

#[test]
fn duplicate_column_is_refused() {
    let mut frame = LeapFrame::with_size(1);
    assert!(frame.try_with_ints("x".to_string(), vec![1]).is_ok());
    match frame.try_with_ints("x".to_string(), vec![2]) {
        Err(Error::ColumnAlreadyExists(_)) => {}
        other => panic!("unexpected: {:?}", other.is_ok()),
    }
    assert_eq!(frame.cols().len(), 1);
}

#[test]
fn absent_column_is_reported() {
    let frame = LeapFrame::with_size(1);
    assert!(matches!(frame.try_col("nothing"), Err(Error::NoSuchColumn(_))));
}

#[test]
fn double_column_read_as_ints_is_invalid_type() {
    let mut frame = LeapFrame::with_size(1);
    frame.try_with_doubles("d".to_string(), doubles(&[1.5])).unwrap();
    assert!(matches!(frame.try_ints("d"), Err(Error::InvalidType(_))));
    assert_eq!(frame.get_doubles("d").unwrap(), &doubles(&[1.5])[..]);
}

#[test]
fn string_indexer_maps_known_labels() {
    let mut frame = LeapFrame::with_size(2);
    frame.try_with_strings("label".to_string(), strings(&["b", "c"])).unwrap();
    indexer().transform(&mut frame).unwrap();
    assert_eq!(frame.get_ints("index").unwrap(), &[1, 2]);
}

#[test]
fn string_indexer_fails_on_unknown_label() {
    let mut frame = LeapFrame::with_size(2);
    frame.try_with_strings("label".to_string(), strings(&["b", "z"])).unwrap();
    assert!(matches!(indexer().transform(&mut frame), Err(Error::TransformError(_))));
    assert_eq!(frame.cols().len(), 1);
    assert_eq!(indexer().model.try_encode("b").unwrap(), 1);
}

#[test]
fn one_hot_encodes_in_range_values() {
    let model = OneHotEncoderModel { size: 3 };
    match model.try_encode_col_data(&ColData::Int(vec![1])).unwrap() {
        ColData::LongTensor(ts) => {
            assert_eq!(ts.len(), 1);
            assert_eq!(ts[0].dimensions(), &[3]);
            assert_eq!(ts[0].values(), &[0, 1, 0]);
        }
        _ => panic!("expected long tensors"),
    }
}

#[test]
fn one_hot_rejects_out_of_range_value() {
    let model = OneHotEncoderModel { size: 3 };
    assert!(matches!(
        model.try_encode_col_data(&ColData::Int(vec![5])),
        Err(Error::TransformError(_))
    ));
    assert!(matches!(
        model.try_encode_col_data(&ColData::String(strings(&["x"]))),
        Err(Error::TransformError(_))
    ));
}

#[test]
fn standard_scaler_divides_and_zeroes() {
    let std = DenseTensor::new(vec![2], doubles(&[2.0, 0.0])).unwrap();
    let scaler = StandardScaler {
        name: "ss".to_string(),
        input_col: "features".to_string(),
        output_col: "scaled".to_string(),
        model: StandardScalerModel { mean: None, std: Some(std) },
    };
    let mut frame = LeapFrame::with_size(1);
    let row = DenseTensor::new(vec![2], doubles(&[4.0, 9.0])).unwrap();
    frame.try_with_double_tensors("features".to_string(), vec![row]).unwrap();
    scaler.transform(&mut frame, &Host).unwrap();
    let out = frame.get_double_tensors("scaled").unwrap();
    assert_eq!(out[0].values(), &doubles(&[2.0, 0.0])[..]);
}

#[test]
fn standard_scaler_needs_std_without_mean() {
    let model = StandardScalerModel { mean: None, std: None };
    let data = ColData::DoubleTensor(vec![]);
    assert!(matches!(model.try_scale(&data, &Host), Err(Error::TransformError(_))));
    let std = DenseTensor::new(vec![1], doubles(&[1.0])).unwrap();
    let model = StandardScalerModel { mean: None, std: Some(std) };
    assert!(matches!(model.try_scale(&ColData::Int(vec![1]), &Host), Err(Error::InvalidType(_))));
}

#[test]
fn pipeline_matches_manual_sequence() {
    let assembler = || VectorAssembler {
        name: "va".to_string(),
        input_cols: strings(&["index"]),
        output_col: "features".to_string(),
    };
    let frame0 = || {
        let mut f = LeapFrame::with_size(2);
        f.try_with_strings("label".to_string(), strings(&["c", "a"])).unwrap();
        f
    };
    let pipeline = DefaultNode::Pipeline(Pipeline {
        name: "p".to_string(),
        model: PipelineModel {
            children: vec![
                DefaultNode::StringIndexer(indexer()),
                DefaultNode::VectorAssembler(assembler()),
            ],
        },
    });
    let mut piped = frame0();
    pipeline.transform(&mut piped, &Host).unwrap();
    let mut manual = frame0();
    indexer().transform(&mut manual).unwrap();
    assembler().transform(&mut manual, &Host).unwrap();
    let a = piped.get_double_tensors("features").unwrap();
    let b = manual.get_double_tensors("features").unwrap();
    assert_eq!(a.len(), b.len());
    for (x, y) in a.iter().zip(b.iter()) {
        assert_eq!(x.values(), y.values());
        assert_eq!(x.dimensions(), y.dimensions());
    }
    assert_eq!(a[0].values(), &doubles(&[2.0])[..]);
    assert_eq!(a[1].values(), &doubles(&[0.0])[..]);
}

#[test]
fn pipeline_stops_at_first_error() {
    let pipeline = DefaultNode::Pipeline(Pipeline {
        name: "p".to_string(),
        model: PipelineModel {
            children: vec![DefaultNode::StringIndexer(indexer()), DefaultNode::StringIndexer(indexer())],
        },
    });
    let mut frame = LeapFrame::with_size(1);
    frame.try_with_strings("label".to_string(), strings(&["a"])).unwrap();
    assert!(matches!(pipeline.transform(&mut frame, &Host), Err(Error::ColumnAlreadyExists(_))));
    assert_eq!(frame.cols().len(), 2);
}

#[test]
fn tensor_checks_value_count() {
    assert!(DenseTensor::new(vec![2, 3], vec![0i64; 6]).is_some());
    assert!(DenseTensor::new(vec![2, 3], vec![0i64; 5]).is_none());
    assert!(DenseTensor::new(vec![0], Vec::<i64>::new()).is_some());
}

#[test]
fn assembler_encodes_integers_exactly() {
    let mut frame = LeapFrame::with_size(3);
    frame.try_with_col(mleap::frame::Col::new("i".to_string(), ColData::Int(vec![-3, 0, i32::MAX]))).unwrap();
    frame
        .try_with_col(mleap::frame::Col::new("b".to_string(), ColData::Bool(vec![true, false, true])))
        .unwrap();
    let t = DenseTensor::new(vec![2], vec![-128i8, 127]).unwrap();
    let row = |t: &DenseTensor<i8>| DenseTensor::new(t.dimensions().to_vec(), t.values().to_vec()).unwrap();
    frame
        .try_with_col(mleap::frame::Col::new("t".to_string(), ColData::ByteTensor(vec![row(&t), row(&t), row(&t)])))
        .unwrap();
    let names = strings(&["i", "b", "t"]);
    match mleap::tform::VectorAssemblerModel::try_assemble(&names, &frame, &Host).unwrap() {
        ColData::DoubleTensor(rows) => {
            assert_eq!(rows[0].values(), &doubles(&[-3.0, 1.0, -128.0, 127.0])[..]);
            assert_eq!(rows[1].values(), &doubles(&[0.0, 0.0, -128.0, 127.0])[..]);
            assert_eq!(rows[2].values(), &doubles(&[i32::MAX as f64, 1.0, -128.0, 127.0])[..]);
            assert_eq!(rows[2].dimensions(), &[4]);
        }
        _ => panic!("expected double tensors"),
    }
    assert!(matches!(
        mleap::tform::VectorAssemblerModel::try_assemble(&strings(&["nope"]), &frame, &Host),
        Err(Error::NoSuchColumn(_))
    ));
    frame.try_with_strings("s".to_string(), strings(&["x", "y", "z"])).unwrap();
    assert!(matches!(
        mleap::tform::VectorAssemblerModel::try_assemble(&strings(&["s"]), &frame, &Host),
        Err(Error::TransformError(_))
    ));
}

#[test]
fn integer_encoding_matches_the_machine() {
    for x in [1, -1, 2, 3, 1000, -65536, i32::MIN, i32::MAX, 0] {
        assert_eq!(mleap::double::int_to_double(x), (x as f64).to_bits());
    }
}

#[test]
fn assembler_accepts_empty_frames_and_scalar_tensors() {
    let mut frame = LeapFrame::with_size(0);
    frame.try_with_double_tensors("t".to_string(), vec![]).unwrap();
    match mleap::tform::VectorAssemblerModel::try_assemble(&strings(&["t"]), &frame, &Host).unwrap() {
        ColData::DoubleTensor(rows) => assert!(rows.is_empty()),
        _ => panic!("expected double tensors"),
    }
    let mut frame = LeapFrame::with_size(1);
    let scalar = DenseTensor::new(vec![], doubles(&[5.0])).unwrap();
    frame.try_with_double_tensors("s".to_string(), vec![scalar]).unwrap();
    match mleap::tform::VectorAssemblerModel::try_assemble(&strings(&["s"]), &frame, &Host).unwrap() {
        ColData::DoubleTensor(rows) => assert_eq!(rows[0].values(), &doubles(&[5.0])[..]),
        _ => panic!("expected double tensors"),
    }
}
