use mleap::dsl::Socket;
use mleap::graph::{Graph, Node, NodeShape};
use mleap::shape::{
    broadcast_dims, compatible, target_shape, BroadcastDimension, DenseSpec, DenseStrideIter,
    Dimensions, TensorShape,
};

fn dim(stride: usize, size: usize, target: usize) -> BroadcastDimension {
    BroadcastDimension { stride, size, target }
}

#[test]
fn compatible_shapes() {
    let shape1: Vec<usize> = vec![5, 2, 3, 1, 1];
    let shape2: Vec<usize> = vec![3, 1, 7];
    let shape3: Vec<usize> = vec![1];
    let shape4: Vec<usize> = vec![5, 6, 12];
    let shape5: Vec<usize> = vec![1, 1, 1];
    assert!(compatible(&shape1, &shape2));
    assert!(compatible(&shape1, &shape3));
    assert!(!compatible(&shape1, &shape4));
    assert!(compatible(&shape2, &shape3));
    assert!(!compatible(&shape2, &shape4));
    assert!(compatible(&shape3, &shape4));
    assert!(compatible(&shape4, &shape5));
}

#[test]
fn target_shapes() {
    assert_eq!(target_shape(&[5, 2, 3, 1, 1], &[3, 1, 7]), vec![5, 2, 3, 1, 7]);
    assert_eq!(target_shape(&[1], &[3, 1, 7]), vec![3, 1, 7]);
    assert_eq!(target_shape(&[], &[]), Vec::<usize>::new());
}

#[test]
fn tensor_shape_broadcast_shape() {
    let shape1 = TensorShape::new(vec![5, 2, 3, 1, 1]);
    let shape2 = TensorShape::new(vec![3, 1, 7]);
    let shape3 = TensorShape::new(vec![1]);
    let shape4 = TensorShape::new(vec![5, 6, 12]);
    assert_eq!(shape1.broadcast_shape(&shape2).unwrap().dimensions(), &[5, 2, 3, 1, 7]);
    assert_eq!(shape3.broadcast_shape(&shape2).unwrap().dimensions(), &[3, 1, 7]);
    assert!(shape1.broadcast_shape(&shape4).is_none());
    assert!(shape1.is_broadcast_compat(&shape2));
    assert!(!shape1.is_broadcast_compat(&shape4));
}

#[test]
fn tensor_shape_dense_broadcast_dimensions() {
    let shape1 = TensorShape::new(vec![5, 2, 3, 1, 2]);
    let shape2 = TensorShape::new(vec![3, 1, 2]);
    let shape3 = TensorShape::new(vec![1]);
    let shape4 = TensorShape::new(vec![5, 6, 12]);
    assert_eq!(
        shape1.dense_broadcast_dimensions(&shape2).unwrap(),
        vec![dim(12, 12, 5), dim(6, 6, 2), dim(2, 2, 3), dim(0, 2, 1), dim(1, 1, 2)]
    );
    assert_eq!(
        shape2.dense_broadcast_dimensions(&shape1).unwrap(),
        vec![dim(0, 6, 5), dim(0, 6, 2), dim(2, 2, 3), dim(0, 2, 1), dim(1, 1, 2)]
    );
    assert_eq!(
        shape3.dense_broadcast_dimensions(&shape4).unwrap(),
        vec![dim(0, 1, 5), dim(0, 1, 6), dim(0, 1, 12)]
    );
    assert_eq!(
        shape4.dense_broadcast_dimensions(&shape3).unwrap(),
        vec![dim(72, 72, 5), dim(12, 12, 6), dim(1, 1, 12)]
    );
    assert!(shape1.dense_broadcast_dimensions(&shape4).is_none());
}

#[test]
fn strides_and_sizes() {
    let shape = TensorShape::new(vec![6, 5, 4, 1, 3, 2]);
    let mut it = shape.dense_strides_iter();
    let mut strides = Vec::new();
    while let Some(s) = it.next() {
        strides.push(s);
    }
    assert_eq!(strides, vec![120, 24, 6, 6, 2, 1]);
    assert_eq!(TensorShape::new(vec![4, 50, 3]).big_stride(), 600);
    let mut it = DenseStrideIter::new(&[2, 3]);
    assert_eq!(it.next(), Some(3));
    assert_eq!(it.next(), Some(1));
    assert_eq!(it.next(), None);
}

#[test]
fn broadcast_dimensions_position_by_position() {
    let dims = broadcast_dims(&[2, 2, 3], &[1, 2, 3], &[6, 3, 1]);
    assert_eq!(dims, vec![dim(0, 6, 2), dim(3, 3, 2), dim(1, 1, 3)]);
    let dims = BroadcastDimension::shape_from_iters(&[4], &[4, 9], &[1, 1]);
    assert_eq!(dims, vec![dim(1, 1, 4)]);
}

#[test]
fn dimensions_broadcast() {
    let d1 = Dimensions::new(vec![1, 23, 34, 22]);
    let d2 = Dimensions::new(vec![23, 34, 1]);
    let d3 = Dimensions::new(vec![24, 34, 22]);
    assert!(d1.can_broadcast(&d2));
    assert!(!d1.can_broadcast(&d3));
    assert!(!d3.can_broadcast(&d1));
    assert_eq!(Dimensions::new(vec![23, 4, 2, 33]).len(), 4);
    assert_eq!(d2.last(), Some(1));
    assert_eq!(Dimensions::new(vec![]).last(), None);
}

#[test]
fn dense_spec_broadcast_shape() {
    let buf: Vec<u32> = vec![1, 2, 3, 4, 5, 6];
    let mut spec = DenseSpec::try_new(&[2, 3, 2, 1], &[3, 2, 1], &buf).unwrap();
    assert_eq!(spec.bshape(), &[2, 3, 2, 1]);
    spec.chop(1);
    spec.bshape_push(1);
    assert_eq!(spec.bshape(), &[2, 3, 2, 1]);
    assert!(DenseSpec::try_new(&[4], &[3], &buf).is_none());
}

fn socket(name: &str, port: &str) -> Socket {
    Socket::new(name.to_string(), port.to_string())
}

#[test]
fn node_shape_lookups_and_attach() {
    let mut shape = NodeShape::with_sockets(
        vec![socket("a", "input"), socket("b", "extra"), socket("a", "input")],
        vec![socket("c", "output")],
    );
    assert_eq!(shape.inputs().len(), 2);
    assert_eq!(shape.input("a").port(), "input");
    assert_eq!(shape.get_input_for_port("extra").unwrap().name(), "b");
    assert!(shape.get_input("zzz").is_none());
    assert_eq!(shape.output_for_port("output").name(), "c");
    assert_eq!(shape.output("c").port(), "output");
    assert!(shape.get_output("a").is_none());
    let producer = NodeShape::with_sockets(vec![], vec![socket("a", "input")]);
    shape.attach(&producer);
    assert!(shape.get_input("a").is_none());
    assert!(shape.get_input("b").is_some());
    assert!(NodeShape::new().get_output_for_port("output").is_none());
}

#[test]
fn graph_collects_nodes() {
    let mut g: Graph<u32> = Graph::new("g".to_string());
    assert!(g.nodes().is_empty());
    g.add_node(3);
    g.add_node(5);
    assert_eq!(g.nodes(), &vec![3, 5]);
    assert_eq!(Node::name(&g), "g");
    assert!(g.shape().inputs().is_empty());
}
