//! Operator graphs: nodes with sets of input and output sockets.

use vstd::prelude::*;
use crate::util::str_eq;
use crate::dsl::Socket;

verus! {

/// The sockets of a sequence, as name and port pairs.
pub open spec fn socket_set(s: Seq<Socket>) -> Set<(Seq<char>, Seq<char>)> {
    s.map_values(|x: Socket| x@).to_set()
}

/// No two sockets of a sequence are equal.
pub open spec fn sockets_distinct(s: Seq<Socket>) -> bool {
    forall|i: int, j: int| 0 <= i < j < s.len() ==> s[i]@ != s[j]@
}

fn socket_eq(a: &Socket, b: &Socket) -> (r: bool)
    ensures
        r == (a@ == b@),
{
    str_eq(a.name(), b.name()) && str_eq(a.port(), b.port())
}

fn contains_socket(s: &Vec<Socket>, x: &Socket) -> (r: bool)
    ensures
        r == socket_set(s@).contains(x@),
{
    let mut i: usize = 0;
    while i < s.len()
        invariant
            i <= s@.len(),
            forall|j: int| 0 <= j < i ==> s@[j]@ != x@,
        decreases s@.len() - i,
    {
        if socket_eq(&s[i], x) {
            assert(s@.map_values(|y: Socket| y@)[i as int] == x@);
            return true;
        }
        i += 1;
    }
    proof {
        if socket_set(s@).contains(x@) {
            lemma_in_set(s@, x@);
        }
    }
    false
}

/// The sockets of `s` that are not in `remove`, without repeats.
fn difference(s: &Vec<Socket>, remove: &Vec<Socket>) -> (r: Vec<Socket>)
    ensures
        socket_set(r@) == socket_set(s@).difference(socket_set(remove@)),
        sockets_distinct(r@),
{
    let mut r: Vec<Socket> = Vec::new();
    let mut i: usize = 0;
    while i < s.len()
        invariant
            i <= s@.len(),
            sockets_distinct(r@),
            socket_set(r@) == socket_set(s@.subrange(0, i as int)).difference(socket_set(remove@)),
        decreases s@.len() - i,
    {
        let ghost before = r@;
        let ghost pre = s@.subrange(0, i as int);
        assert(s@.subrange(0, i as int + 1) =~= pre.push(s@[i as int]));
        proof {
            pre.map_values(|y: Socket| y@).lemma_push_to_set_commute(s@[i as int]@);
            assert(pre.push(s@[i as int]).map_values(|y: Socket| y@) =~= pre.map_values(
                |y: Socket| y@,
            ).push(s@[i as int]@));
        }
        if !contains_socket(remove, &s[i]) && !contains_socket(&r, &s[i]) {
            r.push(s[i].copy());
            proof {
                before.map_values(|y: Socket| y@).lemma_push_to_set_commute(s@[i as int]@);
                assert(r@.map_values(|y: Socket| y@) =~= before.map_values(|y: Socket| y@).push(
                    s@[i as int]@,
                ));
                assert forall|a: int, b: int| 0 <= a < b < r@.len() implies r@[a]@ != r@[b]@ by {
                    if b == r@.len() - 1 {
                        assert(before.map_values(|y: Socket| y@)[a] == before[a]@);
                    }
                }
            }
        }
        assert(socket_set(r@) =~= socket_set(s@.subrange(0, i as int + 1)).difference(
            socket_set(remove@),
        ));
        i += 1;
    }
    assert(s@.subrange(0, s@.len() as int) =~= s@);
    r
}

/// The sockets of `s` without repeats.
fn dedup(s: Vec<Socket>) -> (r: Vec<Socket>)
    ensures
        socket_set(r@) == socket_set(s@),
        sockets_distinct(r@),
{
    let none: Vec<Socket> = Vec::new();
    let r = difference(&s, &none);
    assert(socket_set(none@) =~= Set::<(Seq<char>, Seq<char>)>::empty());
    assert(socket_set(r@) =~= socket_set(s@));
    r
}

/// The sets of input and output sockets of a node.
pub struct NodeShape {
    inputs: Vec<Socket>,
    outputs: Vec<Socket>,
}

impl NodeShape {
    pub closed spec fn spec_inputs(&self) -> Seq<Socket> {
        self.inputs@
    }

    pub closed spec fn spec_outputs(&self) -> Seq<Socket> {
        self.outputs@
    }

    /// Each set holds a socket at most once.
    pub open spec fn wf(&self) -> bool {
        sockets_distinct(self.spec_inputs()) && sockets_distinct(self.spec_outputs())
    }

    pub open spec fn input_set(&self) -> Set<(Seq<char>, Seq<char>)> {
        socket_set(self.spec_inputs())
    }

    pub open spec fn output_set(&self) -> Set<(Seq<char>, Seq<char>)> {
        socket_set(self.spec_outputs())
    }

    /// A shape with no sockets.
    pub fn new() -> (r: NodeShape)
        ensures
            r.wf(),
            r.input_set() == Set::<(Seq<char>, Seq<char>)>::empty(),
            r.output_set() == Set::<(Seq<char>, Seq<char>)>::empty(),
    {
        let r = NodeShape { inputs: Vec::new(), outputs: Vec::new() };
        assert(r.input_set() =~= Set::<(Seq<char>, Seq<char>)>::empty());
        assert(r.output_set() =~= Set::<(Seq<char>, Seq<char>)>::empty());
        r
    }

    /// A shape with the given sockets, each kept once.
    pub fn with_sockets(inputs: Vec<Socket>, outputs: Vec<Socket>) -> (r: NodeShape)
        ensures
            r.wf(),
            r.input_set() == socket_set(inputs@),
            r.output_set() == socket_set(outputs@),
    {
        NodeShape { inputs: dedup(inputs), outputs: dedup(outputs) }
    }

    /// Drops the inputs that `other` produces as outputs.
    pub fn attach(&mut self, other: &NodeShape)
        requires
            old(self).wf(),
        ensures
            final(self).wf(),
            final(self).input_set() == old(self).input_set().difference(other.output_set()),
            final(self).output_set() == old(self).output_set(),
    {
        self.inputs = difference(&self.inputs, &other.outputs);
    }

    pub fn inputs(&self) -> (r: &[Socket])
        ensures
            r@ == self.spec_inputs(),
    {
        self.inputs.as_slice()
    }

    pub fn outputs(&self) -> (r: &[Socket])
        ensures
            r@ == self.spec_outputs(),
    {
        self.outputs.as_slice()
    }

    /// The input socket named `name`; the input must exist.
    pub fn input(&self, name: &str) -> (r: &Socket)
        requires
            has_name(self.input_set(), name@),
        ensures
            self.input_set().contains(r@),
            r@.0 == name@,
    {
        match find_by(&self.inputs, name, true) {
            Some(s) => s,
            None => {
                proof {
                    let p = choose|p: Seq<char>| self.input_set().contains((name@, p));
                    lemma_in_set(self.inputs@, (name@, p));
                }
                &self.inputs[0]
            },
        }
    }

    /// An input socket named `name`.
    pub fn get_input(&self, name: &str) -> (r: Option<&Socket>)
        ensures
            r is None <==> !has_name(self.input_set(), name@),
            r matches Some(s) ==> self.input_set().contains(s@) && s@.0 == name@,
    {
        find_set(&self.inputs, name, true)
    }

    /// The input socket on port `port`; the input must exist.
    pub fn input_for_port(&self, port: &str) -> (r: &Socket)
        requires
            has_port(self.input_set(), port@),
        ensures
            self.input_set().contains(r@),
            r@.1 == port@,
    {
        match find_by(&self.inputs, port, false) {
            Some(s) => s,
            None => {
                proof {
                    let n = choose|n: Seq<char>| self.input_set().contains((n, port@));
                    lemma_in_set(self.inputs@, (n, port@));
                }
                &self.inputs[0]
            },
        }
    }

    /// An input socket on port `port`.
    pub fn get_input_for_port(&self, port: &str) -> (r: Option<&Socket>)
        ensures
            r is None <==> !has_port(self.input_set(), port@),
            r matches Some(s) ==> self.input_set().contains(s@) && s@.1 == port@,
    {
        find_set(&self.inputs, port, false)
    }

    /// The output socket named `name`; the output must exist.
    pub fn output(&self, name: &str) -> (r: &Socket)
        requires
            has_name(self.output_set(), name@),
        ensures
            self.output_set().contains(r@),
            r@.0 == name@,
    {
        match find_by(&self.outputs, name, true) {
            Some(s) => s,
            None => {
                proof {
                    let p = choose|p: Seq<char>| self.output_set().contains((name@, p));
                    lemma_in_set(self.outputs@, (name@, p));
                }
                &self.outputs[0]
            },
        }
    }

    /// An output socket named `name`.
    pub fn get_output(&self, name: &str) -> (r: Option<&Socket>)
        ensures
            r is None <==> !has_name(self.output_set(), name@),
            r matches Some(s) ==> self.output_set().contains(s@) && s@.0 == name@,
    {
        find_set(&self.outputs, name, true)
    }

    /// The output socket on port `port`; the output must exist.
    pub fn output_for_port(&self, port: &str) -> (r: &Socket)
        requires
            has_port(self.output_set(), port@),
        ensures
            self.output_set().contains(r@),
            r@.1 == port@,
    {
        match find_by(&self.outputs, port, false) {
            Some(s) => s,
            None => {
                proof {
                    let n = choose|n: Seq<char>| self.output_set().contains((n, port@));
                    lemma_in_set(self.outputs@, (n, port@));
                }
                &self.outputs[0]
            },
        }
    }

    /// An output socket on port `port`.
    pub fn get_output_for_port(&self, port: &str) -> (r: Option<&Socket>)
        ensures
            r is None <==> !has_port(self.output_set(), port@),
            r matches Some(s) ==> self.output_set().contains(s@) && s@.1 == port@,
    {
        find_set(&self.outputs, port, false)
    }
}

/// `key` is the name (`by_name`) or the port of the socket.
pub open spec fn key_of(x: (Seq<char>, Seq<char>), by_name: bool) -> Seq<char> {
    if by_name {
        x.0
    } else {
        x.1
    }
}

proof fn lemma_in_set(s: Seq<Socket>, x: (Seq<char>, Seq<char>))
    requires
        socket_set(s).contains(x),
    ensures
        exists|i: int| 0 <= i < s.len() && s[i]@ == x,
{
    let m = s.map_values(|y: Socket| y@);
    let k = choose|k: int| 0 <= k < m.len() && #[trigger] m[k] == x;
    assert(s[k]@ == x);
}

fn find_by<'a>(s: &'a Vec<Socket>, key: &str, by_name: bool) -> (r: Option<&'a Socket>)
    ensures
        r is None ==> forall|i: int| 0 <= i < s@.len() ==> key_of(#[trigger] s@[i]@, by_name) != key@,
        r matches Some(x) ==> socket_set(s@).contains(x@) && key_of(x@, by_name) == key@,
{
    let mut i: usize = 0;
    while i < s.len()
        invariant
            i <= s@.len(),
            forall|j: int| 0 <= j < i ==> key_of(#[trigger] s@[j]@, by_name) != key@,
        decreases s@.len() - i,
    {
        let k = if by_name {
            s[i].name()
        } else {
            s[i].port()
        };
        if str_eq(k, key) {
            assert(s@.map_values(|y: Socket| y@)[i as int] == s@[i as int]@);
            return Some(&s[i]);
        }
        i += 1;
    }
    None
}

/// Some socket of the set is named `name`.
pub open spec fn has_name(set: Set<(Seq<char>, Seq<char>)>, name: Seq<char>) -> bool {
    exists|p: Seq<char>| set.contains((name, p))
}

/// Some socket of the set is on port `port`.
pub open spec fn has_port(set: Set<(Seq<char>, Seq<char>)>, port: Seq<char>) -> bool {
    exists|n: Seq<char>| set.contains((n, port))
}

fn find_set<'a>(s: &'a Vec<Socket>, key: &str, by_name: bool) -> (r: Option<&'a Socket>)
    ensures
        r is None <==> !(if by_name {
            has_name(socket_set(s@), key@)
        } else {
            has_port(socket_set(s@), key@)
        }),
        r matches Some(x) ==> socket_set(s@).contains(x@) && key_of(x@, by_name) == key@,
{
    let r = find_by(s, key, by_name);
    proof {
        if r is None {
            if by_name {
                assert forall|o: Seq<char>| !socket_set(s@).contains((key@, o)) by {
                    if socket_set(s@).contains((key@, o)) {
                        lemma_in_set(s@, (key@, o));
                        let i = choose|i: int| 0 <= i < s@.len() && s@[i]@ == (key@, o);
                        assert(key_of(s@[i]@, by_name) != key@);
                    }
                }
            } else {
                assert forall|o: Seq<char>| !socket_set(s@).contains((o, key@)) by {
                    if socket_set(s@).contains((o, key@)) {
                        lemma_in_set(s@, (o, key@));
                        let i = choose|i: int| 0 <= i < s@.len() && s@[i]@ == (o, key@);
                        assert(key_of(s@[i]@, by_name) != key@);
                    }
                }
            }
        } else {
            let x = r->0@;
            if by_name {
                assert(x == (key@, x.1));
            } else {
                assert(x == (x.0, key@));
            }
        }
    }
    r
}

/// A node of a graph: a name and a shape.
pub trait Node {
    fn name(&self) -> &str;

    fn shape(&self) -> &NodeShape;
}

/// A named graph of nodes with a shape of its own.
pub struct Graph<N> {
    name: String,
    shape: NodeShape,
    nodes: Vec<N>,
}

impl<N> Graph<N> {
    pub closed spec fn spec_name(&self) -> Seq<char> {
        self.name@
    }

    pub closed spec fn spec_nodes(&self) -> Seq<N> {
        self.nodes@
    }

    /// An empty graph.
    pub fn new(name: String) -> (r: Graph<N>)
        ensures
            r.spec_name() == name@,
            r.spec_nodes().len() == 0,
    {
        Graph { name, shape: NodeShape::new(), nodes: Vec::new() }
    }

    pub fn nodes(&self) -> (r: &Vec<N>)
        ensures
            r@ == self.spec_nodes(),
    {
        &self.nodes
    }

    /// Adds a node at the end.
    pub fn add_node(&mut self, node: N)
        ensures
            final(self).spec_nodes() == old(self).spec_nodes().push(node),
            final(self).spec_name() == old(self).spec_name(),
    {
        self.nodes.push(node);
    }
}

impl<N> Node for Graph<N> {
    fn name(&self) -> &str {
        self.name.as_str()
    }

    fn shape(&self) -> &NodeShape {
        &self.shape
    }
}

} // verus!
