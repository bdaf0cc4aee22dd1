//! The abstract syntax tree and its mathematical image.

use vstd::prelude::*;

verus! {

broadcast use vstd::std_specs::vec::group_vec_axioms;

/// One element of the abstract syntax tree. Every non-leaf variant owns its
/// children exclusively, so every value is a finite tree.
#[derive(Debug, PartialEq)]
pub enum Node {
    /// An integer literal.
    Number(i32),
    Add(Box<Node>, Box<Node>),
    Subtract(Box<Node>, Box<Node>),
    Multiply(Box<Node>, Box<Node>),
    Divide(Box<Node>, Box<Node>),
    /// A delay instruction; the duration in seconds is a literal fixed at
    /// parse time.
    Wait(i32),
    /// Evaluate the argument and emit its value as one line of output.
    Print(Box<Node>),
    /// An ordered statement list; the value of the list is the value of its
    /// last entry, or zero when it is empty.
    Sequence(Vec<Node>),
    /// Bind a name to the value of the expression, overwriting any earlier
    /// binding of the same name.
    VariableDeclaration(String, Box<Node>),
    /// A reference to a previously declared binding.
    Variable(String),
}

/// The mathematical image of a [`Node`]: names are character sequences and
/// statement lists are sequences.
pub enum NodeV {
    Number(i32),
    Add(Box<NodeV>, Box<NodeV>),
    Subtract(Box<NodeV>, Box<NodeV>),
    Multiply(Box<NodeV>, Box<NodeV>),
    Divide(Box<NodeV>, Box<NodeV>),
    Wait(i32),
    Print(Box<NodeV>),
    Sequence(Seq<NodeV>),
    VariableDeclaration(Seq<char>, Box<NodeV>),
    Variable(Seq<char>),
}

/// The image of a node, taken recursively through its children.
pub open spec fn node_view(n: Node) -> NodeV
    decreases n,
{
    match n {
        Node::Number(v) => NodeV::Number(v),
        Node::Add(l, r) => NodeV::Add(Box::new(node_view(*l)), Box::new(node_view(*r))),
        Node::Subtract(l, r) => NodeV::Subtract(Box::new(node_view(*l)), Box::new(node_view(*r))),
        Node::Multiply(l, r) => NodeV::Multiply(Box::new(node_view(*l)), Box::new(node_view(*r))),
        Node::Divide(l, r) => NodeV::Divide(Box::new(node_view(*l)), Box::new(node_view(*r))),
        Node::Wait(v) => NodeV::Wait(v),
        Node::Print(e) => NodeV::Print(Box::new(node_view(*e))),
        Node::Sequence(items) => NodeV::Sequence(
            Seq::new(
                items@.len(),
                |i: int|
                    if 0 <= i < items@.len() {
                        node_view(items@[i])
                    } else {
                        NodeV::Number(0)
                    },
            ),
        ),
        Node::VariableDeclaration(name, e) => NodeV::VariableDeclaration(
            name@,
            Box::new(node_view(*e)),
        ),
        Node::Variable(name) => NodeV::Variable(name@),
    }
}

impl View for Node {
    type V = NodeV;

    open spec fn view(&self) -> NodeV {
        node_view(*self)
    }
}

/// The image of a list of nodes, element by element.
pub open spec fn nodes_view(ns: Seq<Node>) -> Seq<NodeV> {
    ns.map_values(|n: Node| n@)
}

/// Pushing a node commutes with taking the image of the list.
pub broadcast proof fn lemma_nodes_view_push(ns: Seq<Node>, n: Node)
    ensures
        #[trigger] nodes_view(ns.push(n)) == nodes_view(ns).push(n@),
{
    assert(nodes_view(ns.push(n)) =~= nodes_view(ns).push(n@));
}

/// The image of a `Sequence` node is the image of its statement list.
pub broadcast proof fn lemma_sequence_view(items: Vec<Node>)
    ensures
        #[trigger] node_view(Node::Sequence(items)) == NodeV::Sequence(nodes_view(items@)),
{
    let ghost image = node_view(Node::Sequence(items));
    assert(image is Sequence);
    assert(image->Sequence_0 =~= nodes_view(items@));
}

} // verus!
