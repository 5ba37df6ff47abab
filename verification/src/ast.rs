use vstd::prelude::*;

verus! {

/// A binary operator of the language.
#[derive(Clone, Copy, PartialEq, Eq, Structural, Debug)]
pub enum Operator {
    Plus,
    Minus,
    Mult,
    Div,
    Pow,
}

/// One node of the abstract syntax tree. A numeric literal keeps its source
/// text; it is turned into a floating-point value only by the host, outside
/// the library.
#[derive(Debug, PartialEq)]
pub enum Node {
    Number(String),
    Expr(Box<Node>, Operator, Box<Node>),
    Function(String, Box<Node>),
    Const(String),
    AssignConst(String, Box<Node>),
    AssignFunc(String, String, Box<Node>),
}

/// The mathematical model of a syntax tree.
pub enum NodeV {
    Number(Seq<char>),
    Expr(Box<NodeV>, Operator, Box<NodeV>),
    Function(Seq<char>, Box<NodeV>),
    Const(Seq<char>),
    AssignConst(Seq<char>, Box<NodeV>),
    AssignFunc(Seq<char>, Seq<char>, Box<NodeV>),
}

pub open spec fn node_view(n: Node) -> NodeV
    decreases n,
{
    match n {
        Node::Number(s) => NodeV::Number(s@),
        Node::Expr(l, op, r) => NodeV::Expr(Box::new(node_view(*l)), op, Box::new(node_view(*r))),
        Node::Function(name, arg) => NodeV::Function(name@, Box::new(node_view(*arg))),
        Node::Const(name) => NodeV::Const(name@),
        Node::AssignConst(name, e) => NodeV::AssignConst(name@, Box::new(node_view(*e))),
        Node::AssignFunc(name, param, body) => NodeV::AssignFunc(
            name@,
            param@,
            Box::new(node_view(*body)),
        ),
    }
}

impl View for Node {
    type V = NodeV;

    open spec fn view(&self) -> NodeV {
        node_view(*self)
    }
}

/// An expression is assignment-free: the grammar only admits assignment forms
/// at the root of a line, never nested inside an expression.
pub open spec fn expr_wf(n: NodeV) -> bool
    decreases n,
{
    match n {
        NodeV::Number(_) => true,
        NodeV::Expr(l, _, r) => expr_wf(*l) && expr_wf(*r),
        NodeV::Function(_, arg) => expr_wf(*arg),
        NodeV::Const(_) => true,
        NodeV::AssignConst(_, _) => false,
        NodeV::AssignFunc(_, _, _) => false,
    }
}

impl Clone for Node {
    /// A deep copy with the same model.
    fn clone(&self) -> (r: Node)
        ensures
            r@ == self@,
        decreases self,
    {
        match self {
            Node::Number(s) => Node::Number(s.clone()),
            Node::Expr(l, op, r) => Node::Expr(Box::new((**l).clone()), *op, Box::new((**r).clone())),
            Node::Function(name, arg) => Node::Function(name.clone(), Box::new((**arg).clone())),
            Node::Const(name) => Node::Const(name.clone()),
            Node::AssignConst(name, e) => Node::AssignConst(name.clone(), Box::new((**e).clone())),
            Node::AssignFunc(name, param, body) => Node::AssignFunc(
                name.clone(),
                param.clone(),
                Box::new((**body).clone()),
            ),
        }
    }
}

} // verus!
