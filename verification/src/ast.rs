use vstd::prelude::*;

verus! {

/// A node of the abstract syntax tree.  `Program` is the whole-file unit;
/// the remaining variants are the statement and expression shapes that the
/// parser emits.
#[derive(Debug)]
pub enum Node {
    Program(Vec<Node>),
    VarDeclaration { name: String, var_type: String, value: Box<Node> },
    Assignment { name: String, value: Box<Node> },
    Identifier(String),
    StringLiteral(String),
    NumberLiteral(i64),
    Boolean(bool),
    Bugatti,
    Print(Box<Node>),
    GoOutside { condition: Box<Node>, then_branch: Box<Node>, else_branch: Option<Box<Node>> },
    Block(Vec<Node>),
    WhileLoop { condition: Box<Node>, body: Box<Node> },
    BinaryOp { left: Box<Node>, operator: Operator, right: Box<Node> },
}

/// The binary operators of the language.
#[derive(Debug, Clone, Copy, PartialEq, Eq, Structural)]
pub enum Operator {
    GreaterThan,
    LessThan,
    Equals,
    Plus,
    Minus,
}

/// Mathematical model of a syntax tree: the same shapes as `Node`, with
/// string payloads abstracted to character sequences and child lists to
/// sequences.
pub enum NodeModel {
    Program(Seq<NodeModel>),
    VarDeclaration { name: Seq<char>, var_type: Seq<char>, value: Box<NodeModel> },
    Assignment { name: Seq<char>, value: Box<NodeModel> },
    Identifier(Seq<char>),
    StringLiteral(Seq<char>),
    NumberLiteral(i64),
    Boolean(bool),
    Bugatti,
    Print(Box<NodeModel>),
    GoOutside {
        condition: Box<NodeModel>,
        then_branch: Box<NodeModel>,
        else_branch: Option<Box<NodeModel>>,
    },
    Block(Seq<NodeModel>),
    WhileLoop { condition: Box<NodeModel>, body: Box<NodeModel> },
    BinaryOp { left: Box<NodeModel>, operator: Operator, right: Box<NodeModel> },
}

/// The model of a syntax tree node.
pub open spec fn node_model(n: &Node) -> NodeModel
    decreases n,
{
    match n {
        Node::Program(stmts) => NodeModel::Program(node_models(stmts@)),
        Node::VarDeclaration { name, var_type, value } => NodeModel::VarDeclaration {
            name: name@,
            var_type: var_type@,
            value: Box::new(node_model(value)),
        },
        Node::Assignment { name, value } => NodeModel::Assignment {
            name: name@,
            value: Box::new(node_model(value)),
        },
        Node::Identifier(name) => NodeModel::Identifier(name@),
        Node::StringLiteral(s) => NodeModel::StringLiteral(s@),
        Node::NumberLiteral(v) => NodeModel::NumberLiteral(*v),
        Node::Boolean(b) => NodeModel::Boolean(*b),
        Node::Bugatti => NodeModel::Bugatti,
        Node::Print(e) => NodeModel::Print(Box::new(node_model(e))),
        Node::GoOutside { condition, then_branch, else_branch } => NodeModel::GoOutside {
            condition: Box::new(node_model(condition)),
            then_branch: Box::new(node_model(then_branch)),
            else_branch: match else_branch {
                Some(e) => Some(Box::new(node_model(e))),
                None => None,
            },
        },
        Node::Block(stmts) => NodeModel::Block(node_models(stmts@)),
        Node::WhileLoop { condition, body } => NodeModel::WhileLoop {
            condition: Box::new(node_model(condition)),
            body: Box::new(node_model(body)),
        },
        Node::BinaryOp { left, operator, right } => NodeModel::BinaryOp {
            left: Box::new(node_model(left)),
            operator: *operator,
            right: Box::new(node_model(right)),
        },
    }
}

/// The models of a sequence of syntax tree nodes, in order.
pub open spec fn node_models(s: Seq<Node>) -> Seq<NodeModel>
    decreases s,
{
    if s.len() == 0 {
        Seq::empty()
    } else {
        seq![node_model(&s[0])] + node_models(s.drop_first())
    }
}

/// The model of an optional node, as returned by the statement parsers.
pub open spec fn opt_node_model(r: Option<Node>) -> Option<NodeModel> {
    match r {
        Some(n) => Some(node_model(&n)),
        None => None,
    }
}

/// Appending a node appends its model.
pub proof fn lemma_node_models_push(s: Seq<Node>, x: &Node)
    ensures
        node_models(s.push(*x)) == node_models(s) + seq![node_model(x)],
{
    lemma_node_models(s.push(*x));
    lemma_node_models(s);
    assert(s.push(*x)[s.len() as int] == *x);
    assert(node_models(s.push(*x)) =~= node_models(s) + seq![node_model(x)]);
}

/// `node_models` maps a sequence pointwise.
pub proof fn lemma_node_models(s: Seq<Node>)
    ensures
        node_models(s).len() == s.len(),
        forall|i: int| 0 <= i < s.len() ==> node_models(s)[i] == node_model(&s[i]),
    decreases s.len(),
{
    if s.len() > 0 {
        lemma_node_models(s.drop_first());
    }
}

} // verus!
