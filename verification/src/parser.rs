use vstd::prelude::*;
use crate::token::{Token, TokenModel};
use crate::ast::{Node, NodeModel, Operator, node_model, node_models, opt_node_model, lemma_node_models_push};

verus! {

broadcast use {
    vstd::prelude::Seq::add_empty_left,
    vstd::prelude::Seq::add_empty_right,
    vstd::prelude::Seq::lemma_push_map_commute,
    crate::value::lemma_out_assoc,
    crate::value::lemma_push_one,
};

// ---------------------------------------------------------------------------
// The grammar, as functions over the token stream.
//
// Every parsing function takes the token sequence and a position and
// returns the parsed node (or none, on a malformed shape) together with
// the position it stopped at.  The parsers never rewind: positions only
// grow, and they never pass the end of the stream.
// ---------------------------------------------------------------------------

/// The token at `pos`, if any.
pub open spec fn tok_at(toks: Seq<TokenModel>, pos: int) -> Option<TokenModel> {
    if 0 <= pos < toks.len() {
        Some(toks[pos])
    } else {
        None
    }
}

/// One position forward, stopping at the end of the stream.
pub open spec fn spec_advance(len: int, pos: int) -> int {
    if pos < len {
        pos + 1
    } else {
        pos
    }
}

/// `p` clamped into `lo..=hi`; the parsing functions below use it to keep
/// positions inside the stream, which keeps their recursion well-founded.
pub open spec fn step_pos(p: int, lo: int, hi: int) -> int {
    if p < lo {
        lo
    } else if p > hi {
        hi
    } else {
        p
    }
}

/// A primary expression: a literal, a boolean keyword, the null keyword,
/// or an identifier.  Anything else yields no node and is consumed.
pub open spec fn spec_factor(toks: Seq<TokenModel>, pos: int) -> (Option<NodeModel>, int) {
    match tok_at(toks, pos) {
        None => (None, pos),
        Some(t) => match t {
            TokenModel::Number(n) => (Some(NodeModel::NumberLiteral(n)), pos + 1),
            TokenModel::String(s) => (Some(NodeModel::StringLiteral(s)), pos + 1),
            TokenModel::Cap => (Some(NodeModel::Boolean(false)), pos + 1),
            TokenModel::NoCap => (Some(NodeModel::Boolean(true)), pos + 1),
            TokenModel::Bugatti => (Some(NodeModel::Bugatti), pos + 1),
            TokenModel::Identifier(name) => (Some(NodeModel::Identifier(name)), pos + 1),
            _ => (None, pos + 1),
        },
    }
}

proof fn lemma_factor_bounds(toks: Seq<TokenModel>, pos: int)
    requires
        0 <= pos <= toks.len(),
    ensures
        ({
            let (n, p) = spec_factor(toks, pos);
            pos <= p <= toks.len() && (n is Some ==> p == pos + 1)
        }),
{
}

/// The additive tail: as long as a `+` or `-` follows, parse another
/// factor and fold it into a left-leaning tree.
pub open spec fn spec_term_more(toks: Seq<TokenModel>, pos: int, left: NodeModel) -> (
    Option<NodeModel>,
    int,
)
    decreases toks.len() - pos,
    via spec_term_more_decreases
{
    if tok_at(toks, pos) == Some(TokenModel::Plus) || tok_at(toks, pos) == Some(
        TokenModel::Minus,
    ) {
        let op = if tok_at(toks, pos) == Some(TokenModel::Plus) {
            Operator::Plus
        } else {
            Operator::Minus
        };
        let (f, p2) = spec_factor(toks, pos + 1);
        match f {
            None => (None, p2),
            Some(right) => spec_term_more(
                toks,
                p2,
                NodeModel::BinaryOp {
                    left: Box::new(left),
                    operator: op,
                    right: Box::new(right),
                },
            ),
        }
    } else {
        (Some(left), pos)
    }
}

#[via_fn]
proof fn spec_term_more_decreases(toks: Seq<TokenModel>, pos: int, left: NodeModel) {
    if tok_at(toks, pos) == Some(TokenModel::Plus) || tok_at(toks, pos) == Some(
        TokenModel::Minus,
    ) {
        lemma_factor_bounds(toks, pos + 1);
    }
}

/// A term: a factor followed by the additive tail.
pub open spec fn spec_term(toks: Seq<TokenModel>, pos: int) -> (Option<NodeModel>, int) {
    let (f, p) = spec_factor(toks, pos);
    match f {
        None => (None, p),
        Some(left) => spec_term_more(toks, p, left),
    }
}

proof fn lemma_term_more_bounds(toks: Seq<TokenModel>, pos: int, left: NodeModel)
    requires
        0 <= pos <= toks.len(),
    ensures
        ({
            let (n, p) = spec_term_more(toks, pos, left);
            pos <= p <= toks.len()
        }),
    decreases toks.len() - pos,
{
    if tok_at(toks, pos) == Some(TokenModel::Plus) || tok_at(toks, pos) == Some(
        TokenModel::Minus,
    ) {
        lemma_factor_bounds(toks, pos + 1);
        let (f, p2) = spec_factor(toks, pos + 1);
        match f {
            None => {},
            Some(right) => {
                let op = if tok_at(toks, pos) == Some(TokenModel::Plus) {
                    Operator::Plus
                } else {
                    Operator::Minus
                };
                lemma_term_more_bounds(
                    toks,
                    p2,
                    NodeModel::BinaryOp {
                        left: Box::new(left),
                        operator: op,
                        right: Box::new(right),
                    },
                );
            },
        }
    }
}

proof fn lemma_term_bounds(toks: Seq<TokenModel>, pos: int)
    requires
        0 <= pos <= toks.len(),
    ensures
        ({
            let (n, p) = spec_term(toks, pos);
            pos <= p <= toks.len() && (n is Some ==> p >= pos + 1)
        }),
{
    lemma_factor_bounds(toks, pos);
    let (f, p1) = spec_factor(toks, pos);
    match f {
        None => {},
        Some(left) => {
            lemma_term_more_bounds(toks, p1, left);
        },
    }
}

/// The comparison tail: as long as a `>`, `<` or `=` follows, parse
/// another term and fold it into a left-leaning tree.  All three share one
/// precedence level.
pub open spec fn spec_comparison_more(toks: Seq<TokenModel>, pos: int, left: NodeModel) -> (
    Option<NodeModel>,
    int,
)
    decreases toks.len() - pos,
    via spec_comparison_more_decreases
{
    let t = tok_at(toks, pos);
    if t == Some(TokenModel::GreaterThan) || t == Some(TokenModel::LessThan) || t == Some(
        TokenModel::Equals,
    ) {
        let op = if t == Some(TokenModel::GreaterThan) {
            Operator::GreaterThan
        } else if t == Some(TokenModel::LessThan) {
            Operator::LessThan
        } else {
            Operator::Equals
        };
        let (f, p2) = spec_term(toks, pos + 1);
        match f {
            None => (None, p2),
            Some(right) => spec_comparison_more(
                toks,
                p2,
                NodeModel::BinaryOp {
                    left: Box::new(left),
                    operator: op,
                    right: Box::new(right),
                },
            ),
        }
    } else {
        (Some(left), pos)
    }
}

#[via_fn]
proof fn spec_comparison_more_decreases(toks: Seq<TokenModel>, pos: int, left: NodeModel) {
    let t = tok_at(toks, pos);
    if t == Some(TokenModel::GreaterThan) || t == Some(TokenModel::LessThan) || t == Some(
        TokenModel::Equals,
    ) {
        lemma_term_bounds(toks, pos + 1);
    }
}

/// A comparison: a term followed by the comparison tail.
pub open spec fn spec_comparison(toks: Seq<TokenModel>, pos: int) -> (Option<NodeModel>, int) {
    let (f, p) = spec_term(toks, pos);
    match f {
        None => (None, p),
        Some(left) => spec_comparison_more(toks, p, left),
    }
}

proof fn lemma_comparison_more_bounds(toks: Seq<TokenModel>, pos: int, left: NodeModel)
    requires
        0 <= pos <= toks.len(),
    ensures
        ({
            let (n, p) = spec_comparison_more(toks, pos, left);
            pos <= p <= toks.len()
        }),
    decreases toks.len() - pos,
{
    let t = tok_at(toks, pos);
    if t == Some(TokenModel::GreaterThan) || t == Some(TokenModel::LessThan) || t == Some(
        TokenModel::Equals,
    ) {
        lemma_term_bounds(toks, pos + 1);
        let (f, p2) = spec_term(toks, pos + 1);
        match f {
            None => {},
            Some(right) => {
                let op = if t == Some(TokenModel::GreaterThan) {
                    Operator::GreaterThan
                } else if t == Some(TokenModel::LessThan) {
                    Operator::LessThan
                } else {
                    Operator::Equals
                };
                lemma_comparison_more_bounds(
                    toks,
                    p2,
                    NodeModel::BinaryOp {
                        left: Box::new(left),
                        operator: op,
                        right: Box::new(right),
                    },
                );
            },
        }
    }
}

/// An expression is a comparison.
pub open spec fn spec_expression(toks: Seq<TokenModel>, pos: int) -> (Option<NodeModel>, int) {
    spec_comparison(toks, pos)
}

proof fn lemma_expression_bounds(toks: Seq<TokenModel>, pos: int)
    requires
        0 <= pos <= toks.len(),
    ensures
        ({
            let (n, p) = spec_expression(toks, pos);
            pos <= p <= toks.len() && (n is Some ==> p >= pos + 1)
        }),
{
    lemma_term_bounds(toks, pos);
    let (f, p1) = spec_term(toks, pos);
    match f {
        None => {},
        Some(left) => {
            lemma_comparison_more_bounds(toks, p1, left);
        },
    }
}

/// A variable declaration: the declaration verb (already at `pos`), the
/// `number` type tag, the name, `as`, and the value expression.
pub open spec fn spec_var_declaration(toks: Seq<TokenModel>, pos: int) -> (
    Option<NodeModel>,
    int,
) {
    let p1 = pos + 1;
    if tok_at(toks, p1) != Some(TokenModel::NumberType) {
        (None, p1)
    } else {
        let p2 = p1 + 1;
        match tok_at(toks, p2) {
            Some(TokenModel::Identifier(name)) => {
                let p3 = p2 + 1;
                if tok_at(toks, p3) != Some(TokenModel::As) {
                    (None, p3)
                } else {
                    let (v, p4) = spec_expression(toks, p3 + 1);
                    match v {
                        None => (None, p4),
                        Some(value) => (
                            Some(
                                NodeModel::VarDeclaration {
                                    name,
                                    var_type: "number"@,
                                    value: Box::new(value),
                                },
                            ),
                            p4,
                        ),
                    }
                }
            },
            _ => (None, p2),
        }
    }
}

/// A print statement: the keyword (already at `pos`) and an expression.
pub open spec fn spec_print(toks: Seq<TokenModel>, pos: int) -> (Option<NodeModel>, int) {
    let (e, p) = spec_expression(toks, pos + 1);
    match e {
        None => (None, p),
        Some(x) => (Some(NodeModel::Print(Box::new(x))), p),
    }
}

/// An assignment: the assignment verb (already at `pos`), the name, `to`,
/// and the value expression.
pub open spec fn spec_assignment(toks: Seq<TokenModel>, pos: int) -> (Option<NodeModel>, int) {
    let p1 = pos + 1;
    match tok_at(toks, p1) {
        Some(TokenModel::Identifier(name)) => {
            let p2 = p1 + 1;
            if tok_at(toks, p2) != Some(TokenModel::To) {
                (None, p2)
            } else {
                let (v, p3) = spec_expression(toks, p2 + 1);
                match v {
                    None => (None, p3),
                    Some(value) => (
                        Some(NodeModel::Assignment { name, value: Box::new(value) }),
                        p3,
                    ),
                }
            }
        },
        _ => (None, p1),
    }
}

/// A statement, dispatched on its first token.  A token that starts no
/// statement yields no node and stays put; the callers skip it.
pub open spec fn spec_statement(toks: Seq<TokenModel>, pos: int) -> (Option<NodeModel>, int)
    decreases toks.len() - pos, 2int,
{
    match tok_at(toks, pos) {
        Some(TokenModel::TouchGrass) => spec_var_declaration(toks, pos),
        Some(TokenModel::Print) => spec_print(toks, pos),
        Some(TokenModel::Go) => spec_go_outside(toks, pos),
        Some(TokenModel::Assign) => spec_assignment(toks, pos),
        Some(TokenModel::While) => spec_while_loop(toks, pos),
        _ => (None, pos),
    }
}

/// A conditional: `go outside if` (with `go` already at `pos`), the
/// condition, `then`, a block, and optionally `instead` with an else
/// block.
pub open spec fn spec_go_outside(toks: Seq<TokenModel>, pos: int) -> (Option<NodeModel>, int)
    decreases toks.len() - pos, 1int,
{
    let p1 = pos + 1;
    if tok_at(toks, p1) != Some(TokenModel::Outside) {
        (None, p1)
    } else {
        let p2 = p1 + 1;
        if tok_at(toks, p2) != Some(TokenModel::If) {
            (None, p2)
        } else {
            let (c, p3) = spec_expression(toks, p2 + 1);
            match c {
                None => (None, p3),
                Some(condition) => {
                    if tok_at(toks, p3) != Some(TokenModel::Then) {
                        (None, p3)
                    } else {
                        let (thn, p4) = spec_block_stmts(
                            toks,
                            step_pos(p3 + 1, pos + 1, toks.len() as int),
                        );
                        if tok_at(toks, p4) == Some(TokenModel::Instead) {
                            let (els, p5) = spec_block_stmts(
                                toks,
                                step_pos(p4 + 1, pos + 1, toks.len() as int),
                            );
                            (
                                Some(
                                    NodeModel::GoOutside {
                                        condition: Box::new(condition),
                                        then_branch: Box::new(NodeModel::Block(thn)),
                                        else_branch: Some(Box::new(NodeModel::Block(els))),
                                    },
                                ),
                                p5,
                            )
                        } else {
                            (
                                Some(
                                    NodeModel::GoOutside {
                                        condition: Box::new(condition),
                                        then_branch: Box::new(NodeModel::Block(thn)),
                                        else_branch: None,
                                    },
                                ),
                                p4,
                            )
                        }
                    }
                },
            }
        }
    }
}

/// A while loop: the keyword (already at `pos`), the condition, `then`,
/// and the body block.
pub open spec fn spec_while_loop(toks: Seq<TokenModel>, pos: int) -> (Option<NodeModel>, int)
    decreases toks.len() - pos, 1int,
{
    let (c, p1) = spec_expression(toks, pos + 1);
    match c {
        None => (None, p1),
        Some(condition) => {
            if tok_at(toks, p1) != Some(TokenModel::Then) {
                (None, p1)
            } else {
                let (body, p2) = spec_block_stmts(
                    toks,
                    step_pos(p1 + 1, pos + 1, toks.len() as int),
                );
                (
                    Some(
                        NodeModel::WhileLoop {
                            condition: Box::new(condition),
                            body: Box::new(NodeModel::Block(body)),
                        },
                    ),
                    p2,
                )
            }
        },
    }
}

/// The statements of a block: statements up to a block-end marker, which
/// is consumed, or the end of the stream, which is tolerated.  A token
/// that parses as no statement is skipped.
pub open spec fn spec_block_stmts(toks: Seq<TokenModel>, pos: int) -> (Seq<NodeModel>, int)
    decreases toks.len() - pos, 3int,
{
    if !(0 <= pos < toks.len()) {
        (Seq::empty(), pos)
    } else if toks[pos] is FrFr {
        (Seq::empty(), pos + 1)
    } else {
        let (s, p1) = spec_statement(toks, pos);
        match s {
            Some(n) => {
                let (rest, p2) = spec_block_stmts(
                    toks,
                    step_pos(p1, pos + 1, toks.len() as int),
                );
                (seq![n] + rest, p2)
            },
            None => {
                let (rest, p2) = spec_block_stmts(
                    toks,
                    step_pos(spec_advance(toks.len() as int, p1), pos + 1, toks.len() as int),
                );
                (rest, p2)
            },
        }
    }
}

proof fn lemma_statement_bounds(toks: Seq<TokenModel>, pos: int)
    requires
        0 <= pos <= toks.len(),
    ensures
        ({
            let (s, p) = spec_statement(toks, pos);
            pos <= p <= toks.len() && (s is Some ==> p >= pos + 1)
        }),
    decreases toks.len() - pos, 2int,
{
    match tok_at(toks, pos) {
        Some(TokenModel::TouchGrass) => {
            if tok_at(toks, pos + 3) == Some(TokenModel::As) {
                lemma_expression_bounds(toks, pos + 4);
            }
        },
        Some(TokenModel::Print) => {
            lemma_expression_bounds(toks, pos + 1);
        },
        Some(TokenModel::Go) => {
            lemma_go_outside_bounds(toks, pos);
        },
        Some(TokenModel::Assign) => {
            if tok_at(toks, pos + 2) == Some(TokenModel::To) {
                lemma_expression_bounds(toks, pos + 3);
            }
        },
        Some(TokenModel::While) => {
            lemma_while_loop_bounds(toks, pos);
        },
        _ => {},
    }
}

proof fn lemma_go_outside_bounds(toks: Seq<TokenModel>, pos: int)
    requires
        0 <= pos < toks.len(),
    ensures
        ({
            let (s, p) = spec_go_outside(toks, pos);
            pos + 1 <= p <= toks.len()
        }),
    decreases toks.len() - pos, 1int,
{
    let p2 = pos + 2;
    if tok_at(toks, pos + 1) == Some(TokenModel::Outside) && tok_at(toks, p2) == Some(
        TokenModel::If,
    ) {
        lemma_expression_bounds(toks, p2 + 1);
        let (c, p3) = spec_expression(toks, p2 + 1);
        if c is Some && tok_at(toks, p3) == Some(TokenModel::Then) {
            lemma_block_stmts_bounds(toks, p3 + 1);
            let (thn, p4) = spec_block_stmts(toks, p3 + 1);
            if tok_at(toks, p4) == Some(TokenModel::Instead) {
                lemma_block_stmts_bounds(toks, p4 + 1);
            }
        }
    }
}

proof fn lemma_while_loop_bounds(toks: Seq<TokenModel>, pos: int)
    requires
        0 <= pos < toks.len(),
    ensures
        ({
            let (s, p) = spec_while_loop(toks, pos);
            pos + 1 <= p <= toks.len()
        }),
    decreases toks.len() - pos, 1int,
{
    lemma_expression_bounds(toks, pos + 1);
    let (c, p1) = spec_expression(toks, pos + 1);
    if c is Some && tok_at(toks, p1) == Some(TokenModel::Then) {
        lemma_block_stmts_bounds(toks, p1 + 1);
    }
}

proof fn lemma_block_stmts_bounds(toks: Seq<TokenModel>, pos: int)
    requires
        0 <= pos <= toks.len(),
    ensures
        ({
            let (s, p) = spec_block_stmts(toks, pos);
            pos <= p <= toks.len()
        }),
    decreases toks.len() - pos, 3int,
{
    if 0 <= pos < toks.len() && !(toks[pos] is FrFr) {
        lemma_statement_bounds(toks, pos);
        let (s, p1) = spec_statement(toks, pos);
        match s {
            Some(n) => {
                lemma_block_stmts_bounds(toks, p1);
            },
            None => {
                lemma_block_stmts_bounds(toks, spec_advance(toks.len() as int, p1));
            },
        }
    }
}

/// The statements of a whole program: statements up to the end of the
/// stream, skipping any token that parses as no statement.
pub open spec fn spec_program(toks: Seq<TokenModel>, pos: int) -> Seq<NodeModel>
    decreases toks.len() - pos,
    via spec_program_decreases
{
    if !(0 <= pos < toks.len()) {
        Seq::empty()
    } else {
        let (s, p1) = spec_statement(toks, pos);
        match s {
            Some(n) => seq![n] + spec_program(toks, p1),
            None => spec_program(toks, spec_advance(toks.len() as int, p1)),
        }
    }
}

#[via_fn]
proof fn spec_program_decreases(toks: Seq<TokenModel>, pos: int) {
    if 0 <= pos < toks.len() {
        lemma_statement_bounds(toks, pos);
    }
}

// ---------------------------------------------------------------------------
// The parser's diagnostics, as functions over the token stream.
//
// Each function gives exactly the lines that the matching parser issues
// from `pos` on, in order.  Together they pin the diagnostics channel: a
// malformed shape is reported on the line of the check that refused it,
// and a well-formed program is parsed in silence.
// ---------------------------------------------------------------------------

/// The diagnostic issued by a primary-expression parse at `pos`: one line
/// when a present token starts no factor, nothing otherwise (end of input
/// included).
pub open spec fn spec_factor_diags(toks: Seq<TokenModel>, pos: int) -> Seq<Seq<char>> {
    if tok_at(toks, pos) is Some && spec_factor(toks, pos).0 is None {
        seq!["Error: Unexpected token"@]
    } else {
        Seq::empty()
    }
}

/// The diagnostics issued by the additive tail starting at `pos`.
pub open spec fn spec_term_more_diags(toks: Seq<TokenModel>, pos: int) -> Seq<Seq<char>>
    decreases toks.len() - pos,
    via spec_term_more_diags_decreases
{
    if tok_at(toks, pos) == Some(TokenModel::Plus) || tok_at(toks, pos) == Some(
        TokenModel::Minus,
    ) {
        let (f, p2) = spec_factor(toks, pos + 1);
        spec_factor_diags(toks, pos + 1) + (if f is None {
            Seq::empty()
        } else {
            spec_term_more_diags(toks, p2)
        })
    } else {
        Seq::empty()
    }
}

#[via_fn]
proof fn spec_term_more_diags_decreases(toks: Seq<TokenModel>, pos: int) {
    if tok_at(toks, pos) == Some(TokenModel::Plus) || tok_at(toks, pos) == Some(
        TokenModel::Minus,
    ) {
        lemma_factor_bounds(toks, pos + 1);
    }
}

/// The diagnostics issued by a term parse at `pos`.
pub open spec fn spec_term_diags(toks: Seq<TokenModel>, pos: int) -> Seq<Seq<char>> {
    let (f, p) = spec_factor(toks, pos);
    spec_factor_diags(toks, pos) + (if f is None {
        Seq::empty()
    } else {
        spec_term_more_diags(toks, p)
    })
}

/// The diagnostics issued by the comparison tail starting at `pos`.
pub open spec fn spec_comparison_more_diags(toks: Seq<TokenModel>, pos: int) -> Seq<Seq<char>>
    decreases toks.len() - pos,
    via spec_comparison_more_diags_decreases
{
    let t = tok_at(toks, pos);
    if t == Some(TokenModel::GreaterThan) || t == Some(TokenModel::LessThan) || t == Some(
        TokenModel::Equals,
    ) {
        let (f, p2) = spec_term(toks, pos + 1);
        spec_term_diags(toks, pos + 1) + (if f is None {
            Seq::empty()
        } else {
            spec_comparison_more_diags(toks, p2)
        })
    } else {
        Seq::empty()
    }
}

#[via_fn]
proof fn spec_comparison_more_diags_decreases(toks: Seq<TokenModel>, pos: int) {
    let t = tok_at(toks, pos);
    if t == Some(TokenModel::GreaterThan) || t == Some(TokenModel::LessThan) || t == Some(
        TokenModel::Equals,
    ) {
        lemma_term_bounds(toks, pos + 1);
    }
}

/// The diagnostics issued by a comparison parse at `pos`.
pub open spec fn spec_comparison_diags(toks: Seq<TokenModel>, pos: int) -> Seq<Seq<char>> {
    let (f, p) = spec_term(toks, pos);
    spec_term_diags(toks, pos) + (if f is None {
        Seq::empty()
    } else {
        spec_comparison_more_diags(toks, p)
    })
}

/// The diagnostics issued by an expression parse at `pos`.
pub open spec fn spec_expression_diags(toks: Seq<TokenModel>, pos: int) -> Seq<Seq<char>> {
    spec_comparison_diags(toks, pos)
}

/// The diagnostics issued by a variable-declaration parse at `pos`.
pub open spec fn spec_var_declaration_diags(toks: Seq<TokenModel>, pos: int) -> Seq<Seq<char>> {
    let p1 = pos + 1;
    if tok_at(toks, p1) != Some(TokenModel::NumberType) {
        seq!["Error: Expected number type after touch grass"@]
    } else {
        let p2 = p1 + 1;
        if !(tok_at(toks, p2) matches Some(TokenModel::Identifier(_))) {
            seq!["Error: Expected identifier for variable name"@]
        } else {
            let p3 = p2 + 1;
            if tok_at(toks, p3) != Some(TokenModel::As) {
                seq!["Error: Expected 'as' after variable name"@]
            } else {
                spec_expression_diags(toks, p3 + 1)
            }
        }
    }
}

/// The diagnostics issued by a print-statement parse at `pos`.
pub open spec fn spec_print_diags(toks: Seq<TokenModel>, pos: int) -> Seq<Seq<char>> {
    spec_expression_diags(toks, pos + 1)
}

/// The diagnostics issued by an assignment parse at `pos`.
pub open spec fn spec_assignment_diags(toks: Seq<TokenModel>, pos: int) -> Seq<Seq<char>> {
    let p1 = pos + 1;
    if !(tok_at(toks, p1) matches Some(TokenModel::Identifier(_))) {
        seq!["Error: Expected identifier after 'set'"@]
    } else {
        let p2 = p1 + 1;
        if tok_at(toks, p2) != Some(TokenModel::To) {
            seq!["Error: Expected 'to' after variable name"@]
        } else {
            spec_expression_diags(toks, p2 + 1)
        }
    }
}

/// The diagnostics issued by a statement parse at `pos`: the dispatched
/// parser's lines, one line for a token that starts no statement, and
/// nothing at the end of the stream.
pub open spec fn spec_statement_diags(toks: Seq<TokenModel>, pos: int) -> Seq<Seq<char>>
    decreases toks.len() - pos, 2int,
{
    match tok_at(toks, pos) {
        Some(TokenModel::TouchGrass) => spec_var_declaration_diags(toks, pos),
        Some(TokenModel::Print) => spec_print_diags(toks, pos),
        Some(TokenModel::Go) => spec_go_outside_diags(toks, pos),
        Some(TokenModel::Assign) => spec_assignment_diags(toks, pos),
        Some(TokenModel::While) => spec_while_loop_diags(toks, pos),
        Some(_) => seq!["Error: Unexpected token in statement position"@],
        None => Seq::empty(),
    }
}

/// The diagnostics issued by a conditional parse at `pos`.
pub open spec fn spec_go_outside_diags(toks: Seq<TokenModel>, pos: int) -> Seq<Seq<char>>
    decreases toks.len() - pos, 1int,
    via spec_go_outside_diags_decreases
{
    if !(0 <= pos < toks.len()) {
        Seq::empty()
    } else {
        let p1 = pos + 1;
        if tok_at(toks, p1) != Some(TokenModel::Outside) {
            seq!["Error: Expected 'outside' after 'go'"@]
        } else {
            let p2 = p1 + 1;
            if tok_at(toks, p2) != Some(TokenModel::If) {
                seq!["Error: Expected 'if' after 'go outside'"@]
            } else {
                let (c, p3) = spec_expression(toks, p2 + 1);
                spec_expression_diags(toks, p2 + 1) + (match c {
                    None => Seq::empty(),
                    Some(_) => if tok_at(toks, p3) != Some(TokenModel::Then) {
                        seq!["Error: Expected 'then' after condition"@]
                    } else {
                        let p4 = spec_block_stmts(toks, p3 + 1).1;
                        spec_block_stmts_diags(toks, p3 + 1) + (if tok_at(toks, p4) == Some(
                            TokenModel::Instead,
                        ) {
                            spec_block_stmts_diags(toks, p4 + 1)
                        } else {
                            Seq::empty()
                        })
                    },
                })
            }
        }
    }
}

#[via_fn]
proof fn spec_go_outside_diags_decreases(toks: Seq<TokenModel>, pos: int) {
    if 0 <= pos < toks.len() && tok_at(toks, pos + 1) == Some(TokenModel::Outside) && tok_at(
        toks,
        pos + 2,
    ) == Some(TokenModel::If) {
        lemma_expression_bounds(toks, pos + 3);
        let (c, p3) = spec_expression(toks, pos + 3);
        if c is Some && tok_at(toks, p3) == Some(TokenModel::Then) {
            lemma_block_stmts_bounds(toks, p3 + 1);
        }
    }
}

/// The diagnostics issued by a while-loop parse at `pos`.
pub open spec fn spec_while_loop_diags(toks: Seq<TokenModel>, pos: int) -> Seq<Seq<char>>
    decreases toks.len() - pos, 1int,
    via spec_while_loop_diags_decreases
{
    if !(0 <= pos < toks.len()) {
        Seq::empty()
    } else {
        let (c, p1) = spec_expression(toks, pos + 1);
        spec_expression_diags(toks, pos + 1) + (match c {
            None => Seq::empty(),
            Some(_) => if tok_at(toks, p1) != Some(TokenModel::Then) {
                seq!["Error: Expected 'then' after while condition"@]
            } else {
                spec_block_stmts_diags(toks, p1 + 1)
            },
        })
    }
}

#[via_fn]
proof fn spec_while_loop_diags_decreases(toks: Seq<TokenModel>, pos: int) {
    if 0 <= pos < toks.len() {
        lemma_expression_bounds(toks, pos + 1);
    }
}

/// The diagnostics issued while parsing a block's statements from `pos` on.
pub open spec fn spec_block_stmts_diags(toks: Seq<TokenModel>, pos: int) -> Seq<Seq<char>>
    decreases toks.len() - pos, 3int,
    via spec_block_stmts_diags_decreases
{
    if !(0 <= pos < toks.len()) {
        Seq::empty()
    } else if toks[pos] is FrFr {
        Seq::empty()
    } else {
        let (s, p1) = spec_statement(toks, pos);
        spec_statement_diags(toks, pos) + (match s {
            Some(_) => spec_block_stmts_diags(toks, p1),
            None => spec_block_stmts_diags(toks, spec_advance(toks.len() as int, p1)),
        })
    }
}

#[via_fn]
proof fn spec_block_stmts_diags_decreases(toks: Seq<TokenModel>, pos: int) {
    if 0 <= pos < toks.len() && !(toks[pos] is FrFr) {
        lemma_statement_bounds(toks, pos);
    }
}

/// The diagnostics issued while parsing a whole program from `pos` on.
pub open spec fn spec_program_diags(toks: Seq<TokenModel>, pos: int) -> Seq<Seq<char>>
    decreases toks.len() - pos,
    via spec_program_diags_decreases
{
    if !(0 <= pos < toks.len()) {
        Seq::empty()
    } else {
        let (s, p1) = spec_statement(toks, pos);
        spec_statement_diags(toks, pos) + (match s {
            Some(_) => spec_program_diags(toks, p1),
            None => spec_program_diags(toks, spec_advance(toks.len() as int, p1)),
        })
    }
}

#[via_fn]
proof fn spec_program_diags_decreases(toks: Seq<TokenModel>, pos: int) {
    if 0 <= pos < toks.len() {
        lemma_statement_bounds(toks, pos);
    }
}

/// Whether a token can start a statement.
pub open spec fn is_statement_starter(t: TokenModel) -> bool {
    ||| t is TouchGrass
    ||| t is Print
    ||| t is Go
    ||| t is Assign
    ||| t is While
}

/// Parser resilience: a token that cannot start a statement is skipped,
/// and the program parsed from it is exactly the program parsed from the
/// next position on.
pub proof fn lemma_parser_skips_bad_token(toks: Seq<TokenModel>, pos: int)
    requires
        0 <= pos < toks.len(),
        !is_statement_starter(toks[pos]),
    ensures
        spec_program(toks, pos) == spec_program(toks, pos + 1),
{
    assert(spec_statement(toks, pos) == (None::<NodeModel>, pos));
}

// ---------------------------------------------------------------------------
// The parser.
// ---------------------------------------------------------------------------

/// The recursive-descent parser: a cursor over a token sequence with
/// single-token lookahead and no backtracking.  Malformed shapes are
/// reported as diagnostics; the statement loops then skip one token and
/// retry, so parsing always yields a (possibly partial) program.
pub struct Parser {
    tokens: Vec<Token>,
    current: usize,
    diagnostics: Vec<String>,
}

impl Parser {
    /// The models of the tokens being parsed.
    pub closed spec fn toks(&self) -> Seq<TokenModel> {
        self.tokens@.map_values(|t: Token| t@)
    }

    /// The cursor position.
    pub closed spec fn pos(&self) -> int {
        self.current as int
    }

    /// The diagnostics issued so far.
    pub closed spec fn diags(&self) -> Seq<Seq<char>> {
        self.diagnostics@.map_values(|s: String| s@)
    }

    /// Well-formedness: the cursor never passes the end of the stream.
    pub closed spec fn wf(&self) -> bool {
        self.current <= self.tokens@.len()
    }

    /// Makes a parser over the given tokens, with the cursor on the first.
    pub fn new(tokens: Vec<Token>) -> (p: Parser)
        ensures
            p.wf(),
            p.toks() == tokens@.map_values(|t: Token| t@),
            p.pos() == 0,
            p.diags() == Seq::<Seq<char>>::empty(),
    {
        let p = Parser { tokens, current: 0, diagnostics: Vec::new() };
        proof {
            assert(p.diags() =~= Seq::<Seq<char>>::empty());
        }
        p
    }

    /// Hands the accumulated diagnostics over.
    pub fn into_diagnostics(self) -> (d: Vec<String>)
        ensures
            d@.map_values(|s: String| s@) == self.diags(),
    {
        self.diagnostics
    }

    fn peek_token(&self) -> (r: Option<&Token>)
        ensures
            ({
                let m = tok_at(self.toks(), self.pos());
                match r {
                    Some(t) => m == Some(t@),
                    None => m is None,
                }
            }),
    {
        if self.current < self.tokens.len() {
            Some(&self.tokens[self.current])
        } else {
            None
        }
    }

    fn advance(&mut self)
        requires
            old(self).wf(),
        ensures
            final(self).wf(),
            final(self).tokens == old(self).tokens,
            final(self).diagnostics == old(self).diagnostics,
            final(self).pos() == spec_advance(old(self).toks().len() as int, old(self).pos()),
    {
        if self.current < self.tokens.len() {
            self.current = self.current + 1;
        }
    }

    fn is_at_end(&self) -> (b: bool)
        ensures
            b == (self.pos() >= self.toks().len()),
    {
        self.current >= self.tokens.len()
    }

    /// Parses the whole token stream into a program node.
    pub fn parse(&mut self) -> (r: Node)
        requires
            old(self).wf(),
        ensures
            final(self).wf(),
            final(self).toks() == old(self).toks(),
            node_model(&r) == NodeModel::Program(spec_program(old(self).toks(), old(self).pos())),
            final(self).diags() == old(self).diags() + spec_program_diags(
                old(self).toks(),
                old(self).pos(),
            ),
    {
        let ghost toks = self.toks();
        let ghost target = spec_program(toks, self.pos());
        let mut statements: Vec<Node> = Vec::new();
        proof {
            assert(node_models(statements@) + spec_program(toks, self.pos()) =~= target);
        }
        loop
            invariant
                self.wf(),
                self.tokens == old(self).tokens,
                toks == old(self).toks(),
                self.toks() == toks,
                self.pos() <= toks.len(),
                target == spec_program(toks, old(self).pos()),
                target == node_models(statements@) + spec_program(toks, self.pos()),
                old(self).diags() + spec_program_diags(toks, old(self).pos()) == self.diags()
                    + spec_program_diags(toks, self.pos()),
            ensures
                self.wf(),
                self.tokens == old(self).tokens,
                self.pos() >= self.toks().len(),
                target == node_models(statements@) + spec_program(toks, self.pos()),
                self.diags() == old(self).diags() + spec_program_diags(toks, old(self).pos()),
            decreases self.toks().len() - self.pos(),
        {
            if self.is_at_end() {
                break ;
            }
            let ghost cur0 = self.pos();
            let ghost stmts0 = statements@;
            proof {
                lemma_statement_bounds(toks, cur0);
            }
            match self.parse_statement() {
                Some(stmt) => {
                    proof {
                        lemma_node_models_push(stmts0, &stmt);
                    }
                    statements.push(stmt);
                    proof {
                        let (s, p1) = spec_statement(toks, cur0);
                        assert(node_models(stmts0) + (seq![s.unwrap()] + spec_program(toks, p1))
                            =~= node_models(statements@) + spec_program(toks, p1));
                    }
                },
                None => {
                    self.advance();
                },
            }
        }
        proof {
            assert(spec_program(toks, self.pos()) =~= Seq::<NodeModel>::empty());
            assert(target =~= node_models(statements@));
        }
        Node::Program(statements)
    }

    fn parse_statement(&mut self) -> (r: Option<Node>)
        requires
            old(self).wf(),
        ensures
            final(self).wf(),
            final(self).tokens == old(self).tokens,
            ({
                let (n, p) = spec_statement(old(self).toks(), old(self).pos());
                opt_node_model(r) == n && final(self).pos() == p
            }),
            final(self).diags() == old(self).diags() + spec_statement_diags(
                old(self).toks(),
                old(self).pos(),
            ),
        decreases old(self).toks().len() - old(self).pos(), 2int,
    {
        let starter = match self.peek_token() {
            Some(Token::TouchGrass) => 1u8,
            Some(Token::Print) => 2u8,
            Some(Token::Go) => 3u8,
            Some(Token::Assign) => 4u8,
            Some(Token::While) => 5u8,
            _ => 0u8,
        };
        if starter == 1 {
            self.parse_var_declaration()
        } else if starter == 2 {
            self.parse_print_statement()
        } else if starter == 3 {
            self.parse_go_outside()
        } else if starter == 4 {
            self.parse_assignment()
        } else if starter == 5 {
            self.parse_while_loop()
        } else {
            let at_token = match self.peek_token() {
                Some(_) => true,
                None => false,
            };
            if at_token {
                self.diagnostics.push("Error: Unexpected token in statement position".to_owned());
            }
            None
        }
    }

    fn parse_var_declaration(&mut self) -> (r: Option<Node>)
        requires
            old(self).wf(),
            tok_at(old(self).toks(), old(self).pos()) == Some(TokenModel::TouchGrass),
        ensures
            final(self).wf(),
            final(self).tokens == old(self).tokens,
            ({
                let (n, p) = spec_var_declaration(old(self).toks(), old(self).pos());
                opt_node_model(r) == n && final(self).pos() == p
            }),
            final(self).diags() == old(self).diags() + spec_var_declaration_diags(
                old(self).toks(),
                old(self).pos(),
            ),
    {
        self.advance();  // consume the declaration verb

        match self.peek_token() {
            Some(Token::NumberType) => {},
            _ => {
                self.diagnostics.push("Error: Expected number type after touch grass".to_owned());
                return None;
            },
        }
        self.advance();
        let var_type = "number".to_owned();

        let name = match self.peek_token() {
            Some(Token::Identifier(name)) => name.clone(),
            _ => {
                self.diagnostics.push("Error: Expected identifier for variable name".to_owned());
                return None;
            },
        };
        self.advance();

        match self.peek_token() {
            Some(Token::As) => {},
            _ => {
                self.diagnostics.push("Error: Expected 'as' after variable name".to_owned());
                return None;
            },
        }
        self.advance();

        let value = match self.parse_expression() {
            Some(v) => v,
            None => {
                return None;
            },
        };

        Some(Node::VarDeclaration { name, var_type, value: Box::new(value) })
    }

    fn parse_print_statement(&mut self) -> (r: Option<Node>)
        requires
            old(self).wf(),
            tok_at(old(self).toks(), old(self).pos()) == Some(TokenModel::Print),
        ensures
            final(self).wf(),
            final(self).tokens == old(self).tokens,
            ({
                let (n, p) = spec_print(old(self).toks(), old(self).pos());
                opt_node_model(r) == n && final(self).pos() == p
            }),
            final(self).diags() == old(self).diags() + spec_print_diags(
                old(self).toks(),
                old(self).pos(),
            ),
    {
        self.advance();  // consume the print keyword
        let expr = match self.parse_expression() {
            Some(e) => e,
            None => {
                return None;
            },
        };
        Some(Node::Print(Box::new(expr)))
    }

    fn parse_assignment(&mut self) -> (r: Option<Node>)
        requires
            old(self).wf(),
            tok_at(old(self).toks(), old(self).pos()) == Some(TokenModel::Assign),
        ensures
            final(self).wf(),
            final(self).tokens == old(self).tokens,
            ({
                let (n, p) = spec_assignment(old(self).toks(), old(self).pos());
                opt_node_model(r) == n && final(self).pos() == p
            }),
            final(self).diags() == old(self).diags() + spec_assignment_diags(
                old(self).toks(),
                old(self).pos(),
            ),
    {
        self.advance();  // consume the assignment verb

        let name = match self.peek_token() {
            Some(Token::Identifier(name)) => name.clone(),
            _ => {
                self.diagnostics.push("Error: Expected identifier after 'set'".to_owned());
                return None;
            },
        };
        self.advance();

        match self.peek_token() {
            Some(Token::To) => {},
            _ => {
                self.diagnostics.push("Error: Expected 'to' after variable name".to_owned());
                return None;
            },
        }
        self.advance();

        let value = match self.parse_expression() {
            Some(v) => v,
            None => {
                return None;
            },
        };

        Some(Node::Assignment { name, value: Box::new(value) })
    }

    #[verifier::spinoff_prover]
    #[verifier::rlimit(80)]
    fn parse_go_outside(&mut self) -> (r: Option<Node>)
        requires
            old(self).wf(),
            tok_at(old(self).toks(), old(self).pos()) == Some(TokenModel::Go),
        ensures
            final(self).wf(),
            final(self).tokens == old(self).tokens,
            ({
                let (n, p) = spec_go_outside(old(self).toks(), old(self).pos());
                opt_node_model(r) == n && final(self).pos() == p
            }),
            final(self).diags() == old(self).diags() + spec_go_outside_diags(
                old(self).toks(),
                old(self).pos(),
            ),
        decreases old(self).toks().len() - old(self).pos(), 1int,
    {
        let ghost toks = self.toks();
        let ghost pos0 = self.pos();
        let ghost d0 = self.diags();
        self.advance();  // consume 'go'

        match self.peek_token() {
            Some(Token::Outside) => {},
            _ => {
                self.diagnostics.push("Error: Expected 'outside' after 'go'".to_owned());
                proof {
                    assert(spec_go_outside_diags(toks, pos0) == seq![
                        "Error: Expected 'outside' after 'go'"@,
                    ]);
                }
                return None;
            },
        }
        self.advance();

        match self.peek_token() {
            Some(Token::If) => {},
            _ => {
                self.diagnostics.push("Error: Expected 'if' after 'go outside'".to_owned());
                proof {
                    assert(spec_go_outside_diags(toks, pos0) == seq![
                        "Error: Expected 'if' after 'go outside'"@,
                    ]);
                }
                return None;
            },
        }
        self.advance();

        let condition = match self.parse_expression() {
            Some(c) => c,
            None => {
                proof {
                    assert(spec_go_outside_diags(toks, pos0) == spec_expression_diags(
                        toks,
                        pos0 + 3,
                    ) + Seq::<Seq<char>>::empty());
                }
                return None;
            },
        };
        let ghost p3 = self.pos();

        match self.peek_token() {
            Some(Token::Then) => {},
            _ => {
                self.diagnostics.push("Error: Expected 'then' after condition".to_owned());
                proof {
                    assert(spec_go_outside_diags(toks, pos0) == spec_expression_diags(
                        toks,
                        pos0 + 3,
                    ) + seq!["Error: Expected 'then' after condition"@]);
                }
                return None;
            },
        }
        proof {
            lemma_expression_bounds(toks, pos0 + 3);
        }
        self.advance();

        let ghost bstart = self.pos();
        let then_branch = match self.parse_block() {
            Some(b) => b,
            None => {
                return None;
            },
        };
        proof {
            assert(bstart == p3 + 1);
            assert(spec_block_stmts(toks, step_pos(p3 + 1, pos0 + 1, toks.len() as int))
                == spec_block_stmts(toks, p3 + 1));
        }

        let at_instead = match self.peek_token() {
            Some(Token::Instead) => true,
            _ => false,
        };
        let else_branch = if at_instead {
            proof {
                lemma_block_stmts_bounds(toks, bstart);
                assert(spec_go_outside_diags(toks, pos0) == spec_expression_diags(toks, pos0 + 3)
                    + (spec_block_stmts_diags(toks, p3 + 1) + spec_block_stmts_diags(
                    toks,
                    self.pos() + 1,
                )));
            }
            self.advance();
            match self.parse_block() {
                Some(b) => Some(Box::new(b)),
                None => {
                    return None;
                },
            }
        } else {
            proof {
                assert(spec_go_outside_diags(toks, pos0) == spec_expression_diags(toks, pos0 + 3)
                    + (spec_block_stmts_diags(toks, p3 + 1) + Seq::<Seq<char>>::empty()));
            }
            None
        };

        Some(
            Node::GoOutside {
                condition: Box::new(condition),
                then_branch: Box::new(then_branch),
                else_branch,
            },
        )
    }

    fn parse_while_loop(&mut self) -> (r: Option<Node>)
        requires
            old(self).wf(),
            tok_at(old(self).toks(), old(self).pos()) == Some(TokenModel::While),
        ensures
            final(self).wf(),
            final(self).tokens == old(self).tokens,
            ({
                let (n, p) = spec_while_loop(old(self).toks(), old(self).pos());
                opt_node_model(r) == n && final(self).pos() == p
            }),
            final(self).diags() == old(self).diags() + spec_while_loop_diags(
                old(self).toks(),
                old(self).pos(),
            ),
        decreases old(self).toks().len() - old(self).pos(), 1int,
    {
        let ghost toks = self.toks();
        let ghost pos0 = self.pos();
        self.advance();  // consume 'while'

        let condition = match self.parse_expression() {
            Some(c) => c,
            None => {
                return None;
            },
        };

        match self.peek_token() {
            Some(Token::Then) => {},
            _ => {
                self.diagnostics.push("Error: Expected 'then' after while condition".to_owned());
                return None;
            },
        }
        proof {
            lemma_expression_bounds(toks, pos0 + 1);
        }
        self.advance();

        let body = match self.parse_block() {
            Some(b) => b,
            None => {
                return None;
            },
        };

        Some(Node::WhileLoop { condition: Box::new(condition), body: Box::new(body) })
    }

    fn parse_block(&mut self) -> (r: Option<Node>)
        requires
            old(self).wf(),
        ensures
            final(self).wf(),
            final(self).tokens == old(self).tokens,
            ({
                let (stmts, p) = spec_block_stmts(old(self).toks(), old(self).pos());
                opt_node_model(r) == Some(NodeModel::Block(stmts)) && final(self).pos() == p
            }),
            final(self).diags() == old(self).diags() + spec_block_stmts_diags(
                old(self).toks(),
                old(self).pos(),
            ),
        decreases old(self).toks().len() - old(self).pos(), 3int,
    {
        let ghost toks = self.toks();
        let ghost target = spec_block_stmts(toks, self.pos());
        let mut statements: Vec<Node> = Vec::new();
        proof {
            assert(node_models(statements@) + spec_block_stmts(toks, self.pos()).0 =~= target.0);
        }
        loop
            invariant_except_break
                target.0 == node_models(statements@) + spec_block_stmts(toks, self.pos()).0,
                target.1 == spec_block_stmts(toks, self.pos()).1,
                old(self).diags() + spec_block_stmts_diags(toks, old(self).pos()) == self.diags()
                    + spec_block_stmts_diags(toks, self.pos()),
            invariant
                self.wf(),
                self.tokens == old(self).tokens,
                toks == old(self).toks(),
                self.toks() == toks,
                old(self).pos() <= self.pos() <= toks.len(),
                target == spec_block_stmts(toks, old(self).pos()),
            ensures
                self.wf(),
                self.tokens == old(self).tokens,
                target.0 == node_models(statements@),
                target.1 == self.pos(),
                self.diags() == old(self).diags() + spec_block_stmts_diags(
                    toks,
                    old(self).pos(),
                ),
            decreases self.toks().len() - self.pos(),
        {
            if self.is_at_end() {
                proof {
                    assert(node_models(statements@) + Seq::<NodeModel>::empty()
                        =~= node_models(statements@));
                }
                break ;
            }
            let at_fr = match self.peek_token() {
                Some(Token::FrFr) => true,
                _ => false,
            };
            if at_fr {
                self.advance();
                proof {
                    assert(node_models(statements@) + Seq::<NodeModel>::empty()
                        =~= node_models(statements@));
                }
                break ;
            }
            let ghost cur0 = self.pos();
            let ghost stmts0 = statements@;
            proof {
                lemma_statement_bounds(toks, cur0);
            }
            match self.parse_statement() {
                Some(stmt) => {
                    proof {
                        lemma_node_models_push(stmts0, &stmt);
                    }
                    statements.push(stmt);
                    proof {
                        let (s, p1) = spec_statement(toks, cur0);
                        assert(step_pos(p1, cur0 + 1, toks.len() as int) == p1);
                        assert(node_models(stmts0) + (seq![s.unwrap()] + spec_block_stmts(
                            toks,
                            p1,
                        ).0) =~= node_models(statements@) + spec_block_stmts(toks, p1).0);
                    }
                },
                None => {
                    self.advance();
                },
            }
        }
        Some(Node::Block(statements))
    }

    fn parse_expression(&mut self) -> (r: Option<Node>)
        requires
            old(self).wf(),
        ensures
            final(self).wf(),
            final(self).tokens == old(self).tokens,
            ({
                let (n, p) = spec_expression(old(self).toks(), old(self).pos());
                opt_node_model(r) == n && final(self).pos() == p
            }),
            final(self).diags() == old(self).diags() + spec_expression_diags(
                old(self).toks(),
                old(self).pos(),
            ),
    {
        self.parse_comparison()
    }

    fn parse_comparison(&mut self) -> (r: Option<Node>)
        requires
            old(self).wf(),
        ensures
            final(self).wf(),
            final(self).tokens == old(self).tokens,
            ({
                let (n, p) = spec_comparison(old(self).toks(), old(self).pos());
                opt_node_model(r) == n && final(self).pos() == p
            }),
            final(self).diags() == old(self).diags() + spec_comparison_diags(
                old(self).toks(),
                old(self).pos(),
            ),
    {
        let left = match self.parse_term() {
            Some(l) => l,
            None => {
                return None;
            },
        };
        self.parse_comparison_rest(left)
    }

    /// Parses the comparison tail after a first term, folding each further
    /// operator-term pair into a left-leaning tree.
    fn parse_comparison_rest(&mut self, first: Node) -> (r: Option<Node>)
        requires
            old(self).wf(),
        ensures
            final(self).wf(),
            final(self).tokens == old(self).tokens,
            ({
                let (n, p) = spec_comparison_more(
                    old(self).toks(),
                    old(self).pos(),
                    node_model(&first),
                );
                opt_node_model(r) == n && final(self).pos() == p
            }),
            final(self).diags() == old(self).diags() + spec_comparison_more_diags(
                old(self).toks(),
                old(self).pos(),
            ),
    {
        let ghost toks = self.toks();
        let ghost first_model = node_model(&first);
        let ghost target = spec_comparison_more(toks, self.pos(), first_model);
        let mut left = first;
        let mut failed = false;
        loop
            invariant_except_break
                !failed,
                target == spec_comparison_more(toks, self.pos(), node_model(&left)),
                old(self).diags() + spec_comparison_more_diags(toks, old(self).pos())
                    == self.diags() + spec_comparison_more_diags(toks, self.pos()),
            invariant
                self.wf(),
                self.tokens == old(self).tokens,
                toks == old(self).toks(),
                self.toks() == toks,
                self.pos() <= toks.len(),
                target == spec_comparison_more(toks, old(self).pos(), first_model),
            ensures
                self.wf(),
                self.tokens == old(self).tokens,
                self.diags() == old(self).diags() + spec_comparison_more_diags(
                    toks,
                    old(self).pos(),
                ),
                !failed ==> target == (Some(node_model(&left)), self.pos()),
                failed ==> target == (None::<NodeModel>, self.pos()),
            decreases self.toks().len() - self.pos(),
        {
            let kind = match self.peek_token() {
                Some(Token::GreaterThan) => 1u8,
                Some(Token::LessThan) => 2u8,
                Some(Token::Equals) => 3u8,
                _ => 0u8,
            };
            if kind == 0 {
                break ;
            }
            let op = if kind == 1 {
                Operator::GreaterThan
            } else if kind == 2 {
                Operator::LessThan
            } else {
                Operator::Equals
            };
            let ghost cur0 = self.pos();
            self.advance();  // consume the operator
            proof {
                lemma_term_bounds(toks, self.pos());
            }
            let right = match self.parse_term() {
                Some(r) => r,
                None => {
                    proof {
                        assert(spec_comparison_more_diags(toks, cur0) == spec_term_diags(
                            toks,
                            cur0 + 1,
                        ) + Seq::<Seq<char>>::empty());
                        assert(spec_comparison_more(toks, cur0, node_model(&left)) == (
                            None::<NodeModel>,
                            self.pos(),
                        ));
                    }
                    failed = true;
                    break ;
                },
            };
            proof {
                assert(spec_comparison_more_diags(toks, cur0) == spec_term_diags(toks, cur0 + 1)
                    + spec_comparison_more_diags(toks, self.pos()));
            }
            left = Node::BinaryOp { left: Box::new(left), operator: op, right: Box::new(right) };
        }
        if failed {
            return None;
        }
        Some(left)
    }

    fn parse_term(&mut self) -> (r: Option<Node>)
        requires
            old(self).wf(),
        ensures
            final(self).wf(),
            final(self).tokens == old(self).tokens,
            ({
                let (n, p) = spec_term(old(self).toks(), old(self).pos());
                opt_node_model(r) == n && final(self).pos() == p
            }),
            final(self).diags() == old(self).diags() + spec_term_diags(
                old(self).toks(),
                old(self).pos(),
            ),
    {
        let ghost toks = self.toks();
        let ghost target = spec_term(toks, self.pos());
        let mut left = match self.parse_factor() {
            Some(l) => l,
            None => {
                return None;
            },
        };
        loop
            invariant
                self.wf(),
                self.tokens == old(self).tokens,
                toks == old(self).toks(),
                self.toks() == toks,
                self.pos() <= toks.len(),
                target == spec_term(toks, old(self).pos()),
                target == spec_term_more(toks, self.pos(), node_model(&left)),
                old(self).diags() + spec_term_diags(toks, old(self).pos()) == self.diags()
                    + spec_term_more_diags(toks, self.pos()),
            ensures
                self.wf(),
                self.tokens == old(self).tokens,
                target == (Some(node_model(&left)), self.pos()),
                self.diags() == old(self).diags() + spec_term_diags(toks, old(self).pos()),
            decreases self.toks().len() - self.pos(),
        {
            let kind = match self.peek_token() {
                Some(Token::Plus) => 1u8,
                Some(Token::Minus) => 2u8,
                _ => 0u8,
            };
            if kind == 0 {
                break ;
            }
            let op = if kind == 1 {
                Operator::Plus
            } else {
                Operator::Minus
            };
            self.advance();  // consume the operator
            proof {
                lemma_factor_bounds(toks, self.pos());
            }
            let right = match self.parse_factor() {
                Some(r) => r,
                None => {
                    return None;
                },
            };
            left = Node::BinaryOp { left: Box::new(left), operator: op, right: Box::new(right) };
        }
        Some(left)
    }

    fn parse_factor(&mut self) -> (r: Option<Node>)
        requires
            old(self).wf(),
        ensures
            final(self).wf(),
            final(self).tokens == old(self).tokens,
            ({
                let (n, p) = spec_factor(old(self).toks(), old(self).pos());
                opt_node_model(r) == n && final(self).pos() == p
            }),
            final(self).diags() == old(self).diags() + spec_factor_diags(
                old(self).toks(),
                old(self).pos(),
            ),
    {
        let node = match self.peek_token() {
            None => {
                return None;
            },
            Some(Token::Number(n)) => Some(Node::NumberLiteral(*n)),
            Some(Token::String(s)) => Some(Node::StringLiteral(s.clone())),
            Some(Token::Cap) => Some(Node::Boolean(false)),
            Some(Token::NoCap) => Some(Node::Boolean(true)),
            Some(Token::Bugatti) => Some(Node::Bugatti),
            Some(Token::Identifier(name)) => Some(Node::Identifier(name.clone())),
            Some(_) => None,
        };
        if node.is_none() {
            self.diagnostics.push("Error: Unexpected token".to_owned());
        }
        self.advance();
        node
    }
}

} // verus!
