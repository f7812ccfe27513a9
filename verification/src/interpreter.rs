use vstd::prelude::*;
use crate::ast::{Node, NodeModel, Operator, node_model, node_models, lemma_node_models};
use crate::value::{ValueModel, spec_truthy, spec_render};
pub use crate::value::Value;

verus! {

broadcast use {
    vstd::prelude::Seq::add_empty_left,
    vstd::prelude::Seq::add_empty_right,
    vstd::prelude::Seq::push_distributes_over_add,
    vstd::prelude::Seq::lemma_push_map_commute,
    crate::value::lemma_out_assoc,
};

/// An evaluation failure.  The first four variants are the evaluation-fatal
/// errors of the language: an unbound identifier, a non-boolean conditional
/// condition, an operator applied to non-number operands, and an assignment
/// to a name that was never declared.  `OutOfFuel` reports that the step
/// budget handed to the evaluator ran out before evaluation finished.
#[derive(Debug, PartialEq)]
pub enum EvalError {
    UnboundIdentifier(String),
    NonBooleanCondition,
    InvalidOperands,
    UndeclaredAssignment(String),
    OutOfFuel,
}

/// Mathematical model of an evaluation failure.
pub enum ErrModel {
    UnboundIdentifier(Seq<char>),
    NonBooleanCondition,
    InvalidOperands,
    UndeclaredAssignment(Seq<char>),
    OutOfFuel,
}

impl View for EvalError {
    type V = ErrModel;

    open spec fn view(&self) -> ErrModel {
        match self {
            EvalError::UnboundIdentifier(s) => ErrModel::UnboundIdentifier(s@),
            EvalError::NonBooleanCondition => ErrModel::NonBooleanCondition,
            EvalError::InvalidOperands => ErrModel::InvalidOperands,
            EvalError::UndeclaredAssignment(s) => ErrModel::UndeclaredAssignment(s@),
            EvalError::OutOfFuel => ErrModel::OutOfFuel,
        }
    }
}

/// The model of an evaluation result.
pub open spec fn res_model(r: Result<Value, EvalError>) -> Result<ValueModel, ErrModel> {
    match r {
        Ok(v) => Ok(v@),
        Err(e) => Err(e@),
    }
}

/// A binary operator applied to two values: the operators are defined only
/// over number pairs; `+` and `-` wrap on 64-bit overflow; any other
/// operand pairing is an error.
pub open spec fn spec_binop(l: ValueModel, op: Operator, r: ValueModel) -> Result<
    ValueModel,
    ErrModel,
> {
    match (l, r) {
        (ValueModel::Number(a), ValueModel::Number(b)) => Ok(
            match op {
                Operator::Plus => ValueModel::Number(a.wrapping_add(b)),
                Operator::Minus => ValueModel::Number(a.wrapping_sub(b)),
                Operator::GreaterThan => ValueModel::Boolean(a > b),
                Operator::LessThan => ValueModel::Boolean(a < b),
                Operator::Equals => ValueModel::Boolean(a == b),
            },
        ),
        _ => Err(ErrModel::InvalidOperands),
    }
}

// ---------------------------------------------------------------------------
// The environment: a flat name-to-value table, modelled as a map.
// ---------------------------------------------------------------------------

/// The map modelled by a list of bindings: later entries win.
pub open spec fn env_model_of(entries: Seq<(String, Value)>) -> Map<Seq<char>, ValueModel>
    decreases entries.len(),
{
    if entries.len() == 0 {
        Map::empty()
    } else {
        env_model_of(entries.drop_last()).insert(entries.last().0@, entries.last().1@)
    }
}

/// The binding list holds each name at most once.
pub open spec fn env_wf(entries: Seq<(String, Value)>) -> bool {
    forall|i: int, j: int| 0 <= i < j < entries.len() ==> entries[i].0@ != entries[j].0@
}

proof fn lemma_env_model_get(entries: Seq<(String, Value)>, i: int)
    requires
        env_wf(entries),
        0 <= i < entries.len(),
    ensures
        env_model_of(entries).dom().contains(entries[i].0@),
        env_model_of(entries)[entries[i].0@] == entries[i].1@,
    decreases entries.len(),
{
    if i < entries.len() - 1 {
        assert(entries.drop_last()[i] == entries[i]);
        lemma_env_model_get(entries.drop_last(), i);
    }
}

proof fn lemma_env_model_absent(entries: Seq<(String, Value)>, k: Seq<char>)
    requires
        forall|i: int| 0 <= i < entries.len() ==> entries[i].0@ != k,
    ensures
        !env_model_of(entries).dom().contains(k),
    decreases entries.len(),
{
    if entries.len() > 0 {
        lemma_env_model_absent(entries.drop_last(), k);
    }
}

proof fn lemma_env_model_update(entries: Seq<(String, Value)>, i: int, e: (String, Value))
    requires
        env_wf(entries),
        0 <= i < entries.len(),
        entries[i].0@ == e.0@,
    ensures
        env_wf(entries.update(i, e)),
        env_model_of(entries.update(i, e)) == env_model_of(entries).insert(e.0@, e.1@),
    decreases entries.len(),
{
    let u = entries.update(i, e);
    assert forall|a: int, b: int| 0 <= a < b < u.len() implies u[a].0@ != u[b].0@ by {
        assert(entries[a].0@ != entries[b].0@);
    }
    if i == entries.len() - 1 {
        assert(u.drop_last() =~= entries.drop_last());
        assert(env_model_of(u) =~= env_model_of(entries).insert(e.0@, e.1@));
    } else {
        assert(u.drop_last() =~= entries.drop_last().update(i, e));
        assert(entries.drop_last()[i] == entries[i]);
        lemma_env_model_update(entries.drop_last(), i, e);
        assert(env_model_of(u) =~= env_model_of(entries).insert(e.0@, e.1@));
    }
}

// ---------------------------------------------------------------------------
// Evaluation, as a function of the tree, the environment and a step budget.
// ---------------------------------------------------------------------------

/// Evaluating a node yields an outcome, the environment after evaluation,
/// and the lines printed along the way.
pub type EvalOut = (Result<ValueModel, ErrModel>, Map<Seq<char>, ValueModel>, Seq<Seq<char>>);

/// Evaluates a node.  Every step spends one unit of fuel; with fuel 0 the
/// result is `OutOfFuel` with nothing changed.  Environment changes made
/// before a failure are kept.  A program node evaluated as a statement
/// yields null without running its statements: programs are driven by
/// `interpret`.
pub open spec fn spec_eval(n: NodeModel, env: Map<Seq<char>, ValueModel>, fuel: nat) -> EvalOut
    decreases fuel, 0nat,
{
    if fuel == 0 {
        (Err(ErrModel::OutOfFuel), env, Seq::empty())
    } else {
        let f = (fuel - 1) as nat;
        match n {
            NodeModel::Program(_) => (Ok(ValueModel::Null), env, Seq::empty()),
            NodeModel::NumberLiteral(v) => (Ok(ValueModel::Number(v)), env, Seq::empty()),
            NodeModel::StringLiteral(s) => (Ok(ValueModel::String(s)), env, Seq::empty()),
            NodeModel::Boolean(b) => (Ok(ValueModel::Boolean(b)), env, Seq::empty()),
            NodeModel::Bugatti => (Ok(ValueModel::Null), env, Seq::empty()),
            NodeModel::Identifier(name) => if env.dom().contains(name) {
                (Ok(env[name]), env, Seq::empty())
            } else {
                (Err(ErrModel::UnboundIdentifier(name)), env, Seq::empty())
            },
            NodeModel::VarDeclaration { name, var_type, value } => {
                let (r, env1, o1) = spec_eval(*value, env, f);
                match r {
                    Ok(v) => (Ok(v), env1.insert(name, v), o1),
                    Err(e) => (Err(e), env1, o1),
                }
            },
            NodeModel::Assignment { name, value } => {
                let (r, env1, o1) = spec_eval(*value, env, f);
                match r {
                    Ok(v) => if env1.dom().contains(name) {
                        (Ok(v), env1.insert(name, v), o1)
                    } else {
                        (Err(ErrModel::UndeclaredAssignment(name)), env1, o1)
                    },
                    Err(e) => (Err(e), env1, o1),
                }
            },
            NodeModel::Print(e) => {
                let (r, env1, o1) = spec_eval(*e, env, f);
                match r {
                    Ok(v) => (Ok(v), env1, o1.push(spec_render(v))),
                    Err(err) => (Err(err), env1, o1),
                }
            },
            NodeModel::GoOutside { condition, then_branch, else_branch } => {
                let (r, env1, o1) = spec_eval(*condition, env, f);
                match r {
                    Ok(c) => match c {
                        ValueModel::Boolean(b) => if b {
                            let (r2, env2, o2) = spec_eval(*then_branch, env1, f);
                            (r2, env2, o1 + o2)
                        } else {
                            match else_branch {
                                Some(eb) => {
                                    let (r2, env2, o2) = spec_eval(*eb, env1, f);
                                    (r2, env2, o1 + o2)
                                },
                                None => (Ok(ValueModel::Null), env1, o1),
                            }
                        },
                        _ => (Err(ErrModel::NonBooleanCondition), env1, o1),
                    },
                    Err(e) => (Err(e), env1, o1),
                }
            },
            NodeModel::WhileLoop { condition, body } => {
                let (r, env1, o1) = spec_eval(*condition, env, f);
                match r {
                    Ok(c) => if !spec_truthy(c) {
                        (Ok(ValueModel::Null), env1, o1)
                    } else {
                        let (r2, env2, o2) = spec_eval(*body, env1, f);
                        match r2 {
                            Ok(_) => {
                                let (r3, env3, o3) = spec_eval(n, env2, f);
                                (r3, env3, o1 + o2 + o3)
                            },
                            Err(e) => (Err(e), env2, o1 + o2),
                        }
                    },
                    Err(e) => (Err(e), env1, o1),
                }
            },
            NodeModel::Block(stmts) => spec_eval_seq(stmts, env, ValueModel::Null, f),
            NodeModel::BinaryOp { left, operator, right } => {
                let (r1, env1, o1) = spec_eval(*left, env, f);
                match r1 {
                    Ok(lv) => {
                        let (r2, env2, o2) = spec_eval(*right, env1, f);
                        match r2 {
                            Ok(rv) => (spec_binop(lv, operator, rv), env2, o1 + o2),
                            Err(e) => (Err(e), env2, o1 + o2),
                        }
                    },
                    Err(e) => (Err(e), env1, o1),
                }
            },
        }
    }
}

/// Evaluates statements in order, stopping at the first failure; the value
/// is the last statement's (or `prev` when there are none).
pub open spec fn spec_eval_seq(
    stmts: Seq<NodeModel>,
    env: Map<Seq<char>, ValueModel>,
    prev: ValueModel,
    fuel: nat,
) -> EvalOut
    decreases fuel, stmts.len() + 1,
{
    if stmts.len() == 0 {
        (Ok(prev), env, Seq::empty())
    } else {
        let (r, env1, o1) = spec_eval(stmts[0], env, fuel);
        match r {
            Ok(v) => {
                let (r2, env2, o2) = spec_eval_seq(stmts.drop_first(), env1, v, fuel);
                (r2, env2, o1 + o2)
            },
            Err(e) => (Err(e), env1, o1),
        }
    }
}

/// What `interpret` runs: the statements of a program node in order, and
/// any other node as itself.
pub open spec fn spec_interpret(n: NodeModel, env: Map<Seq<char>, ValueModel>, fuel: nat) -> EvalOut {
    match n {
        NodeModel::Program(stmts) => spec_eval_seq(stmts, env, ValueModel::Null, fuel),
        _ => spec_eval(n, env, fuel),
    }
}

// ---------------------------------------------------------------------------
// The interpreter.
// ---------------------------------------------------------------------------

/// The tree-walking evaluator: a flat mutable variable environment and the
/// output lines produced by `print` so far.
pub struct Interpreter {
    pub env: Vec<(String, Value)>,
    pub output: Vec<String>,
}

impl Interpreter {
    /// The environment as a map.
    pub open spec fn env_model(&self) -> Map<Seq<char>, ValueModel> {
        env_model_of(self.env@)
    }

    /// The output lines so far.
    pub open spec fn out_model(&self) -> Seq<Seq<char>> {
        self.output@.map_values(|s: String| s@)
    }

    /// Well-formedness: the environment holds each name at most once.
    pub open spec fn wf(&self) -> bool {
        env_wf(self.env@)
    }

    /// Makes an interpreter with an empty environment and no output.
    pub fn new() -> (r: Interpreter)
        ensures
            r.wf(),
            r.env_model() == Map::<Seq<char>, ValueModel>::empty(),
            r.out_model() == Seq::<Seq<char>>::empty(),
    {
        let r = Interpreter { env: Vec::new(), output: Vec::new() };
        proof {
            assert(r.out_model() =~= Seq::<Seq<char>>::empty());
        }
        r
    }

    /// Looks a name up in the environment.
    fn lookup(&self, name: &String) -> (r: Option<Value>)
        requires
            self.wf(),
        ensures
            match r {
                Some(v) => self.env_model().dom().contains(name@) && v@ == self.env_model()[name@],
                None => !self.env_model().dom().contains(name@),
            },
    {
        let n = self.env.len();
        let mut i: usize = 0;
        while i < n
            invariant
                self.wf(),
                n == self.env@.len(),
                i <= n,
                forall|j: int| 0 <= j < i ==> self.env@[j].0@ != name@,
            decreases n - i,
        {
            if self.env[i].0 == *name {
                let v = self.env[i].1.clone();
                proof {
                    lemma_env_model_get(self.env@, i as int);
                }
                return Some(v);
            }
            i = i + 1;
        }
        proof {
            lemma_env_model_absent(self.env@, name@);
        }
        None
    }

    /// Binds a name to a value, overwriting any existing binding.
    fn env_set(&mut self, name: &String, value: Value)
        requires
            old(self).wf(),
        ensures
            final(self).wf(),
            final(self).env_model() == old(self).env_model().insert(name@, value@),
            final(self).output == old(self).output,
    {
        let n = self.env.len();
        let mut i: usize = 0;
        while i < n
            invariant
                self.wf(),
                self.env == old(self).env,
                self.output == old(self).output,
                n == self.env@.len(),
                i <= n,
                forall|j: int| 0 <= j < i ==> self.env@[j].0@ != name@,
            decreases n - i,
        {
            if self.env[i].0 == *name {
                let ghost entries0 = self.env@;
                self.env[i] = (name.clone(), value);
                proof {
                    lemma_env_model_update(entries0, i as int, self.env@[i as int]);
                    assert(self.env@ =~= entries0.update(i as int, self.env@[i as int]));
                }
                return ;
            }
            i = i + 1;
        }
        proof {
            lemma_env_model_absent(self.env@, name@);
        }
        self.env.push((name.clone(), value));
        proof {
            assert(self.env@.drop_last() =~= old(self).env@);
        }
    }

    /// The truthiness coercion used by loop conditions.
    fn is_truthy(&self, value: Value) -> (b: bool)
        ensures
            b == spec_truthy(value@),
    {
        match value {
            Value::Boolean(b) => b,
            Value::Null => false,
            Value::Number(n) => n != 0,
            Value::String(s) => !s.as_str().is_empty(),
        }
    }

    /// Applies a binary operator to two evaluated operands.
    fn evaluate_binary_op(&self, left: Value, operator: Operator, right: Value) -> (r: Result<
        Value,
        EvalError,
    >)
        ensures
            res_model(r) == spec_binop(left@, operator, right@),
    {
        match (left, right) {
            (Value::Number(a), Value::Number(b)) => match operator {
                Operator::Plus => Ok(Value::Number(a.wrapping_add(b))),
                Operator::Minus => Ok(Value::Number(a.wrapping_sub(b))),
                Operator::GreaterThan => Ok(Value::Boolean(a > b)),
                Operator::LessThan => Ok(Value::Boolean(a < b)),
                Operator::Equals => Ok(Value::Boolean(a == b)),
            },
            _ => Err(EvalError::InvalidOperands),
        }
    }

    /// Evaluates an expression node for its value.
    fn evaluate(&mut self, node: &Node, fuel: u64) -> (r: Result<Value, EvalError>)
        requires
            old(self).wf(),
        ensures
            final(self).wf(),
            ({
                let (res, env2, out) = spec_eval(
                    node_model(node),
                    old(self).env_model(),
                    fuel as nat,
                );
                res_model(r) == res && final(self).env_model() == env2 && final(self).out_model()
                    == old(self).out_model() + out
            }),
        decreases fuel, 1int,
    {
        self.execute(node, fuel)
    }

    /// Runs statements in order, stopping at the first failure; the result
    /// is the last statement's value (null when there are none).
    fn run_block(&mut self, stmts: &Vec<Node>, fuel: u64) -> (r: Result<Value, EvalError>)
        requires
            old(self).wf(),
        ensures
            final(self).wf(),
            ({
                let (res, env2, out) = spec_eval_seq(
                    node_models(stmts@),
                    old(self).env_model(),
                    ValueModel::Null,
                    fuel as nat,
                );
                res_model(r) == res && final(self).env_model() == env2 && final(self).out_model()
                    == old(self).out_model() + out
            }),
        decreases fuel, 1int,
    {
        let ghost env0 = self.env_model();
        let ghost out0 = self.out_model();
        let ghost models = node_models(stmts@);
        let ghost target = spec_eval_seq(models, env0, ValueModel::Null, fuel as nat);
        let ghost mut acc: Seq<Seq<char>> = Seq::empty();
        let mut last = Value::Null;
        let mut i: usize = 0;
        proof {
            lemma_node_models(stmts@);
            assert(models.skip(0) =~= models);
        }
        while i < stmts.len()
            invariant
                self.wf(),
                env0 == old(self).env_model(),
                out0 == old(self).out_model(),
                models == node_models(stmts@),
                target == spec_eval_seq(models, env0, ValueModel::Null, fuel as nat),
                models.len() == stmts@.len(),
                forall|j: int| 0 <= j < stmts@.len() ==> models[j] == node_model(&stmts@[j]),
                i <= stmts@.len(),
                self.out_model() == out0 + acc,
                ({
                    let (r2, e2, o2) = spec_eval_seq(
                        models.skip(i as int),
                        self.env_model(),
                        last@,
                        fuel as nat,
                    );
                    target.0 == r2 && target.1 == e2 && target.2 == acc + o2
                }),
            decreases stmts@.len() - i,
        {
            let ghost env_pre = self.env_model();
            let ghost acc_pre = acc;
            proof {
                assert(models.skip(i as int)[0] == models[i as int]);
                assert(models.skip(i as int).drop_first() =~= models.skip(i as int + 1));
            }
            match self.execute(&stmts[i], fuel) {
                Ok(v) => {
                    let ghost o1 = spec_eval(models[i as int], env_pre, fuel as nat).2;
                    proof {
                        acc = acc_pre + o1;
                    }
                    last = v;
                    i = i + 1;
                },
                Err(e) => {
                    return Err(e);
                },
            }
        }
        proof {
            assert(models.skip(i as int) =~= Seq::<NodeModel>::empty());
        }
        Ok(last)
    }

    /// Executes a node: statements for their effect, expressions for their
    /// value.  Every node entered spends one unit of fuel; a zero budget
    /// stops evaluation with `OutOfFuel`.
    fn execute(&mut self, node: &Node, fuel: u64) -> (r: Result<Value, EvalError>)
        requires
            old(self).wf(),
        ensures
            final(self).wf(),
            ({
                let (res, env2, out) = spec_eval(
                    node_model(node),
                    old(self).env_model(),
                    fuel as nat,
                );
                res_model(r) == res && final(self).env_model() == env2 && final(self).out_model()
                    == old(self).out_model() + out
            }),
        decreases fuel, 0int,
    {
        if fuel == 0 {
            return Err(EvalError::OutOfFuel);
        }
        let f = fuel - 1;
        match node {
            Node::Program(_) => Ok(Value::Null),
            Node::NumberLiteral(v) => Ok(Value::Number(*v)),
            Node::StringLiteral(s) => Ok(Value::String(s.clone())),
            Node::Boolean(b) => Ok(Value::Boolean(*b)),
            Node::Bugatti => Ok(Value::Null),
            Node::Identifier(name) => match self.lookup(name) {
                Some(v) => Ok(v),
                None => Err(EvalError::UnboundIdentifier(name.clone())),
            },
            Node::VarDeclaration { name, var_type: _, value } => {
                let v = match self.evaluate(value, f) {
                    Ok(v) => v,
                    Err(e) => {
                        return Err(e);
                    },
                };
                self.env_set(name, v.clone());
                Ok(v)
            },
            Node::Assignment { name, value } => {
                let v = match self.evaluate(value, f) {
                    Ok(v) => v,
                    Err(e) => {
                        return Err(e);
                    },
                };
                match self.lookup(name) {
                    Some(_) => {
                        self.env_set(name, v.clone());
                        Ok(v)
                    },
                    None => Err(EvalError::UndeclaredAssignment(name.clone())),
                }
            },
            Node::Print(e) => {
                let v = match self.evaluate(e, f) {
                    Ok(v) => v,
                    Err(err) => {
                        return Err(err);
                    },
                };
                let line = v.render();
                self.output.push(line);
                Ok(v)
            },
            Node::GoOutside { condition, then_branch, else_branch } => {
                let c = match self.evaluate(condition, f) {
                    Ok(c) => c,
                    Err(e) => {
                        return Err(e);
                    },
                };
                match c {
                    Value::Boolean(b) => if b {
                        self.execute(then_branch, f)
                    } else {
                        match else_branch {
                            Some(eb) => self.execute(eb, f),
                            None => Ok(Value::Null),
                        }
                    },
                    _ => Err(EvalError::NonBooleanCondition),
                }
            },
            Node::WhileLoop { condition, body } => {
                let c = match self.evaluate(condition, f) {
                    Ok(c) => c,
                    Err(e) => {
                        return Err(e);
                    },
                };
                if !self.is_truthy(c) {
                    Ok(Value::Null)
                } else {
                    match self.execute(body, f) {
                        Err(e) => Err(e),
                        Ok(_) => self.execute(node, f),
                    }
                }
            },
            Node::Block(stmts) => self.run_block(stmts, f),
            Node::BinaryOp { left, operator, right } => {
                let lv = match self.evaluate(left, f) {
                    Ok(v) => v,
                    Err(e) => {
                        return Err(e);
                    },
                };
                let rv = match self.evaluate(right, f) {
                    Ok(v) => v,
                    Err(e) => {
                        return Err(e);
                    },
                };
                self.evaluate_binary_op(lv, *operator, rv)
            },
        }
    }

    /// Interprets a node against the environment: the statements of a
    /// program node are run in order; any other node is executed as it
    /// stands.  Evaluation failures are returned to the caller; whatever
    /// the environment held when one arose is kept.
    pub fn interpret(&mut self, node: Node, fuel: u64) -> (r: Result<(), EvalError>)
        requires
            old(self).wf(),
        ensures
            final(self).wf(),
            ({
                let (res, env2, out) = spec_interpret(
                    node_model(&node),
                    old(self).env_model(),
                    fuel as nat,
                );
                final(self).env_model() == env2 && final(self).out_model() == old(
                    self,
                ).out_model() + out && (match r {
                    Ok(_) => res is Ok,
                    Err(e) => res == Err::<ValueModel, ErrModel>(e@),
                })
            }),
    {
        match &node {
            Node::Program(stmts) => match self.run_block(stmts, fuel) {
                Ok(_) => Ok(()),
                Err(e) => Err(e),
            },
            _ => match self.execute(&node, fuel) {
                Ok(_) => Ok(()),
                Err(e) => Err(e),
            },
        }
    }
}

} // verus!
