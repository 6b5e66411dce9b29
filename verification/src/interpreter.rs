//! The evaluator.
//!
//! An `Interpreter` holds the bindings and the drawing, and `eval` walks a
//! tree against them. The walk is a recursion: how deep calls of the
//! program's procedures may nest is bounded by the interpreter's limit, and
//! evaluation fails where a call would go deeper; how deep the tree itself
//! may nest is bounded by the stack alone.
pub mod builtins;
pub mod chance;
pub mod frame;
pub mod semantics;
pub mod value;

use crate::drawer::{strokes, DrawCmd, Stroke};
use crate::interpreter::builtins::{apply_builtin, get_builtins, initial_env, is_registry, named_from, registry};
use crate::interpreter::chance::random_below;
use crate::interpreter::frame::{
    lemma_block_stays, lemma_block_stuck, lemma_each_stays, lemma_each_stuck, lemma_iterate_stays,
    lemma_iterate_stuck, lemma_node_stays,
};
use crate::interpreter::semantics::{
    bind, binop_result, call_user, counter_name, draw, eval_each, eval_node, iterate, restore, round_number,
    rounds_of, run_block, EvalError, Failure, Machine, Outcome, Outcomes,
};
use crate::interpreter::value::{data, Datum, LangFn, LogoFn, Procedure, UserFn, Value};
use crate::number::{
    difference_of, number_from_int, product_of, quotient_of, sum_of, truncation_of, Comparison, Number,
};
use crate::ordering::order_of;
use crate::parser::{boxed_terms, clone_names, terms, texts, AstNode, Binop, Term};
use vstd::hash_map::StringHashMap;
use vstd::prelude::*;

verus! {

/// How deep calls of the program's procedures may nest, unless the
/// interpreter is made with another limit.
pub const DEFAULT_DEPTH: usize = 128;

/// The machine that evaluates a tree: the bindings, and the drawing commands
/// given so far.
pub struct Interpreter {
    drawing: Vec<DrawCmd>,
    environment: StringHashMap<Value>,
    limit: usize,
    tape: Ghost<Seq<nat>>,
}

/// The value or failure that a result stands for.
pub open spec fn value_of(r: Result<Value, EvalError>) -> Result<Datum, Failure> {
    match r {
        Ok(v) => Ok(v@),
        Err(e) => Err(e@),
    }
}

/// The values or failure that a result stands for.
pub open spec fn values_of(r: Result<Vec<Value>, EvalError>) -> Result<Seq<Datum>, Failure> {
    match r {
        Ok(v) => Ok(data(v@)),
        Err(e) => Err(e@),
    }
}

/// What a name was bound to, as a saved binding tells it.
pub open spec fn saved_from(saved: Option<Value>, env: Map<Seq<char>, Datum>, name: Seq<char>) -> bool {
    match saved {
        Some(v) => env.contains_key(name) && v@ == env[name],
        None => !env.contains_key(name),
    }
}

/// The bindings of the table's entries from `from` on.
pub open spec fn listed_from(from: nat) -> Map<Seq<char>, Datum> {
    Map::new(
        |name: Seq<char>| named_from(registry(), from, name) is Some,
        |name: Seq<char>| Datum::Function(Procedure::Native(named_from(registry(), from, name)->0)),
    )
}

/// The bindings of the table's entries from `from` on, and before them those
/// of `names`, each bound to `f`.
pub open spec fn installed(from: nat, names: Seq<Seq<char>>, f: LangFn) -> Map<Seq<char>, Datum> {
    Map::new(
        |name: Seq<char>| names.contains(name) || named_from(registry(), from, name) is Some,
        |name: Seq<char>|
            Datum::Function(
                Procedure::Native(
                    if names.contains(name) {
                        f
                    } else {
                        named_from(registry(), from, name)->0
                    },
                ),
            ),
    )
}

impl View for Interpreter {
    type V = Machine;

    open spec fn view(&self) -> Machine {
        Machine { env: self.bindings(), drawing: self.strokes(), draws: self.tape().len() }
    }
}

impl Interpreter {
    /// What each name is bound to.
    pub closed spec fn bindings(&self) -> Map<Seq<char>, Datum> {
        Map::new(|name: Seq<char>| self.environment@.contains_key(name), |name: Seq<char>| self.environment@[name]@)
    }

    /// The drawing commands given so far.
    pub closed spec fn strokes(&self) -> Seq<Stroke> {
        strokes(self.drawing@)
    }

    /// The random draws made so far, in order.
    pub closed spec fn tape(&self) -> Seq<nat> {
        self.tape@
    }

    /// How deep calls of the program's procedures may nest.
    pub closed spec fn limit(&self) -> nat {
        self.limit as nat
    }

    /// Whether `self` can be a later state of the interpreter `before`: the
    /// limit is the same, and the draws made by then are still the first on
    /// the tape.
    pub open spec fn follows(&self, before: Interpreter) -> bool {
        &&& self.limit() == before.limit()
        &&& before.tape().is_prefix_of(self.tape())
    }

    /// An interpreter in which the names of the built-in procedures are bound
    /// and nothing else is, and which has drawn nothing.
    pub fn new() -> (r: Interpreter)
        ensures
            r@ == (Machine { env: initial_env(), drawing: Seq::empty(), draws: 0 }),
            r.limit() == DEFAULT_DEPTH,
            r.tape() == Seq::<nat>::empty(),
    {
        Interpreter::with_limit(DEFAULT_DEPTH)
    }

    /// As `new`, with a limit of the caller's choice on how deep calls of the
    /// program's procedures may nest.
    pub fn with_limit(limit: usize) -> (r: Interpreter)
        ensures
            r@ == (Machine { env: initial_env(), drawing: Seq::empty(), draws: 0 }),
            r.limit() == limit,
            r.tape() == Seq::<nat>::empty(),
    {
        let mut r = Interpreter {
            drawing: Vec::new(),
            environment: StringHashMap::new(),
            limit,
            tape: Ghost(Seq::empty()),
        };
        let builtins = get_builtins();
        let mut i: usize = builtins.len();
        assert(r.bindings() =~= listed_from(i as nat));
        while i > 0
            invariant
                i <= builtins.len(),
                is_registry(builtins@),
                r.bindings() == listed_from(i as nat),
                r.strokes() == Seq::<Stroke>::empty(),
                r.limit() == limit,
                r.tape() == Seq::<nat>::empty(),
            decreases i,
        {
            i -= 1;
            let names = &builtins[i].0;
            let f = &builtins[i].1;
            let ghost entry = registry()[i as int];
            let mut j: usize = 0;
            assert(r.bindings() =~= installed((i + 1) as nat, entry.0.take(0), entry.1));
            while j < names.len()
                invariant
                    j <= names.len(),
                    i < builtins.len(),
                    is_registry(builtins@),
                    names == &builtins[i as int].0,
                    f == &builtins[i as int].1,
                    entry == registry()[i as int],
                    r.bindings() == installed((i + 1) as nat, entry.0.take(j as int), entry.1),
                    r.strokes() == Seq::<Stroke>::empty(),
                    r.limit() == limit,
                    r.tape() == Seq::<nat>::empty(),
                decreases names.len() - j,
            {
                r.set(String::from_str(names[j]), f.clone());
                proof {
                    let name = names[j as int]@;
                    assert(entry.0[j as int] == name);
                    assert(entry.0.take(j + 1) =~= entry.0.take(j as int).push(name));
                    assert forall|x: Seq<char>| #[trigger]
                        entry.0.take(j + 1).contains(x) <==> (x == name || entry.0.take(j as int).contains(x)) by {
                        vstd::seq_lib::lemma_seq_contains_after_push(entry.0.take(j as int), name, x);
                    }
                    assert(r.bindings() =~= installed((i + 1) as nat, entry.0.take(j + 1), entry.1));
                }
                j += 1;
            }
            proof {
                assert(entry.0.take(j as int) =~= entry.0);
                assert(r.bindings() =~= listed_from(i as nat));
            }
        }
        assert(r.bindings() =~= initial_env());
        r
    }

    /// Binds a name to a value.
    pub(crate) fn set(&mut self, name: String, value: Value)
        ensures
            final(self).bindings() == old(self).bindings().insert(name@, value@),
            final(self).strokes() == old(self).strokes(),
            final(self).tape() == old(self).tape(),
            final(self).limit() == old(self).limit(),
    {
        self.environment.insert(name, value);
        assert(self.bindings() =~= old(self).bindings().insert(name@, value@));
    }

    /// Takes a name's binding away, if it has one.
    pub(crate) fn unset(&mut self, name: &str)
        ensures
            final(self).bindings() == old(self).bindings().remove(name@),
            final(self).strokes() == old(self).strokes(),
            final(self).tape() == old(self).tape(),
            final(self).limit() == old(self).limit(),
    {
        self.environment.remove(name);
        assert(self.bindings() =~= old(self).bindings().remove(name@));
    }

    /// What a name is bound to, if it is bound.
    pub fn get(&self, name: &str) -> (r: Option<Value>)
        ensures
            match r {
                Some(v) => self@.env.contains_key(name@) && v@ == self@.env[name@],
                None => !self@.env.contains_key(name@),
            },
    {
        match self.environment.get(name) {
            Some(v) => Some(v.clone()),
            None => None,
        }
    }

    /// Adds a drawing command to those given so far.
    pub(crate) fn emit(&mut self, cmd: DrawCmd)
        ensures
            final(self)@ == old(self)@.emit(cmd@),
            final(self).tape() == old(self).tape(),
            final(self).limit() == old(self).limit(),
    {
        self.drawing.push(cmd);
        assert(self.strokes() =~= old(self).strokes().push(cmd@));
    }

    /// Makes a random draw from `0..bound`, and puts it on the tape.
    pub(crate) fn draw_below(&mut self, bound: usize) -> (r: usize)
        requires
            bound > 0,
        ensures
            r == draw(final(self).tape(), old(self)@.draws, bound as nat),
            final(self)@ == old(self)@.after_draw(),
            final(self).tape() == old(self).tape().push(r as nat),
            final(self).limit() == old(self).limit(),
    {
        let r = random_below(bound);
        self.tape = Ghost(self.tape@.push(r as nat));
        r
    }

    /// The drawing commands given so far.
    pub fn drawing(&self) -> (r: &Vec<DrawCmd>)
        ensures
            strokes(r@) == self@.drawing,
    {
        &self.drawing
    }

    /// Applies a binary operator to two values.
    pub fn eval_binop(v1: Value, op: &Binop, v2: Value) -> (r: Result<Value, EvalError>)
        ensures
            value_of(r) == binop_result(v1@, *op, v2@),
    {
        match op {
            Binop::And => match (v1, v2) {
                (Value::Bool(b1), Value::Bool(b2)) => Ok(Value::Bool(b1 && b2)),
                (_, _) => Err(EvalError::TypeMismatch),
            },
            Binop::Or => match (v1, v2) {
                (Value::Bool(b1), Value::Bool(b2)) => Ok(Value::Bool(b1 || b2)),
                (_, _) => Err(EvalError::TypeMismatch),
            },
            Binop::Less => match (v1, v2) {
                (Value::Number(n1), Value::Number(n2)) => Ok(Value::Bool(order_of(n1, n2) == Comparison::Less)),
                (_, _) => Err(EvalError::TypeMismatch),
            },
            Binop::LessEqual => match (v1, v2) {
                (Value::Number(n1), Value::Number(n2)) => {
                    let c = order_of(n1, n2);
                    Ok(Value::Bool(c == Comparison::Less || c == Comparison::Equal))
                },
                (_, _) => Err(EvalError::TypeMismatch),
            },
            Binop::Greater => match (v1, v2) {
                (Value::Number(n1), Value::Number(n2)) => Ok(Value::Bool(order_of(n1, n2) == Comparison::Greater)),
                (_, _) => Err(EvalError::TypeMismatch),
            },
            Binop::GreaterEqual => match (v1, v2) {
                (Value::Number(n1), Value::Number(n2)) => {
                    let c = order_of(n1, n2);
                    Ok(Value::Bool(c == Comparison::Greater || c == Comparison::Equal))
                },
                (_, _) => Err(EvalError::TypeMismatch),
            },
            Binop::EqualEqual => match (v1, v2) {
                (Value::Number(n1), Value::Number(n2)) => Ok(Value::Bool(order_of(n1, n2) == Comparison::Equal)),
                (_, _) => Err(EvalError::TypeMismatch),
            },
            Binop::Add => match (v1, v2) {
                (Value::Number(n1), Value::Number(n2)) => Ok(Value::Number(sum_of(n1, n2))),
                (_, _) => Err(EvalError::TypeMismatch),
            },
            Binop::Sub => match (v1, v2) {
                (Value::Number(n1), Value::Number(n2)) => Ok(Value::Number(difference_of(n1, n2))),
                (_, _) => Err(EvalError::TypeMismatch),
            },
            Binop::Mul => match (v1, v2) {
                (Value::Number(n1), Value::Number(n2)) => Ok(Value::Number(product_of(n1, n2))),
                (_, _) => Err(EvalError::TypeMismatch),
            },
            Binop::Div => match (v1, v2) {
                (Value::Number(n1), Value::Number(n2)) => Ok(Value::Number(quotient_of(n1, n2))),
                (_, _) => Err(EvalError::TypeMismatch),
            },
        }
    }
}

impl Interpreter {
    /// Evaluates a tree: gives its value, or says why it has none, and
    /// leaves the bindings and the drawing as the evaluation made them.
    pub fn eval(&mut self, node: &AstNode) -> (r: Result<Value, EvalError>)
        ensures
            final(self).follows(*old(self)),
            eval_node(old(self).limit(), node@, old(self)@, final(self).tape()) == (Outcome {
                value: value_of(r),
                machine: final(self)@,
            }),
    {
        let depth = self.limit;
        self.eval_within(node, depth)
    }

    fn eval_within(&mut self, node: &AstNode, depth: usize) -> (r: Result<Value, EvalError>)
        ensures
            final(self).follows(*old(self)),
            eval_node(depth as nat, node@, old(self)@, final(self).tape()) == (Outcome {
                value: value_of(r),
                machine: final(self)@,
            }),
        decreases depth, node, 1nat,
    {
        proof {
            node.lemma_term();
        }
        match node {
            AstNode::String(s) => Ok(Value::String(s.clone())),
            AstNode::Number(n) => Ok(Value::Number(*n)),
            AstNode::Variable(x) => match self.get(x.as_str()) {
                Some(v) => Ok(v),
                None => Err(EvalError::UnboundVariable(x.clone())),
            },
            AstNode::List(elems) => match self.eval_items(elems, depth) {
                Ok(items) => {
                    let r = Value::List(items);
                    proof {
                        r.lemma_list_datum();
                    }
                    Ok(r)
                },
                Err(e) => Err(e),
            },
            AstNode::Binop { lhs, op, rhs } => {
                let ghost m0 = self@;
                let v1 = match self.eval_within(&**lhs, depth) {
                    Ok(v) => v,
                    Err(e) => {
                        return Err(e);
                    },
                };
                let ghost t1 = self.tape();
                let r2 = self.eval_within(&**rhs, depth);
                proof {
                    lemma_node_stays(depth as nat, lhs@, m0, t1, self.tape());
                }
                match r2 {
                    Ok(v2) => Self::eval_binop(v1, op, v2),
                    Err(e) => Err(e),
                }
            },
            AstNode::Call { f, args } => self.eval_call(node, depth),
            AstNode::If { condition, body } => {
                let ghost m0 = self@;
                let c = match self.eval_within(&**condition, depth) {
                    Ok(v) => v,
                    Err(e) => {
                        return Err(e);
                    },
                };
                let ghost t1 = self.tape();
                match c {
                    Value::Bool(true) => {
                        let r = self.eval_within(&**body, depth);
                        proof {
                            lemma_node_stays(depth as nat, condition@, m0, t1, self.tape());
                        }
                        r
                    },
                    Value::Bool(false) => Ok(Value::Nothing),
                    _ => Err(EvalError::NonBooleanGuard),
                }
            },
            AstNode::Loop { repeat, body } => self.eval_loop(node, depth),
            AstNode::ProcDef { proc_name, params, body } => {
                let f = UserFn { params: clone_names(params), body: (**body).clone() };
                proof {
                    assert(texts(f.params@) =~= texts(params@));
                }
                self.set(proc_name.clone(), Value::Function(LogoFn::UserFn(f)));
                Ok(Value::Nothing)
            },
            AstNode::Block(stmts) => self.eval_block(node, depth),
        }
    }

    /// Evaluates the items of a list in turn.
    fn eval_items(&mut self, elems: &Vec<AstNode>, depth: usize) -> (r: Result<Vec<Value>, EvalError>)
        ensures
            final(self).follows(*old(self)),
            eval_each(depth as nat, terms(elems@), elems.len() as nat, old(self)@, final(self).tape()) == (Outcomes {
                values: values_of(r),
                machine: final(self)@,
            }),
        decreases depth, elems, 0nat,
    {
        let ghost m0 = self@;
        let ghost nodes = terms(elems@);
        let mut out: Vec<Value> = Vec::new();
        let mut i: usize = 0;
        assert(data(out@) =~= Seq::<Datum>::empty());
        while i < elems.len()
            invariant
                i <= elems.len(),
                nodes == terms(elems@),
                m0 == old(self)@,
                self.follows(*old(self)),
                eval_each(depth as nat, nodes, i as nat, m0, self.tape()) == (Outcomes {
                    values: Ok(data(out@)),
                    machine: self@,
                }),
            decreases elems.len() - i,
        {
            let ghost t1 = self.tape();
            let r = self.eval_within(&elems[i], depth);
            proof {
                lemma_each_stays(depth as nat, nodes, i as nat, m0, t1, self.tape());
                assert(nodes[i as int] == elems[i as int]@);
            }
            match r {
                Ok(v) => {
                    proof {
                        assert(data(out@.push(v)) =~= data(out@).push(v@));
                    }
                    out.push(v);
                },
                Err(e) => {
                    proof {
                        lemma_each_stuck(depth as nat, nodes, (i + 1) as nat, elems.len() as nat, m0, self.tape());
                    }
                    return Err(e);
                },
            }
            i += 1;
        }
        Ok(out)
    }

    /// Evaluates the arguments of a call in turn.
    fn eval_args(&mut self, args: &Vec<Box<AstNode>>, depth: usize) -> (r: Result<Vec<Value>, EvalError>)
        ensures
            final(self).follows(*old(self)),
            eval_each(depth as nat, boxed_terms(args@), args.len() as nat, old(self)@, final(self).tape())
                == (Outcomes { values: values_of(r), machine: final(self)@ }),
        decreases depth, args, 0nat,
    {
        let ghost m0 = self@;
        let ghost nodes = boxed_terms(args@);
        let mut out: Vec<Value> = Vec::new();
        let mut i: usize = 0;
        assert(data(out@) =~= Seq::<Datum>::empty());
        while i < args.len()
            invariant
                i <= args.len(),
                nodes == boxed_terms(args@),
                m0 == old(self)@,
                self.follows(*old(self)),
                eval_each(depth as nat, nodes, i as nat, m0, self.tape()) == (Outcomes {
                    values: Ok(data(out@)),
                    machine: self@,
                }),
            decreases args.len() - i,
        {
            let ghost t1 = self.tape();
            let r = self.eval_within(&*args[i], depth);
            proof {
                lemma_each_stays(depth as nat, nodes, i as nat, m0, t1, self.tape());
                assert(nodes[i as int] == args[i as int]@);
            }
            match r {
                Ok(v) => {
                    proof {
                        assert(data(out@.push(v)) =~= data(out@).push(v@));
                    }
                    out.push(v);
                },
                Err(e) => {
                    proof {
                        lemma_each_stuck(depth as nat, nodes, (i + 1) as nat, args.len() as nat, m0, self.tape());
                    }
                    return Err(e);
                },
            }
            i += 1;
        }
        Ok(out)
    }

    /// Evaluates a call: the callee, then the arguments, then the procedure
    /// on them.
    fn eval_call(&mut self, node: &AstNode, depth: usize) -> (r: Result<Value, EvalError>)
        requires
            node is Call,
        ensures
            final(self).follows(*old(self)),
            eval_node(depth as nat, node@, old(self)@, final(self).tape()) == (Outcome {
                value: value_of(r),
                machine: final(self)@,
            }),
        decreases depth, node, 0nat,
    {
        proof {
            node.lemma_term();
        }
        match node {
            AstNode::Call { f, args } => {
                let ghost m0 = self@;
                let callee = match self.eval_within(&**f, depth) {
                    Ok(v) => v,
                    Err(e) => {
                        return Err(e);
                    },
                };
                let ghost t1 = self.tape();
                let ghost m1 = self@;
                let given = self.eval_args(args, depth);
                let ghost t2 = self.tape();
                proof {
                    lemma_node_stays(depth as nat, f@, m0, t1, t2);
                }
                let given = match given {
                    Ok(g) => g,
                    Err(e) => {
                        return Err(e);
                    },
                };
                match callee {
                    Value::Function(LogoFn::LangFn(l)) => {
                        let r = apply_builtin(self, l.function, given);
                        proof {
                            lemma_node_stays(depth as nat, f@, m0, t2, self.tape());
                            lemma_each_stays(
                                depth as nat,
                                boxed_terms(args@),
                                args.len() as nat,
                                m1,
                                t2,
                                self.tape(),
                            );
                        }
                        r
                    },
                    Value::Function(LogoFn::UserFn(u)) => {
                        if given.len() != u.params.len() {
                            Err(EvalError::ArityMismatch)
                        } else if depth == 0 {
                            Err(EvalError::DepthExceeded)
                        } else {
                            let r = self.call_procedure(&u, given, depth - 1);
                            proof {
                                lemma_node_stays(depth as nat, f@, m0, t2, self.tape());
                                lemma_each_stays(
                                    depth as nat,
                                    boxed_terms(args@),
                                    args.len() as nat,
                                    m1,
                                    t2,
                                    self.tape(),
                                );
                            }
                            r
                        }
                    },
                    _ => Err(EvalError::NotCallable),
                }
            },
            _ => Err(EvalError::NotCallable),
        }
    }

    /// Calls a procedure of the program on as many values as it has
    /// parameters.
    #[verifier::loop_isolation(false)]
    fn call_procedure(&mut self, f: &UserFn, args: Vec<Value>, depth: usize) -> (r: Result<Value, EvalError>)
        requires
            args.len() == f.params.len(),
        ensures
            final(self).follows(*old(self)),
            call_user(depth as nat, texts(f.params@), f.body@, data(args@), old(self)@, final(self).tape())
                == (Outcome { value: value_of(r), machine: final(self)@ }),
        decreases depth, f.body, 2nat,
    {
        let ghost m0 = self@;
        let ghost names = texts(f.params@);
        let ghost values = data(args@);
        let mut saved: Vec<Option<Value>> = Vec::new();
        let mut i: usize = 0;
        while i < f.params.len()
            invariant
                i <= f.params.len(),
                saved.len() == i,
                names == texts(f.params@),
                self@ == m0,
                forall|j: int| 0 <= j < i ==> saved_from(#[trigger] saved[j], m0.env, names[j]),
            decreases f.params.len() - i,
        {
            saved.push(self.get(f.params[i].as_str()));
            i += 1;
        }
        i = 0;
        while i < f.params.len()
            invariant
                i <= f.params.len(),
                args.len() == f.params.len(),
                names == texts(f.params@),
                values == data(args@),
                self.follows(*old(self)),
                self.tape() == old(self).tape(),
                self@ == m0.with_env(bind(m0.env, names, values, i as nat)),
            decreases f.params.len() - i,
        {
            self.set(f.params[i].clone(), args[i].clone());
            i += 1;
        }
        let r = self.eval_within(&f.body, depth);
        if let Err(e) = r {
            return Err(e);
        }
        let ghost m1 = self@;
        let ghost t1 = self.tape();
        i = 0;
        proof {
            assert(m1.env =~= restore(m1.env, m0.env, names.take(0)));
        }
        while i < f.params.len()
            invariant
                i <= f.params.len(),
                saved.len() == f.params.len(),
                names == texts(f.params@),
                self.follows(*old(self)),
                self.tape() == t1,
                forall|j: int| 0 <= j < saved.len() ==> saved_from(#[trigger] saved[j], m0.env, names[j]),
                self@ == m1.with_env(restore(m1.env, m0.env, names.take(i as int))),
            decreases f.params.len() - i,
        {
            let ghost name = names[i as int];
            assert(saved_from(saved[i as int], m0.env, name));
            match &saved[i] {
                Some(v) => {
                    self.set(f.params[i].clone(), v.clone());
                },
                None => {
                    self.unset(f.params[i].as_str());
                },
            }
            proof {
                assert(names.take(i + 1) =~= names.take(i as int).push(name));
                assert forall|x: Seq<char>| #[trigger]
                    names.take(i + 1).contains(x) <==> (x == name || names.take(i as int).contains(x)) by {
                    vstd::seq_lib::lemma_seq_contains_after_push(names.take(i as int), name, x);
                }
                assert(self@.env =~= restore(m1.env, m0.env, names.take(i + 1)));
            }
            i += 1;
        }
        proof {
            assert(names.take(i as int) =~= names);
        }
        Ok(Value::Nothing)
    }

    /// Evaluates a `repeat`: the count, then the body once for each round.
    #[verifier::loop_isolation(false)]
    fn eval_loop(&mut self, node: &AstNode, depth: usize) -> (r: Result<Value, EvalError>)
        requires
            node is Loop,
        ensures
            final(self).follows(*old(self)),
            eval_node(depth as nat, node@, old(self)@, final(self).tape()) == (Outcome {
                value: value_of(r),
                machine: final(self)@,
            }),
        decreases depth, node, 0nat,
    {
        proof {
            node.lemma_term();
        }
        match node {
            AstNode::Loop { repeat, body } => {
                let ghost m0 = self@;
                let count = match self.eval_within(&**repeat, depth) {
                    Ok(v) => v,
                    Err(e) => {
                        return Err(e);
                    },
                };
                let ghost t1 = self.tape();
                let ghost m1 = self@;
                let n = match count {
                    Value::Number(n) => n,
                    _ => {
                        return Err(EvalError::NonNumericRepeatCount);
                    },
                };
                let total: i32 = truncation_of(n);
                let saved = self.get("repcount");
                let mut done: i32 = 0;
                while done < total
                    invariant
                        0 <= done,
                        total > 0 ==> done <= total,
                        total <= 0 ==> done == 0,
                        total == n.truncation(),
                        m0 == old(self)@,
                        m1.draws == t1.len(),
                        t1.is_prefix_of(self.tape()),
                        self.follows(*old(self)),
                        eval_node(depth as nat, repeat@, m0, t1) == m1.done(count@),
                        count@ == Datum::Number(n),
                        iterate(depth as nat, body@, done as nat, m1, self.tape()) == self@.done(Datum::Nothing),
                    decreases total - done,
                {
                    let ghost tb = self.tape();
                    let ghost mb = self@;
                    done += 1;
                    self.set(String::from_str("repcount"), Value::Number(number_from_int(done)));
                    let r = self.eval_within(&**body, depth);
                    proof {
                        lemma_iterate_stays(depth as nat, body@, (done - 1) as nat, m1, tb, self.tape());
                        assert(iterate(depth as nat, body@, (done - 1) as nat, m1, self.tape()) == mb.done(
                            Datum::Nothing,
                        ));
                        assert(round_number(done as nat) == Number::of_int(done));
                    }
                    if let Err(e) = r {
                        proof {
                            lemma_iterate_stuck(depth as nat, body@, done as nat, rounds_of(n), m1, self.tape());
                            lemma_node_stays(depth as nat, repeat@, m0, t1, self.tape());
                        }
                        return Err(e);
                    }
                }
                let ghost m2 = self@;
                assert(done as nat == rounds_of(n));
                assert(saved_from(saved, m1.env, counter_name()));
                match saved {
                    Some(v) => {
                        self.set(String::from_str("repcount"), v);
                    },
                    None => {
                        self.unset("repcount");
                    },
                }
                proof {
                    lemma_node_stays(depth as nat, repeat@, m0, t1, self.tape());
                    let names = seq![counter_name()];
                    assert forall|x: Seq<char>| names.contains(x) <==> x == counter_name() by {
                        if x == counter_name() {
                            assert(names[0] == x);
                        }
                    }
                    assert(self@.env =~= restore(m2.env, m1.env, names));
                    assert(eval_node(depth as nat, repeat@, m0, self.tape()) == m1.done(count@));
                    assert(iterate(depth as nat, body@, rounds_of(n), m1, self.tape()) == m2.done(Datum::Nothing));
                }
                Ok(Value::Nothing)
            },
            _ => Err(EvalError::NonNumericRepeatCount),
        }
    }

    /// Evaluates the statements of a block in turn, up to the first that
    /// returns.
    #[verifier::loop_isolation(false)]
    fn eval_block(&mut self, node: &AstNode, depth: usize) -> (r: Result<Value, EvalError>)
        requires
            node is Block,
        ensures
            final(self).follows(*old(self)),
            eval_node(depth as nat, node@, old(self)@, final(self).tape()) == (Outcome {
                value: value_of(r),
                machine: final(self)@,
            }),
        decreases depth, node, 0nat,
    {
        proof {
            node.lemma_term();
        }
        match node {
            AstNode::Block(stmts) => {
                let ghost m0 = self@;
                let ghost nodes = boxed_terms(stmts@);
                let mut ret = Value::Nothing;
                let mut i: usize = 0;
                while i < stmts.len()
                    invariant
                        i <= stmts.len(),
                        nodes == boxed_terms(stmts@),
                        m0 == old(self)@,
                        self.follows(*old(self)),
                        ret@ != Datum::Return,
                        run_block(depth as nat, nodes, i as nat, m0, self.tape()) == self@.done(ret@),
                    decreases stmts.len() - i,
                {
                    let ghost t1 = self.tape();
                    let ghost m1 = self@;
                    let r = self.eval_within(&*stmts[i], depth);
                    proof {
                        lemma_block_stays(depth as nat, nodes, i as nat, m0, t1, self.tape());
                        assert(nodes[i as int] == stmts[i as int]@);
                        assert(run_block(depth as nat, nodes, (i + 1) as nat, m0, self.tape()) == eval_node(
                            depth as nat,
                            nodes[i as int],
                            m1,
                            self.tape(),
                        ));
                    }
                    match r {
                        Err(e) => {
                            proof {
                                lemma_block_stuck(
                                    depth as nat,
                                    nodes,
                                    (i + 1) as nat,
                                    stmts.len() as nat,
                                    m0,
                                    self.tape(),
                                );
                            }
                            return Err(e);
                        },
                        Ok(v) => {
                            if let Value::Return = v {
                                proof {
                                    lemma_block_stuck(
                                        depth as nat,
                                        nodes,
                                        (i + 1) as nat,
                                        stmts.len() as nat,
                                        m0,
                                        self.tape(),
                                    );
                                }
                                return Ok(v);
                            }
                            ret = v;
                        },
                    }
                    i += 1;
                }
                Ok(ret)
            },
            _ => Ok(Value::Nothing),
        }
    }
}

/// Evaluates a program in a fresh interpreter, and gives the drawing
/// commands that it asks for, in order.
pub fn evaluate(source: &AstNode) -> (r: Result<Vec<DrawCmd>, EvalError>)
    ensures
        exists|tape: Seq<nat>| run(source@, DEFAULT_DEPTH as nat, tape) == drawing_of(r),
{
    let mut interpreter = Interpreter::new();
    let r = match interpreter.eval(source) {
        Ok(_) => Ok(interpreter.drawing),
        Err(e) => Err(e),
    };
    assert(run(source@, DEFAULT_DEPTH as nat, interpreter.tape()) == drawing_of(r));
    r
}

/// The drawing or failure that a result stands for.
pub open spec fn drawing_of(r: Result<Vec<DrawCmd>, EvalError>) -> Result<Seq<Stroke>, Failure> {
    match r {
        Ok(cmds) => Ok(strokes(cmds@)),
        Err(e) => Err(e@),
    }
}

/// What a program draws, or why it fails, on a given tape of random draws,
/// when it starts with the built-in procedures bound and nothing else.
pub open spec fn run(program: Term, depth: nat, tape: Seq<nat>) -> Result<Seq<Stroke>, Failure> {
    let out = eval_node(depth, program, Machine { env: initial_env(), drawing: Seq::empty(), draws: 0 }, tape);
    match out.value {
        Ok(_) => Ok(out.machine.drawing),
        Err(e) => Err(e),
    }
}

} // verus!
