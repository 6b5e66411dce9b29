//! Run-time values.
use crate::number::Number;
use crate::parser::{clone_names, texts, AstNode, Term};
use vstd::prelude::*;

verus! {

/// An operation that the interpreter itself carries out.
#[derive(Debug, PartialEq, Eq, Clone, Copy, Structural)]
pub enum Builtin {
    /// Draws a move forward by a number.
    Forward,
    /// Draws a move back by a number.
    Back,
    /// Draws a turn left by a number of degrees.
    LeftTurn,
    /// Draws a turn right by a number of degrees.
    RightTurn,
    /// Draws a change of color to the one that a text names.
    SetColor,
    /// Draws a cleared screen.
    ClearScreen,
    /// Gives an item of a list, drawn at random.
    Pick,
    /// Gives an integer from 0 up to, and without, a number, drawn at random.
    Random,
    /// Gives the signal that ends the block around it.
    Stop,
    /// Draws a lifted pen.
    PenUp,
    /// Draws a lowered pen.
    PenDown,
    /// Draws a text.
    Label,
    /// Draws a change of font size to a number.
    SetFontSize,
    /// Draws a change of turtle to the one of an index: a number, truncated.
    SetTurtle,
}

/// A built-in procedure: the operation, and how many arguments it takes.
#[derive(Debug, PartialEq, Eq, Clone, Copy, Structural)]
pub struct LangFn {
    pub arity: usize,
    pub function: Builtin,
}

/// A procedure defined by the program: parameter names and a body. It holds
/// its own copy of the body, and nothing of the bindings that were in force
/// where it was defined.
#[derive(Debug, PartialEq)]
pub struct UserFn {
    pub params: Vec<String>,
    pub body: AstNode,
}

/// Something that can be called.
#[derive(Debug, PartialEq)]
pub enum LogoFn {
    /// A built-in procedure.
    LangFn(LangFn),
    /// A procedure that the program defined.
    UserFn(UserFn),
}

/// What a node of the tree evaluates to.
#[derive(Debug, PartialEq)]
pub enum Value {
    /// No value: what a command gives.
    Nothing,
    /// The signal that `stop` gives. It ends the block in which it appears.
    Return,
    Bool(bool),
    Number(Number),
    String(String),
    /// Values in order; they need not be of one type.
    List(Vec<Value>),
    Function(LogoFn),
}

/// The mathematical value of a callable.
pub enum Procedure {
    Native(LangFn),
    User { params: Seq<Seq<char>>, body: Term },
}

/// The mathematical value of a run-time value.
pub enum Datum {
    Nothing,
    Return,
    Bool(bool),
    Number(Number),
    Text(Seq<char>),
    List(Seq<Datum>),
    Function(Procedure),
}

impl View for UserFn {
    type V = Procedure;

    open spec fn view(&self) -> Procedure {
        Procedure::User { params: texts(self.params@), body: self.body@ }
    }
}

impl View for LogoFn {
    type V = Procedure;

    open spec fn view(&self) -> Procedure {
        match self {
            LogoFn::LangFn(f) => Procedure::Native(*f),
            LogoFn::UserFn(f) => f@,
        }
    }
}

impl Value {
    /// The datum that this value stands for.
    pub open spec fn datum(&self) -> Datum
        decreases self,
    {
        match self {
            Value::Nothing => Datum::Nothing,
            Value::Return => Datum::Return,
            Value::Bool(b) => Datum::Bool(*b),
            Value::Number(n) => Datum::Number(*n),
            Value::String(s) => Datum::Text(s@),
            Value::List(items) => Datum::List(
                Seq::new(
                    items.len() as nat,
                    |i: int|
                        if 0 <= i < items.len() {
                            items[i].datum()
                        } else {
                            Datum::Nothing
                        },
                ),
            ),
            Value::Function(f) => Datum::Function(f@),
        }
    }

    /// The datum of a list value, written over the data of its items.
    pub proof fn lemma_list_datum(&self)
        requires
            self is List,
        ensures
            self@ == Datum::List(data(self->List_0@)),
    {
        assert(self@->List_0 =~= data(self->List_0@));
    }
}

impl View for Value {
    type V = Datum;

    open spec fn view(&self) -> Datum {
        self.datum()
    }
}

/// The data of a list of values, in order.
pub open spec fn data(values: Seq<Value>) -> Seq<Datum> {
    Seq::new(values.len(), |i: int| values[i]@)
}

impl Clone for UserFn {
    fn clone(&self) -> (r: Self)
        ensures
            r@ == self@,
    {
        let params = clone_names(&self.params);
        let body = self.body.clone();
        assert(texts(params@) =~= texts(self.params@));
        UserFn { params, body }
    }
}

impl Clone for LogoFn {
    fn clone(&self) -> (r: Self)
        ensures
            r@ == self@,
    {
        match self {
            LogoFn::LangFn(f) => LogoFn::LangFn(*f),
            LogoFn::UserFn(f) => LogoFn::UserFn(f.clone()),
        }
    }
}

impl Clone for Value {
    #[verifier::loop_isolation(false)]
    fn clone(&self) -> (r: Self)
        ensures
            r@ == self@,
        decreases self,
    {
        match self {
            Value::Nothing => Value::Nothing,
            Value::Return => Value::Return,
            Value::Bool(b) => Value::Bool(*b),
            Value::Number(n) => Value::Number(*n),
            Value::String(s) => Value::String(s.clone()),
            Value::List(items) => {
                let mut out: Vec<Value> = Vec::new();
                let mut i: usize = 0;
                while i < items.len()
                    invariant
                        i <= items.len(),
                        out.len() == i,
                        forall|j: int| 0 <= j < i ==> out[j]@ == items[j]@,
                    decreases items.len() - i,
                {
                    out.push(items[i].clone());
                    i += 1;
                }
                let r = Value::List(out);
                proof {
                    r.lemma_list_datum();
                    self.lemma_list_datum();
                    assert(data(out@) =~= data(items@));
                }
                r
            },
            Value::Function(f) => Value::Function(f.clone()),
        }
    }
}

} // verus!
