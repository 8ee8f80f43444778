//! The runtime value model: a tagged union of numbers, unresolved operator
//! names, quoted symbols, captured code blocks and built-in operations,
//! together with its mathematical counterpart used in contracts.

use vstd::prelude::*;

verus! {

/// Identifier of a built-in operation, bound to its name when a machine is
/// created and dispatched through a single match.
#[derive(Clone, Copy, Debug, PartialEq, Eq, Structural)]
pub enum NativeOp {
    Add,
    Sub,
    Mul,
    Div,
    Lt,
    If,
    Def,
    Puts,
    Pop,
    Dup,
    Exch,
    Index,
}

/// A runtime value. `Op` is an unresolved token naming an operation or a
/// variable; `Sym` is a quoted identifier (written with a leading `/`);
/// `Block` is captured, unexecuted code.
#[derive(Debug, PartialEq, Eq)]
pub enum Value {
    Num(i32),
    Op(String),
    Sym(String),
    Block(Vec<Value>),
    Native(NativeOp),
}

/// The variant of a [`Value`], used to report type mismatches.
#[derive(Clone, Copy, Debug, PartialEq, Eq, Structural)]
pub enum ValueKind {
    Number,
    Operator,
    Symbol,
    Block,
    Native,
}

/// The mathematical form of a [`Value`]: text as `Seq<char>`, block contents
/// as `Seq<AbsValue>`, numbers as unbounded integers.
pub ghost enum AbsValue {
    Num(int),
    Op(Seq<char>),
    Sym(Seq<char>),
    Block(Seq<AbsValue>),
    Native(NativeOp),
}

/// The mathematical form of a value.
pub open spec fn abs_of(v: Value) -> AbsValue
    decreases v,
{
    match v {
        Value::Num(n) => AbsValue::Num(n as int),
        Value::Op(s) => AbsValue::Op(s@),
        Value::Sym(s) => AbsValue::Sym(s@),
        Value::Block(b) => AbsValue::Block(abs_seq(b@)),
        Value::Native(op) => AbsValue::Native(op),
    }
}

/// The mathematical forms of the elements of a sequence of values.
pub open spec fn abs_seq(s: Seq<Value>) -> Seq<AbsValue>
    decreases s,
{
    if s.len() == 0 {
        Seq::empty()
    } else {
        abs_seq(s.drop_last()).push(abs_of(s.last()))
    }
}

impl View for Value {
    type V = AbsValue;

    #[verifier::inline]
    open spec fn view(&self) -> AbsValue {
        abs_of(*self)
    }
}

/// `abs_seq` maps the elements one for one.
pub proof fn lemma_abs_seq(s: Seq<Value>)
    ensures
        abs_seq(s).len() == s.len(),
        forall|i: int| 0 <= i < s.len() ==> abs_seq(s)[i] == abs_of(s[i]),
    decreases s.len(),
{
    if s.len() > 0 {
        lemma_abs_seq(s.drop_last());
    }
}

/// Taking a prefix of a sequence takes the same prefix of its mathematical
/// form.
pub proof fn lemma_abs_seq_take(s: Seq<Value>, k: int)
    requires
        0 <= k <= s.len(),
    ensures
        abs_seq(s.take(k)) =~= abs_seq(s).take(k),
{
    lemma_abs_seq(s);
    lemma_abs_seq(s.take(k));
}

/// Appending a value to a sequence appends its mathematical form.
pub proof fn lemma_abs_seq_push(s: Seq<Value>, v: Value)
    ensures
        abs_seq(s.push(v)) =~= abs_seq(s).push(abs_of(v)),
{
    assert(s.push(v).drop_last() =~= s);
}

/// The display form of a value: decimal text for a number, the raw text of
/// an operator name or symbol, and an opaque placeholder for a block or a
/// built-in.
pub open spec fn spec_display(v: AbsValue) -> Seq<char> {
    match v {
        AbsValue::Num(n) => crate::num::dec_int(n),
        AbsValue::Op(s) => s,
        AbsValue::Sym(s) => s,
        AbsValue::Block(_) => "<Block>"@,
        AbsValue::Native(_) => "<Native"@,
    }
}

/// The variant of an abstract value.
pub open spec fn kind_of(v: AbsValue) -> ValueKind {
    match v {
        AbsValue::Num(_) => ValueKind::Number,
        AbsValue::Op(_) => ValueKind::Operator,
        AbsValue::Sym(_) => ValueKind::Symbol,
        AbsValue::Block(_) => ValueKind::Block,
        AbsValue::Native(_) => ValueKind::Native,
    }
}

/// An evaluation failure. Every operation surfaces its failures as a value
/// of this type instead of aborting; an error ends the current input unit.
#[derive(Debug, PartialEq, Eq)]
pub enum EvalError {
    /// An operation required more operands than the stack held.
    StackUnderflow,
    /// An operand's variant was not what the operation required
    /// (expected, found).
    TypeMismatch(ValueKind, ValueKind),
    /// An operator name had no binding.
    UndefinedOperation(String),
    /// The right operand of a division was zero.
    DivisionByZero,
    /// A `}` appeared with no matching open `{`.
    BlockUnderrun,
    /// Input ended with one or more `{` still open.
    UnterminatedBlock,
    /// The operand of `index` was negative or exceeded the stack depth.
    IndexOutOfRange,
    /// Evaluation exceeded its step budget; the hazard of a self-referential
    /// binding with no base case.
    ResourceExhausted,
}

/// The mathematical form of an [`EvalError`].
pub ghost enum AbsError {
    StackUnderflow,
    TypeMismatch(ValueKind, ValueKind),
    UndefinedOperation(Seq<char>),
    DivisionByZero,
    BlockUnderrun,
    UnterminatedBlock,
    IndexOutOfRange,
    ResourceExhausted,
}

impl View for EvalError {
    type V = AbsError;

    open spec fn view(&self) -> AbsError {
        match self {
            EvalError::StackUnderflow => AbsError::StackUnderflow,
            EvalError::TypeMismatch(e, f) => AbsError::TypeMismatch(*e, *f),
            EvalError::UndefinedOperation(s) => AbsError::UndefinedOperation(s@),
            EvalError::DivisionByZero => AbsError::DivisionByZero,
            EvalError::BlockUnderrun => AbsError::BlockUnderrun,
            EvalError::UnterminatedBlock => AbsError::UnterminatedBlock,
            EvalError::IndexOutOfRange => AbsError::IndexOutOfRange,
            EvalError::ResourceExhausted => AbsError::ResourceExhausted,
        }
    }
}

impl Value {
    /// The variant of this value.
    pub fn kind(&self) -> (k: ValueKind)
        ensures
            k == kind_of(self@),
    {
        match self {
            Value::Num(_) => ValueKind::Number,
            Value::Op(_) => ValueKind::Operator,
            Value::Sym(_) => ValueKind::Symbol,
            Value::Block(_) => ValueKind::Block,
            Value::Native(_) => ValueKind::Native,
        }
    }

    /// Convert to a number; any other variant is a type mismatch.
    pub fn as_num(&self) -> (r: Result<i32, EvalError>)
        ensures
            match r {
                Ok(n) => self@ == AbsValue::Num(n as int),
                Err(e) => {
                    &&& kind_of(self@) != ValueKind::Number
                    &&& e@ == AbsError::TypeMismatch(ValueKind::Number, kind_of(self@))
                },
            },
    {
        match self {
            Value::Num(n) => Ok(*n),
            _ => Err(EvalError::TypeMismatch(ValueKind::Number, self.kind())),
        }
    }

    /// Convert to the text of a symbol; any other variant is a type mismatch.
    pub fn as_sym(&self) -> (r: Result<&str, EvalError>)
        ensures
            match r {
                Ok(s) => self@ == AbsValue::Sym(s@),
                Err(e) => {
                    &&& kind_of(self@) != ValueKind::Symbol
                    &&& e@ == AbsError::TypeMismatch(ValueKind::Symbol, kind_of(self@))
                },
            },
    {
        match self {
            Value::Sym(s) => Ok(s.as_str()),
            _ => Err(EvalError::TypeMismatch(ValueKind::Symbol, self.kind())),
        }
    }

    /// Convert to the contents of a block; any other variant is a type
    /// mismatch.
    pub fn to_block(self) -> (r: Result<Vec<Value>, EvalError>)
        ensures
            match r {
                Ok(b) => self@ == AbsValue::Block(abs_seq(b@)),
                Err(e) => {
                    &&& kind_of(self@) != ValueKind::Block
                    &&& e@ == AbsError::TypeMismatch(ValueKind::Block, kind_of(self@))
                },
            },
    {
        let k = self.kind();
        match self {
            Value::Block(b) => Ok(b),
            _ => Err(EvalError::TypeMismatch(ValueKind::Block, k)),
        }
    }

    /// The display form used by `puts`, as [`spec_display`] describes it.
    pub fn to_string(&self) -> (r: String)
        ensures
            r@ == spec_display(self@),
    {
        match self {
            Value::Num(n) => crate::num::num_to_string(*n),
            Value::Op(s) => s.clone(),
            Value::Sym(s) => s.clone(),
            Value::Block(_) => "<Block>".to_owned(),
            Value::Native(_) => "<Native".to_owned(),
        }
    }

    /// A structural copy: the result has the same mathematical form.
    #[verifier::loop_isolation(false)]
    pub fn duplicate(&self) -> (r: Value)
        ensures
            r@ == self@,
        decreases self,
    {
        match self {
            Value::Num(n) => Value::Num(*n),
            Value::Op(s) => Value::Op(s.clone()),
            Value::Sym(s) => Value::Sym(s.clone()),
            Value::Native(op) => Value::Native(*op),
            Value::Block(b) => {
                let mut out: Vec<Value> = Vec::new();
                let mut i: usize = 0;
                while i < b.len()
                    invariant
                        i <= b@.len(),
                        out@.len() == i,
                        forall|j: int| 0 <= j < i ==> abs_of(out@[j]) == abs_of(b@[j]),
                    decreases b@.len() - i,
                {
                    let copy = b[i].duplicate();
                    out.push(copy);
                    i = i + 1;
                }
                proof {
                    lemma_abs_seq(out@);
                    lemma_abs_seq(b@);
                    assert(abs_seq(out@) =~= abs_seq(b@));
                }
                Value::Block(out)
            },
        }
    }
}

} // verus!
