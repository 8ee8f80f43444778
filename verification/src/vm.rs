//! The machine of one interpreter session: the operand stack, the name
//! bindings, the block-capture stack and the text emitted by `puts`.

use vstd::prelude::*;

use crate::value::{abs_of, abs_seq, AbsValue, NativeOp, Value};

verus! {

/// One interpreter session's state. The operand stack and the bindings
/// persist for the whole session; the block-capture stack is transient and
/// empty at the natural end of a well-formed program.
pub struct Vm {
    /// The operand stack; the last element is the top.
    pub stack: Vec<Value>,
    /// The bindings, oldest first; a later entry for a name shadows an
    /// earlier one.
    pub vars: Vec<(String, Value)>,
    /// The block-capture stack: one in-progress token sequence per
    /// currently open, unmatched `{`.
    pub blocks: Vec<Vec<Value>>,
    /// The display text emitted by `puts`, oldest first.
    pub out: Vec<String>,
}

/// The mathematical form of a machine.
#[verifier::ext_equal]
pub ghost struct AbsVm {
    pub stack: Seq<AbsValue>,
    pub vars: Map<Seq<char>, AbsValue>,
    pub blocks: Seq<Seq<AbsValue>>,
    pub out: Seq<Seq<char>>,
}

/// The youngest entry for `name`, scanning the bindings back to front.
pub open spec fn assoc_get(vars: Seq<(String, Value)>, name: Seq<char>) -> Option<Value>
    decreases vars.len(),
{
    if vars.len() == 0 {
        None
    } else if vars.last().0@ == name {
        Some(vars.last().1)
    } else {
        assoc_get(vars.drop_last(), name)
    }
}

/// The bindings as a map from name to value; a later entry wins.
pub open spec fn assoc_map(vars: Seq<(String, Value)>) -> Map<Seq<char>, AbsValue>
    decreases vars.len(),
{
    if vars.len() == 0 {
        Map::empty()
    } else {
        assoc_map(vars.drop_last()).insert(vars.last().0@, abs_of(vars.last().1))
    }
}

/// The youngest matching entry is exactly what the map holds.
pub proof fn lemma_assoc(vars: Seq<(String, Value)>, name: Seq<char>)
    ensures
        assoc_map(vars).contains_key(name) <==> assoc_get(vars, name) is Some,
        assoc_get(vars, name) matches Some(v) ==> assoc_map(vars)[name] == abs_of(v),
    decreases vars.len(),
{
    if vars.len() > 0 {
        lemma_assoc(vars.drop_last(), name);
    }
}

/// The mathematical forms of the in-progress capture frames.
pub open spec fn abs_blocks(b: Seq<Vec<Value>>) -> Seq<Seq<AbsValue>> {
    Seq::new(b.len(), |i: int| abs_seq(b[i]@))
}

/// The views of the emitted display texts.
pub open spec fn abs_out(o: Seq<String>) -> Seq<Seq<char>> {
    Seq::new(o.len(), |i: int| o[i]@)
}

impl View for Vm {
    type V = AbsVm;

    open spec fn view(&self) -> AbsVm {
        AbsVm {
            stack: abs_seq(self.stack@),
            vars: assoc_map(self.vars@),
            blocks: abs_blocks(self.blocks@),
            out: abs_out(self.out@),
        }
    }
}

/// The value bound to `name`, structurally copied, or `None` where the name
/// has no binding.
#[verifier::loop_isolation(false)]
pub fn lookup(vars: &Vec<(String, Value)>, name: &String) -> (r: Option<Value>)
    ensures
        match r {
            Some(v) => {
                &&& assoc_map(vars@).contains_key(name@)
                &&& abs_of(v) == assoc_map(vars@)[name@]
            },
            None => !assoc_map(vars@).contains_key(name@),
        },
{
    proof {
        lemma_assoc(vars@, name@);
        assert(vars@.take(vars@.len() as int) =~= vars@);
    }
    let mut i: usize = vars.len();
    while i > 0
        invariant
            i <= vars@.len(),
            assoc_get(vars@.take(i as int), name@) == assoc_get(vars@, name@),
        decreases i,
    {
        proof {
            assert(vars@.take(i as int).drop_last() =~= vars@.take(i - 1));
            assert(vars@.take(i as int).last() == vars@[i - 1]);
        }
        let entry = &vars[i - 1];
        if entry.0 == *name {
            proof {
                assert(assoc_get(vars@, name@) == Some(vars@[i - 1].1));
            }
            return Some(entry.1.duplicate());
        }
        i = i - 1;
    }
    proof {
        assert(vars@.take(0int) =~= Seq::<(String, Value)>::empty());
    }
    None
}

/// Install `name -> value`, shadowing any earlier binding of that name.
pub fn bind(vars: &mut Vec<(String, Value)>, name: String, value: Value)
    ensures
        assoc_map(final(vars)@) == assoc_map(old(vars)@).insert(name@, abs_of(value)),
{
    let ghost before = vars@;
    let ghost k = name@;
    let ghost v = abs_of(value);
    vars.push((name, value));
    proof {
        assert(vars@.drop_last() =~= before);
        assert(vars@.last().0@ == k);
        assert(abs_of(vars@.last().1) == v);
    }
}

/// The bindings every fresh machine starts with: each built-in operation
/// under its name.
pub open spec fn init_bindings() -> Map<Seq<char>, AbsValue> {
    Map::empty()
        .insert("+"@, AbsValue::Native(NativeOp::Add))
        .insert("-"@, AbsValue::Native(NativeOp::Sub))
        .insert("*"@, AbsValue::Native(NativeOp::Mul))
        .insert("/"@, AbsValue::Native(NativeOp::Div))
        .insert("<"@, AbsValue::Native(NativeOp::Lt))
        .insert("if"@, AbsValue::Native(NativeOp::If))
        .insert("def"@, AbsValue::Native(NativeOp::Def))
        .insert("puts"@, AbsValue::Native(NativeOp::Puts))
        .insert("pop"@, AbsValue::Native(NativeOp::Pop))
        .insert("dup"@, AbsValue::Native(NativeOp::Dup))
        .insert("exch"@, AbsValue::Native(NativeOp::Exch))
        .insert("index"@, AbsValue::Native(NativeOp::Index))
}

/// A fresh machine: empty stack, empty capture stack, no output, and the
/// built-in operations bound to their names.
pub open spec fn init_state() -> AbsVm {
    AbsVm {
        stack: Seq::empty(),
        vars: init_bindings(),
        blocks: Seq::empty(),
        out: Seq::empty(),
    }
}

impl Vm {
    /// A fresh machine with the built-in operations installed.
    pub fn new() -> (vm: Vm)
        ensures
            vm@ == init_state(),
    {
        let mut vars: Vec<(String, Value)> = Vec::new();
        proof {
            assert(assoc_map(vars@) =~= Map::<Seq<char>, AbsValue>::empty());
        }
        bind(&mut vars, "+".to_owned(), Value::Native(NativeOp::Add));
        bind(&mut vars, "-".to_owned(), Value::Native(NativeOp::Sub));
        bind(&mut vars, "*".to_owned(), Value::Native(NativeOp::Mul));
        bind(&mut vars, "/".to_owned(), Value::Native(NativeOp::Div));
        bind(&mut vars, "<".to_owned(), Value::Native(NativeOp::Lt));
        bind(&mut vars, "if".to_owned(), Value::Native(NativeOp::If));
        bind(&mut vars, "def".to_owned(), Value::Native(NativeOp::Def));
        bind(&mut vars, "puts".to_owned(), Value::Native(NativeOp::Puts));
        bind(&mut vars, "pop".to_owned(), Value::Native(NativeOp::Pop));
        bind(&mut vars, "dup".to_owned(), Value::Native(NativeOp::Dup));
        bind(&mut vars, "exch".to_owned(), Value::Native(NativeOp::Exch));
        bind(&mut vars, "index".to_owned(), Value::Native(NativeOp::Index));
        let vm = Vm { stack: Vec::new(), vars, blocks: Vec::new(), out: Vec::new() };
        proof {
            assert(abs_seq(vm.stack@) =~= Seq::<AbsValue>::empty());
            assert(abs_blocks(vm.blocks@) =~= Seq::<Seq<AbsValue>>::empty());
            assert(abs_out(vm.out@) =~= Seq::<Seq<char>>::empty());
            assert(vm@ =~= init_state());
        }
        vm
    }
}

} // verus!
