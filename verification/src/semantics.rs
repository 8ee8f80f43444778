//! The mathematical semantics of the language: what one classified value
//! does to the machine, what each built-in operation does, how one token is
//! handled, and what a whole run of tokens yields.

use vstd::prelude::*;

use crate::arith::{arith_result, is_arith};
use crate::num::spec_parse_num;
use crate::value::{kind_of, spec_display, AbsError, AbsValue, NativeOp, ValueKind};
use crate::vm::AbsVm;

verus! {

/// The outcome of one semantic step: the machine after it, and the error
/// that stopped it, if one did. An operation that fails its own validation
/// leaves the machine as it was; an error inside a nested evaluation keeps
/// the effects of what already ran.
#[verifier::ext_equal]
pub ghost struct Step {
    pub st: AbsVm,
    pub err: Option<AbsError>,
}

/// A step that went through.
pub open spec fn step_ok(st: AbsVm) -> Step {
    Step { st, err: None }
}

/// A step that stopped with `e`.
pub open spec fn step_err(st: AbsVm, e: AbsError) -> Step {
    Step { st, err: Some(e) }
}

/// The evaluation budget the entry points grant: one unit per expansion of
/// a stored block, a built-in, or an element of a block body.
pub open spec fn max_fuel() -> nat {
    0xffff_ffff_ffff_ffff as nat
}

/// Whether an executable outcome — the machine `st` after the call and the
/// returned `r` — is exactly what the semantic step says.
pub open spec fn mirrors(step: Step, st: AbsVm, r: Result<(), crate::value::EvalError>) -> bool {
    &&& st == step.st
    &&& match r {
        Ok(_) => step.err is None,
        Err(e) => step.err == Some(e@),
    }
}

/// One of the five binary number primitives: pop the right then the left
/// operand, both numbers, and push the result.
pub open spec fn spec_arith_op(op: NativeOp, st: AbsVm) -> Step
    recommends
        is_arith(op),
{
    let n = st.stack.len() as int;
    if n == 0 {
        step_err(st, AbsError::StackUnderflow)
    } else if !(st.stack[n - 1] is Num) {
        step_err(st, AbsError::TypeMismatch(ValueKind::Number, kind_of(st.stack[n - 1])))
    } else if n == 1 {
        step_err(st, AbsError::StackUnderflow)
    } else if !(st.stack[n - 2] is Num) {
        step_err(st, AbsError::TypeMismatch(ValueKind::Number, kind_of(st.stack[n - 2])))
    } else {
        let rhs = st.stack[n - 1]->Num_0;
        let lhs = st.stack[n - 2]->Num_0;
        if op == NativeOp::Div && rhs == 0 {
            step_err(st, AbsError::DivisionByZero)
        } else {
            step_ok(
                AbsVm {
                    stack: st.stack.take(n - 2).push(AbsValue::Num(arith_result(op, lhs, rhs))),
                    ..st
                },
            )
        }
    }
}

/// `puts`: pop one value and emit its display form.
pub open spec fn spec_puts(st: AbsVm) -> Step {
    let n = st.stack.len() as int;
    if n == 0 {
        step_err(st, AbsError::StackUnderflow)
    } else {
        step_ok(
            AbsVm {
                stack: st.stack.take(n - 1),
                out: st.out.push(spec_display(st.stack[n - 1])),
                ..st
            },
        )
    }
}

/// `pop`: discard the top value.
pub open spec fn spec_pop(st: AbsVm) -> Step {
    let n = st.stack.len() as int;
    if n == 0 {
        step_err(st, AbsError::StackUnderflow)
    } else {
        step_ok(AbsVm { stack: st.stack.take(n - 1), ..st })
    }
}

/// `dup`: push a copy of the top value.
pub open spec fn spec_dup(st: AbsVm) -> Step {
    let n = st.stack.len() as int;
    if n == 0 {
        step_err(st, AbsError::StackUnderflow)
    } else {
        step_ok(AbsVm { stack: st.stack.push(st.stack[n - 1]), ..st })
    }
}

/// `exch`: swap the two topmost values.
pub open spec fn spec_exch(st: AbsVm) -> Step {
    let n = st.stack.len() as int;
    if n == 0 || n == 1 {
        step_err(st, AbsError::StackUnderflow)
    } else {
        step_ok(
            AbsVm { stack: st.stack.take(n - 2).push(st.stack[n - 1]).push(st.stack[n - 2]), ..st },
        )
    }
}

/// `index`: pop a count `k` and push a copy of the element `k` places below
/// the new top.
pub open spec fn spec_index(st: AbsVm) -> Step {
    let n = st.stack.len() as int;
    if n == 0 {
        step_err(st, AbsError::StackUnderflow)
    } else if !(st.stack[n - 1] is Num) {
        step_err(st, AbsError::TypeMismatch(ValueKind::Number, kind_of(st.stack[n - 1])))
    } else {
        let k = st.stack[n - 1]->Num_0;
        if k < 0 || k >= n - 1 {
            step_err(st, AbsError::IndexOutOfRange)
        } else {
            step_ok(AbsVm { stack: st.stack.take(n - 1).push(st.stack[n - 2 - k]), ..st })
        }
    }
}

/// What one classified value does to the machine. While a capture is open
/// the value is deferred into it verbatim; otherwise literals are pushed and
/// operator names are resolved and executed.
pub open spec fn spec_eval(v: AbsValue, st: AbsVm, fuel: nat) -> Step
    decreases fuel, 2nat,
{
    if st.blocks.len() > 0 {
        let k = st.blocks.len() - 1;
        step_ok(AbsVm { blocks: st.blocks.update(k as int, st.blocks[k as int].push(v)), ..st })
    } else {
        match v {
            AbsValue::Op(name) => {
                if !st.vars.contains_key(name) {
                    step_err(st, AbsError::UndefinedOperation(name))
                } else {
                    let bound = st.vars[name];
                    match bound {
                        AbsValue::Block(body) => {
                            if fuel == 0 {
                                step_err(st, AbsError::ResourceExhausted)
                            } else {
                                spec_eval_seq(body, st, (fuel - 1) as nat)
                            }
                        },
                        AbsValue::Native(op) => {
                            if fuel == 0 {
                                step_err(st, AbsError::ResourceExhausted)
                            } else {
                                spec_native(op, st, (fuel - 1) as nat)
                            }
                        },
                        _ => step_ok(AbsVm { stack: st.stack.push(bound), ..st }),
                    }
                }
            },
            _ => step_ok(AbsVm { stack: st.stack.push(v), ..st }),
        }
    }
}

/// Evaluate the elements of a block body in order, stopping at the first
/// failure.
pub open spec fn spec_eval_seq(items: Seq<AbsValue>, st: AbsVm, fuel: nat) -> Step
    decreases fuel, 3nat + items.len(),
{
    if items.len() == 0 {
        step_ok(st)
    } else if fuel == 0 {
        step_err(st, AbsError::ResourceExhausted)
    } else {
        let first = spec_eval(items[0], st, (fuel - 1) as nat);
        if first.err is Some {
            first
        } else {
            spec_eval_seq(items.drop_first(), first.st, fuel)
        }
    }
}

/// What one built-in operation does to the machine.
pub open spec fn spec_native(op: NativeOp, st: AbsVm, fuel: nat) -> Step
    decreases fuel, 1nat,
{
    match op {
        NativeOp::If => spec_if(st, fuel),
        NativeOp::Def => spec_def(st, fuel),
        NativeOp::Puts => spec_puts(st),
        NativeOp::Pop => spec_pop(st),
        NativeOp::Dup => spec_dup(st),
        NativeOp::Exch => spec_exch(st),
        NativeOp::Index => spec_index(st),
        _ => spec_arith_op(op, st),
    }
}

/// `if`: pop the false branch, the true branch and the condition, all
/// blocks; run the condition, pop its number verdict, and run the branch
/// the verdict selects.
pub open spec fn spec_if(st: AbsVm, fuel: nat) -> Step
    decreases fuel, 0nat,
{
    let n = st.stack.len() as int;
    if n == 0 {
        step_err(st, AbsError::StackUnderflow)
    } else if !(st.stack[n - 1] is Block) {
        step_err(st, AbsError::TypeMismatch(ValueKind::Block, kind_of(st.stack[n - 1])))
    } else if n == 1 {
        step_err(st, AbsError::StackUnderflow)
    } else if !(st.stack[n - 2] is Block) {
        step_err(st, AbsError::TypeMismatch(ValueKind::Block, kind_of(st.stack[n - 2])))
    } else if n == 2 {
        step_err(st, AbsError::StackUnderflow)
    } else if !(st.stack[n - 3] is Block) {
        step_err(st, AbsError::TypeMismatch(ValueKind::Block, kind_of(st.stack[n - 3])))
    } else if fuel == 0 {
        step_err(st, AbsError::ResourceExhausted)
    } else {
        let false_branch = st.stack[n - 1]->Block_0;
        let true_branch = st.stack[n - 2]->Block_0;
        let cond = st.stack[n - 3]->Block_0;
        let opened = AbsVm { stack: st.stack.take(n - 3), ..st };
        let ran = spec_eval_seq(cond, opened, (fuel - 1) as nat);
        if ran.err is Some {
            ran
        } else {
            let m = ran.st.stack.len() as int;
            if m == 0 {
                step_err(ran.st, AbsError::StackUnderflow)
            } else if !(ran.st.stack[m - 1] is Num) {
                step_err(
                    ran.st,
                    AbsError::TypeMismatch(ValueKind::Number, kind_of(ran.st.stack[m - 1])),
                )
            } else {
                let verdict = ran.st.stack[m - 1]->Num_0;
                let chosen = AbsVm { stack: ran.st.stack.take(m - 1), ..ran.st };
                let branch = if verdict == 0 {
                    false_branch
                } else {
                    true_branch
                };
                spec_eval_seq(branch, chosen, (fuel - 1) as nat)
            }
        }
    }
}

/// `def`: pop a value, evaluate it once, pop the result, pop a symbol, and
/// bind the symbol's name to the result.
pub open spec fn spec_def(st: AbsVm, fuel: nat) -> Step
    decreases fuel, 0nat,
{
    let n = st.stack.len() as int;
    if n == 0 {
        step_err(st, AbsError::StackUnderflow)
    } else if fuel == 0 {
        step_err(st, AbsError::ResourceExhausted)
    } else {
        let v = st.stack[n - 1];
        let popped = AbsVm { stack: st.stack.take(n - 1), ..st };
        let ran = spec_eval(v, popped, (fuel - 1) as nat);
        if ran.err is Some {
            ran
        } else {
            let m = ran.st.stack.len() as int;
            if m == 0 {
                step_err(ran.st, AbsError::StackUnderflow)
            } else {
                let bound = ran.st.stack[m - 1];
                let taken = AbsVm { stack: ran.st.stack.take(m - 1), ..ran.st };
                let p = taken.stack.len() as int;
                if p == 0 {
                    step_err(taken, AbsError::StackUnderflow)
                } else if !(taken.stack[p - 1] is Sym) {
                    step_err(
                        taken,
                        AbsError::TypeMismatch(ValueKind::Symbol, kind_of(taken.stack[p - 1])),
                    )
                } else {
                    let name = taken.stack[p - 1]->Sym_0;
                    step_ok(
                        AbsVm {
                            stack: taken.stack.take(p - 1),
                            vars: taken.vars.insert(name, bound),
                            ..taken
                        },
                    )
                }
            }
        }
    }
}

/// How a token that is neither empty nor a brace is classified: a 32-bit
/// integer literal, a `/`-quoted symbol — the quote must quote at least one
/// character, so `/` alone stays an operator name — or an operator name.
pub open spec fn spec_classify(w: Seq<char>) -> AbsValue {
    match spec_parse_num(w) {
        Some(n) => AbsValue::Num(n),
        None => if w.len() >= 2 && w[0] == '/' {
            AbsValue::Sym(w.drop_first())
        } else {
            AbsValue::Op(w)
        },
    }
}

/// What one whitespace-delimited token does to the machine: an empty token
/// does nothing, `{` opens a capture, `}` closes the innermost capture and
/// evaluates the finished block, and any other token is classified and
/// evaluated.
pub open spec fn spec_parse_word(w: Seq<char>, st: AbsVm) -> Step {
    if w.len() == 0 {
        step_ok(st)
    } else if w.len() == 1 && w[0] == '{' {
        step_ok(AbsVm { blocks: st.blocks.push(Seq::empty()), ..st })
    } else if w.len() == 1 && w[0] == '}' {
        if st.blocks.len() == 0 {
            step_err(st, AbsError::BlockUnderrun)
        } else {
            let body = st.blocks.last();
            let closed = AbsVm { blocks: st.blocks.drop_last(), ..st };
            spec_eval(AbsValue::Block(body), closed, max_fuel())
        }
    } else {
        spec_eval(spec_classify(w), st, max_fuel())
    }
}

/// A whole run: the tokens in order, stopping at the first failure.
pub open spec fn spec_run(words: Seq<Seq<char>>, st: AbsVm) -> Step
    decreases words.len(),
{
    if words.len() == 0 {
        step_ok(st)
    } else {
        let first = spec_parse_word(words[0], st);
        if first.err is Some {
            first
        } else {
            spec_run(words.drop_first(), first.st)
        }
    }
}

} // verus!
