//! The evaluator and the built-in operations, each proved to do exactly
//! what the semantic model in [`crate::semantics`] says.

use vstd::prelude::*;

use crate::arith::{arith_exec, is_arith};
use crate::semantics::{
    mirrors, spec_arith_op, spec_def, spec_dup, spec_eval, spec_eval_seq, spec_exch, spec_if,
    spec_index, spec_native, spec_pop, spec_puts,
};
use crate::value::{
    abs_of, abs_seq, lemma_abs_seq, lemma_abs_seq_push, lemma_abs_seq_take, AbsValue, EvalError,
    NativeOp, Value, ValueKind,
};
use crate::vm::{bind, lookup, AbsVm, Vm};

verus! {

/// `pop`: discard the top of the operand stack.
pub fn pop(vm: &mut Vm) -> (r: Result<(), EvalError>)
    ensures
        mirrors(spec_pop(old(vm)@), final(vm)@, r),
{
    proof {
        lemma_abs_seq(vm.stack@);
    }
    let n = vm.stack.len();
    if n == 0 {
        return Err(EvalError::StackUnderflow);
    }
    vm.stack.pop();
    proof {
        lemma_abs_seq_take(old(vm).stack@, n - 1);
        assert(vm.stack@ =~= old(vm).stack@.take(n - 1));
        assert(vm@ =~= spec_pop(old(vm)@).st);
    }
    Ok(())
}

/// `dup`: push a copy of the top of the operand stack.
pub fn dup(vm: &mut Vm) -> (r: Result<(), EvalError>)
    ensures
        mirrors(spec_dup(old(vm)@), final(vm)@, r),
{
    proof {
        lemma_abs_seq(vm.stack@);
    }
    let n = vm.stack.len();
    if n == 0 {
        return Err(EvalError::StackUnderflow);
    }
    let copy = vm.stack[n - 1].duplicate();
    vm.stack.push(copy);
    proof {
        lemma_abs_seq_push(old(vm).stack@, copy);
        assert(vm@ =~= spec_dup(old(vm)@).st);
    }
    Ok(())
}

/// `exch`: swap the two topmost values of the operand stack.
pub fn exch(vm: &mut Vm) -> (r: Result<(), EvalError>)
    ensures
        mirrors(spec_exch(old(vm)@), final(vm)@, r),
{
    proof {
        lemma_abs_seq(vm.stack@);
    }
    let n = vm.stack.len();
    if n == 0 || n == 1 {
        return Err(EvalError::StackUnderflow);
    }
    let top = vm.stack.pop().unwrap();
    let second = vm.stack.pop().unwrap();
    vm.stack.push(top);
    vm.stack.push(second);
    proof {
        assert(vm.stack@ =~= old(vm).stack@.take(n - 2).push(old(vm).stack@[n - 1]).push(
            old(vm).stack@[n - 2],
        ));
        lemma_abs_seq_take(old(vm).stack@, n - 2);
        lemma_abs_seq_push(old(vm).stack@.take(n - 2), top);
        lemma_abs_seq_push(old(vm).stack@.take(n - 2).push(top), second);
        assert(vm@ =~= spec_exch(old(vm)@).st);
    }
    Ok(())
}

/// `index`: pop a count and push a copy of the element that many places
/// below the new top.
pub fn index(vm: &mut Vm) -> (r: Result<(), EvalError>)
    ensures
        mirrors(spec_index(old(vm)@), final(vm)@, r),
{
    proof {
        lemma_abs_seq(vm.stack@);
    }
    let n = vm.stack.len();
    if n == 0 {
        return Err(EvalError::StackUnderflow);
    }
    let count = match vm.stack[n - 1].as_num() {
        Ok(v) => v,
        Err(e) => return Err(e),
    };
    if count < 0 {
        return Err(EvalError::IndexOutOfRange);
    }
    let below = count as usize;
    if below >= n - 1 {
        return Err(EvalError::IndexOutOfRange);
    }
    vm.stack.pop();
    let copy = vm.stack[n - 2 - below].duplicate();
    vm.stack.push(copy);
    proof {
        lemma_abs_seq_take(old(vm).stack@, n - 1);
        lemma_abs_seq_push(old(vm).stack@.take(n - 1), copy);
        assert(vm@ =~= spec_index(old(vm)@).st);
    }
    Ok(())
}

/// `puts`: pop one value and append its display form to the output.
pub fn puts(vm: &mut Vm) -> (r: Result<(), EvalError>)
    ensures
        mirrors(spec_puts(old(vm)@), final(vm)@, r),
{
    proof {
        lemma_abs_seq(vm.stack@);
    }
    let n = vm.stack.len();
    if n == 0 {
        return Err(EvalError::StackUnderflow);
    }
    let v = vm.stack.pop().unwrap();
    let text = v.to_string();
    vm.out.push(text);
    proof {
        lemma_abs_seq_take(old(vm).stack@, n - 1);
        assert(vm.stack@ =~= old(vm).stack@.take(n - 1));
        assert(vm@ =~= spec_puts(old(vm)@).st);
    }
    Ok(())
}

/// One of `+ - * / <`: pop the right then the left operand, both numbers,
/// and push what [`crate::arith::arith_result`] says.
pub fn op_arith(op: NativeOp, vm: &mut Vm) -> (r: Result<(), EvalError>)
    requires
        is_arith(op),
    ensures
        mirrors(spec_arith_op(op, old(vm)@), final(vm)@, r),
{
    proof {
        lemma_abs_seq(vm.stack@);
    }
    let n = vm.stack.len();
    if n == 0 {
        return Err(EvalError::StackUnderflow);
    }
    let rhs = match vm.stack[n - 1].as_num() {
        Ok(v) => v,
        Err(e) => return Err(e),
    };
    if n == 1 {
        return Err(EvalError::StackUnderflow);
    }
    let lhs = match vm.stack[n - 2].as_num() {
        Ok(v) => v,
        Err(e) => return Err(e),
    };
    if matches!(op, NativeOp::Div) && rhs == 0 {
        return Err(EvalError::DivisionByZero);
    }
    let result = arith_exec(op, lhs, rhs);
    vm.stack.truncate(n - 2);
    vm.stack.push(Value::Num(result));
    proof {
        assert(old(vm).stack@.subrange(0, n - 2) =~= old(vm).stack@.take(n - 2));
        lemma_abs_seq_take(old(vm).stack@, n - 2);
        lemma_abs_seq_push(old(vm).stack@.take(n - 2), Value::Num(result));
        assert(vm@ =~= spec_arith_op(op, old(vm)@).st);
    }
    Ok(())
}

/// What to do with one classified value: while a capture is open, defer it
/// into the innermost frame; otherwise push a literal, or resolve an
/// operator name and run what it names. `fuel` bounds the depth of nested
/// expansions; a self-referential binding with no base case exhausts it.
#[verifier::loop_isolation(false)]
pub fn eval(code: &Value, vm: &mut Vm, fuel: u64) -> (r: Result<(), EvalError>)
    ensures
        mirrors(spec_eval(abs_of(*code), old(vm)@, fuel as nat), final(vm)@, r),
    decreases fuel, 2nat,
{
    let nblocks = vm.blocks.len();
    if nblocks > 0 {
        let copy = code.duplicate();
        let ghost frame = vm.blocks@[nblocks - 1]@;
        vm.blocks[nblocks - 1].push(copy);
        proof {
            lemma_abs_seq_push(frame, copy);
            assert(vm.blocks@[nblocks - 1]@ =~= frame.push(copy));
            assert(vm@ =~= spec_eval(abs_of(*code), old(vm)@, fuel as nat).st);
        }
        return Ok(());
    }
    match code {
        Value::Op(name) => {
            let looked = lookup(&vm.vars, name);
            match looked {
                None => Err(EvalError::UndefinedOperation(name.clone())),
                Some(bound) => match bound {
                    Value::Block(body) => {
                        if fuel == 0 {
                            return Err(EvalError::ResourceExhausted);
                        }
                        eval_seq(&body, vm, fuel - 1)
                    },
                    Value::Native(op) => {
                        if fuel == 0 {
                            return Err(EvalError::ResourceExhausted);
                        }
                        run_native(op, vm, fuel - 1)
                    },
                    other => {
                        let ghost stack0 = vm.stack@;
                        vm.stack.push(other);
                        proof {
                            lemma_abs_seq_push(stack0, vm.stack@.last());
                            assert(vm@ =~= spec_eval(abs_of(*code), old(vm)@, fuel as nat).st);
                        }
                        Ok(())
                    },
                },
            }
        },
        _ => {
            let copy = code.duplicate();
            let ghost stack0 = vm.stack@;
            vm.stack.push(copy);
            proof {
                lemma_abs_seq_push(stack0, vm.stack@.last());
                assert(vm@ =~= spec_eval(abs_of(*code), old(vm)@, fuel as nat).st);
            }
            Ok(())
        },
    }
}

/// Evaluate the elements of a block body in order, stopping at the first
/// failure.
#[verifier::loop_isolation(false)]
fn eval_seq(items: &Vec<Value>, vm: &mut Vm, fuel: u64) -> (r: Result<(), EvalError>)
    ensures
        mirrors(spec_eval_seq(abs_seq(items@), old(vm)@, fuel as nat), final(vm)@, r),
    decreases fuel, 3nat + items@.len(),
{
    proof {
        lemma_abs_seq(items@);
    }
    let ghost sq = abs_seq(items@);
    let ghost target = spec_eval_seq(sq, old(vm)@, fuel as nat);
    proof {
        assert(sq.skip(0) =~= sq);
    }
    let mut i: usize = 0;
    while i < items.len()
        invariant
            0 <= i <= items@.len(),
            spec_eval_seq(sq.skip(i as int), vm@, fuel as nat) == target,
        decreases items@.len() - i,
    {
        if fuel == 0 {
            return Err(EvalError::ResourceExhausted);
        }
        proof {
            assert(sq.skip(i as int)[0] == abs_of(items@[i as int]));
            assert(sq.skip(i as int).drop_first() =~= sq.skip(i as int + 1));
        }
        let item = &items[i];
        let res = eval(item, vm, fuel - 1);
        match res {
            Err(e) => {
                return Err(e);
            },
            Ok(_) => {},
        }
        i = i + 1;
    }
    proof {
        assert(sq.skip(items@.len() as int) =~= Seq::<AbsValue>::empty());
    }
    Ok(())
}

/// Dispatch one built-in operation.
fn run_native(op: NativeOp, vm: &mut Vm, fuel: u64) -> (r: Result<(), EvalError>)
    ensures
        mirrors(spec_native(op, old(vm)@, fuel as nat), final(vm)@, r),
    decreases fuel, 1nat,
{
    match op {
        NativeOp::If => op_if(vm, fuel),
        NativeOp::Def => op_def(vm, fuel),
        NativeOp::Puts => puts(vm),
        NativeOp::Pop => pop(vm),
        NativeOp::Dup => dup(vm),
        NativeOp::Exch => exch(vm),
        NativeOp::Index => index(vm),
        _ => op_arith(op, vm),
    }
}

/// `if`: pop the false branch, the true branch and the condition block, run
/// the condition, pop its number verdict, and run the branch the verdict
/// selects — the false branch on zero, the true branch otherwise.
pub fn op_if(vm: &mut Vm, fuel: u64) -> (r: Result<(), EvalError>)
    ensures
        mirrors(spec_if(old(vm)@, fuel as nat), final(vm)@, r),
    decreases fuel, 0nat,
{
    proof {
        lemma_abs_seq(vm.stack@);
    }
    let n = vm.stack.len();
    if n == 0 {
        return Err(EvalError::StackUnderflow);
    }
    let k1 = vm.stack[n - 1].kind();
    if !matches!(k1, ValueKind::Block) {
        return Err(EvalError::TypeMismatch(ValueKind::Block, k1));
    }
    if n == 1 {
        return Err(EvalError::StackUnderflow);
    }
    let k2 = vm.stack[n - 2].kind();
    if !matches!(k2, ValueKind::Block) {
        return Err(EvalError::TypeMismatch(ValueKind::Block, k2));
    }
    if n == 2 {
        return Err(EvalError::StackUnderflow);
    }
    let k3 = vm.stack[n - 3].kind();
    if !matches!(k3, ValueKind::Block) {
        return Err(EvalError::TypeMismatch(ValueKind::Block, k3));
    }
    if fuel == 0 {
        return Err(EvalError::ResourceExhausted);
    }
    let false_branch = match vm.stack.pop().unwrap() {
        Value::Block(b) => b,
        _ => {
            proof {
                assert(false);
            }
            return Err(EvalError::StackUnderflow);
        },
    };
    let true_branch = match vm.stack.pop().unwrap() {
        Value::Block(b) => b,
        _ => {
            proof {
                assert(false);
            }
            return Err(EvalError::StackUnderflow);
        },
    };
    let cond = match vm.stack.pop().unwrap() {
        Value::Block(b) => b,
        _ => {
            proof {
                assert(false);
            }
            return Err(EvalError::StackUnderflow);
        },
    };
    proof {
        lemma_abs_seq_take(old(vm).stack@, n - 3);
        assert(vm.stack@ =~= old(vm).stack@.take(n - 3));
        assert(abs_of(old(vm).stack@[n - 1]) == abs_seq(old(vm).stack@)[n - 1]);
        assert(vm@ =~= AbsVm { stack: old(vm)@.stack.take(n - 3), ..old(vm)@ });
    }
    let res = eval_seq(&cond, vm, fuel - 1);
    match res {
        Err(e) => {
            return Err(e);
        },
        Ok(_) => {},
    }
    proof {
        lemma_abs_seq(vm.stack@);
    }
    let m = vm.stack.len();
    if m == 0 {
        return Err(EvalError::StackUnderflow);
    }
    let verdict = match vm.stack[m - 1].as_num() {
        Ok(v) => v,
        Err(e) => return Err(e),
    };
    let ghost ran_stack = vm.stack@;
    vm.stack.pop();
    proof {
        lemma_abs_seq_take(ran_stack, m - 1);
        assert(vm.stack@ =~= ran_stack.take(m - 1));
    }
    let branch = if verdict == 0 {
        false_branch
    } else {
        true_branch
    };
    eval_seq(&branch, vm, fuel - 1)
}

/// `def`: pop a value, evaluate it once — resolving an operator name to its
/// bound value, re-pushing anything else — then pop the result, pop a
/// symbol, and bind the symbol's name to the result.
pub fn op_def(vm: &mut Vm, fuel: u64) -> (r: Result<(), EvalError>)
    ensures
        mirrors(spec_def(old(vm)@, fuel as nat), final(vm)@, r),
    decreases fuel, 0nat,
{
    proof {
        lemma_abs_seq(vm.stack@);
    }
    let n = vm.stack.len();
    if n == 0 {
        return Err(EvalError::StackUnderflow);
    }
    if fuel == 0 {
        return Err(EvalError::ResourceExhausted);
    }
    let value = vm.stack.pop().unwrap();
    proof {
        lemma_abs_seq_take(old(vm).stack@, n - 1);
        assert(vm.stack@ =~= old(vm).stack@.take(n - 1));
        assert(vm@ =~= AbsVm { stack: old(vm)@.stack.take(n - 1), ..old(vm)@ });
    }
    let res = eval(&value, vm, fuel - 1);
    match res {
        Err(e) => {
            return Err(e);
        },
        Ok(_) => {},
    }
    proof {
        lemma_abs_seq(vm.stack@);
    }
    let m = vm.stack.len();
    if m == 0 {
        return Err(EvalError::StackUnderflow);
    }
    let ghost ran_stack = vm.stack@;
    let bound = vm.stack.pop().unwrap();
    proof {
        lemma_abs_seq_take(ran_stack, m - 1);
        assert(vm.stack@ =~= ran_stack.take(m - 1));
    }
    let p = vm.stack.len();
    if p == 0 {
        return Err(EvalError::StackUnderflow);
    }
    let name: String = match vm.stack[p - 1].as_sym() {
        Ok(s) => s.to_owned(),
        Err(e) => return Err(e),
    };
    let ghost taken_stack = vm.stack@;
    vm.stack.pop();
    bind(&mut vm.vars, name, bound);
    proof {
        lemma_abs_seq_take(taken_stack, p - 1);
        assert(vm.stack@ =~= taken_stack.take(p - 1));
        assert(vm@ =~= spec_def(old(vm)@, fuel as nat).st);
    }
    Ok(())
}

} // verus!
