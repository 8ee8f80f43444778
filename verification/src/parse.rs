//! From tokens to machine steps: classify one whitespace-delimited token,
//! feed it to the evaluator, and run whole token batches.

use vstd::prelude::*;

use crate::eval::eval;
use crate::num::parse_num;
use crate::semantics::{mirrors, spec_classify, spec_parse_word, spec_run};
use crate::value::{abs_of, abs_seq, AbsError, AbsValue, EvalError, Value};
use crate::vm::{init_state, Vm};

verus! {

/// The step budget each token is granted; see
/// [`crate::semantics::max_fuel`].
pub const TOKEN_FUEL: u64 = 0xffff_ffff_ffff_ffff;

/// Classify a token that is neither empty nor a brace: a 32-bit integer
/// literal, a `/`-quoted symbol with the slash stripped, or an operator
/// name.
pub fn classify(word: &str) -> (v: Value)
    ensures
        abs_of(v) == spec_classify(word@),
{
    match parse_num(word) {
        Some(n) => Value::Num(n),
        None => {
            let len = word.unicode_len();
            if len >= 2 && word.get_char(0) == '/' {
                let rest = word.substring_char(1, len);
                proof {
                    assert(rest@ =~= word@.drop_first());
                }
                Value::Sym(rest.to_owned())
            } else {
                Value::Op(word.to_owned())
            }
        },
    }
}

/// Handle one token: nothing for an empty token, open a capture frame on
/// `{`, close the innermost frame on `}` and evaluate the finished block,
/// and classify and evaluate anything else.
pub fn parse_word(word: &str, vm: &mut Vm) -> (r: Result<(), EvalError>)
    ensures
        mirrors(spec_parse_word(word@, old(vm)@), final(vm)@, r),
{
    let len = word.unicode_len();
    if len == 0 {
        return Ok(());
    }
    if len == 1 {
        let c = word.get_char(0);
        if c == '{' {
            vm.blocks.push(Vec::new());
            proof {
                assert(abs_seq(Seq::<Value>::empty()) =~= Seq::<AbsValue>::empty());
                assert(vm@ =~= spec_parse_word(word@, old(vm)@).st);
            }
            return Ok(());
        }
        if c == '}' {
            if vm.blocks.len() == 0 {
                return Err(EvalError::BlockUnderrun);
            }
            let body = vm.blocks.pop().unwrap();
            let ghost closed = vm@;
            let block = Value::Block(body);
            proof {
                assert(vm.blocks@ =~= old(vm).blocks@.drop_last());
                assert(closed.blocks =~= old(vm)@.blocks.drop_last());
                assert(closed =~= crate::vm::AbsVm { blocks: old(vm)@.blocks.drop_last(), ..old(vm)@ });
                assert(abs_of(block) == AbsValue::Block(old(vm)@.blocks.last()));
            }
            return eval(&block, vm, TOKEN_FUEL);
        }
    }
    let code = classify(word);
    eval(&code, vm, TOKEN_FUEL)
}

/// Run a whole batch of pre-split tokens on a fresh machine. The final
/// operand stack comes back when every token went through and no capture
/// was left open; input that ends inside `{ ... }` is an unterminated
/// block.
#[verifier::loop_isolation(false)]
pub fn parse_batch(words: &Vec<String>) -> (r: Result<Vec<Value>, EvalError>)
    ensures
        ({
            let run = spec_run(words.deep_view(), init_state());
            match r {
                Ok(stack) => {
                    &&& run.err is None
                    &&& run.st.blocks.len() == 0
                    &&& abs_seq(stack@) == run.st.stack
                },
                Err(e) => match run.err {
                    Some(err) => e@ == err,
                    None => run.st.blocks.len() > 0 && e@ == AbsError::UnterminatedBlock,
                },
            }
        }),
{
    let ghost ws = words.deep_view();
    let mut vm = Vm::new();
    proof {
        assert(ws.skip(0) =~= ws);
    }
    let mut i: usize = 0;
    while i < words.len()
        invariant
            0 <= i <= words@.len(),
            spec_run(ws.skip(i as int), vm@) == spec_run(ws, init_state()),
        decreases words@.len() - i,
    {
        proof {
            assert(ws.skip(i as int)[0] == words@[i as int]@);
            assert(ws.skip(i as int).drop_first() =~= ws.skip(i as int + 1));
        }
        let word = &words[i];
        match parse_word(word.as_str(), &mut vm) {
            Err(e) => return Err(e),
            Ok(_) => {},
        }
        i = i + 1;
    }
    proof {
        assert(ws.skip(words@.len() as int) =~= Seq::<Seq<char>>::empty());
    }
    if vm.blocks.len() > 0 {
        return Err(EvalError::UnterminatedBlock);
    }
    Ok(vm.stack)
}

} // verus!
