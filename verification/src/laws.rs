//! Laws of the whole machine: how the capture depth follows the braces of
//! the input, that `dup` followed by `pop` changes nothing, and that a
//! number survives the trip through its display text.

use vstd::prelude::*;

use crate::num::{dec_int, lemma_dec_round_trip};
use crate::semantics::{
    spec_classify, spec_def, spec_eval, spec_eval_seq, spec_if, spec_native, spec_parse_word,
    spec_run, step_ok,
};
use crate::value::{AbsValue, NativeOp};
use crate::vm::{init_state, AbsVm};

verus! {

/// Evaluating a value never changes how many captures are open: a value is
/// either deferred into the innermost frame, or handled by operations that
/// touch only the stack, the bindings and the output.
pub proof fn lemma_eval_keeps_depth(v: AbsValue, st: AbsVm, fuel: nat)
    ensures
        spec_eval(v, st, fuel).st.blocks.len() == st.blocks.len(),
    decreases fuel, 2nat,
{
    if st.blocks.len() == 0 {
        match v {
            AbsValue::Op(name) => {
                if st.vars.contains_key(name) && fuel > 0 {
                    match st.vars[name] {
                        AbsValue::Block(body) => {
                            lemma_eval_seq_keeps_depth(body, st, (fuel - 1) as nat);
                        },
                        AbsValue::Native(op) => {
                            lemma_native_keeps_depth(op, st, (fuel - 1) as nat);
                        },
                        _ => {},
                    }
                }
            },
            _ => {},
        }
    }
}

/// Evaluating a block body never changes how many captures are open.
pub proof fn lemma_eval_seq_keeps_depth(items: Seq<AbsValue>, st: AbsVm, fuel: nat)
    ensures
        spec_eval_seq(items, st, fuel).st.blocks.len() == st.blocks.len(),
    decreases fuel, 3nat + items.len(),
{
    if items.len() > 0 && fuel > 0 {
        lemma_eval_keeps_depth(items[0], st, (fuel - 1) as nat);
        let first = spec_eval(items[0], st, (fuel - 1) as nat);
        if first.err is None {
            lemma_eval_seq_keeps_depth(items.drop_first(), first.st, fuel);
        }
    }
}

/// A built-in operation never changes how many captures are open.
pub proof fn lemma_native_keeps_depth(op: NativeOp, st: AbsVm, fuel: nat)
    ensures
        spec_native(op, st, fuel).st.blocks.len() == st.blocks.len(),
    decreases fuel, 1nat,
{
    match op {
        NativeOp::If => {
            let n = st.stack.len() as int;
            let three_blocks = n >= 3 && st.stack[n - 1] is Block && st.stack[n - 2] is Block
                && st.stack[n - 3] is Block;
            if three_blocks && fuel > 0 {
                let opened = AbsVm { stack: st.stack.take(n - 3), ..st };
                let cond = st.stack[n - 3]->Block_0;
                lemma_eval_seq_keeps_depth(cond, opened, (fuel - 1) as nat);
                let ran = spec_eval_seq(cond, opened, (fuel - 1) as nat);
                if ran.err is None {
                    let m = ran.st.stack.len() as int;
                    if m > 0 && ran.st.stack[m - 1] is Num {
                        let verdict = ran.st.stack[m - 1]->Num_0;
                        let chosen = AbsVm { stack: ran.st.stack.take(m - 1), ..ran.st };
                        let branch = if verdict == 0 {
                            st.stack[n - 1]->Block_0
                        } else {
                            st.stack[n - 2]->Block_0
                        };
                        lemma_eval_seq_keeps_depth(branch, chosen, (fuel - 1) as nat);
                    }
                }
            }
        },
        NativeOp::Def => {
            let n = st.stack.len() as int;
            if n > 0 && fuel > 0 {
                let popped = AbsVm { stack: st.stack.take(n - 1), ..st };
                lemma_eval_keeps_depth(st.stack[n - 1], popped, (fuel - 1) as nat);
            }
        },
        _ => {},
    }
}

/// What one token adds to the number of open captures: `{` opens one, `}`
/// closes one, any other token leaves the count alone.
pub open spec fn depth_delta(w: Seq<char>) -> int {
    if w.len() == 1 && w[0] == '{' {
        1
    } else if w.len() == 1 && w[0] == '}' {
        -1
    } else {
        0
    }
}

/// The total of [`depth_delta`] over a token stream.
pub open spec fn depth_sum(words: Seq<Seq<char>>) -> int
    decreases words.len(),
{
    if words.len() == 0 {
        0
    } else {
        depth_delta(words[0]) + depth_sum(words.drop_first())
    }
}

/// One token that goes through moves the capture depth by exactly its
/// brace delta.
pub proof fn lemma_parse_word_depth(w: Seq<char>, st: AbsVm)
    requires
        spec_parse_word(w, st).err is None,
    ensures
        spec_parse_word(w, st).st.blocks.len() == st.blocks.len() + depth_delta(w),
{
    if w.len() == 1 && w[0] == '}' {
        let closed = AbsVm { blocks: st.blocks.drop_last(), ..st };
        lemma_eval_keeps_depth(
            AbsValue::Block(st.blocks.last()),
            closed,
            crate::semantics::max_fuel(),
        );
    } else if !(w.len() == 0) && !(w.len() == 1 && w[0] == '{') {
        lemma_eval_keeps_depth(spec_classify(w), st, crate::semantics::max_fuel());
    }
}

/// A run that goes through moves the capture depth by the brace total of
/// its tokens.
pub proof fn lemma_run_depth(words: Seq<Seq<char>>, st: AbsVm)
    requires
        spec_run(words, st).err is None,
    ensures
        spec_run(words, st).st.blocks.len() == st.blocks.len() + depth_sum(words),
    decreases words.len(),
{
    if words.len() > 0 {
        lemma_parse_word_depth(words[0], st);
        let first = spec_parse_word(words[0], st);
        lemma_run_depth(words.drop_first(), first.st);
    }
}

/// A run that goes through on input whose braces balance leaves the
/// block-capture stack empty at the end; only input that ends with an
/// unmatched `{` leaves a capture open, which `parse_batch` reports as an
/// unterminated block.
pub proof fn lemma_balanced_run_leaves_no_capture(words: Seq<Seq<char>>)
    requires
        spec_run(words, init_state()).err is None,
        depth_sum(words) == 0,
    ensures
        spec_run(words, init_state()).st.blocks.len() == 0,
{
    lemma_run_depth(words, init_state());
}

/// Evaluating `dup` and then `pop`, with those names bound to their
/// built-ins as a fresh machine binds them, changes nothing: the copy that
/// `dup` pushes is exactly what `pop` removes.
pub proof fn lemma_dup_then_pop_is_noop(st: AbsVm, fuel: nat)
    requires
        st.blocks.len() == 0,
        st.stack.len() > 0,
        st.vars.contains_key("dup"@),
        st.vars["dup"@] == AbsValue::Native(NativeOp::Dup),
        st.vars.contains_key("pop"@),
        st.vars["pop"@] == AbsValue::Native(NativeOp::Pop),
        fuel >= 2,
    ensures
        spec_eval_seq(seq![AbsValue::Op("dup"@), AbsValue::Op("pop"@)], st, fuel) == step_ok(st),
{
    reveal_with_fuel(spec_eval_seq, 4);
    let prog = seq![AbsValue::Op("dup"@), AbsValue::Op("pop"@)];
    let n = st.stack.len() as int;
    let doubled = AbsVm { stack: st.stack.push(st.stack[n - 1]), ..st };
    let first = spec_eval(prog[0], st, (fuel - 1) as nat);
    assert(first == step_ok(doubled));
    assert(prog.drop_first() =~= seq![AbsValue::Op("pop"@)]);
    let second = spec_eval(AbsValue::Op("pop"@), doubled, (fuel - 1) as nat);
    let m = doubled.stack.len() as int;
    assert(doubled.stack.take(m - 1) =~= st.stack);
    let back = AbsVm { stack: doubled.stack.take(m - 1), ..doubled };
    assert(back =~= st);
    assert(second == step_ok(st));
    assert(seq![AbsValue::Op("pop"@)].drop_first() =~= Seq::<AbsValue>::empty());
}

/// Whether the machine holds no unresolved operator name at rest: none on
/// the operand stack, none as a bound value. Names exist only as tokens in
/// flight and as data inside captured blocks; evaluation eliminates them.
pub open spec fn no_unresolved_names(st: AbsVm) -> bool {
    &&& forall|i: int| 0 <= i < st.stack.len() ==> !(#[trigger] st.stack[i] is Op)
    &&& forall|k: Seq<char>| st.vars.contains_key(k) ==> !(#[trigger] st.vars[k] is Op)
}

/// Evaluating any value keeps the machine free of unresolved names: an
/// operator name is resolved, never pushed, and `def` binds only values
/// that were on the stack.
pub proof fn lemma_eval_keeps_no_unresolved(v: AbsValue, st: AbsVm, fuel: nat)
    requires
        no_unresolved_names(st),
    ensures
        no_unresolved_names(spec_eval(v, st, fuel).st),
    decreases fuel, 2nat,
{
    if st.blocks.len() == 0 {
        match v {
            AbsValue::Op(name) => {
                if st.vars.contains_key(name) && fuel > 0 {
                    match st.vars[name] {
                        AbsValue::Block(body) => {
                            lemma_eval_seq_keeps_no_unresolved(body, st, (fuel - 1) as nat);
                        },
                        AbsValue::Native(op) => {
                            lemma_native_keeps_no_unresolved(op, st, (fuel - 1) as nat);
                        },
                        _ => {},
                    }
                }
            },
            _ => {},
        }
    }
}

/// Evaluating a block body keeps the machine free of unresolved names.
pub proof fn lemma_eval_seq_keeps_no_unresolved(items: Seq<AbsValue>, st: AbsVm, fuel: nat)
    requires
        no_unresolved_names(st),
    ensures
        no_unresolved_names(spec_eval_seq(items, st, fuel).st),
    decreases fuel, 3nat + items.len(),
{
    if items.len() > 0 && fuel > 0 {
        lemma_eval_keeps_no_unresolved(items[0], st, (fuel - 1) as nat);
        let first = spec_eval(items[0], st, (fuel - 1) as nat);
        if first.err is None {
            lemma_eval_seq_keeps_no_unresolved(items.drop_first(), first.st, fuel);
        }
    }
}

/// A built-in operation keeps the machine free of unresolved names.
pub proof fn lemma_native_keeps_no_unresolved(op: NativeOp, st: AbsVm, fuel: nat)
    requires
        no_unresolved_names(st),
    ensures
        no_unresolved_names(spec_native(op, st, fuel).st),
    decreases fuel, 1nat,
{
    match op {
        NativeOp::If => {
            let n = st.stack.len() as int;
            let three_blocks = n >= 3 && st.stack[n - 1] is Block && st.stack[n - 2] is Block
                && st.stack[n - 3] is Block;
            if three_blocks && fuel > 0 {
                let opened = AbsVm { stack: st.stack.take(n - 3), ..st };
                let cond = st.stack[n - 3]->Block_0;
                lemma_eval_seq_keeps_no_unresolved(cond, opened, (fuel - 1) as nat);
                let ran = spec_eval_seq(cond, opened, (fuel - 1) as nat);
                if ran.err is None {
                    let m = ran.st.stack.len() as int;
                    if m > 0 && ran.st.stack[m - 1] is Num {
                        let verdict = ran.st.stack[m - 1]->Num_0;
                        let chosen = AbsVm { stack: ran.st.stack.take(m - 1), ..ran.st };
                        let branch = if verdict == 0 {
                            st.stack[n - 1]->Block_0
                        } else {
                            st.stack[n - 2]->Block_0
                        };
                        lemma_eval_seq_keeps_no_unresolved(branch, chosen, (fuel - 1) as nat);
                    }
                }
            }
        },
        NativeOp::Def => {
            let n = st.stack.len() as int;
            if n > 0 && fuel > 0 {
                let popped = AbsVm { stack: st.stack.take(n - 1), ..st };
                lemma_eval_keeps_no_unresolved(st.stack[n - 1], popped, (fuel - 1) as nat);
            }
        },
        _ => {},
    }
}

/// One token keeps the machine free of unresolved names.
pub proof fn lemma_parse_word_keeps_no_unresolved(w: Seq<char>, st: AbsVm)
    requires
        no_unresolved_names(st),
    ensures
        no_unresolved_names(spec_parse_word(w, st).st),
{
    if w.len() == 1 && w[0] == '}' {
        if st.blocks.len() > 0 {
            let closed = AbsVm { blocks: st.blocks.drop_last(), ..st };
            lemma_eval_keeps_no_unresolved(
                AbsValue::Block(st.blocks.last()),
                closed,
                crate::semantics::max_fuel(),
            );
        }
    } else if !(w.len() == 0) && !(w.len() == 1 && w[0] == '{') {
        lemma_eval_keeps_no_unresolved(spec_classify(w), st, crate::semantics::max_fuel());
    }
}

/// A fresh machine holds no unresolved name, and no run puts one on the
/// operand stack or into a binding: operator names exist only as tokens in
/// flight and as data inside blocks.
pub proof fn lemma_run_keeps_no_unresolved(words: Seq<Seq<char>>)
    ensures
        no_unresolved_names(init_state()),
        no_unresolved_names(spec_run(words, init_state()).st),
{
    lemma_run_no_unresolved_from(words, init_state());
}

/// Any run from a machine free of unresolved names ends free of them.
pub proof fn lemma_run_no_unresolved_from(words: Seq<Seq<char>>, st: AbsVm)
    requires
        no_unresolved_names(st),
    ensures
        no_unresolved_names(spec_run(words, st).st),
    decreases words.len(),
{
    if words.len() > 0 {
        lemma_parse_word_keeps_no_unresolved(words[0], st);
        let first = spec_parse_word(words[0], st);
        if first.err is None {
            lemma_run_no_unresolved_from(words.drop_first(), first.st);
        }
    }
}

/// Displaying a number and re-reading its text as a token yields an equal
/// number.
pub proof fn lemma_display_number_round_trip(n: int)
    requires
        -0x8000_0000 <= n <= 0x7fff_ffff,
    ensures
        spec_classify(dec_int(n)) == AbsValue::Num(n),
{
    lemma_dec_round_trip(n);
}

/// Handing the display text of a number back to the tokenizer, outside any
/// capture, pushes an equal number and nothing else.
pub proof fn lemma_display_number_reparses(n: int, st: AbsVm)
    requires
        -0x8000_0000 <= n <= 0x7fff_ffff,
        st.blocks.len() == 0,
    ensures
        spec_parse_word(dec_int(n), st) == step_ok(
            AbsVm { stack: st.stack.push(AbsValue::Num(n)), ..st },
        ),
{
    lemma_dec_round_trip(n);
    let w = dec_int(n);
    if n < 0 {
        crate::num::lemma_dec_nat((-n) as nat);
        assert(w.len() >= 2);
    } else {
        crate::num::lemma_dec_nat(n as nat);
        assert(crate::num::is_digit(w[0]));
        assert(w[0] != '{' && w[0] != '}');
    }
}

} // verus!
