//! Errors, edge cases and the stated laws on concrete values.

use stacklang::{parse_batch, parse_word, EvalError, Value, ValueKind, Vm};

fn run(input: &str) -> Result<Vec<Value>, EvalError> {
    let words: Vec<String> = input
        .lines()
        .flat_map(|line| line.split(' '))
        .map(|word| word.to_string())
        .collect();
    parse_batch(&words)
}

#[test]
fn division_by_zero_fails() {
    assert_eq!(run("1 0 /"), Err(EvalError::DivisionByZero));
}

#[test]
fn add_on_empty_stack_underflows() {
    assert_eq!(run("+"), Err(EvalError::StackUnderflow));
}

#[test]
fn undefined_name_fails() {
    assert_eq!(
        run("foo"),
        Err(EvalError::UndefinedOperation("foo".to_string()))
    );
}

#[test]
fn unmatched_close_brace_underruns() {
    assert_eq!(run("}"), Err(EvalError::BlockUnderrun));
}

#[test]
fn open_brace_without_close_is_unterminated() {
    assert_eq!(run("{ 1"), Err(EvalError::UnterminatedBlock));
}

#[test]
fn balanced_braces_leave_no_capture() {
    assert_eq!(
        run("{ { 1 } } pop"),
        Ok(vec![])
    );
}

#[test]
fn add_on_block_is_a_type_mismatch() {
    assert_eq!(
        run("{ 1 } 2 exch +"),
        Err(EvalError::TypeMismatch(ValueKind::Number, ValueKind::Block))
    );
}

#[test]
fn def_without_symbol_is_a_type_mismatch() {
    assert_eq!(
        run("1 2 def"),
        Err(EvalError::TypeMismatch(ValueKind::Symbol, ValueKind::Number))
    );
}

#[test]
fn if_without_blocks_is_a_type_mismatch() {
    assert_eq!(
        run("1 2 3 if"),
        Err(EvalError::TypeMismatch(ValueKind::Block, ValueKind::Number))
    );
}

#[test]
fn index_too_deep_is_out_of_range() {
    assert_eq!(run("5 10 index"), Err(EvalError::IndexOutOfRange));
}

#[test]
fn negative_index_is_out_of_range() {
    assert_eq!(run("5 -1 index"), Err(EvalError::IndexOutOfRange));
}

#[test]
fn index_copies_from_below_the_top() {
    assert_eq!(
        run("10 20 30 1 index"),
        Ok(vec![
            Value::Num(10),
            Value::Num(20),
            Value::Num(30),
            Value::Num(20)
        ])
    );
}

#[test]
fn exch_swaps_the_top_two() {
    assert_eq!(run("1 2 exch"), Ok(vec![Value::Num(2), Value::Num(1)]));
}

#[test]
fn dup_then_pop_is_a_no_op() {
    assert_eq!(run("5 dup pop"), Ok(vec![Value::Num(5)]));
}

#[test]
fn comparison_pushes_one_or_zero() {
    assert_eq!(run("1 2 <"), Ok(vec![Value::Num(1)]));
    assert_eq!(run("2 1 <"), Ok(vec![Value::Num(0)]));
}

#[test]
fn subtraction_pops_right_then_left() {
    assert_eq!(run("5 3 -"), Ok(vec![Value::Num(2)]));
}

#[test]
fn division_truncates_toward_zero() {
    assert_eq!(run("7 2 /"), Ok(vec![Value::Num(3)]));
    assert_eq!(run("-7 2 /"), Ok(vec![Value::Num(-3)]));
}

#[test]
fn addition_wraps_at_thirty_two_bits() {
    assert_eq!(run("2147483647 1 +"), Ok(vec![Value::Num(-2147483648)]));
}

#[test]
fn numeric_display_round_trips() {
    for n in [0i32, 7, -7, 42, 2147483647, -2147483648] {
        let text = Value::Num(n).to_string();
        assert_eq!(run(&text), Ok(vec![Value::Num(n)]));
    }
    assert_eq!(Value::Num(-123).to_string(), "-123");
    assert_eq!(Value::Num(-2147483648).to_string(), "-2147483648");
}

#[test]
fn out_of_range_literal_is_an_operator_name() {
    assert_eq!(
        run("2147483648"),
        Err(EvalError::UndefinedOperation("2147483648".to_string()))
    );
}

#[test]
fn puts_emits_the_display_form() {
    let mut vm = Vm::new();
    for word in ["42", "puts", "{", "1", "}", "puts", "/name", "puts"] {
        parse_word(word, &mut vm).unwrap();
    }
    assert_eq!(vm.out, vec!["42", "<Block>", "name"]);
    assert!(vm.stack.is_empty());
}

#[test]
fn def_resolves_a_name_before_binding() {
    assert_eq!(run("/x 10 def /y x def y"), Ok(vec![Value::Num(10)]));
}

#[test]
fn empty_condition_underflows_in_if() {
    assert_eq!(run("{ } { 1 } { 2 } if"), Err(EvalError::StackUnderflow));
}

#[test]
fn nested_blocks_stay_nested() {
    assert_eq!(
        run("{ 1 { 2 } }"),
        Ok(vec![Value::Block(vec![
            Value::Num(1),
            Value::Block(vec![Value::Num(2)])
        ])])
    );
}

#[test]
fn later_binding_shadows_earlier() {
    assert_eq!(run("/x 1 def /x 2 def x"), Ok(vec![Value::Num(2)]));
}
