//! Whole-program runs: each splits its source into whitespace words, feeds
//! them to a fresh machine, and checks the final operand stack.

use stacklang::parse_batch;
use stacklang::Value::{self, Block, Num};

fn parse(input: &str) -> Vec<Value> {
    let words: Vec<String> = input
        .lines()
        .flat_map(|line| line.split(' '))
        .map(|word| word.to_string())
        .collect();
    parse_batch(&words).unwrap()
}

#[test]
fn test_group() {
    assert_eq!(
        parse("1 2 + { 3 4 }"),
        vec![Num(3), Block(vec![Num(3), Num(4)])]
    );
}

#[test]
fn test_if_false() {
    assert_eq!(parse("{ 1 -1 + } { 100 } { -100 } if"), vec![Num(-100)],);
}

#[test]
fn test_if_true() {
    assert_eq!(parse("{ 1 1 + } { 100 } { -100 } if"), vec![Num(100)]);
}

#[test]
fn test_var() {
    assert_eq!(parse("/x 10 def /y 20 def x y *"), vec![Num(200)]);
}

#[test]
fn test_var_if() {
    assert_eq!(
        parse("/x 10 def /y 20 def { x y < } { x } { y } if"),
        vec![Num(10)]
    );
}

#[test]
fn test_multiline() {
    assert_eq!(
        parse(
            r#"
            /x 10 def
            /y 20 def

            { x y < }
            { x }
            { y }
            if
            "#
        ),
        vec![Num(10)]
    );
}

#[test]
fn test_function() {
    assert_eq!(
        parse(
            r#"
/double { 2 * } def
10 double
"#
        ),
        vec![Num(20)]
    )
}
