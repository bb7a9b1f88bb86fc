use rpn_calculator::{EvalError, RPNParser};
use rpn_calculator::tokens::split_tokens;

fn top_after(expression: &str) -> String {
    let mut calc = RPNParser::new();
    calc.parse(expression).unwrap();
    calc.peek().unwrap()
}

#[test]
fn basic_notation() {
    let mut calc = RPNParser::new();
    calc.parse("5 2 + -3 - 10 +").unwrap();
    let result = calc.peek().unwrap();
    assert_eq!(result, "20")
}

#[test]
fn exponent_notation() {
    let mut calc = RPNParser::new();
    calc.parse("5 5 ^ 125 - 30 /").unwrap();
    let result = calc.peek().unwrap();
    assert_eq!(result, "100")
}

#[test]
fn manual_addition() {
    let mut calc = RPNParser::new();
    calc.push("10".to_string());
    assert_eq!(calc.peek().unwrap(), "10");
    calc.push("99".to_string());
    assert_eq!(calc.peek().unwrap(), "99");
    calc.add().unwrap();
    assert_eq!(calc.peek().unwrap(), "109")
}

#[test]
fn manual_power_raising() {
    let mut calc = RPNParser::new();
    calc.push("5".to_string());
    calc.push("5".to_string());
    calc.exponent().unwrap();
    assert_eq!(calc.peek().unwrap(), "3125")
}

#[test]
fn variable_testing() {
    let mut calc = RPNParser::new();
    calc.parse("50 20 + !temp").unwrap();
    calc.pop().unwrap();
    calc.parse("2 @temp *").unwrap();
    assert_eq!(calc.peek().unwrap(), "140")
}

#[test]
fn postfix_agrees_with_infix() {
    // (3 + 4) * (10 - 2) / 5 = 11
    assert_eq!(top_after("3 4 + 10 2 - * 5 /"), "11");
    // 2 - (7 * -3) = 23
    assert_eq!(top_after("2 7 -3 * -"), "23");
}

#[test]
fn push_then_peek() {
    let mut calc = RPNParser::new();
    calc.push("1".to_string());
    calc.push("abc".to_string());
    assert_eq!(calc.peek().unwrap(), "abc");
    assert_eq!(calc.pop().unwrap(), "abc");
    assert_eq!(calc.pop().unwrap(), "1");
    assert_eq!(calc.pop(), Err(EvalError::StackUnderflow));
}

#[test]
fn push_then_pop() {
    let mut calc = RPNParser::new();
    calc.push("4".to_string());
    calc.push("8".to_string());
    assert_eq!(calc.pop().unwrap(), "8");
    assert_eq!(calc.peek().unwrap(), "4");
    assert_eq!(calc.pop().unwrap(), "4");
    assert_eq!(calc.peek(), Err(EvalError::StackUnderflow));
}

#[test]
fn exchange_swaps_top_two() {
    let mut calc = RPNParser::new();
    calc.push("10".to_string());
    calc.push("2".to_string());
    calc.exchange().unwrap();
    assert_eq!(calc.pop().unwrap(), "10");
    assert_eq!(calc.pop().unwrap(), "2");
}

#[test]
fn exchange_token_either_case() {
    assert_eq!(top_after("10 2 x -"), "-8");
    assert_eq!(top_after("10 2 X -"), "-8");
}

#[test]
fn exchange_needs_two_entries() {
    let mut calc = RPNParser::new();
    calc.push("1".to_string());
    assert_eq!(calc.exchange(), Err(EvalError::StackUnderflow));
    assert_eq!(calc.peek().unwrap(), "1");
}

#[test]
fn store_keeps_top_and_recall_pushes_it() {
    let mut calc = RPNParser::new();
    calc.parse("6 7 !v +").unwrap();
    assert_eq!(calc.peek().unwrap(), "13");
    calc.parse("@v 1 +").unwrap();
    assert_eq!(calc.pop().unwrap(), "8");
    assert_eq!(calc.pop().unwrap(), "13");
}

#[test]
fn store_overwrites() {
    let mut calc = RPNParser::new();
    calc.parse("1 !a 2 !a @a +").unwrap();
    assert_eq!(calc.pop().unwrap(), "4");
    assert_eq!(calc.pop().unwrap(), "1");
}

#[test]
fn store_on_empty_stack_fails() {
    let mut calc = RPNParser::new();
    assert_eq!(calc.parse("!a"), Err(EvalError::StackUnderflow));
}

#[test]
fn bare_recall_pushes_empty_string() {
    let mut calc = RPNParser::new();
    calc.parse("@ 1 +").unwrap_err();
    calc.clear();
    calc.parse("1 @ x ?").unwrap();
    assert_eq!(calc.pop().unwrap(), "1");
    assert_eq!(calc.pop().unwrap(), "");
}

#[test]
fn clear_forgets_everything() {
    let mut calc = RPNParser::new();
    calc.parse("3 !k 4 +").unwrap();
    calc.clear();
    assert_eq!(calc.peek(), Err(EvalError::StackUnderflow));
    assert_eq!(calc.pop(), Err(EvalError::StackUnderflow));
    assert_eq!(
        calc.parse("@k 1 +"),
        Err(EvalError::UndefinedVariable("k".to_string()))
    );
}

#[test]
fn division_truncates_toward_zero() {
    assert_eq!(top_after("7 2 /"), "3");
    assert_eq!(top_after("-7 2 /"), "-3");
    assert_eq!(top_after("7 -2 /"), "-3");
    assert_eq!(top_after("-7 -2 /"), "3");
}

#[test]
fn division_by_zero_leaves_stack() {
    let mut calc = RPNParser::new();
    calc.push("9".to_string());
    calc.push("0".to_string());
    assert_eq!(calc.divide(), Err(EvalError::DivisionByZero));
    assert_eq!(calc.pop().unwrap(), "0");
    assert_eq!(calc.pop().unwrap(), "9");
    assert_eq!(calc.pop(), Err(EvalError::StackUnderflow));
}

#[test]
fn trailing_operand_is_refused() {
    let mut calc = RPNParser::new();
    assert_eq!(calc.parse("5"), Err(EvalError::TrailingOperand));
    assert_eq!(calc.peek(), Err(EvalError::StackUnderflow));
}

#[test]
fn earlier_equal_literal_is_pushed() {
    let mut calc = RPNParser::new();
    assert_eq!(calc.parse("7 3 7"), Err(EvalError::TrailingOperand));
    assert_eq!(calc.pop().unwrap(), "3");
    assert_eq!(calc.pop().unwrap(), "7");
}

#[test]
fn undefined_variable_stops_before_operator() {
    let mut calc = RPNParser::new();
    assert_eq!(
        calc.parse("3 @undefined +"),
        Err(EvalError::UndefinedVariable("undefined".to_string()))
    );
    assert_eq!(calc.pop().unwrap(), "3");
    assert_eq!(calc.pop(), Err(EvalError::StackUnderflow));
}

#[test]
fn unknown_token_is_reported() {
    let mut calc = RPNParser::new();
    assert_eq!(
        calc.parse("1 2 %"),
        Err(EvalError::UnknownToken("%".to_string()))
    );
    assert_eq!(calc.peek().unwrap(), "2");
}

#[test]
fn operand_that_is_not_a_number() {
    let mut calc = RPNParser::new();
    calc.push("1".to_string());
    calc.push("one".to_string());
    assert_eq!(calc.add(), Err(EvalError::NotANumber));
    assert_eq!(calc.peek().unwrap(), "one");
}

#[test]
fn operator_on_empty_stack() {
    let mut calc = RPNParser::new();
    assert_eq!(calc.subtract(), Err(EvalError::StackUnderflow));
    calc.push("1".to_string());
    assert_eq!(calc.multiply(), Err(EvalError::StackUnderflow));
}

#[test]
fn negative_exponent_is_refused() {
    let mut calc = RPNParser::new();
    assert_eq!(calc.parse("-1 2 ^"), Err(EvalError::InvalidExponent));
}

#[test]
fn exponent_order_and_edges() {
    // the base is taken first from the stack, the power second
    assert_eq!(top_after("3 2 ^"), "8");
    assert_eq!(top_after("0 7 ^"), "1");
    assert_eq!(top_after("5 0 ^"), "0");
    assert_eq!(top_after("9223372036854775807 1 ^"), "1");
    assert_eq!(top_after("9223372036854775807 -1 ^"), "-1");
    assert_eq!(top_after("63 -2 ^"), "-9223372036854775808");
}

#[test]
fn overflow_is_reported() {
    let mut calc = RPNParser::new();
    assert_eq!(calc.parse("63 2 ^"), Err(EvalError::Overflow));
    calc.clear();
    assert_eq!(
        calc.parse("9223372036854775807 1 +"),
        Err(EvalError::Overflow)
    );
    calc.clear();
    assert_eq!(
        calc.parse("-9223372036854775808 -1 /"),
        Err(EvalError::Overflow)
    );
    calc.clear();
    assert_eq!(
        calc.parse("-9223372036854775808 1 -"),
        Err(EvalError::Overflow)
    );
    calc.clear();
    assert_eq!(
        calc.parse("4611686018427387904 2 *"),
        Err(EvalError::Overflow)
    );
}

#[test]
fn numerals_are_pushed_in_canonical_form() {
    let mut calc = RPNParser::new();
    calc.parse("+007 -00 ?").unwrap();
    assert_eq!(calc.pop().unwrap(), "0");
    assert_eq!(calc.pop().unwrap(), "7");
    assert_eq!(top_after("+5 -05 *"), "-25");
}

#[test]
fn white_space_of_any_kind_separates() {
    assert_eq!(top_after("  1\t2\n+ \u{3000}4 *  "), "12");
    let parts = split_tokens(" ab\tc  d\u{a0}e ");
    assert_eq!(parts, vec!["ab".to_string(), "c".to_string(), "d".to_string(), "e".to_string()]);
    assert!(split_tokens(" \t\n").is_empty());
}

#[test]
fn empty_expression_is_a_no_op() {
    let mut calc = RPNParser::new();
    calc.push("1".to_string());
    calc.parse("   ").unwrap();
    calc.parse("").unwrap();
    assert_eq!(calc.pop().unwrap(), "1");
    assert_eq!(calc.pop(), Err(EvalError::StackUnderflow));
}

#[test]
fn state_lasts_between_expressions() {
    let mut calc = RPNParser::new();
    calc.parse("4 5 +").unwrap();
    calc.parse("2 *").unwrap();
    assert_eq!(calc.peek().unwrap(), "18");
}

#[test]
fn dumps_show_stack_and_names() {
    let mut calc = RPNParser::new();
    assert!(calc.stack_dump().is_empty());
    assert!(calc.var_dump().is_empty());
    calc.parse("1 2 !two ? &").unwrap();
    let expected = vec![
        "STACK:".to_string(),
        "\tStack = 2".to_string(),
        "\tStack = 1".to_string(),
        String::new(),
        "TEMP VARS".to_string(),
        "\tKey = two = 2".to_string(),
        String::new(),
    ];
    assert_eq!(calc.take_output(), expected);
    assert!(calc.take_output().is_empty());
    assert_eq!(calc.stack_dump(), expected[0..4].to_vec());
}

#[test]
fn var_dump_is_silent_on_empty_stack() {
    let mut calc = RPNParser::new();
    calc.parse("1 !a").unwrap();
    calc.pop().unwrap();
    calc.parse("&").unwrap();
    assert!(calc.take_output().is_empty());
}
