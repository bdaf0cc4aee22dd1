use minilang::environment::Environment;
use minilang::eval::{evaluate, Effect, EvalError};
use minilang::lexer::{lex, LexError};
use minilang::parser::{parse, ParseError};
use minilang::token::Token;

fn run(program: &str) -> (Result<i32, EvalError>, Vec<Effect>) {
    let tokens = lex(program).expect("lexing should succeed");
    let tree = parse(&tokens).expect("parsing should succeed");
    let mut variables = Environment::new();
    let mut effects = Vec::new();
    let result = evaluate(&tree, &mut variables, &mut effects);
    (result, effects)
}

fn run_value(program: &str) -> i32 {
    let (result, _) = run(program);
    result.expect("evaluation should succeed")
}

fn parse_failure(program: &str) -> ParseError {
    let tokens = lex(program).expect("lexing should succeed");
    parse(&tokens).expect_err("parsing should fail")
}

#[test]
fn tokenize_wait_program() {
    let tokens = lex("wait(2) (2 + 1)").unwrap();
    assert_eq!(
        tokens,
        vec![
            Token::WaitKeyword,
            Token::LeftParenthesis,
            Token::Number(2),
            Token::RightParenthesis,
            Token::LeftParenthesis,
            Token::Number(2),
            Token::Plus,
            Token::Number(1),
            Token::RightParenthesis,
        ]
    );
}

#[test]
fn tokenize_declaration() {
    let tokens = lex("let x = 10;").unwrap();
    assert_eq!(
        tokens,
        vec![
            Token::LetKeyword,
            Token::Identifier("x".to_string()),
            Token::Equal,
            Token::Number(10),
            Token::Semicolon,
        ]
    );
}

#[test]
fn unsupported_char_flushes_digit_buffer() {
    assert_eq!(lex("6#3").unwrap(), vec![Token::Number(6), Token::Number(3)]);
}

#[test]
fn keywords_are_case_sensitive() {
    assert_eq!(lex("Wait").unwrap(), vec![Token::Identifier("Wait".to_string())]);
    assert_eq!(lex("wait").unwrap(), vec![Token::WaitKeyword]);
}

#[test]
fn digit_buffer_flushes_on_letters() {
    assert_eq!(
        lex("12a").unwrap(),
        vec![Token::Number(12), Token::Identifier("a".to_string())]
    );
}

#[test]
fn operators_flush_both_buffers() {
    assert_eq!(
        lex("a+b").unwrap(),
        vec![
            Token::Identifier("a".to_string()),
            Token::Plus,
            Token::Identifier("b".to_string()),
        ]
    );
    assert_eq!(
        lex("x=5").unwrap(),
        vec![
            Token::Identifier("x".to_string()),
            Token::Equal,
            Token::Number(5),
        ]
    );
}

#[test]
fn largest_literal_lexes() {
    assert_eq!(lex("2147483647").unwrap(), vec![Token::Number(2147483647)]);
}

#[test]
fn oversized_literal_is_a_lex_error() {
    assert_eq!(lex("2147483648"), Err(LexError::NumberOutOfRange));
    assert_eq!(lex("99999999999999999999"), Err(LexError::NumberOutOfRange));
}

#[test]
fn grouping_overrides_precedence() {
    assert_eq!(run_value("6 * (2 + 4)"), 36);
}

#[test]
fn declaration_then_use() {
    assert_eq!(run_value("let x = 10; x + 5"), 15);
}

#[test]
fn declaration_then_print() {
    let (result, effects) = run("let x = 10; print(x + 5)");
    assert_eq!(result, Ok(0));
    assert_eq!(effects, vec![Effect::Print(15)]);
}

#[test]
fn division_by_zero_reports_its_own_error() {
    let (result, _) = run("10 / 0");
    assert_eq!(result, Err(EvalError::DivisionByZero));
}

#[test]
fn undefined_variable_reports_its_own_error() {
    let (result, _) = run("y + 1");
    assert_eq!(result, Err(EvalError::UndefinedVariable));
}

#[test]
fn multiplication_binds_tighter_than_addition() {
    assert_eq!(run_value("2 + 3 * 4"), 14);
}

#[test]
fn two_products_sum() {
    assert_eq!(run_value("2 * 3 + 4 * 5"), 26);
}

#[test]
fn subtraction_is_left_associative() {
    assert_eq!(run_value("10 - 3 - 4"), 3);
}

#[test]
fn sequence_yields_last_value() {
    assert_eq!(run_value("1 2 3"), 3);
}

#[test]
fn sequence_prints_in_source_order() {
    let (result, effects) = run("print(1) print(2) 3");
    assert_eq!(result, Ok(3));
    assert_eq!(effects, vec![Effect::Print(1), Effect::Print(2)]);
}

#[test]
fn wait_is_recorded_before_following_print() {
    let (result, effects) = run("wait(2) print(5)");
    assert_eq!(result, Ok(0));
    assert_eq!(effects, vec![Effect::Wait(2), Effect::Print(5)]);
}

#[test]
fn effects_before_an_error_are_kept() {
    let (result, effects) = run("print(1) 10 / 0");
    assert_eq!(result, Err(EvalError::DivisionByZero));
    assert_eq!(effects, vec![Effect::Print(1)]);
}

#[test]
fn empty_program_yields_zero() {
    let (result, effects) = run("");
    assert_eq!(result, Ok(0));
    assert_eq!(effects, vec![]);
}

#[test]
fn declaration_overwrites_earlier_binding() {
    assert_eq!(run_value("let x = 1; let x = 2; x"), 2);
}

#[test]
fn declaration_yields_assigned_value() {
    assert_eq!(run_value("let x = 5;"), 5);
}

#[test]
fn addition_overflow_reports_overflow() {
    let (result, _) = run("2000000000 + 2000000000");
    assert_eq!(result, Err(EvalError::Overflow));
}

#[test]
fn division_truncates_toward_zero() {
    assert_eq!(run_value("7 / 2"), 3);
    assert_eq!(run_value("(0 - 7) / 2"), -3);
}

#[test]
fn dividing_smallest_by_minus_one_overflows() {
    let (result, _) = run("(0 - 2147483647 - 1) / (0 - 1)");
    assert_eq!(result, Err(EvalError::Overflow));
}

#[test]
fn let_without_identifier_fails() {
    assert_eq!(parse_failure("let 1 = 2;"), ParseError::MissingLetIdentifier);
}

#[test]
fn let_without_equal_fails() {
    assert_eq!(parse_failure("let x 2;"), ParseError::MissingLetEqual);
}

#[test]
fn let_without_semicolon_fails() {
    assert_eq!(parse_failure("let x = 2"), ParseError::MissingLetSemicolon);
}

#[test]
fn wait_without_open_paren_fails() {
    assert_eq!(parse_failure("wait 2"), ParseError::MissingWaitOpen);
}

#[test]
fn wait_with_expression_argument_fails() {
    assert_eq!(parse_failure("wait(x)"), ParseError::MissingWaitNumber);
}

#[test]
fn wait_without_close_paren_fails() {
    assert_eq!(parse_failure("wait(2 3)"), ParseError::MissingWaitClose);
}

#[test]
fn print_without_open_paren_fails() {
    assert_eq!(parse_failure("print 2"), ParseError::MissingPrintOpen);
}

#[test]
fn print_without_close_paren_fails() {
    assert_eq!(parse_failure("print(2"), ParseError::MissingPrintClose);
}

#[test]
fn group_without_close_paren_fails() {
    assert_eq!(parse_failure("(1 + 2"), ParseError::MissingGroupClose);
}

#[test]
fn leading_operator_fails() {
    assert_eq!(parse_failure("* 1"), ParseError::UnexpectedToken);
}

#[test]
fn trailing_operator_fails() {
    assert_eq!(parse_failure("1 +"), ParseError::UnexpectedEnd);
}

#[test]
fn print_accepts_full_expressions() {
    let (result, effects) = run("print(2 + 3 * 4)");
    assert_eq!(result, Ok(0));
    assert_eq!(effects, vec![Effect::Print(14)]);
}

#[test]
fn environment_lookup_follows_declarations() {
    let mut variables = Environment::new();
    let mut effects = Vec::new();
    let tokens = lex("let x = 3; let y = x * x;").unwrap();
    let tree = parse(&tokens).unwrap();
    assert_eq!(evaluate(&tree, &mut variables, &mut effects), Ok(9));
    assert_eq!(variables.get(&"x".to_string()), Some(3));
    assert_eq!(variables.get(&"y".to_string()), Some(9));
    assert_eq!(variables.get(&"z".to_string()), None);
}
