use lox::ast_printer::AstPrinter;
use lox::expr::{Binary, Expr, Grouping, Literal, Unary};
use lox::interpreter::{Interpreter, RuntimeError, RuntimeErrorKind};
use lox::lox::{runtime_report, Lox};
use lox::parser::{parse, ParseError, ParseErrorKind};
use lox::scanner::{scan, LexErrorKind, Scanner};
use lox::token::{Number, Token, TokenLiteral, TokenType};

fn parse_source(source: &str) -> Result<Expr, ParseError> {
    let (tokens, errors) = scan(source);
    assert!(errors.is_empty());
    parse(tokens)
}

fn print_source(source: &str) -> String {
    let expr = parse_source(source).ok().expect("parses");
    AstPrinter.print(&expr)
}

fn eval_source(source: &str) -> Result<TokenLiteral, RuntimeError> {
    let expr = parse_source(source).ok().expect("parses");
    Interpreter.evaluate(&expr)
}

fn num(n: i64, d: i64) -> TokenLiteral {
    TokenLiteral::Number(Number { num: n, den: d })
}

fn types(tokens: &[Token]) -> Vec<TokenType> {
    tokens.iter().map(|t| t.token_type).collect()
}

#[test]
fn ast_printer() {
    let expression = Binary::new(
        Unary::new(
            Token::new(TokenType::Minus, "-", TokenLiteral::Nil, 1),
            Literal::new(num(123, 1)),
        ),
        Token::new(TokenType::Star, "*", TokenLiteral::Nil, 1),
        Grouping::new(Literal::new(num(4567, 100))),
    );
    let ast_printer = AstPrinter {};
    assert_eq!("(* (- 123) (group 45.67))", ast_printer.print(&expression));
}

#[test]
fn scan_ends_with_eof_on_empty_source() {
    let (tokens, errors) = scan("");
    assert_eq!(tokens.len(), 1);
    assert_eq!(tokens[0].token_type, TokenType::Eof);
    assert_eq!(tokens[0].line, 1);
    assert!(errors.is_empty());
}

#[test]
fn scan_ends_with_eof_after_errors() {
    let (tokens, errors) = scan("1 @ \"open");
    assert_eq!(types(&tokens), vec![TokenType::Number, TokenType::Eof]);
    assert_eq!(errors.len(), 2);
    assert_eq!(errors[0].kind, LexErrorKind::UnexpectedCharacter);
    assert_eq!(errors[1].kind, LexErrorKind::UnterminatedString);
}

#[test]
fn scan_operators_and_comments() {
    let (tokens, _) = scan("! != = == < <= > >= / // comment\n( ) { } , . - + ; *");
    assert_eq!(
        types(&tokens),
        vec![
            TokenType::Bang, TokenType::BangEqual, TokenType::Equal, TokenType::EqualEqual,
            TokenType::Less, TokenType::LessEqual, TokenType::Greater, TokenType::GreaterEqual,
            TokenType::Slash, TokenType::LeftParen, TokenType::RightParen, TokenType::LeftBrace,
            TokenType::RightBrace, TokenType::Comma, TokenType::Dot, TokenType::Minus,
            TokenType::Plus, TokenType::Semicolon, TokenType::Star, TokenType::Eof,
        ]
    );
    assert_eq!(tokens[10].line, 2);
}

#[test]
fn scan_keywords_and_identifiers() {
    let (tokens, _) = scan("and class else false for fun if nil or print return super this true var while foo _x1");
    assert_eq!(
        types(&tokens),
        vec![
            TokenType::And, TokenType::Class, TokenType::Else, TokenType::False, TokenType::For,
            TokenType::Fun, TokenType::If, TokenType::Nil, TokenType::Or, TokenType::Print,
            TokenType::Return, TokenType::Super, TokenType::This, TokenType::True, TokenType::Var,
            TokenType::While, TokenType::Identifier, TokenType::Identifier, TokenType::Eof,
        ]
    );
    assert_eq!(tokens[16].lexeme, "foo");
    assert_eq!(tokens[0].literal, TokenLiteral::Str("and".to_string()));
}

#[test]
fn scan_numbers_and_strings() {
    let (tokens, errors) = scan("45.67 12. \"a\nb\" 7");
    assert!(errors.is_empty());
    assert_eq!(tokens[0].literal, num(4567, 100));
    assert_eq!(tokens[0].lexeme, "45.67");
    assert_eq!(tokens[1].literal, num(12, 1));
    assert_eq!(tokens[2].token_type, TokenType::Dot);
    assert_eq!(tokens[3].literal, TokenLiteral::Str("a\nb".to_string()));
    assert_eq!(tokens[3].lexeme, "\"a\nb\"");
    assert_eq!(tokens[4].line, 2);
    assert_eq!(tokens[5].token_type, TokenType::Eof);
    assert_eq!(tokens[5].line, 2);
}

#[test]
fn scan_long_number_literals() {
    let (tokens, errors) = scan("99999999999999999999");
    assert_eq!(types(&tokens), vec![TokenType::Number, TokenType::Eof]);
    assert_eq!(tokens[0].lexeme, "99999999999999999999");
    assert_eq!(tokens[0].literal, num(i64::MAX, 1));
    assert_eq!(errors.len(), 1);
    assert_eq!(errors[0].kind, LexErrorKind::NumberOutOfRange);
    let (tokens, errors) = scan("0.12345678901234567891");
    assert!(errors.is_empty());
    assert_eq!(types(&tokens), vec![TokenType::Number, TokenType::Eof]);
    assert_eq!(tokens[0].literal, num(123456789012345678, 1000000000000000000));
}

#[test]
fn scanner_struct_reports_errors() {
    let mut scanner = Scanner::new("#\n$");
    let tokens = scanner.scan_tokens();
    assert_eq!(tokens.len(), 1);
    assert_eq!(tokens[0].line, 2);
    let errors = scanner.errors();
    assert_eq!(errors.len(), 2);
    assert_eq!(errors[0].line, 1);
    assert_eq!(errors[1].line, 2);
}

#[test]
fn print_respects_precedence() {
    assert_eq!(print_source("1 + 2 * 3"), "(+ 1 (* 2 3))");
}

#[test]
fn print_grouping() {
    assert_eq!(print_source("(1 + 2) * 3"), "(* (group (+ 1 2)) 3)");
}

#[test]
fn print_left_associative_and_unary() {
    assert_eq!(print_source("1 - 2 - 3"), "(- (- 1 2) 3)");
    assert_eq!(print_source("!!true == -1 < 2"), "(== (! (! true)) (< (- 1) 2))");
    assert_eq!(print_source("nil != false"), "(!= nil false)");
    assert_eq!(print_source("\"hi\" >= 0.5"), "(>= hi 0.5)");
}

#[test]
fn print_number_forms() {
    let p = AstPrinter;
    assert_eq!(p.literal_text(&num(250, 100)), "2.5");
    assert_eq!(p.literal_text(&num(5, 100)), "0.05");
    assert_eq!(p.literal_text(&num(-3, 2)), "-1.5");
    assert_eq!(p.literal_text(&num(2, 6)), "1/3");
    assert_eq!(p.literal_text(&num(-1, 8)), "-0.125");
    assert_eq!(p.literal_text(&num(7, 40)), "0.175");
    assert_eq!(p.literal_text(&num(-7, 10)), "-0.7");
    assert_eq!(p.literal_text(&num(20, 10)), "2");
    assert_eq!(p.literal_text(&num(1, 3)), "1/3");
}

#[test]
fn print_ignores_spacing() {
    assert_eq!(print_source("1+2*3"), print_source(" 1 +  2\n* 3 "));
    assert_eq!(print_source("(1+2)*3"), "(* (group (+ 1 2)) 3)");
    assert_eq!(print_source("-(4/2)==!nil"), print_source("- ( 4 / 2 ) == ! nil"));
}

#[test]
fn evaluate_arithmetic() {
    assert_eq!(eval_source("1 + 2 * 3").ok(), Some(num(7, 1)));
}

#[test]
fn evaluate_strings() {
    assert_eq!(eval_source("\"a\" + \"b\"").ok(), Some(TokenLiteral::Str("ab".to_string())));
    let err = eval_source("\"a\" + 1").err().expect("runtime error");
    assert_eq!(err.kind, RuntimeErrorKind::InvalidExpression);
    assert_eq!(err.token.token_type, TokenType::Plus);
}

#[test]
fn evaluate_unary() {
    assert_eq!(eval_source("!nil").ok(), Some(TokenLiteral::Bool(true)));
    let err = eval_source("-\"x\"").err().expect("runtime error");
    assert_eq!(err.kind, RuntimeErrorKind::OperandMustBeNumber);
    assert_eq!(err.kind.message(), "Operand must be a number.");
}

#[test]
fn parse_missing_paren() {
    let err = parse_source("(1 + 2").err().expect("parse error");
    assert_eq!(err.kind, ParseErrorKind::ExpectedRightParen);
    assert_eq!(err.token.token_type, TokenType::Eof);
}

#[test]
fn parse_expected_expression() {
    let err = parse_source("1 + )").err().expect("parse error");
    assert_eq!(err.kind, ParseErrorKind::ExpectedExpression);
    assert_eq!(err.token.lexeme, ")");
}

#[test]
fn evaluate_matches_exact_arithmetic() {
    assert_eq!(eval_source("10 - 4 / 2 * 3").ok(), Some(num(4, 1)));
    assert_eq!(eval_source("(10 - 4) / (2 * 3)").ok(), Some(num(1, 1)));
    assert_eq!(eval_source("0.1 + 0.2").ok(), Some(num(3, 10)));
    assert_eq!(eval_source("0.1 + 0.2 == 0.3").ok(), Some(TokenLiteral::Bool(true)));
    assert_eq!(eval_source("1 / -4").ok(), Some(num(-1, 4)));
    assert_eq!(eval_source("7 / 2 == 3.5").ok(), Some(TokenLiteral::Bool(true)));
}

#[test]
fn evaluate_comparisons() {
    assert_eq!(eval_source("1 < 2").ok(), Some(TokenLiteral::Bool(true)));
    assert_eq!(eval_source("2 <= 2").ok(), Some(TokenLiteral::Bool(true)));
    assert_eq!(eval_source("1 > 2").ok(), Some(TokenLiteral::Bool(false)));
    assert_eq!(eval_source("1 != 1.0").ok(), Some(TokenLiteral::Bool(false)));
    assert_eq!(eval_source("\"abc\" < \"abd\"").ok(), Some(TokenLiteral::Bool(true)));
    assert_eq!(eval_source("\"ab\" > \"abc\"").ok(), Some(TokenLiteral::Bool(false)));
    assert_eq!(eval_source("\"b\" >= \"abc\"").ok(), Some(TokenLiteral::Bool(true)));
    assert_eq!(eval_source("true == false").ok(), Some(TokenLiteral::Bool(false)));
    assert_eq!(eval_source("(1 == 1) != false").ok(), Some(TokenLiteral::Bool(true)));
}

#[test]
fn evaluate_runtime_errors() {
    assert_eq!(eval_source("1 / 0").err().unwrap().kind, RuntimeErrorKind::DivisionByZero);
    assert_eq!(eval_source("true < false").err().unwrap().kind, RuntimeErrorKind::InvalidBooleanOperator);
    assert_eq!(eval_source("\"a\" - \"b\"").err().unwrap().kind, RuntimeErrorKind::InvalidStringOperator);
    assert_eq!(eval_source("nil == nil").err().unwrap().kind, RuntimeErrorKind::InvalidExpression);
    assert_eq!(
        eval_source("9000000000000000000 * 10").err().unwrap().kind,
        RuntimeErrorKind::NumberOutOfRange
    );
}

#[test]
fn evaluate_right_operand_first() {
    let err = eval_source("(-\"l\") + (-\"r\")").err().unwrap();
    assert_eq!(err.kind, RuntimeErrorKind::OperandMustBeNumber);
    assert_eq!(err.token.line, 1);
    let expr = Binary::new(
        Unary::new(Token::new(TokenType::Minus, "-", TokenLiteral::Nil, 1), Literal::new(TokenLiteral::Nil)),
        Token::new(TokenType::Plus, "+", TokenLiteral::Nil, 1),
        Unary::new(Token::new(TokenType::Minus, "-", TokenLiteral::Nil, 2), Literal::new(TokenLiteral::Nil)),
    );
    assert_eq!(Interpreter.evaluate(&expr).err().unwrap().token.line, 2);
}

#[test]
fn truthiness() {
    let i = Interpreter;
    assert!(!i.is_truthy(&TokenLiteral::Nil));
    assert!(!i.is_truthy(&TokenLiteral::Bool(false)));
    assert!(i.is_truthy(&num(0, 1)));
    assert!(i.is_truthy(&TokenLiteral::Str(String::new())));
}

#[test]
fn lox_reports_errors() {
    let mut l = Lox::new();
    assert!(!l.had_error());
    assert_eq!(l.error(3, "Unexpected character."), "[line 3] Error: Unexpected character.");
    assert!(l.had_error());
    let eof = Token::new(TokenType::Eof, "", TokenLiteral::Nil, 4);
    assert_eq!(l.error_token(&eof, "Expect ')' after expression."), "[line 4] Error at end: Expect ')' after expression.");
    let star = Token::new(TokenType::Star, "*", TokenLiteral::Nil, 12);
    assert_eq!(l.error_token(&star, "Expected expression."), "[line 12] Error at '*': Expected expression.");
    l.reset();
    assert!(!l.had_error());
}

#[test]
fn lox_run_prints_tree_or_reports() {
    let mut l = Lox::new();
    let out = l.run("1 + 2 * 3");
    assert!(out.diagnostics.is_empty());
    assert_eq!(out.printed, Some("(+ 1 (* 2 3))".to_string()));
    let out = l.run("(1 + 2");
    assert_eq!(out.diagnostics, vec!["[line 1] Error at end: Expect ')' after expression.".to_string()]);
    assert_eq!(out.printed, None);
    assert!(l.had_error());
    let mut l = Lox::new();
    let out = l.run("1 # 2");
    assert_eq!(out.diagnostics, vec!["[line 1] Error: Unexpected character.".to_string()]);
    assert_eq!(out.printed, None);
    let out = Lox::new().run("1 + )");
    assert_eq!(out.diagnostics, vec!["[line 1] Error at ')': Expected expression.".to_string()]);
}

#[test]
fn interpret_renders_value_or_error() {
    let expr = parse_source("0.25 + 0.5").ok().unwrap();
    assert_eq!(Interpreter.interpret(&expr).ok(), Some("0.75".to_string()));
    let expr = parse_source("1 / 4 + 0.5").ok().unwrap();
    assert_eq!(Interpreter.interpret(&expr).ok(), Some("0.75".to_string()));
    let expr = parse_source("4 / 2").ok().unwrap();
    assert_eq!(Interpreter.interpret(&expr).ok(), Some("2".to_string()));
    let expr = parse_source("8 / 4 / 2 - 1 - 1").ok().unwrap();
    assert_eq!(Interpreter.interpret(&expr).ok(), Some("-1".to_string()));
    let expr = parse_source("2 / 6").ok().unwrap();
    assert_eq!(Interpreter.interpret(&expr).ok(), Some("1/3".to_string()));
    let expr = parse_source("\"a\" + \"b\"").ok().unwrap();
    assert_eq!(Interpreter.interpret(&expr).ok(), Some("ab".to_string()));
    let expr = parse_source("1 / 3").ok().unwrap();
    assert_eq!(Interpreter.interpret(&expr).ok(), Some("1/3".to_string()));
    let expr = parse_source("-true").ok().unwrap();
    assert_eq!(Interpreter.interpret(&expr).err().unwrap().kind, RuntimeErrorKind::OperandMustBeNumber);
}

#[test]
fn number_from_int_is_whole() {
    let n = Number::from_int(-5);
    assert_eq!(n, Number { num: -5, den: 1 });
    assert_eq!(AstPrinter.literal_text(&TokenLiteral::Number(n)), "-5");
}

#[test]
fn lox_run_evaluates_clean_input() {
    let mut l = Lox::new();
    let out = l.run("1 + 2 * 3");
    assert_eq!(out.value.unwrap().ok(), Some("7".to_string()));
    let out = l.run("-\"x\"");
    let err = out.value.unwrap().err().unwrap();
    assert_eq!(runtime_report(&err), "[line 1] Error at '-': Operand must be a number.");
    assert!(!l.had_error());
    let out = l.run("(1 + 2");
    assert!(out.value.is_none());
    assert!(l.had_error());
}

#[test]
fn error_messages() {
    assert_eq!(ParseErrorKind::ExpectedExpression.message(), "Expected expression.");
    assert_eq!(ParseErrorKind::ExpectedRightParen.message(), "Expect ')' after expression.");
    assert_eq!(RuntimeErrorKind::InvalidNumberOperator.message(), "Invalid operator for number type.");
    assert_eq!(RuntimeErrorKind::DivisionByZero.message(), "Division by zero.");
    assert_eq!(LexErrorKind::UnterminatedString.message(), "Unterminated string.");
}

#[test]
fn scan_keeps_non_ascii_text() {
    let (tokens, errors) = scan("\"h\u{e9}llo\" + \"\u{1f600}\"");
    assert!(errors.is_empty());
    assert_eq!(tokens[0].literal, TokenLiteral::Str("h\u{e9}llo".to_string()));
    assert_eq!(tokens[2].lexeme, "\"\u{1f600}\"");
}

#[test]
fn negation_is_total() {
    assert_eq!(eval_source("-(-9223372036854775807)").ok(), Some(num(9223372036854775807, 1)));
    let err = eval_source("-9223372036854775807 - 1").err().unwrap();
    assert_eq!(err.kind, RuntimeErrorKind::NumberOutOfRange);
    assert_eq!(err.token.lexeme, "-");
}

#[test]
fn results_are_in_lowest_terms() {
    assert_eq!(eval_source("6 / 4").ok(), Some(num(3, 2)));
    assert_eq!(eval_source("-6 / 4").ok(), Some(num(-3, 2)));
    assert_eq!(eval_source("0 / 5").ok(), Some(num(0, 1)));
    assert_eq!(eval_source("1 / -4").ok(), Some(num(-1, 4)));
}
