use lox::ast::{Block, Expr, Expression, Literal, Print, Stmt, Var, Variable};
use lox::ast_printer::AstPrinter;
use lox::environment::Environment;
use lox::error::{EvaluationError, ParseError, RuntimeError, ScanError};
use lox::interpreter::Interpreter;
use lox::number::Number;
use lox::parser::Parser;
use lox::scanner::Scanner;
use lox::token::{Token, ValueTypes};
use lox::token_type::TokenType;

fn chars(s: &str) -> Vec<char> {
    s.chars().collect()
}

fn scan(src: &str) -> (Vec<Token>, Vec<ScanError>) {
    let mut scanner = Scanner::new(chars(src));
    let tokens = scanner.scan_tokens();
    let errors = scanner.errors();
    (tokens, errors)
}

fn kinds(src: &str) -> Vec<TokenType> {
    scan(src).0.iter().map(|t| t.kind).collect()
}

fn ident(name: &str) -> Token {
    Token::new(TokenType::IDENTIFIER, 1, Some(name.to_string()))
}

fn num(i: i64) -> Literal {
    Literal::NUMBER(Number::from_int(i))
}

#[test]
fn scanner_two_character_operators() {
    assert_eq!(
        kinds("!= == <= >= ! = < >"),
        vec![
            TokenType::BANGEQUAL,
            TokenType::EQUALEQUAL,
            TokenType::LESSEQUAL,
            TokenType::GREATEREQUAL,
            TokenType::BANG,
            TokenType::EQUAL,
            TokenType::LESS,
            TokenType::GREATER,
            TokenType::EOF
        ]
    );
}

#[test]
fn scanner_punctuation() {
    assert_eq!(
        kinds("(){},.-+;*?:/"),
        vec![
            TokenType::LEFTPAREN,
            TokenType::RIGHTPAREN,
            TokenType::LEFTBRACE,
            TokenType::RIGHTBRACE,
            TokenType::COMMA,
            TokenType::DOT,
            TokenType::MINUS,
            TokenType::PLUS,
            TokenType::SEMICOLON,
            TokenType::STAR,
            TokenType::QUESTION,
            TokenType::COLON,
            TokenType::SLASH,
            TokenType::EOF
        ]
    );
}

#[test]
fn scanner_empty_source_gives_end_token() {
    let (tokens, errors) = scan("");
    assert_eq!(tokens, vec![Token::new(TokenType::EOF, 1, None)]);
    assert!(errors.is_empty());
}

#[test]
fn scanner_keywords_ignore_case() {
    assert_eq!(
        kinds("and class else false for fun if nil or print return super this true var while"),
        vec![
            TokenType::AND,
            TokenType::CLASS,
            TokenType::ELSE,
            TokenType::FALSE,
            TokenType::FOR,
            TokenType::FUN,
            TokenType::IF,
            TokenType::NIL,
            TokenType::OR,
            TokenType::PRINT,
            TokenType::RETURN,
            TokenType::SUPER,
            TokenType::THIS,
            TokenType::TRUE,
            TokenType::VAR,
            TokenType::WHILE,
            TokenType::EOF
        ]
    );
    assert_eq!(kinds("WhIlE"), vec![TokenType::WHILE, TokenType::EOF]);
}

#[test]
fn scanner_identifier_keeps_its_case() {
    let (tokens, _) = scan("myVar2 x");
    assert_eq!(tokens[0], Token::new(TokenType::IDENTIFIER, 1, Some("myVar2".to_string())));
    assert_eq!(tokens[1], Token::new(TokenType::IDENTIFIER, 1, Some("x".to_string())));
}

#[test]
fn scanner_number_lexemes() {
    let (tokens, _) = scan("12 3.25 4.");
    assert_eq!(tokens[0], Token::new(TokenType::NUMBER, 1, Some("12".to_string())));
    assert_eq!(tokens[1], Token::new(TokenType::NUMBER, 1, Some("3.25".to_string())));
    assert_eq!(tokens[2], Token::new(TokenType::NUMBER, 1, Some("4".to_string())));
    assert_eq!(tokens[3].kind, TokenType::DOT);
}

#[test]
fn scanner_string_keeps_raw_text_and_counts_lines() {
    let (tokens, errors) = scan("\"a\nb\" x");
    assert!(errors.is_empty());
    assert_eq!(tokens[0], Token::new(TokenType::STRING, 2, Some("a\nb".to_string())));
    assert_eq!(tokens[1].line, 2);
}

#[test]
fn scanner_comments_are_skipped_and_lines_counted() {
    let (tokens, errors) = scan("// note\n/* a\n /* b */\n */ 7");
    assert!(errors.is_empty());
    assert_eq!(tokens[0], Token::new(TokenType::NUMBER, 4, Some("7".to_string())));
    assert_eq!(tokens[1], Token::new(TokenType::EOF, 4, None));
}

#[test]
fn scanner_keeps_going_after_errors() {
    let (tokens, errors) = scan("@ 1 # \"open");
    assert_eq!(
        errors,
        vec![
            ScanError { line: 1, message: "Unexpected character.".to_string() },
            ScanError { line: 1, message: "Unexpected character.".to_string() },
            ScanError { line: 1, message: "Unterminated string.".to_string() },
        ]
    );
    assert_eq!(tokens.len(), 2);
    assert_eq!(errors[2].to_text(), "[line 1] Error: Unterminated string.");
}

#[test]
fn scanner_unterminated_comment_line() {
    let (_, errors) = scan("/*\n\n");
    assert_eq!(errors, vec![ScanError { line: 3, message: "Unterminated block comment.".to_string() }]);
}

#[test]
fn token_lexeme_is_kind_name() {
    assert_eq!(Token::new(TokenType::LEFTPAREN, 1, None).get_lexeme(), "LEFTPAREN");
    assert_eq!(Token::new(TokenType::EOF, 1, None).get_lexeme(), "");
}

#[test]
fn token_values() {
    assert!(matches!(Token::new(TokenType::TRUE, 1, None).get_value(), Some(ValueTypes::BOOL(true))));
    assert!(matches!(Token::new(TokenType::FALSE, 1, None).get_value(), Some(ValueTypes::BOOL(false))));
    match Token::new(TokenType::NUMBER, 1, Some("2.5".to_string())).get_value() {
        Some(ValueTypes::NUMBER(n)) => assert_eq!(n.scaled(), 2_500_000_000),
        _ => panic!("expected a number"),
    }
    match Token::new(TokenType::STRING, 1, Some("hi".to_string())).get_value() {
        Some(ValueTypes::STRING(s)) => assert_eq!(s, "hi"),
        _ => panic!("expected a string"),
    }
    assert!(Token::new(TokenType::NUMBER, 1, Some("1.".to_string())).get_value().is_none());
    assert!(Token::new(TokenType::PLUS, 1, None).get_value().is_none());
}

#[test]
fn number_lexemes_and_text() {
    let n = Number::from_lexeme(&chars("0.1234567891")).unwrap();
    assert_eq!(n.scaled(), 123_456_789);
    assert_eq!(n.to_text(), "0.123456789");
    assert!(Number::from_lexeme(&chars(".5")).is_none());
    assert!(Number::from_lexeme(&chars("5.")).is_none());
    assert!(Number::from_lexeme(&chars("1a")).is_none());
    assert_eq!(Number::from_int(-42).to_text(), "-42");
    assert_eq!(Number::from_int(0).to_text(), "0");
}

#[test]
fn number_text_round_trips() {
    for text in ["0", "7", "0.5", "12.000000001", "100000000000000000000", "3.14159"] {
        let n = Number::from_lexeme(&chars(text)).unwrap();
        assert_eq!(n.to_text(), text);
        let back = Number::from_lexeme(&chars(&n.to_text())).unwrap();
        assert_eq!(back, n);
    }
}

#[test]
fn literal_text_round_trips_through_scanner_and_parser() {
    let values = vec![
        Literal::BOOL(true),
        Literal::BOOL(false),
        Literal::NIL,
        Literal::NUMBER(Number::from_lexeme(&chars("2.75")).unwrap()),
        num(12),
    ];
    for v in values {
        let src = format!("{};", v.to_text());
        let (tokens, errors) = scan(&src);
        assert!(errors.is_empty());
        let mut parser = Parser::new(tokens);
        let stmts = parser.parse();
        match &stmts[0] {
            Ok(Stmt::EXPRESSION(e)) => assert_eq!(*e.expr, Expr::LITERAL(v.clone())),
            _ => panic!("expected an expression statement"),
        }
    }
}

#[test]
fn number_arithmetic() {
    let a = Number::from_int(6);
    let b = Number::from_int(4);
    assert_eq!(a.add(&b).unwrap().to_text(), "10");
    assert_eq!(a.sub(&b).unwrap().to_text(), "2");
    assert_eq!(a.mul(&b).unwrap().to_text(), "24");
    assert_eq!(a.div(&b).unwrap().to_text(), "1.5");
    assert!(a.lt(&Number::from_int(7)));
    assert!(!a.lt(&b));
    assert!(b.le(&b));
    assert!(a.equals(&Number::from_int(6)));
    assert_eq!(a.neg().to_text(), "-6");
    assert!(Number::from_int(0).is_zero());
    assert!(Number::from_scaled(-5).is_some());
}

#[test]
fn parser_builds_left_associative_tree() {
    let (tokens, _) = scan("1 - 2 - 3;");
    let mut parser = Parser::new(tokens);
    let stmts = parser.parse();
    let mut printer = AstPrinter::new();
    match &stmts[0] {
        Ok(s) => assert_eq!(printer.printer(s), "(Expression (MINUS (MINUS 1 2) 3))"),
        Err(_) => panic!("expected a statement"),
    }
}

#[test]
fn parser_reports_each_bad_statement() {
    let (tokens, _) = scan("print ; var 3; print 1;");
    let mut parser = Parser::new(tokens);
    let stmts = parser.parse();
    assert_eq!(stmts.len(), 3);
    assert_eq!(stmts[0].as_ref().err().unwrap().to_text(), "[line 1] Error at 'SEMICOLON': Expect expression");
    assert_eq!(stmts[1].as_ref().err().unwrap().to_text(), "[line 1] Error at 'NUMBER': Expect variable name");
    assert!(stmts[2].is_ok());
}

#[test]
fn parse_error_text_at_end() {
    let e = ParseError::new("Expect expression".to_string(), Token::new(TokenType::EOF, 3, None));
    assert_eq!(e.to_text(), "[line 3] Error at end: Expect expression");
}

#[test]
fn evaluation_error_texts() {
    let u = EvaluationError::new_unary("bad".to_string(), Literal::NIL);
    assert_eq!(u.to_text(), "NIL literal - bad");
    let b = EvaluationError::new_binary("bad".to_string(), num(1), Literal::STRING("s".to_string()));
    assert_eq!(b.to_text(), "1 s literal - bad");
    let v = EvaluationError::new_var("Undefined variable q".to_string());
    assert_eq!(v.to_text(), "VAR - Undefined variable q");
}

#[test]
fn environment_define_get_assign() {
    let mut env = Environment::new();
    let name = "a".to_string();
    assert_eq!(env.get(&name).err().unwrap().message, "Undefined variable a");
    assert!(env.assign(name.clone(), num(1)).is_err());
    env.define(name.clone(), num(1));
    assert_eq!(env.get(&name).ok().unwrap(), num(1));
    env.define(name.clone(), num(2));
    assert_eq!(env.get(&name).ok().unwrap(), num(2));
    assert!(env.assign(name.clone(), num(3)).is_ok());
    assert_eq!(env.get(&name).ok().unwrap(), num(3));
}

#[test]
fn environment_scopes_shadow_and_fall_through() {
    let mut env = Environment::new();
    let a = "a".to_string();
    let b = "b".to_string();
    env.define(a.clone(), num(1));
    env.define(b.clone(), num(10));
    env.push_scope();
    env.define(a.clone(), num(2));
    assert_eq!(env.get(&a).ok().unwrap(), num(2));
    assert_eq!(env.get(&b).ok().unwrap(), num(10));
    assert!(env.assign(b.clone(), num(11)).is_ok());
    env.pop_scope();
    assert_eq!(env.get(&a).ok().unwrap(), num(1));
    assert_eq!(env.get(&b).ok().unwrap(), num(11));
    env.pop_scope();
    assert_eq!(env.get(&a).ok().unwrap(), num(1));
}

#[test]
fn interpreter_block_opens_a_scope() {
    let mut interp = Interpreter::new();
    let outer = Stmt::VAR(Var::new(ident("x"), Some(Box::new(Expr::LITERAL(num(1))))));
    assert!(interp.interpret(&outer).is_ok());
    let inner = Stmt::BLOCK(Block::new(vec![
        Stmt::VAR(Var::new(ident("x"), Some(Box::new(Expr::LITERAL(num(2)))))),
        Stmt::PRINT(Print::new(Box::new(Expr::VARIABLE(Variable::new(ident("x")))))),
    ]));
    assert_eq!(interp.interpret(&inner).ok().unwrap(), Literal::NIL);
    let show = Stmt::PRINT(Print::new(Box::new(Expr::VARIABLE(Variable::new(ident("x"))))));
    assert!(interp.interpret(&show).is_ok());
    assert_eq!(interp.take_output(), vec!["2".to_string(), "1".to_string()]);
    let mut printer = AstPrinter::new();
    assert_eq!(printer.printer(&inner), "(Block (VAR x 2) (Print (VARIABLE x)))");
}

#[test]
fn interpreter_block_stops_at_first_error() {
    let mut interp = Interpreter::new();
    let block = Stmt::BLOCK(Block::new(vec![
        Stmt::EXPRESSION(Expression::new(Box::new(Expr::VARIABLE(Variable::new(ident("nope")))))),
        Stmt::PRINT(Print::new(Box::new(Expr::LITERAL(num(5))))),
    ]));
    let r = interp.interpret(&block);
    assert_eq!(r.err().unwrap().message, "Undefined variable nope");
    assert!(interp.take_output().is_empty());
}

#[test]
fn interpreter_expression_statement_yields_value() {
    let mut interp = Interpreter::new();
    let s = Stmt::EXPRESSION(Expression::new(Box::new(Expr::LITERAL(Literal::STRING("v".to_string())))));
    assert_eq!(interp.interpret(&s).ok().unwrap(), Literal::STRING("v".to_string()));
}

#[test]
fn runtime_error_text_is_its_message() {
    let e = RuntimeError::new("Undefined variable z".to_string());
    assert_eq!(e.to_text(), "Undefined variable z");
}
