use lox::lox::Lox;

fn chars(s: &str) -> Vec<char> {
    s.chars().collect()
}

fn run(src: &str) -> Vec<String> {
    let mut session = Lox::new();
    session.run(chars(src))
}

#[test]
fn arithmetic_respects_precedence() {
    assert_eq!(run("1 + 2 * 3;"), vec!["(Expression (PLUS 1 (STAR 2 3)))", "7"]);
    assert_eq!(run("(1 + 2) * 3;"), vec!["(Expression (STAR (GROUP (PLUS 1 2)) 3))", "9"]);
}

#[test]
fn arithmetic_is_left_associative() {
    assert_eq!(run("10 - 4 - 3;")[1], "3");
    assert_eq!(run("8 / 2 / 2;")[1], "2");
    assert_eq!(run("2 * 3 - 4 / 2;")[1], "4");
}

#[test]
fn division_keeps_nine_places() {
    assert_eq!(run("7 / 2;")[1], "3.5");
    assert_eq!(run("1 / 3;")[1], "0.333333333");
    assert_eq!(run("-1 / 4;")[1], "-0.25");
}

#[test]
fn division_by_zero_is_an_error() {
    let out = run("1 / 0;");
    assert_eq!(out, vec!["(Expression (SLASH 1 0))", "1 0 literal - Division by zero"]);
    let mut session = Lox::new();
    session.run(chars("1 / 0;"));
    assert!(session.had_error());
}

#[test]
fn zero_divisor_from_subtraction_fails() {
    assert_eq!(run("5 / (2 - 2);")[1], "5 0 literal - Division by zero");
}

#[test]
fn concatenation_of_strings_and_numbers() {
    assert_eq!(run("\"a\" + 1;")[1], "a1");
    assert_eq!(run("1 + \"a\";")[1], "1a");
    assert_eq!(run("\"a\" + \"b\";")[1], "ab");
    assert_eq!(run("\"x\" + 2.5;")[1], "x2.5");
}

#[test]
fn negation_follows_truthiness() {
    assert_eq!(run("!nil;")[1], "true");
    assert_eq!(run("!false;")[1], "true");
    assert_eq!(run("!true;")[1], "false");
    assert_eq!(run("!0;")[1], "false");
    assert_eq!(run("!\"\";")[1], "false");
}

#[test]
fn comma_yields_right_operand() {
    assert_eq!(run("(1, 2);")[1], "2");
}

#[test]
fn comma_propagates_left_error() {
    assert_eq!(run("(1 / 0, 2);")[1], "1 0 literal - Division by zero");
}

#[test]
fn ternary_evaluates_only_the_taken_branch() {
    let mut session = Lox::new();
    session.run(chars("var x = 1;"));
    session.run(chars("true ? 2 : (x = 5);"));
    assert_eq!(session.run(chars("print x;"))[1], "1");
    session.run(chars("false ? (x = 7) : 3;"));
    assert_eq!(session.run(chars("print x;"))[1], "1");
    session.run(chars("nil ? 3 : (x = 9);"));
    assert_eq!(session.run(chars("print x;"))[1], "9");
}

#[test]
fn ternary_picks_by_truthiness() {
    assert_eq!(run("0 ? \"yes\" : \"no\";")[1], "yes");
    assert_eq!(run("nil ? \"yes\" : \"no\";")[1], "no");
}

#[test]
fn undefined_variable_read_fails() {
    assert_eq!(run("print y;"), vec!["(Print (VARIABLE y))", "VAR - Undefined variable y"]);
}

#[test]
fn undefined_variable_assignment_fails() {
    let out = run("y = 1;");
    assert_eq!(out, vec!["(Expression (ASSIGN y 1))", "VAR - Undefined variable y"]);
}

#[test]
fn declaration_without_initializer_is_nil() {
    let mut session = Lox::new();
    assert_eq!(session.run(chars("var x;")), vec!["(VAR x NIL)", "nil"]);
    assert_eq!(session.run(chars("print x;")), vec!["(Print (VARIABLE x))", "nil", "nil"]);
    assert!(!session.had_error());
}

#[test]
fn assignment_updates_existing_binding() {
    let mut session = Lox::new();
    session.run(chars("var a = 1;"));
    assert_eq!(session.run(chars("a = a + 1;"))[1], "2");
    assert_eq!(session.run(chars("print a;"))[1], "2");
}

#[test]
fn variables_persist_between_runs() {
    let mut session = Lox::new();
    session.run(chars("var greeting = \"hi\";"));
    assert_eq!(session.run(chars("print greeting + \" there\";"))[1], "hi there");
}

#[test]
fn unterminated_string_is_reported() {
    assert_eq!(run("\"abc"), vec!["[line 1] Error: Unterminated string."]);
}

#[test]
fn unterminated_block_comment_is_reported() {
    assert_eq!(run("1; /* abc"), vec!["[line 1] Error: Unterminated block comment."]);
    assert_eq!(run("/* /* */ 1;"), vec!["[line 1] Error: Unterminated block comment."]);
}

#[test]
fn nested_block_comment_is_one_comment() {
    assert_eq!(run("/* a /* b */ c */ 1;"), vec!["(Expression 1)", "1"]);
}

#[test]
fn unexpected_character_is_reported_with_line() {
    let mut session = Lox::new();
    assert_eq!(session.run(chars("1;\n@")), vec!["[line 2] Error: Unexpected character."]);
    assert!(session.had_error());
    session.reset_errors();
    assert!(!session.had_error());
}

#[test]
fn print_writes_textual_form() {
    assert_eq!(run("print true;"), vec!["(Print true)", "true", "nil"]);
    assert_eq!(run("print nil;"), vec!["(Print nil)", "nil", "nil"]);
    assert_eq!(run("print \"s\";"), vec!["(Print s)", "s", "nil"]);
    assert_eq!(run("print 2.50;"), vec!["(Print 2.5)", "2.5", "nil"]);
}

#[test]
fn missing_left_operand_is_reported() {
    assert_eq!(run("* 3;"), vec!["[line 1] Error at 'STAR': Missing left-hand Operand"]);
    assert_eq!(run("== 3;"), vec!["[line 1] Error at 'EQUALEQUAL': Missing left-hand Operand"]);
}

#[test]
fn missing_operand_at_end_is_reported() {
    assert_eq!(run("1 +;"), vec!["[line 1] Error at 'SEMICOLON': Expect expression"]);
    assert_eq!(run("1 +"), vec!["[line 1] Error at end: Expect expression"]);
}

#[test]
fn missing_semicolon_is_reported() {
    assert_eq!(run("print 1"), vec!["[line 1] Error at end: Expect ';' after value."]);
    assert_eq!(run("1 2;"), vec!["[line 1] Error at 'NUMBER': Expect ';' after value."]);
}

#[test]
fn parser_recovers_at_next_statement() {
    let out = run("var ; print 2;");
    assert_eq!(
        out,
        vec!["[line 1] Error at 'SEMICOLON': Expect variable name", "(Print 2)", "2", "nil"]
    );
}

#[test]
fn parser_recovers_before_keyword() {
    let out = run("1 + ) print 3;");
    assert_eq!(out, vec!["[line 1] Error at 'RIGHTPAREN': Expect expression", "(Print 3)", "3", "nil"]);
}

#[test]
fn unclosed_group_is_reported() {
    assert_eq!(run("(1 + 2;"), vec!["[line 1] Error at 'SEMICOLON': Expect ')' after expression"]);
}

#[test]
fn invalid_assignment_target_is_reported() {
    assert_eq!(run("1 = 2;"), vec!["[line 1] Error at 'EQUAL': Invalid assignment target."]);
}

#[test]
fn ternary_needs_colon() {
    assert_eq!(
        run("true ? 1;"),
        vec!["[line 1] Error at 'SEMICOLON': Expect ':' after THEN of conditional expression"]
    );
}

#[test]
fn ternary_is_right_associative() {
    assert_eq!(
        run("false ? 1 : true ? 2 : 3;"),
        vec!["(Expression (TERNARY IF false THEN 1 ELSE (TERNARY IF true THEN 2 ELSE 3)))", "2"]
    );
}

#[test]
fn comma_binds_loosest_of_binary_operators() {
    assert_eq!(run("1, 2 == 2;"), vec!["(Expression (1 (EQUALEQUAL 2 2)))", "true"]);
}

#[test]
fn equality_table() {
    assert_eq!(run("1 == 1;")[1], "true");
    assert_eq!(run("1 != 1;")[1], "false");
    assert_eq!(run("nil == nil;")[1], "true");
    assert_eq!(run("nil != nil;")[1], "false");
    assert_eq!(run("1 == nil;")[1], "false");
    assert_eq!(run("nil != 1;")[1], "true");
    assert_eq!(run("\"a\" == \"a\";")[1], "a a literal - Invalid operation on binary operand");
    assert_eq!(run("true == true;")[1], "true true literal - Invalid operation on binary operand");
}

#[test]
fn comparisons_need_numbers() {
    assert_eq!(run("1 < 2;")[1], "true");
    assert_eq!(run("2 <= 2;")[1], "true");
    assert_eq!(run("1 > 2;")[1], "false");
    assert_eq!(run("3 >= 2.5;")[1], "true");
    assert_eq!(run("1 < \"a\";")[1], "1 a literal - Invalid operation on binary operand");
}

#[test]
fn negation_needs_a_number() {
    assert_eq!(run("-\"a\";")[1], "a literal - Invalid operation on unary operand.");
    assert_eq!(run("-nil;")[1], "NIL literal - Invalid operation on unary operand.");
    assert_eq!(run("--2;")[1], "2");
}

#[test]
fn arithmetic_type_error() {
    assert_eq!(run("true - 1;")[1], "true 1 literal - Invalid operation on binary operand");
    assert_eq!(run("nil + nil;")[1], "NIL NIL literal - Invalid operation on binary operand");
}

#[test]
fn overflow_is_an_error() {
    assert_eq!(run("100000000000000000000 * 10;")[1], "100000000000000000000 10 literal - Numeric overflow");
    assert_eq!(run("100000000000000000000 + 1;")[1], "100000000000000000000 1 literal - Numeric overflow");
}

#[test]
fn literal_out_of_range_is_reported() {
    assert_eq!(
        run("1000000000000000000000;"),
        vec!["[line 1] Error at 'NUMBER': Expect number, string or bool"]
    );
}

#[test]
fn error_in_one_statement_does_not_stop_the_next() {
    let out = run("1 / 0; print 4;");
    assert_eq!(out, vec!["(Expression (SLASH 1 0))", "1 0 literal - Division by zero", "(Print 4)", "4", "nil"]);
}

#[test]
fn keywords_are_case_insensitive() {
    assert_eq!(run("PRINT TRUE;"), vec!["(Print true)", "true", "nil"]);
    assert_eq!(run("Var Abc = 1; print Abc;"), vec!["(VAR Abc 1)", "nil", "(Print (VARIABLE Abc))", "1", "nil"]);
}
