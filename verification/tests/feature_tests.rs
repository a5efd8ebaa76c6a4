use saber::ast::{Expression, Identifier, Infix, Literal, Precedence, Prefix, Program, Statement};
use saber::lexer::Lexer;
use saber::parser::Parser;
use saber::token::{Token, TokenType};

#[test]
fn test_round_trip_precedence() {
    let tests = vec![
        ("5", "5"),
        ("-a * b", "((-a) * b)"),
        ("a + b + c", "((a + b) + c)"),
        ("a + b * c", "(a + (b * c))"),
        ("1 + (2 + 3) + 4", "((1 + (2 + 3)) + 4)"),
    ];
    for (input, expected) in tests {
        let mut p = Parser::new(Lexer::new(input.to_string()));
        let program = p.parse_program().unwrap();
        assert_eq!(p.errors().len(), 0);
        assert_eq!(program.statements.len(), 1);
        assert_eq!(program.statements[0].string(), expected);
    }
}

#[test]
fn test_stringify_fixed_point() {
    let inputs = vec![
        "5",
        "foobar",
        "true",
        "-a * b",
        "!-a",
        "a + b * c + d / e - f",
        "3 + 4 * 5 == 3 * 1 + 4 * 5",
        "2 / (5 + 5)",
        "!(true == true)",
        "add(1, 2 * 3)",
        "add(a, b, 1, 2 * 3, other(4 + 5))",
    ];
    for input in inputs {
        let mut p1 = Parser::new(Lexer::new(input.to_string()));
        let program1 = p1.parse_program().unwrap();
        assert_eq!(p1.errors().len(), 0);
        let once = program1.string();

        let mut p2 = Parser::new(Lexer::new(once.clone()));
        let program2 = p2.parse_program().unwrap();
        assert_eq!(p2.errors().len(), 0);
        assert_eq!(program2.string(), once);
    }
}

#[test]
fn test_if_expression_shape() {
    let mut p = Parser::new(Lexer::new("if (x < y) { x } else { y }".to_string()));
    let program = p.parse_program().unwrap();
    assert_eq!(p.errors().len(), 0);
    assert_eq!(program.statements.len(), 1);
    let value = match &program.statements[0] {
        Statement::Expression { value } => value,
        _ => panic!("not an expression statement"),
    };
    match value {
        Expression::If { condition, consequence, alternative } => {
            assert_eq!(condition.string(), "(x < y)");
            assert_eq!(consequence.string(), "x");
            assert_eq!(alternative.as_ref().unwrap().string(), "y");
        },
        _ => panic!("not an if expression"),
    }
}

#[test]
fn test_function_literal_shape() {
    let mut p = Parser::new(Lexer::new("def(x, y) { x + y; }".to_string()));
    let program = p.parse_program().unwrap();
    assert_eq!(p.errors().len(), 0);
    let value = match &program.statements[0] {
        Statement::Expression { value } => value,
        _ => panic!("not an expression statement"),
    };
    match value {
        Expression::Function { parameters, body } => {
            assert_eq!(parameters.len(), 2);
            assert_eq!(parameters[0].0, "x");
            assert_eq!(parameters[1].0, "y");
            assert_eq!(body.string(), "(x + y)");
        },
        _ => panic!("not a function literal"),
    }
}

#[test]
fn test_call_expression_shape() {
    let mut p = Parser::new(Lexer::new("add(1, 2 * 3)".to_string()));
    let program = p.parse_program().unwrap();
    assert_eq!(p.errors().len(), 0);
    assert_eq!(program.statements.len(), 1);
    assert_eq!(program.statements[0].string(), "add(1, (2 * 3))");
    let value = match &program.statements[0] {
        Statement::Expression { value } => value,
        _ => panic!("not an expression statement"),
    };
    match value {
        Expression::Call { callee, arguments } => {
            assert_eq!(callee.string(), "add");
            assert_eq!(arguments.len(), 2);
            assert_eq!(arguments[0].string(), "1");
            assert_eq!(arguments[1].string(), "(2 * 3)");
        },
        _ => panic!("not a call expression"),
    }
}

#[test]
fn test_call_with_no_arguments() {
    let mut p = Parser::new(Lexer::new("go()".to_string()));
    let program = p.parse_program().unwrap();
    assert_eq!(p.errors().len(), 0);
    assert_eq!(program.statements[0].string(), "go()");
}

#[test]
fn test_var_and_ret_keep_their_values() {
    let mut p = Parser::new(Lexer::new("var x = 1 + 2; ret x * 3;".to_string()));
    let program = p.parse_program().unwrap();
    assert_eq!(p.errors().len(), 0);
    assert_eq!(program.statements.len(), 2);
    assert_eq!(program.statements[0].string(), "var x = (1 + 2);");
    assert_eq!(program.statements[1].string(), "ret (x * 3);");
}

#[test]
fn test_alternate_keyword_spellings_parse() {
    let mut p = Parser::new(Lexer::new("forge x = 5; ignite x;".to_string()));
    let program = p.parse_program().unwrap();
    assert_eq!(p.errors().len(), 0);
    assert_eq!(program.statements.len(), 2);
    assert_eq!(program.statements[0].string(), "var x = 5;");
    assert_eq!(program.statements[1].string(), "ret x;");
}

#[test]
fn test_integer_literal_too_large() {
    let mut p = Parser::new(Lexer::new("9223372036854775808".to_string()));
    let program = p.parse_program().unwrap();
    assert_eq!(program.statements.len(), 0);
    assert_eq!(p.errors().len(), 1);
    assert_eq!(
        p.errors()[0],
        "could not parse 9223372036854775808 as integer"
    );
}

#[test]
fn test_largest_integer_literal_parses() {
    let mut p = Parser::new(Lexer::new("9223372036854775807".to_string()));
    let program = p.parse_program().unwrap();
    assert_eq!(p.errors().len(), 0);
    assert_eq!(program.statements[0].string(), "9223372036854775807");
    let value = match &program.statements[0] {
        Statement::Expression { value } => value,
        _ => panic!("not an expression statement"),
    };
    match value {
        Expression::Literal { value: Literal::Integer(v) } => {
            assert_eq!(*v, 9223372036854775807i64);
        },
        _ => panic!("not an integer literal"),
    }
}

#[test]
fn test_illegal_character_diagnostic() {
    let mut p = Parser::new(Lexer::new("@".to_string()));
    let program = p.parse_program().unwrap();
    assert_eq!(program.statements.len(), 0);
    assert_eq!(p.errors().len(), 1);
    assert_eq!(p.errors()[0], "no prefix parse function for Illegal found");
}

#[test]
fn test_missing_closing_paren_diagnostic() {
    let mut p = Parser::new(Lexer::new("(1 + 2".to_string()));
    p.parse_program().unwrap();
    assert_eq!(p.errors().len(), 1);
    assert_eq!(
        p.errors()[0],
        "expected next token to be Rparen, got Eof instead"
    );
}

#[test]
fn test_empty_input_program() {
    let mut p = Parser::new(Lexer::new("".to_string()));
    let program = p.parse_program().unwrap();
    assert_eq!(p.errors().len(), 0);
    assert_eq!(program.statements.len(), 0);
    assert_eq!(program.string(), "");
    assert_eq!(program.token_literal(), "");
}

#[test]
fn test_program_new_is_empty() {
    let program = Program::new();
    assert_eq!(program.statements.len(), 0);
    assert_eq!(program.string(), "");
}

#[test]
fn test_token_new() {
    let tok = Token::new(TokenType::Ident, "abc".to_string());
    assert_eq!(tok.token_type, TokenType::Ident);
    assert_eq!(tok.literal, "abc");
}

#[test]
fn test_precedence_levels_are_strictly_ordered() {
    let order = vec![
        Precedence::Lowest,
        Precedence::Equals,
        Precedence::LessGreater,
        Precedence::Sum,
        Precedence::Product,
        Precedence::Prefix,
        Precedence::Call,
    ];
    for pair in order.windows(2) {
        assert!(pair[0].level() < pair[1].level());
    }
}

#[test]
fn test_stringify_constructed_negative_literal() {
    let e = Expression::Infix {
        operator: Infix::Multiply,
        left: Box::new(Expression::Literal { value: Literal::Integer(-5) }),
        right: Box::new(Expression::Identifier { name: Identifier("n".to_string()) }),
    };
    assert_eq!(e.string(), "(-5 * n)");
    let neg = Expression::Prefix {
        operator: Prefix::Minus,
        operand: Box::new(Expression::Literal { value: Literal::Integer(10) }),
    };
    assert_eq!(neg.string(), "(-10)");
    assert_eq!(neg.token_literal(), "-");
}

#[test]
fn test_stringify_smallest_integer() {
    let e = Expression::Literal { value: Literal::Integer(i64::MIN) };
    assert_eq!(e.string(), "-9223372036854775808");
    assert_eq!(e.token_literal(), "-9223372036854775808");
    let zero = Expression::Literal { value: Literal::Integer(0) };
    assert_eq!(zero.string(), "0");
}

#[test]
fn test_error_accumulation_keeps_going() {
    let mut p = Parser::new(Lexer::new("var 1; @ x + 2;".to_string()));
    let program = p.parse_program().unwrap();
    assert_eq!(p.errors().len(), 2);
    assert_eq!(
        p.errors()[0],
        "expected next token to be Ident, got Int instead"
    );
    assert_eq!(p.errors()[1], "no prefix parse function for Illegal found");
    assert_eq!(program.statements.last().unwrap().string(), "(x + 2)");
}
