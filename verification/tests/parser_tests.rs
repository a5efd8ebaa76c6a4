use saber::lexer::Lexer;
use saber::parser::Parser;

#[test]
fn parser_test_let_statements() {
    let input = "
        var x = 5;
        var y = 10;
        var foobar = 838383;
        ";

    let l = Lexer::new(input.to_string());
    let mut p = Parser::new(l);

    let program = p.parse_program().unwrap();

    assert_eq!(program.statements.len(), 3);

    for stmt in program.statements {
        assert_eq!(stmt.token_literal(), "var");
    }
}

#[test]
fn mod_test_let_statements() {
    let input = "
        var x = 5;
        var y = 10;
        var foobar = 838383;
        ";

    let l = Lexer::new(input.to_string());
    let mut p = Parser::new(l);

    let program = p.parse_program().unwrap();

    assert_eq!(program.statements.len(), 3);

    for stmt in program.statements {
        assert_eq!(stmt.token_literal(), "var");
    }
}

#[test]
fn parser_test_ret_statements() {
    let input = "
        ret 5;
        ret 10;
        ret 993322;
        ";

    let l = Lexer::new(input.to_string());
    let mut p = Parser::new(l);

    let program = p.parse_program().unwrap();

    assert_eq!(program.statements.len(), 3);

    for stmt in program.statements {
        assert_eq!(stmt.token_literal(), "ret");
    }
}

#[test]
fn mod_test_ret_statements() {
    let input = "
        ret 5;
        ret 10;
        ret 993322;
        ";

    let l = Lexer::new(input.to_string());
    let mut p = Parser::new(l);

    let program = p.parse_program().unwrap();

    assert_eq!(program.statements.len(), 3);

    for stmt in program.statements {
        assert_eq!(stmt.token_literal(), "ret");
    }
}

#[test]
fn parser_test_parser_errors() {
    let input = "
        var x 5;
        var = 10;
        var 838383;
        ";

    let l = Lexer::new(input.to_string());
    let mut p = Parser::new(l);

    p.parse_program().unwrap();

    assert_eq!(p.errors().len(), 4);

    let errors = [
        "expected next token to be Assign, got Int instead",
        "expected next token to be Ident, got Assign instead",
        "no prefix parse function for Assign found",
        "expected next token to be Ident, got Int instead",
    ];

    for (i, err) in errors.iter().enumerate() {
        assert_eq!(p.errors()[i], err.to_string());
    }
}

#[test]
fn mod_test_parser_errors() {
    let input = "
        var x 5;
        var = 10;
        var 838383;
        ";

    let l = Lexer::new(input.to_string());
    let mut p = Parser::new(l);

    p.parse_program().unwrap();

    assert_eq!(p.errors().len(), 4);

    let errors = [
        "expected next token to be Assign, got Int instead",
        "expected next token to be Ident, got Assign instead",
        "no prefix parse function for Assign found",
        "expected next token to be Ident, got Int instead",
    ];

    for (i, err) in errors.iter().enumerate() {
        assert_eq!(p.errors()[i], err.to_string());
    }
}

#[test]
fn parser_test_identifier_expression() {
    let input = "foobar;";

    let l = Lexer::new(input.to_string());
    let mut p = Parser::new(l);
    let program = p.parse_program().unwrap();

    assert_eq!(program.statements.len(), 1);

    let stmt = &program.statements[0];

    assert_eq!(stmt.token_literal(), "foobar");
    assert_eq!(stmt.string(), "foobar");
}

#[test]
fn mod_test_identifier_expression() {
    let input = "foobar;";

    let l = Lexer::new(input.to_string());
    let mut p = Parser::new(l);
    let program = p.parse_program().unwrap();

    assert_eq!(program.statements.len(), 1);

    let stmt = &program.statements[0];

    assert_eq!(stmt.token_literal(), "foobar");
    assert_eq!(stmt.string(), "foobar");
}

#[test]
fn parser_test_intenger_literal_expression() {
    let input = "5;";

    let l = Lexer::new(input.to_string());
    let mut p = Parser::new(l);
    let program = p.parse_program().unwrap();

    assert_eq!(program.statements.len(), 1);

    let stmt = &program.statements[0];
    assert_eq!(stmt.token_literal(), "5");
    assert_eq!(stmt.string(), "5");
}

#[test]
fn mod_test_intenger_literal_expression() {
    let input = "5;";

    let l = Lexer::new(input.to_string());
    let mut p = Parser::new(l);
    let program = p.parse_program().unwrap();

    assert_eq!(program.statements.len(), 1);

    let stmt = &program.statements[0];
    assert_eq!(stmt.token_literal(), "5");
    assert_eq!(stmt.string(), "5");
}

#[test]
fn parser_test_parsing_prefix_expressions() {
    let prefix_tests = vec![("!5;", "!", 5), ("-15;", "-", 15)];

    for tt in prefix_tests {
        let l = Lexer::new(tt.0.to_string());
        let mut p = Parser::new(l);
        let program = p.parse_program().unwrap();

        assert_eq!(program.statements.len(), 1);

        let stmt = &program.statements[0];

        assert_eq!(stmt.token_literal(), tt.1);

        assert_eq!(stmt.string(), format!("({}{})", tt.1, tt.2));
    }
}

#[test]
fn mod_test_parsing_prefix_expressions() {
    let prefix_tests = vec![("!5;", "!", 5), ("-15;", "-", 15)];

    for tt in prefix_tests {
        let l = Lexer::new(tt.0.to_string());
        let mut p = Parser::new(l);
        let program = p.parse_program().unwrap();

        assert_eq!(program.statements.len(), 1);

        let stmt = &program.statements[0];

        assert_eq!(stmt.token_literal(), tt.1);

        assert_eq!(stmt.string(), format!("({}{})", tt.1, tt.2));
    }
}

#[test]
fn test_parsing_prefix_booleans_expressions() {
    let prefix_tests = vec![("!true;", "!", true), ("!false;", "!", false)];

    for tt in prefix_tests {
        let l = Lexer::new(tt.0.to_string());
        let mut p = Parser::new(l);
        let program = p.parse_program().unwrap();

        assert_eq!(program.statements.len(), 1);

        let stmt = &program.statements[0];

        assert_eq!(stmt.token_literal(), tt.1);

        assert_eq!(stmt.string(), format!("({}{})", tt.1, tt.2));
    }
}

#[test]
fn test_parsing_infix_expressions() {
    let infix_tests = vec![
        ("5 + 5;", 5, "+", 5),
        ("5 - 5;", 5, "-", 5),
        ("5 * 5;", 5, "*", 5),
        ("5 / 5;", 5, "/", 5),
        ("5 > 5;", 5, ">", 5),
        ("5 < 5;", 5, "<", 5),
        ("5 == 5;", 5, "==", 5),
        ("5 != 5;", 5, "!=", 5),
    ];

    for tt in infix_tests {
        let l = Lexer::new(tt.0.to_string());
        let mut p = Parser::new(l);
        let program = p.parse_program().unwrap();

        assert_eq!(program.statements.len(), 1);

        let stmt = &program.statements[0];

        assert_eq!(stmt.string(), format!("({} {} {})", tt.1, tt.2, tt.3));
    }
}

#[test]
fn test_parsing_infix_booleans_expressions() {
    let infix_tests = vec![
        ("true == true", true, "==", true),
        ("true != false", true, "!=", false),
        ("false == false", false, "==", false),
    ];

    for tt in infix_tests {
        let l = Lexer::new(tt.0.to_string());
        let mut p = Parser::new(l);
        let program = p.parse_program().unwrap();

        assert_eq!(program.statements.len(), 1);

        let stmt = &program.statements[0];

        assert_eq!(stmt.string(), format!("({} {} {})", tt.1, tt.2, tt.3));
    }
}

#[test]
fn test_operator_precedence_parsing() {
    let tests = vec![
        ("-a * b", "((-a) * b)"),
        ("!-a", "(!(-a))"),
        ("a + b + c", "((a + b) + c)"),
        ("a + b - c", "((a + b) - c)"),
        ("a * b * c", "((a * b) * c)"),
        ("a * b / c", "((a * b) / c)"),
        ("a + b / c", "(a + (b / c))"),
        ("a + b * c + d / e - f", "(((a + (b * c)) + (d / e)) - f)"),
        ("3 + 4; -5 * 5", "(3 + 4)((-5) * 5)"),
        ("5 > 4 == 3 < 4", "((5 > 4) == (3 < 4))"),
        ("5 < 4 != 3 > 4", "((5 < 4) != (3 > 4))"),
        (
            "3 + 4 * 5 == 3 * 1 + 4 * 5",
            "((3 + (4 * 5)) == ((3 * 1) + (4 * 5)))",
        ),
        ("true", "true"),
        ("false", "false"),
        ("3 > 5 == false", "((3 > 5) == false)"),
        ("3 < 5 == true", "((3 < 5) == true)"),
        ("1 + (2 + 3) + 4", "((1 + (2 + 3)) + 4)"),
        ("(5 + 5) * 2", "((5 + 5) * 2)"),
        ("2 / (5 + 5)", "(2 / (5 + 5))"),
        ("-(5 + 5)", "(-(5 + 5))"),
        ("!(true == true)", "(!(true == true))"),
    ];

    for tt in tests {
        let l = Lexer::new(tt.0.to_string());
        let mut p = Parser::new(l);
        let program = p.parse_program().unwrap();

        if program.statements.len() > 1 {
            let combined_statements = format!(
                "{}{}",
                program.statements[0].string(),
                program.statements[1].string()
            );
            assert_eq!(combined_statements, tt.1);
        } else {
            assert_eq!(program.statements[0].string(), tt.1);
        }
    }
}

#[test]
fn test_boolean_expression() {
    let tests = vec![("true;", true), ("false;", false)];

    for tt in tests {
        let l = Lexer::new(tt.0.to_string());
        let mut p = Parser::new(l);
        let program = p.parse_program().unwrap();

        assert_eq!(program.statements.len(), 1);

        let stmt = &program.statements[0];

        assert_eq!(stmt.token_literal(), tt.1.to_string());
    }
}

#[test]
fn test_if_expression() {
    let input = "if (x < y) { x }";

    let l = Lexer::new(input.to_string());
    let mut p = Parser::new(l);
    let program = p.parse_program().unwrap();

    assert_eq!(program.statements.len(), 1);

    let stmt = &program.statements[0];

    assert_eq!(stmt.token_literal(), "if");
    assert_eq!(stmt.string(), "if (x < y) x");
}

#[test]
fn test_if_else_expression() {
    let input = "if (x < y) { x } else { y }";

    let l = Lexer::new(input.to_string());
    let mut p = Parser::new(l);
    let program = p.parse_program().unwrap();

    assert_eq!(program.statements.len(), 1);

    let stmt = &program.statements[0];

    assert_eq!(stmt.token_literal(), "if");
    assert_eq!(stmt.string(), "if (x < y) xelse y");
}

#[test]
fn test_function_literal_parsing() {
    let input = "def(x, y) { x + y; }";

    let l = Lexer::new(input.to_string());
    let mut p = Parser::new(l);
    let program = p.parse_program().unwrap();

    assert_eq!(program.statements.len(), 1);

    let stmt = &program.statements[0];

    assert_eq!(stmt.token_literal(), "def");
    assert_eq!(stmt.string(), "def(x, y)(x + y)");
}

#[test]
fn test_function_parameter_parsing() {
    let tests: Vec<(&str, Vec<&str>)> = vec![
        ("def() {};", vec![]),
        ("def(x) {};", vec!["x"]),
        ("def(x, y, z) {};", vec!["x", "y", "z"]),
    ];

    for tt in tests {
        let l = Lexer::new(tt.0.to_string());
        let mut p = Parser::new(l);
        let program = p.parse_program().unwrap();

        let stmt = &program.statements[0];

        assert_eq!(stmt.token_literal(), "def");
        if tt.1.is_empty() {
            assert_eq!(stmt.string(), "def()");
        } else {
            assert_eq!(stmt.string(), format!("def({})", tt.1.join(", ")));
        }
    }
}
