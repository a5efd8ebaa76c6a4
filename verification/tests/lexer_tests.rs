use saber::lexer::Lexer;
use saber::token::TokenType;

#[test]
fn lexer_test_next_token() {
    let input = "=+(){},;".to_owned();
    let tests = vec![
        TokenType::Assign,
        TokenType::Plus,
        TokenType::Lparen,
        TokenType::Rparen,
        TokenType::Lbrace,
        TokenType::Rbrace,
        TokenType::Comma,
        TokenType::Semicolon,
        TokenType::Eof,
    ];
    let mut l = Lexer::new(input);
    for t in tests {
        let tok = l.next_token();
        assert_eq!(tok.token_type, t);
    }
}

#[test]
fn mod_test_next_token() {
    let input = "=+(){},;".to_owned();
    let tests = vec![
        TokenType::Assign,
        TokenType::Plus,
        TokenType::Lparen,
        TokenType::Rparen,
        TokenType::Lbrace,
        TokenType::Rbrace,
        TokenType::Comma,
        TokenType::Semicolon,
        TokenType::Eof,
    ];
    let mut l = Lexer::new(input);
    for t in tests {
        let tok = l.next_token();
        assert_eq!(tok.token_type, t);
    }
}

#[test]
fn lexer_test_lexer() {
    let input = "
        var five_test = 5;
        var ten = 10;
        var add = def(x, y) {
          x + y;
        };

        var result = add(five, ten);

        !-/*5;
        5 < 10 > 5;

        if (5 < 10) {
          ret true;
        } else {
          ret false;
        }

        10 == 10;
        10 != 9;
        "
    .to_owned();

    let tests = vec![
        TokenType::Var,
        TokenType::Ident,
        TokenType::Assign,
        TokenType::Int,
        TokenType::Semicolon,
        TokenType::Var,
        TokenType::Ident,
        TokenType::Assign,
        TokenType::Int,
        TokenType::Semicolon,
        TokenType::Var,
        TokenType::Ident,
        TokenType::Assign,
        TokenType::Function,
        TokenType::Lparen,
        TokenType::Ident,
        TokenType::Comma,
        TokenType::Ident,
        TokenType::Rparen,
        TokenType::Lbrace,
        TokenType::Ident,
        TokenType::Plus,
        TokenType::Ident,
        TokenType::Semicolon,
        TokenType::Rbrace,
        TokenType::Semicolon,
        TokenType::Var,
        TokenType::Ident,
        TokenType::Assign,
        TokenType::Ident,
        TokenType::Lparen,
        TokenType::Ident,
        TokenType::Comma,
        TokenType::Ident,
        TokenType::Rparen,
        TokenType::Semicolon,
        TokenType::Bang,
        TokenType::Minus,
        TokenType::Slash,
        TokenType::Asterisk,
        TokenType::Int,
        TokenType::Semicolon,
        TokenType::Int,
        TokenType::Lt,
        TokenType::Int,
        TokenType::Gt,
        TokenType::Int,
        TokenType::Semicolon,
        TokenType::If,
        TokenType::Lparen,
        TokenType::Int,
        TokenType::Lt,
        TokenType::Int,
        TokenType::Rparen,
        TokenType::Lbrace,
        TokenType::Ret,
        TokenType::True,
        TokenType::Semicolon,
        TokenType::Rbrace,
        TokenType::Else,
        TokenType::Lbrace,
        TokenType::Ret,
        TokenType::False,
        TokenType::Semicolon,
        TokenType::Rbrace,
        TokenType::Int,
        TokenType::Eq,
        TokenType::Int,
        TokenType::Semicolon,
        TokenType::Int,
        TokenType::NotEq,
        TokenType::Int,
        TokenType::Semicolon,
        TokenType::Eof,
    ];

    let mut l = Lexer::new(input);
    for t in tests {
        let tok = l.next_token();
        assert_eq!(tok.token_type, t);
    }
}

#[test]
fn mod_test_lexer() {
    let input = "
        forge five_test = 5;
        forge ten = 10;
        forge add = weave(x, y) {
          x + y;
        };

        forge result = add(five, ten);

        !-/*5;
        5 < 10 > 5;

        if (5 < 10) {
          ignite true;
        } else {
          ignite false;
        }

        10 == 10;
        10 != 9;
        "
    .to_owned();

    let tests = vec![
        TokenType::Forge,
        TokenType::Ident,
        TokenType::Assign,
        TokenType::Int,
        TokenType::Semicolon,
        TokenType::Forge,
        TokenType::Ident,
        TokenType::Assign,
        TokenType::Int,
        TokenType::Semicolon,
        TokenType::Forge,
        TokenType::Ident,
        TokenType::Assign,
        TokenType::Function,
        TokenType::Lparen,
        TokenType::Ident,
        TokenType::Comma,
        TokenType::Ident,
        TokenType::Rparen,
        TokenType::Lbrace,
        TokenType::Ident,
        TokenType::Plus,
        TokenType::Ident,
        TokenType::Semicolon,
        TokenType::Rbrace,
        TokenType::Semicolon,
        TokenType::Forge,
        TokenType::Ident,
        TokenType::Assign,
        TokenType::Ident,
        TokenType::Lparen,
        TokenType::Ident,
        TokenType::Comma,
        TokenType::Ident,
        TokenType::Rparen,
        TokenType::Semicolon,
        TokenType::Bang,
        TokenType::Minus,
        TokenType::Slash,
        TokenType::Asterisk,
        TokenType::Int,
        TokenType::Semicolon,
        TokenType::Int,
        TokenType::Lt,
        TokenType::Int,
        TokenType::Gt,
        TokenType::Int,
        TokenType::Semicolon,
        TokenType::If,
        TokenType::Lparen,
        TokenType::Int,
        TokenType::Lt,
        TokenType::Int,
        TokenType::Rparen,
        TokenType::Lbrace,
        TokenType::Ignite,
        TokenType::True,
        TokenType::Semicolon,
        TokenType::Rbrace,
        TokenType::Else,
        TokenType::Lbrace,
        TokenType::Ignite,
        TokenType::False,
        TokenType::Semicolon,
        TokenType::Rbrace,
        TokenType::Int,
        TokenType::Eq,
        TokenType::Int,
        TokenType::Semicolon,
        TokenType::Int,
        TokenType::NotEq,
        TokenType::Int,
        TokenType::Semicolon,
        TokenType::Eof,
    ];

    let mut l = Lexer::new(input);
    for t in tests {
        let tok = l.next_token();
        assert_eq!(tok.token_type, t);
    }
}

#[test]
fn test_eof_repeats_forever() {
    let mut l = Lexer::new("x".to_owned());
    let first = l.next_token();
    assert_eq!(first.token_type, TokenType::Ident);
    for _ in 0..5 {
        let tok = l.next_token();
        assert_eq!(tok.token_type, TokenType::Eof);
        assert_eq!(tok.literal, "");
    }
}

#[test]
fn test_illegal_character() {
    let mut l = Lexer::new("@".to_owned());
    let tok = l.next_token();
    assert_eq!(tok.token_type, TokenType::Illegal);
    assert_eq!(tok.literal, "@");
    assert_eq!(l.next_token().token_type, TokenType::Eof);
}

#[test]
fn test_two_char_operators_at_end() {
    let mut l = Lexer::new("==!=".to_owned());
    assert_eq!(l.next_token().token_type, TokenType::Eq);
    assert_eq!(l.next_token().token_type, TokenType::NotEq);
    assert_eq!(l.next_token().token_type, TokenType::Eof);
}

#[test]
fn test_whitespace_only_input() {
    let mut l = Lexer::new(" \t\n \n".to_owned());
    assert_eq!(l.next_token().token_type, TokenType::Eof);
}

#[test]
fn test_token_literals() {
    let mut l = Lexer::new("var answer = 42;".to_owned());
    let kinds_and_texts = vec![
        (TokenType::Var, "var"),
        (TokenType::Ident, "answer"),
        (TokenType::Assign, "="),
        (TokenType::Int, "42"),
        (TokenType::Semicolon, ";"),
        (TokenType::Eof, ""),
    ];
    for (kind, text) in kinds_and_texts {
        let tok = l.next_token();
        assert_eq!(tok.token_type, kind);
        assert_eq!(tok.literal, text);
    }
}

#[test]
fn test_lookup_ident_keywords() {
    assert_eq!(TokenType::lookup_ident("def"), TokenType::Function);
    assert_eq!(TokenType::lookup_ident("weave"), TokenType::Function);
    assert_eq!(TokenType::lookup_ident("var"), TokenType::Var);
    assert_eq!(TokenType::lookup_ident("forge"), TokenType::Forge);
    assert_eq!(TokenType::lookup_ident("ret"), TokenType::Ret);
    assert_eq!(TokenType::lookup_ident("ignite"), TokenType::Ignite);
    assert_eq!(TokenType::lookup_ident("true"), TokenType::True);
    assert_eq!(TokenType::lookup_ident("false"), TokenType::False);
    assert_eq!(TokenType::lookup_ident("if"), TokenType::If);
    assert_eq!(TokenType::lookup_ident("else"), TokenType::Else);
    assert_eq!(TokenType::lookup_ident("deferred"), TokenType::Ident);
    assert_eq!(TokenType::lookup_ident("x"), TokenType::Ident);
}
