//! The parser engine: recursive descent for statements and a Pratt
//! (operator-precedence) climbing loop for expressions, accumulating an
//! ordered list of diagnostics instead of aborting. The executable parser
//! is proved to follow a specification-level parser (`sp_program`,
//! `sp_statement`, `sp_expression`, ...) exactly, token by token.

use vstd::prelude::*;
use vstd::string::StringExecFns;

use crate::ast::{
    strs_view, Expression, GExpr, GStmt, Identifier, Infix, Literal, Precedence, Prefix, Program,
    Statement,
};
use crate::lexer::{Lexer, SpecToken};
use crate::num::{all_digits, digits_val};
use crate::token::{kind_name, Token, TokenType};

verus! {

// ---------------------------------------------------------------------------
// Diagnostics: the three fixed templates.
// ---------------------------------------------------------------------------

/// `expected next token to be {expected}, got {actual} instead`
pub open spec fn expect_error_text(expected: TokenType, actual: TokenType) -> Seq<char> {
    "expected next token to be "@ + kind_name(expected) + ", got "@ + kind_name(actual)
        + " instead"@
}

/// `no prefix parse function for {kind} found`
pub open spec fn no_prefix_error_text(kind: TokenType) -> Seq<char> {
    "no prefix parse function for "@ + kind_name(kind) + " found"@
}

/// `could not parse {literal} as integer`
pub open spec fn int_error_text(literal: Seq<char>) -> Seq<char> {
    "could not parse "@ + literal + " as integer"@
}

// ---------------------------------------------------------------------------
// The binding table: token kind -> precedence level.
// ---------------------------------------------------------------------------

/// The precedence bound to a token kind when it appears in infix position.
/// Kinds absent from the table bind at the lowest level.
pub open spec fn spec_token_precedence(k: TokenType) -> int {
    match k {
        TokenType::Eq => 2,
        TokenType::NotEq => 2,
        TokenType::Lt => 3,
        TokenType::Gt => 3,
        TokenType::Plus => 4,
        TokenType::Minus => 4,
        TokenType::Slash => 5,
        TokenType::Asterisk => 5,
        TokenType::Lparen => 7,
        _ => 1,
    }
}

/// Whether a token kind has an infix handler: exactly the kinds the
/// binding table knows.
pub open spec fn has_infix(k: TokenType) -> bool {
    spec_token_precedence(k) > 1
}

/// The infix operator a token kind stands for.
pub open spec fn infix_of_kind(k: TokenType) -> Infix {
    match k {
        TokenType::Plus => Infix::Plus,
        TokenType::Minus => Infix::Minus,
        TokenType::Asterisk => Infix::Multiply,
        TokenType::Slash => Infix::Divide,
        TokenType::Eq => Infix::Equal,
        TokenType::NotEq => Infix::NotEqual,
        TokenType::Lt => Infix::LessThan,
        TokenType::Gt => Infix::GreaterThan,
        _ => Infix::Plus,
    }
}

// ---------------------------------------------------------------------------
// The specification-level parser. It reads a sequence of tokens (as the
// tokenizer's specification produces them) with a current position; `cur`
// is the token under examination and `spk` the one after it.
// ---------------------------------------------------------------------------

/// A well-formed token stream: non-empty, ending in the one `Eof` token.
pub open spec fn wf_toks(t: Seq<SpecToken>) -> bool {
    &&& t.len() >= 1
    &&& t.last().kind == TokenType::Eof
    &&& forall|i: int| 0 <= i < t.len() - 1 ==> (#[trigger] t[i]).kind != TokenType::Eof
}

/// The token at position `p`, or `Eof` beyond the end.
pub open spec fn cur(t: Seq<SpecToken>, p: int) -> SpecToken {
    if 0 <= p < t.len() {
        t[p]
    } else {
        SpecToken { kind: TokenType::Eof, text: ""@ }
    }
}

/// The token one past position `p`.
pub open spec fn spk(t: Seq<SpecToken>, p: int) -> SpecToken {
    cur(t, p + 1)
}

/// One step forward, never past the final token.
pub open spec fn adv(t: Seq<SpecToken>, p: int) -> int {
    if p + 1 < t.len() {
        p + 1
    } else {
        p
    }
}

/// Clamps a sub-parse's resulting position into `[base, t.len())`; the
/// executable parser always stays in that range, so on its states the
/// clamp changes nothing.
pub open spec fn posc(base: int, p: int, len: int) -> int {
    if base <= p && p < len {
        p
    } else {
        base
    }
}

/// The outcome of one specification-level sub-parse: the node (absent
/// after a failure), the new position, and the diagnostics recorded, in
/// order.
pub ghost struct PRes<T> {
    pub out: Option<T>,
    pub pos: int,
    pub errs: Seq<Seq<char>>,
}

/// `expect`: if the lookahead token has the wanted kind, consume it;
/// otherwise record the diagnostic and stay put.
pub open spec fn sp_expect(t: Seq<SpecToken>, p: int, k: TokenType) -> (bool, int, Seq<Seq<char>>) {
    if spk(t, p).kind == k {
        (true, adv(t, p), Seq::empty())
    } else {
        (false, p, seq![expect_error_text(k, spk(t, p).kind)])
    }
}

/// The whole program: statements until `Eof`; a failed statement is
/// dropped and parsing continues past it.
pub open spec fn sp_program_rest(t: Seq<SpecToken>, p: int) -> (Seq<GStmt>, int, Seq<Seq<char>>)
    decreases t.len() - p, 9int,
    when wf_toks(t) && 0 <= p < t.len()
{
    if cur(t, p).kind == TokenType::Eof {
        (Seq::empty(), p, Seq::empty())
    } else {
        proof {
            assert(cur(t, p).kind != t.last().kind);
            assert(p < t.len() - 1);
        }
        let st = sp_statement(t, p);
        let p2 = adv(t, posc(p, st.pos, t.len() as int));
        let rest = sp_program_rest(t, p2);
        let stmts = match st.out {
            Some(s) => seq![s] + rest.0,
            None => rest.0,
        };
        (stmts, rest.1, st.errs + rest.2)
    }
}

/// A block's statements: until a closing brace or `Eof`; as in the
/// program loop, a failed statement is dropped.
pub open spec fn sp_block_rest(t: Seq<SpecToken>, p: int) -> (Seq<GStmt>, int, Seq<Seq<char>>)
    decreases t.len() - p, 9int,
    when wf_toks(t) && 0 <= p < t.len()
{
    if cur(t, p).kind == TokenType::Rbrace || cur(t, p).kind == TokenType::Eof {
        (Seq::empty(), p, Seq::empty())
    } else {
        proof {
            assert(cur(t, p).kind != t.last().kind);
            assert(p < t.len() - 1);
        }
        let st = sp_statement(t, p);
        let p2 = adv(t, posc(p, st.pos, t.len() as int));
        let rest = sp_block_rest(t, p2);
        let stmts = match st.out {
            Some(s) => seq![s] + rest.0,
            None => rest.0,
        };
        (stmts, rest.1, st.errs + rest.2)
    }
}

/// A block: step past the opening brace, then collect statements.
pub open spec fn sp_block(t: Seq<SpecToken>, p: int) -> (GStmt, int, Seq<Seq<char>>)
    decreases t.len() - p, 3int,
    when wf_toks(t) && 0 <= p < t.len()
{
    if p + 1 < t.len() {
        let r = sp_block_rest(t, p + 1);
        (GStmt::Block { statements: r.0 }, r.1, r.2)
    } else {
        (GStmt::Block { statements: Seq::empty() }, p, Seq::empty())
    }
}

/// Statement dispatch on the current token's kind.
pub open spec fn sp_statement(t: Seq<SpecToken>, p: int) -> PRes<GStmt>
    decreases t.len() - p, 8int,
    when wf_toks(t) && 0 <= p < t.len()
{
    match cur(t, p).kind {
        TokenType::Var => sp_var(t, p),
        TokenType::Forge => sp_var(t, p),
        TokenType::Ret => sp_ret(t, p),
        TokenType::Ignite => sp_ret(t, p),
        _ => sp_expr_stmt(t, p),
    }
}

/// `var <ident> = <expression> ;?`
pub open spec fn sp_var(t: Seq<SpecToken>, p: int) -> PRes<GStmt>
    decreases t.len() - p, 7int,
    when wf_toks(t) && 0 <= p < t.len()
{
    let e1 = sp_expect(t, p, TokenType::Ident);
    if !e1.0 {
        PRes { out: None, pos: e1.1, errs: e1.2 }
    } else {
        let name = cur(t, e1.1).text;
        let e2 = sp_expect(t, e1.1, TokenType::Assign);
        if !e2.0 {
            PRes { out: None, pos: e2.1, errs: e2.2 }
        } else {
            let p3 = adv(t, e2.1);
            let v = sp_expression(t, p3, 1);
            let p4 = posc(p3, v.pos, t.len() as int);
            match v.out {
                None => PRes { out: None, pos: p4, errs: v.errs },
                Some(val) => {
                    let p5 = if spk(t, p4).kind == TokenType::Semicolon {
                        adv(t, p4)
                    } else {
                        p4
                    };
                    PRes {
                        out: Some(GStmt::Bind { name, value: val }),
                        pos: p5,
                        errs: v.errs,
                    }
                },
            }
        }
    }
}

/// `ret <expression> ;?`
pub open spec fn sp_ret(t: Seq<SpecToken>, p: int) -> PRes<GStmt>
    decreases t.len() - p, 7int,
    when wf_toks(t) && 0 <= p < t.len()
{
    let p1 = adv(t, p);
    let v = sp_expression(t, p1, 1);
    let p2 = posc(p1, v.pos, t.len() as int);
    match v.out {
        None => PRes { out: None, pos: p2, errs: v.errs },
        Some(val) => {
            let p3 = if spk(t, p2).kind == TokenType::Semicolon {
                adv(t, p2)
            } else {
                p2
            };
            PRes { out: Some(GStmt::Ret { value: val }), pos: p3, errs: v.errs }
        },
    }
}

/// An expression in statement position, with an optional terminator.
pub open spec fn sp_expr_stmt(t: Seq<SpecToken>, p: int) -> PRes<GStmt>
    decreases t.len() - p, 7int,
    when wf_toks(t) && 0 <= p < t.len()
{
    let v = sp_expression(t, p, 1);
    let p2 = posc(p, v.pos, t.len() as int);
    match v.out {
        None => PRes { out: None, pos: p2, errs: v.errs },
        Some(val) => {
            let p3 = if spk(t, p2).kind == TokenType::Semicolon {
                adv(t, p2)
            } else {
                p2
            };
            PRes { out: Some(GStmt::Expr { value: val }), pos: p3, errs: v.errs }
        },
    }
}

/// The Pratt climbing loop: a prefix-parsed left expression, extended by
/// infix handlers while the lookahead token binds more strongly than
/// `minlvl` and is no statement terminator.
pub open spec fn sp_expression(t: Seq<SpecToken>, p: int, minlvl: int) -> PRes<GExpr>
    decreases t.len() - p, 6int,
    when wf_toks(t) && 0 <= p < t.len()
{
    let pr = sp_prefix_dispatch(t, p);
    match pr.out {
        None => PRes { out: None, pos: pr.pos, errs: pr.errs },
        Some(left) => {
            let p1 = posc(p, pr.pos, t.len() as int);
            let rest = sp_infix_loop(t, p1, left, minlvl);
            PRes { out: rest.out, pos: rest.pos, errs: pr.errs + rest.errs }
        },
    }
}

/// One turn of the climbing loop.
pub open spec fn sp_infix_loop(t: Seq<SpecToken>, p: int, left: GExpr, minlvl: int) -> PRes<GExpr>
    decreases t.len() - p, 3int,
    when wf_toks(t) && 0 <= p < t.len()
{
    let k = spk(t, p).kind;
    if k != TokenType::Semicolon && minlvl < spec_token_precedence(k) && has_infix(k) {
        proof {
            assert(spk(t, p).kind != TokenType::Eof);
            assert(p + 1 < t.len());
        }
        let p1 = adv(t, p);
        let r = if k == TokenType::Lparen {
            sp_call(t, p1, left)
        } else {
            sp_infix_op(t, p1, left)
        };
        match r.out {
            None => PRes { out: None, pos: posc(p1, r.pos, t.len() as int), errs: r.errs },
            Some(left2) => {
                let p2 = posc(p1, r.pos, t.len() as int);
                let rest = sp_infix_loop(t, p2, left2, minlvl);
                PRes { out: rest.out, pos: rest.pos, errs: r.errs + rest.errs }
            },
        }
    } else {
        PRes { out: Some(left), pos: p, errs: Seq::empty() }
    }
}

/// A binary operator in infix position: the right operand is parsed at the
/// operator's own precedence, which makes same-level chains associate to
/// the left.
pub open spec fn sp_infix_op(t: Seq<SpecToken>, p: int, left: GExpr) -> PRes<GExpr>
    decreases t.len() - p, 2int,
    when wf_toks(t) && 0 <= p < t.len()
{
    let k = cur(t, p).kind;
    if p + 1 < t.len() {
        let r = sp_expression(t, p + 1, spec_token_precedence(k));
        match r.out {
            None => PRes { out: None, pos: posc(p + 1, r.pos, t.len() as int), errs: r.errs },
            Some(right) => PRes {
                out: Some(
                    GExpr::Infix {
                        op: infix_of_kind(k),
                        left: Box::new(left),
                        right: Box::new(right),
                    },
                ),
                pos: posc(p + 1, r.pos, t.len() as int),
                errs: r.errs,
            },
        }
    } else {
        PRes { out: None, pos: p, errs: Seq::empty() }
    }
}

/// A call: `(` in infix position gathers the comma-separated arguments up
/// to the closing parenthesis.
pub open spec fn sp_call(t: Seq<SpecToken>, p: int, callee: GExpr) -> PRes<GExpr>
    decreases t.len() - p, 2int,
    when wf_toks(t) && 0 <= p < t.len()
{
    let a = sp_args(t, p);
    match a.out {
        None => PRes { out: None, pos: a.pos, errs: a.errs },
        Some(args) => PRes {
            out: Some(GExpr::Call { callee: Box::new(callee), args }),
            pos: a.pos,
            errs: a.errs,
        },
    }
}

/// The argument list of a call; the current token is the opening
/// parenthesis.
pub open spec fn sp_args(t: Seq<SpecToken>, p: int) -> PRes<Seq<GExpr>>
    decreases t.len() - p, 1int,
    when wf_toks(t) && 0 <= p < t.len()
{
    if spk(t, p).kind == TokenType::Rparen {
        PRes { out: Some(Seq::empty()), pos: adv(t, p), errs: Seq::empty() }
    } else if p + 1 < t.len() {
        let f = sp_expression(t, p + 1, 1);
        match f.out {
            None => PRes { out: None, pos: posc(p + 1, f.pos, t.len() as int), errs: f.errs },
            Some(first) => {
                let p2 = posc(p + 1, f.pos, t.len() as int);
                let rest = sp_args_rest(t, p2, seq![first]);
                PRes { out: rest.out, pos: rest.pos, errs: f.errs + rest.errs }
            },
        }
    } else {
        PRes { out: None, pos: p, errs: Seq::empty() }
    }
}

/// Further `, <expression>` pairs, then the required closing parenthesis.
pub open spec fn sp_args_rest(t: Seq<SpecToken>, p: int, acc: Seq<GExpr>) -> PRes<Seq<GExpr>>
    decreases t.len() - p, 1int,
    when wf_toks(t) && 0 <= p < t.len()
{
    if spk(t, p).kind == TokenType::Comma {
        proof {
            assert(spk(t, p).kind != TokenType::Eof);
            assert(p + 1 < t.len());
        }
        let p1 = adv(t, p);
        if p1 + 1 < t.len() {
            let f = sp_expression(t, p1 + 1, 1);
            match f.out {
                None => PRes {
                    out: None,
                    pos: posc(p1 + 1, f.pos, t.len() as int),
                    errs: f.errs,
                },
                Some(e) => {
                    let p2 = posc(p1 + 1, f.pos, t.len() as int);
                    let rest = sp_args_rest(t, p2, acc.push(e));
                    PRes { out: rest.out, pos: rest.pos, errs: f.errs + rest.errs }
                },
            }
        } else {
            PRes { out: None, pos: p1, errs: Seq::empty() }
        }
    } else {
        let e = sp_expect(t, p, TokenType::Rparen);
        if e.0 {
            PRes { out: Some(acc), pos: e.1, errs: e.2 }
        } else {
            PRes { out: None, pos: e.1, errs: e.2 }
        }
    }
}

/// Prefix dispatch on the current token's kind: the nullary expression
/// builders, unary operators, grouping, conditionals and function
/// literals. A kind with no prefix handler records the fixed diagnostic
/// and produces no expression; so does an integer literal whose text does
/// not fit a 64-bit signed value.
pub open spec fn sp_prefix_dispatch(t: Seq<SpecToken>, p: int) -> PRes<GExpr>
    decreases t.len() - p, 5int,
    when wf_toks(t) && 0 <= p < t.len()
{
    let c = cur(t, p);
    match c.kind {
        TokenType::Ident => PRes {
            out: Some(GExpr::Ident { name: c.text }),
            pos: p,
            errs: Seq::empty(),
        },
        TokenType::Int => {
            if c.text.len() > 0 && all_digits(c.text) && digits_val(c.text) <= i64::MAX {
                PRes {
                    out: Some(GExpr::Int { value: digits_val(c.text) as i64 }),
                    pos: p,
                    errs: Seq::empty(),
                }
            } else {
                PRes { out: None, pos: p, errs: seq![int_error_text(c.text)] }
            }
        },
        TokenType::True => PRes {
            out: Some(GExpr::Bool { value: true }),
            pos: p,
            errs: Seq::empty(),
        },
        TokenType::False => PRes {
            out: Some(GExpr::Bool { value: false }),
            pos: p,
            errs: Seq::empty(),
        },
        TokenType::Bang => sp_prefix_op(t, p, Prefix::Not),
        TokenType::Minus => sp_prefix_op(t, p, Prefix::Minus),
        TokenType::Lparen => sp_grouped(t, p),
        TokenType::If => sp_if(t, p),
        TokenType::Function => sp_function(t, p),
        _ => PRes { out: None, pos: p, errs: seq![no_prefix_error_text(c.kind)] },
    }
}

/// A unary operator: its operand binds at the `Prefix` level.
pub open spec fn sp_prefix_op(t: Seq<SpecToken>, p: int, op: Prefix) -> PRes<GExpr>
    decreases t.len() - p, 4int,
    when wf_toks(t) && 0 <= p < t.len()
{
    if p + 1 < t.len() {
        let r = sp_expression(t, p + 1, 6);
        match r.out {
            None => PRes { out: None, pos: posc(p + 1, r.pos, t.len() as int), errs: r.errs },
            Some(operand) => PRes {
                out: Some(GExpr::Prefix { op, operand: Box::new(operand) }),
                pos: posc(p + 1, r.pos, t.len() as int),
                errs: r.errs,
            },
        }
    } else {
        PRes { out: None, pos: p, errs: Seq::empty() }
    }
}

/// A parenthesized expression: the inner expression restarts at the
/// lowest level and the closing parenthesis is required.
pub open spec fn sp_grouped(t: Seq<SpecToken>, p: int) -> PRes<GExpr>
    decreases t.len() - p, 4int,
    when wf_toks(t) && 0 <= p < t.len()
{
    if p + 1 < t.len() {
        let r = sp_expression(t, p + 1, 1);
        let p2 = posc(p + 1, r.pos, t.len() as int);
        let e = sp_expect(t, p2, TokenType::Rparen);
        if !e.0 {
            PRes { out: None, pos: e.1, errs: r.errs + e.2 }
        } else {
            PRes { out: r.out, pos: e.1, errs: r.errs + e.2 }
        }
    } else {
        PRes { out: None, pos: p, errs: Seq::empty() }
    }
}

/// `if ( <condition> ) { <consequence> }`, optionally followed by
/// `else { <alternative> }`.
pub open spec fn sp_if(t: Seq<SpecToken>, p: int) -> PRes<GExpr>
    decreases t.len() - p, 4int,
    when wf_toks(t) && 0 <= p < t.len()
{
    let e1 = sp_expect(t, p, TokenType::Lparen);
    if !e1.0 {
        PRes { out: None, pos: e1.1, errs: e1.2 }
    } else if e1.1 + 1 < t.len() && e1.1 > p {
        let pc = e1.1 + 1;
        let c = sp_expression(t, pc, 1);
        let p2 = posc(pc, c.pos, t.len() as int);
        match c.out {
            None => PRes { out: None, pos: p2, errs: c.errs },
            Some(cond) => {
                let e2 = sp_expect(t, p2, TokenType::Rparen);
                if !e2.0 {
                    PRes { out: None, pos: e2.1, errs: c.errs + e2.2 }
                } else {
                    let e3 = sp_expect(t, e2.1, TokenType::Lbrace);
                    if !e3.0 {
                        PRes { out: None, pos: e3.1, errs: c.errs + e3.2 }
                    } else {
                        let b = sp_block(t, posc(p, e3.1, t.len() as int));
                        let p4 = posc(p, b.1, t.len() as int);
                        if spk(t, p4).kind == TokenType::Else {
                            let p5 = adv(t, p4);
                            let e4 = sp_expect(t, p5, TokenType::Lbrace);
                            if !e4.0 {
                                PRes { out: None, pos: e4.1, errs: c.errs + b.2 + e4.2 }
                            } else {
                                let b2 = sp_block(t, posc(p, e4.1, t.len() as int));
                                PRes {
                                    out: Some(
                                        GExpr::If {
                                            cond: Box::new(cond),
                                            conseq: Box::new(b.0),
                                            alt: Some(Box::new(b2.0)),
                                        },
                                    ),
                                    pos: posc(p, b2.1, t.len() as int),
                                    errs: c.errs + b.2 + b2.2,
                                }
                            }
                        } else {
                            PRes {
                                out: Some(
                                    GExpr::If {
                                        cond: Box::new(cond),
                                        conseq: Box::new(b.0),
                                        alt: None,
                                    },
                                ),
                                pos: p4,
                                errs: c.errs + b.2,
                            }
                        }
                    }
                }
            },
        }
    } else {
        PRes { out: None, pos: p, errs: Seq::empty() }
    }
}

/// `def ( <parameters> ) { <body> }`
pub open spec fn sp_function(t: Seq<SpecToken>, p: int) -> PRes<GExpr>
    decreases t.len() - p, 4int,
    when wf_toks(t) && 0 <= p < t.len()
{
    let e1 = sp_expect(t, p, TokenType::Lparen);
    if !e1.0 {
        PRes { out: None, pos: e1.1, errs: e1.2 }
    } else if e1.1 > p {
        let ps = sp_params(t, e1.1);
        match ps.out {
            None => PRes { out: None, pos: posc(p, ps.pos, t.len() as int), errs: ps.errs },
            Some(params) => {
                let p2 = posc(p, ps.pos, t.len() as int);
                let e2 = sp_expect(t, p2, TokenType::Lbrace);
                if !e2.0 {
                    PRes { out: None, pos: e2.1, errs: ps.errs + e2.2 }
                } else {
                    let b = sp_block(t, posc(p, e2.1, t.len() as int));
                    PRes {
                        out: Some(GExpr::Func { params, body: Box::new(b.0) }),
                        pos: posc(p, b.1, t.len() as int),
                        errs: ps.errs + b.2,
                    }
                }
            },
        }
    } else {
        PRes { out: None, pos: p, errs: Seq::empty() }
    }
}

/// The parameter list: empty, or identifiers separated by commas, with a
/// required closing parenthesis. The current token is the opening
/// parenthesis.
pub open spec fn sp_params(t: Seq<SpecToken>, p: int) -> PRes<Seq<Seq<char>>>
    decreases t.len() - p, 2int,
    when wf_toks(t) && 0 <= p < t.len()
{
    if spk(t, p).kind == TokenType::Rparen {
        PRes { out: Some(Seq::empty()), pos: adv(t, p), errs: Seq::empty() }
    } else {
        let e = sp_expect(t, p, TokenType::Ident);
        if !e.0 {
            PRes { out: None, pos: e.1, errs: e.2 }
        } else {
            sp_params_rest(t, e.1, seq![cur(t, e.1).text])
        }
    }
}

/// Further `, <identifier>` pairs, then the required closing parenthesis.
pub open spec fn sp_params_rest(t: Seq<SpecToken>, p: int, acc: Seq<Seq<char>>) -> PRes<
    Seq<Seq<char>>,
>
    decreases t.len() - p, 1int,
    when wf_toks(t) && 0 <= p < t.len()
{
    if spk(t, p).kind == TokenType::Comma {
        proof {
            assert(spk(t, p).kind != TokenType::Eof);
            assert(p + 1 < t.len());
        }
        let p1 = adv(t, p);
        let e = sp_expect(t, p1, TokenType::Ident);
        if !e.0 {
            PRes { out: None, pos: e.1, errs: e.2 }
        } else {
            sp_params_rest(t, e.1, acc.push(cur(t, e.1).text))
        }
    } else {
        let e = sp_expect(t, p, TokenType::Rparen);
        if e.0 {
            PRes { out: Some(acc), pos: e.1, errs: e.2 }
        } else {
            PRes { out: None, pos: e.1, errs: e.2 }
        }
    }
}

/// The whole parse: every statement down to `Eof`, the final position,
/// and every diagnostic in the order recorded.
pub open spec fn sp_program(t: Seq<SpecToken>, p: int) -> (Seq<GStmt>, int, Seq<Seq<char>>) {
    sp_program_rest(t, p)
}

// ---------------------------------------------------------------------------
// The executable parser.
// ---------------------------------------------------------------------------

/// The tokens of a token vector, as the specification sees them.
pub open spec fn toks_view(ts: Seq<Token>) -> Seq<SpecToken> {
    ts.map_values(|tk: Token| SpecToken { kind: tk.token_type, text: tk.literal@ })
}

/// The parser: the token stream (drawn from the tokenizer up front), the
/// position of the current token, and the diagnostics recorded so far.
pub struct Parser {
    tokens: Vec<Token>,
    pos: usize,
    errors: Vec<String>,
}

fn expect_error_string(expected: TokenType, actual: TokenType) -> (r: String)
    ensures
        r@ == expect_error_text(expected, actual),
{
    let en = expected.name();
    let an = actual.name();
    let mut s = String::new();
    s.append("expected next token to be ");
    s.append(en.as_str());
    s.append(", got ");
    s.append(an.as_str());
    s.append(" instead");
    proof {
        assert(s@ =~= expect_error_text(expected, actual));
    }
    s
}

fn no_prefix_error_string(kind: TokenType) -> (r: String)
    ensures
        r@ == no_prefix_error_text(kind),
{
    let kn = kind.name();
    let mut s = String::new();
    s.append("no prefix parse function for ");
    s.append(kn.as_str());
    s.append(" found");
    proof {
        assert(s@ =~= no_prefix_error_text(kind));
    }
    s
}

fn int_error_string(literal: &String) -> (r: String)
    ensures
        r@ == int_error_text(literal@),
{
    let mut s = String::new();
    s.append("could not parse ");
    s.append(literal.as_str());
    s.append(" as integer");
    proof {
        assert(s@ =~= int_error_text(literal@));
    }
    s
}

/// The precedence bound to a token kind, as a `Precedence` value.
fn token_precedence(k: TokenType) -> (p: Precedence)
    ensures
        p.spec_level() == spec_token_precedence(k),
{
    match k {
        TokenType::Eq => Precedence::Equals,
        TokenType::NotEq => Precedence::Equals,
        TokenType::Lt => Precedence::LessGreater,
        TokenType::Gt => Precedence::LessGreater,
        TokenType::Plus => Precedence::Sum,
        TokenType::Minus => Precedence::Sum,
        TokenType::Slash => Precedence::Product,
        TokenType::Asterisk => Precedence::Product,
        TokenType::Lparen => Precedence::Call,
        _ => Precedence::Lowest,
    }
}

impl Parser {
    /// The token stream being parsed.
    pub closed spec fn toks(&self) -> Seq<SpecToken> {
        toks_view(self.tokens@)
    }

    /// The position of the current token.
    pub closed spec fn at(&self) -> int {
        self.pos as int
    }

    /// The diagnostics recorded so far, in order.
    pub closed spec fn errs(&self) -> Seq<Seq<char>> {
        strs_view(self.errors@)
    }

    pub open spec fn wf(&self) -> bool {
        &&& wf_toks(self.toks())
        &&& 0 <= self.at() < self.toks().len()
    }

    /// Draws every token of the given tokenizer, through its final `Eof`,
    /// and stands ready at the first one with no diagnostics recorded.
    pub fn new(l: Lexer) -> (p: Parser)
        requires
            l.wf(),
        ensures
            p.wf(),
            p.toks() == crate::lexer::spec_tokenize(l.src(), l.at()),
            p.at() == 0,
            p.errs() == Seq::<Seq<char>>::empty(),
    {
        let ghost src = l.src();
        let ghost i0 = l.at();
        let mut lx = l;
        let mut tokens: Vec<Token> = Vec::new();
        let mut done = false;
        proof {
            assert(toks_view(tokens@) =~= Seq::<SpecToken>::empty());
            assert(crate::lexer::spec_tokenize(src, i0) == toks_view(tokens@)
                + crate::lexer::spec_tokenize(src, lx.at()));
        }
        while !done
            invariant
                lx.wf(),
                lx.src() == src,
                0 <= i0 <= src.len(),
                i0 <= lx.at(),
                !done ==> crate::lexer::spec_tokenize(src, i0) == toks_view(tokens@)
                    + crate::lexer::spec_tokenize(src, lx.at()),
                done ==> toks_view(tokens@) == crate::lexer::spec_tokenize(src, i0),
            decreases (if done { 0int } else { src.len() - lx.at() + 1 }),
        {
            let ghost before = lx.at();
            let t = lx.next_token();
            proof {
                crate::lexer::lemma_next_token_progress(src, before);
            }
            let is_eof = t.token_type == TokenType::Eof;
            let ghost prev_view = toks_view(tokens@);
            tokens.push(t);
            proof {
                let st = crate::lexer::spec_next_token(src, before).0;
                assert(toks_view(tokens@) =~= prev_view.push(st));
                if is_eof {
                    assert(crate::lexer::spec_tokenize(src, before) == seq![st]);
                    assert(toks_view(tokens@) =~= crate::lexer::spec_tokenize(src, i0));
                } else {
                    assert(crate::lexer::spec_tokenize(src, before) == seq![st]
                        + crate::lexer::spec_tokenize(src, lx.at()));
                    assert(toks_view(tokens@) + crate::lexer::spec_tokenize(src, lx.at()) =~= (
                    prev_view + seq![st]) + crate::lexer::spec_tokenize(src, lx.at()));
                    assert(prev_view + seq![st] =~= prev_view.push(st));
                    assert(crate::lexer::spec_tokenize(src, i0) == toks_view(tokens@)
                        + crate::lexer::spec_tokenize(src, lx.at()));
                }
            }
            if is_eof {
                done = true;
            }
        }
        let p = Parser { tokens, pos: 0, errors: Vec::new() };
        proof {
            crate::lexer::lemma_tokenize_final_eof(src, i0);
            assert(p.errs() =~= Seq::<Seq<char>>::empty());
            assert(p.toks() == crate::lexer::spec_tokenize(src, i0));
        }
        p
    }

    /// The kind of the current token.
    fn cur_kind(&self) -> (k: TokenType)
        requires
            self.wf(),
        ensures
            k == cur(self.toks(), self.at()).kind,
    {
        self.tokens[self.pos].token_type
    }

    /// The literal text of the current token.
    fn cur_literal(&self) -> (r: String)
        requires
            self.wf(),
        ensures
            r@ == cur(self.toks(), self.at()).text,
    {
        self.tokens[self.pos].literal.clone()
    }

    /// The kind of the lookahead token.
    fn peek_kind(&self) -> (k: TokenType)
        requires
            self.wf(),
        ensures
            k == spk(self.toks(), self.at()).kind,
    {
        if self.pos < self.tokens.len() - 1 {
            self.tokens[self.pos + 1].token_type
        } else {
            proof {
                assert(cur(self.toks(), self.at() + 1).kind == TokenType::Eof);
            }
            TokenType::Eof
        }
    }

    /// Steps to the next token; at the final token it stays put, so the
    /// stream ends in `Eof` forever.
    pub fn next_token(&mut self)
        requires
            old(self).wf(),
        ensures
            final(self).wf(),
            final(self).toks() == old(self).toks(),
            final(self).errs() == old(self).errs(),
            final(self).at() == adv(old(self).toks(), old(self).at()),
    {
        if self.pos < self.tokens.len() - 1 {
            self.pos = self.pos + 1;
        }
    }

    /// Whether the current token has the given kind.
    pub fn current_token_is(&self, token_type: TokenType) -> (r: bool)
        requires
            self.wf(),
        ensures
            r == (cur(self.toks(), self.at()).kind == token_type),
    {
        self.cur_kind() == token_type
    }

    /// Whether the lookahead token has the given kind.
    pub fn peek_token_is(&self, token_type: TokenType) -> (r: bool)
        requires
            self.wf(),
        ensures
            r == (spk(self.toks(), self.at()).kind == token_type),
    {
        self.peek_kind() == token_type
    }

    /// The precedence bound to the lookahead token.
    pub fn peek_precedence(&self) -> (p: Precedence)
        requires
            self.wf(),
        ensures
            p.spec_level() == spec_token_precedence(spk(self.toks(), self.at()).kind),
    {
        token_precedence(self.peek_kind())
    }

    /// The precedence bound to the current token.
    pub fn current_precedence(&self) -> (p: Precedence)
        requires
            self.wf(),
        ensures
            p.spec_level() == spec_token_precedence(cur(self.toks(), self.at()).kind),
    {
        token_precedence(self.cur_kind())
    }

    /// Records the diagnostic for a lookahead token of the wrong kind.
    pub fn peek_error(&mut self, token_type: TokenType)
        requires
            old(self).wf(),
        ensures
            final(self).wf(),
            final(self).toks() == old(self).toks(),
            final(self).at() == old(self).at(),
            final(self).errs() == old(self).errs().push(
                expect_error_text(token_type, spk(old(self).toks(), old(self).at()).kind),
            ),
    {
        let actual = self.peek_kind();
        let msg = expect_error_string(token_type, actual);
        let ghost prev = self.errors@;
        self.errors.push(msg);
        proof {
            crate::ast::lemma_strs_view_push(prev, final(self).errors@.last());
            assert(final(self).errors@ =~= prev.push(final(self).errors@.last()));
        }
    }

    /// Records the diagnostic for an expression-position token with no
    /// prefix handler.
    fn no_prefix_parse_fn_error(&mut self, token_type: TokenType)
        requires
            old(self).wf(),
        ensures
            final(self).wf(),
            final(self).toks() == old(self).toks(),
            final(self).at() == old(self).at(),
            final(self).errs() == old(self).errs().push(no_prefix_error_text(token_type)),
    {
        let msg = no_prefix_error_string(token_type);
        let ghost prev = self.errors@;
        self.errors.push(msg);
        proof {
            crate::ast::lemma_strs_view_push(prev, final(self).errors@.last());
            assert(final(self).errors@ =~= prev.push(final(self).errors@.last()));
        }
    }

    /// If the lookahead token has the wanted kind, consumes it and
    /// succeeds; otherwise records the diagnostic and does not consume.
    pub fn expect_peek(&mut self, token_type: TokenType) -> (r: bool)
        requires
            old(self).wf(),
        ensures
            final(self).wf(),
            final(self).toks() == old(self).toks(),
            ({
                let (ok, np, es) = sp_expect(old(self).toks(), old(self).at(), token_type);
                &&& r == ok
                &&& final(self).at() == np
                &&& final(self).errs() == old(self).errs() + es
            }),
            old(self).at() <= final(self).at(),
    {
        if self.peek_token_is(token_type) {
            self.next_token();
            proof {
                assert(final(self).errs() =~= old(self).errs() + Seq::<Seq<char>>::empty());
            }
            true
        } else {
            self.peek_error(token_type);
            proof {
                let es = sp_expect(old(self).toks(), old(self).at(), token_type).2;
                assert(final(self).errs() =~= old(self).errs() + es);
            }
            false
        }
    }

    /// The diagnostics recorded so far, in order.
    pub fn errors(&self) -> (r: &Vec<String>)
        ensures
            strs_view(r@) == self.errs(),
    {
        &self.errors
    }
}


/// How a sub-parse moves the parser: same tokens, the specified new
/// position (never backwards), and exactly the specified diagnostics
/// appended.
pub open spec fn steps(o: Parser, n: Parser, sp_pos: int, sp_errs: Seq<Seq<char>>) -> bool {
    &&& n.wf()
    &&& n.toks() == o.toks()
    &&& n.at() == sp_pos
    &&& o.at() <= n.at()
    &&& n.errs() == o.errs() + sp_errs
}

proof fn seq_assoc<A>(a: Seq<A>, b: Seq<A>, c: Seq<A>)
    ensures
        (a + b) + c == a + (b + c),
{
    assert((a + b) + c =~= a + (b + c));
}

proof fn seq_snoc_assoc<A>(a: Seq<A>, x: A, r: Seq<A>)
    ensures
        a.push(x) + r == a + (seq![x] + r),
{
    assert(a.push(x) + r =~= a + (seq![x] + r));
}

proof fn seq_empty_right<A>(a: Seq<A>)
    ensures
        a + Seq::<A>::empty() == a,
{
    assert(a + Seq::<A>::empty() =~= a);
}

/// The infix operator of a token kind.
fn infix_token(k: TokenType) -> (op: Infix)
    ensures
        op == infix_of_kind(k),
{
    match k {
        TokenType::Plus => Infix::Plus,
        TokenType::Minus => Infix::Minus,
        TokenType::Asterisk => Infix::Multiply,
        TokenType::Slash => Infix::Divide,
        TokenType::Eq => Infix::Equal,
        TokenType::NotEq => Infix::NotEqual,
        TokenType::Lt => Infix::LessThan,
        TokenType::Gt => Infix::GreaterThan,
        _ => Infix::Plus,
    }
}

impl Parser {
    /// Appends one diagnostic.
    fn push_error(&mut self, msg: String)
        requires
            old(self).wf(),
        ensures
            final(self).wf(),
            final(self).toks() == old(self).toks(),
            final(self).at() == old(self).at(),
            final(self).errs() == old(self).errs().push(msg@),
    {
        let ghost prev = self.errors@;
        self.errors.push(msg);
        proof {
            crate::ast::lemma_strs_view_push(prev, final(self).errors@.last());
            assert(final(self).errors@ =~= prev.push(final(self).errors@.last()));
        }
    }

    /// An identifier in expression position: always succeeds, consuming
    /// nothing beyond the current token.
    pub fn parse_identifier(&mut self) -> (r: Option<Expression>)
        requires
            old(self).wf(),
        ensures
            final(self).wf(),
            final(self).toks() == old(self).toks(),
            final(self).at() == old(self).at(),
            final(self).errs() == old(self).errs(),
            r is Some,
            (r->0)@ == (GExpr::Ident { name: cur(old(self).toks(), old(self).at()).text }),
    {
        let lit = self.cur_literal();
        Some(Expression::Identifier { name: Identifier(lit) })
    }

    /// The current token's text as a boolean literal: the value is whether
    /// the token is the `true` keyword.
    pub fn parse_boolean(&mut self) -> (r: Option<Expression>)
        requires
            old(self).wf(),
        ensures
            final(self).wf(),
            final(self).toks() == old(self).toks(),
            final(self).at() == old(self).at(),
            final(self).errs() == old(self).errs(),
            r is Some,
            (r->0)@ == (GExpr::Bool {
                value: cur(old(self).toks(), old(self).at()).kind == TokenType::True,
            }),
    {
        let b = self.current_token_is(TokenType::True);
        Some(Expression::Literal { value: Literal::Boolean(b) })
    }

    /// The current token's text as a 64-bit signed integer literal.
    /// Succeeds exactly on a non-empty run of digits whose value fits;
    /// otherwise the conversion-failure diagnostic is recorded and no
    /// expression is produced.
    pub fn parse_integer_literal(&mut self) -> (r: Option<Expression>)
        requires
            old(self).wf(),
        ensures
            final(self).wf(),
            final(self).toks() == old(self).toks(),
            final(self).at() == old(self).at(),
            ({
                let text = cur(old(self).toks(), old(self).at()).text;
                let ok = text.len() > 0 && all_digits(text) && digits_val(text) <= i64::MAX;
                &&& (r is Some <==> ok)
                &&& (ok ==> (r->0)@ == (GExpr::Int { value: digits_val(text) as i64 })
                    && final(self).errs() == old(self).errs())
                &&& (!ok ==> final(self).errs() == old(self).errs().push(int_error_text(text)))
            }),
    {
        let lit = self.cur_literal();
        let cs = crate::text::chars_of(lit.as_str());
        match crate::num::digits_to_i64(&cs) {
            Some(v) => Some(Expression::Literal { value: Literal::Integer(v) }),
            None => {
                let msg = int_error_string(&lit);
                self.push_error(msg);
                None
            },
        }
    }

    /// A unary operator: parses its operand at the `Prefix` level and
    /// wraps it; this binding level, not special-casing, is what makes
    /// unary operators bind tighter than any binary operator.
    pub fn parse_prefix_expression(&mut self) -> (r: Option<Expression>)
        requires
            old(self).wf(),
            cur(old(self).toks(), old(self).at()).kind == TokenType::Bang || cur(
                old(self).toks(),
                old(self).at(),
            ).kind == TokenType::Minus,
        ensures
            ({
                let op = if cur(old(self).toks(), old(self).at()).kind == TokenType::Bang {
                    Prefix::Not
                } else {
                    Prefix::Minus
                };
                let sp = sp_prefix_op(old(self).toks(), old(self).at(), op);
                &&& steps(*old(self), *final(self), sp.pos, sp.errs)
                &&& (r is Some <==> sp.out is Some)
                &&& (r is Some ==> (r->0)@ == sp.out->0)
            }),
        decreases old(self).toks().len() - old(self).at(), 4int,
    {
        let k = self.cur_kind();
        let op = if k == TokenType::Bang {
            Prefix::Not
        } else {
            Prefix::Minus
        };
        proof {
            assert(old(self).at() < old(self).toks().len() - 1);
        }
        self.next_token();
        let r = self.parse_expression(Precedence::Prefix);
        match r {
            Some(operand) => Some(
                Expression::Prefix { operator: op, operand: Box::new(operand) },
            ),
            None => None,
        }
    }

    /// A parenthesized expression: the inner expression restarts at the
    /// lowest level, and the closing parenthesis is required.
    fn parse_grouped_expression(&mut self) -> (r: Option<Expression>)
        requires
            old(self).wf(),
            cur(old(self).toks(), old(self).at()).kind == TokenType::Lparen,
        ensures
            ({
                let sp = sp_grouped(old(self).toks(), old(self).at());
                &&& steps(*old(self), *final(self), sp.pos, sp.errs)
                &&& (r is Some <==> sp.out is Some)
                &&& (r is Some ==> (r->0)@ == sp.out->0)
            }),
        decreases old(self).toks().len() - old(self).at(), 4int,
    {
        proof {
            assert(old(self).at() < old(self).toks().len() - 1);
        }
        self.next_token();
        let exp = self.parse_expression(Precedence::Lowest);
        let ok = self.expect_peek(TokenType::Rparen);
        proof {
            let o = *old(self);
            let rr = sp_expression(o.toks(), o.at() + 1, 1);
            seq_assoc(o.errs(), rr.errs, sp_expect(
                o.toks(),
                posc(o.at() + 1, rr.pos, o.toks().len() as int),
                TokenType::Rparen,
            ).2);
        }
        if !ok {
            return None;
        }
        exp
    }

    /// An `if` expression: `if ( <condition> ) { <consequence> }`,
    /// optionally followed by `else { <alternative> }`.
    #[verifier::rlimit(100)]
    #[verifier::spinoff_prover]
    fn parse_if_expression(&mut self) -> (r: Option<Expression>)
        requires
            old(self).wf(),
            cur(old(self).toks(), old(self).at()).kind == TokenType::If,
        ensures
            ({
                let sp = sp_if(old(self).toks(), old(self).at());
                &&& steps(*old(self), *final(self), sp.pos, sp.errs)
                &&& (r is Some <==> sp.out is Some)
                &&& (r is Some ==> (r->0)@ == sp.out->0)
            }),
        decreases old(self).toks().len() - old(self).at(), 4int,
    {
        let ghost o = *old(self);
        if !self.expect_peek(TokenType::Lparen) {
            return None;
        }
        proof {
            assert(o.at() + 1 < o.toks().len() - 1);
        }
        self.next_token();
        let cond = self.parse_expression(Precedence::Lowest);
        let cond = match cond {
            None => {
                return None;
            },
            Some(c) => c,
        };
        let ghost c = sp_expression(o.toks(), o.at() + 2, 1);
        if !self.expect_peek(TokenType::Rparen) {
            proof {
                seq_assoc(o.errs(), c.errs, sp_expect(
                    o.toks(),
                    posc(o.at() + 2, c.pos, o.toks().len() as int),
                    TokenType::Rparen,
                ).2);
            }
            return None;
        }
        if !self.expect_peek(TokenType::Lbrace) {
            proof {
                seq_assoc(o.errs(), c.errs, sp_expect(
                    o.toks(),
                    posc(o.at() + 2, c.pos, o.toks().len() as int) + 1,
                    TokenType::Lbrace,
                ).2);
            }
            return None;
        }
        let ghost bb = self.at();
        let consequence = self.parse_block_statement();
        let ghost b = sp_block(o.toks(), bb);
        proof {
            assert(posc(o.at(), bb, o.toks().len() as int) == bb);
        }
        if self.peek_token_is(TokenType::Else) {
            self.next_token();
            if !self.expect_peek(TokenType::Lbrace) {
                proof {
                    seq_assoc(o.errs(), c.errs, b.2);
                    seq_assoc(o.errs(), c.errs + b.2, sp_expect(
                        o.toks(),
                        adv(o.toks(), posc(o.at(), b.1, o.toks().len() as int)),
                        TokenType::Lbrace,
                    ).2);
                }
                return None;
            }
            let ghost bb2 = self.at();
            let alt = self.parse_block_statement();
            proof {
                let b2 = sp_block(o.toks(), bb2);
                assert(posc(o.at(), bb2, o.toks().len() as int) == bb2);
                seq_assoc(o.errs(), c.errs, b.2);
                seq_assoc(o.errs(), c.errs + b.2, b2.2);
            }
            Some(
                Expression::If {
                    condition: Box::new(cond),
                    consequence: Box::new(consequence),
                    alternative: Some(Box::new(alt)),
                },
            )
        } else {
            proof {
                seq_assoc(o.errs(), c.errs, b.2);
            }
            Some(
                Expression::If {
                    condition: Box::new(cond),
                    consequence: Box::new(consequence),
                    alternative: None,
                },
            )
        }
    }


    /// A function literal: `def ( <parameters> ) { <body> }`.
    fn parse_function_literal(&mut self) -> (r: Option<Expression>)
        requires
            old(self).wf(),
            cur(old(self).toks(), old(self).at()).kind == TokenType::Function,
        ensures
            ({
                let sp = sp_function(old(self).toks(), old(self).at());
                &&& steps(*old(self), *final(self), sp.pos, sp.errs)
                &&& (r is Some <==> sp.out is Some)
                &&& (r is Some ==> (r->0)@ == sp.out->0)
            }),
        decreases old(self).toks().len() - old(self).at(), 4int,
    {
        let ghost o = *old(self);
        if !self.expect_peek(TokenType::Lparen) {
            return None;
        }
        let params = self.parse_function_parameters();
        let params = match params {
            None => {
                return None;
            },
            Some(ps) => ps,
        };
        let ghost psr = sp_params(o.toks(), o.at() + 1);
        if !self.expect_peek(TokenType::Lbrace) {
            proof {
                seq_assoc(o.errs(), psr.errs, sp_expect(
                    o.toks(),
                    posc(o.at(), psr.pos, o.toks().len() as int),
                    TokenType::Lbrace,
                ).2);
            }
            return None;
        }
        let ghost before_body = self.at();
        let body = self.parse_block_statement();
        proof {
            let b = sp_block(o.toks(), posc(o.at(), before_body, o.toks().len() as int));
            seq_assoc(o.errs(), psr.errs, b.2);
        }
        Some(Expression::Function { parameters: params, body: Box::new(body) })
    }

    /// The parameter list of a function literal; the current token is the
    /// opening parenthesis.
    fn parse_function_parameters(&mut self) -> (r: Option<Vec<Identifier>>)
        requires
            old(self).wf(),
            cur(old(self).toks(), old(self).at()).kind == TokenType::Lparen,
        ensures
            ({
                let sp = sp_params(old(self).toks(), old(self).at());
                &&& steps(*old(self), *final(self), sp.pos, sp.errs)
                &&& (r is Some <==> sp.out is Some)
                &&& (r is Some ==> crate::ast::idents_view((r->0)@) == sp.out->0)
            }),
        decreases old(self).toks().len() - old(self).at(), 1int,
    {
        if self.peek_token_is(TokenType::Rparen) {
            self.next_token();
            let v: Vec<Identifier> = Vec::new();
            proof {
                assert(crate::ast::idents_view(v@) =~= Seq::<Seq<char>>::empty());
                assert(self.errs() =~= old(self).errs() + Seq::<Seq<char>>::empty());
            }
            return Some(v);
        }
        if !self.expect_peek(TokenType::Ident) {
            return None;
        }
        let mut acc: Vec<Identifier> = Vec::new();
        let lit = self.cur_literal();
        acc.push(Identifier(lit));
        proof {
            assert(crate::ast::idents_view(Seq::<Identifier>::empty()) == Seq::<Seq<
                char,
            >>::empty());
            crate::ast::lemma_idents_view_push(Seq::<Identifier>::empty(), acc@[0]);
            assert(acc@ =~= Seq::<Identifier>::empty().push(acc@[0]));
            assert(crate::ast::idents_view(acc@) =~= seq![
                cur(old(self).toks(), old(self).at() + 1).text,
            ]);
        }
        self.parse_params_rest(acc)
    }

    /// Further `, <identifier>` pairs of a parameter list, then the
    /// required closing parenthesis.
    fn parse_params_rest(&mut self, acc: Vec<Identifier>) -> (r: Option<Vec<Identifier>>)
        requires
            old(self).wf(),
        ensures
            ({
                let sp = sp_params_rest(
                    old(self).toks(),
                    old(self).at(),
                    crate::ast::idents_view(acc@),
                );
                &&& steps(*old(self), *final(self), sp.pos, sp.errs)
                &&& (r is Some <==> sp.out is Some)
                &&& (r is Some ==> crate::ast::idents_view((r->0)@) == sp.out->0)
            }),
        decreases old(self).toks().len() - old(self).at(), 0int,
    {
        let ghost o = *old(self);
        if self.peek_token_is(TokenType::Comma) {
            self.next_token();
            if !self.expect_peek(TokenType::Ident) {
                return None;
            }
            let mut acc2 = acc;
            let lit = self.cur_literal();
            acc2.push(Identifier(lit));
            proof {
                assert(acc2@.drop_last() =~= acc@);
                crate::ast::lemma_idents_view_push(acc@, acc2@.last());
                assert(acc2@ =~= acc@.push(acc2@.last()));
            }
            let res = self.parse_params_rest(acc2);
            proof {
                let e = sp_expect(o.toks(), adv(o.toks(), o.at()), TokenType::Ident);
                let rest = sp_params_rest(o.toks(), e.1, crate::ast::idents_view(acc2@));
                assert((o.errs() + Seq::<Seq<char>>::empty()) + rest.errs =~= o.errs()
                    + rest.errs);
            }
            res
        } else {
            if self.expect_peek(TokenType::Rparen) {
                Some(acc)
            } else {
                None
            }
        }
    }

    /// The Pratt climbing loop around an already-parsed left expression:
    /// while the lookahead token is no terminator and binds more strongly
    /// than the given level, its infix handler extends the expression.
    fn climb(&mut self, left: Expression, precedence: Precedence) -> (r: Option<Expression>)
        requires
            old(self).wf(),
        ensures
            ({
                let sp = sp_infix_loop(
                    old(self).toks(),
                    old(self).at(),
                    left@,
                    precedence.spec_level(),
                );
                &&& steps(*old(self), *final(self), sp.pos, sp.errs)
                &&& (r is Some <==> sp.out is Some)
                &&& (r is Some ==> (r->0)@ == sp.out->0)
            }),
        decreases old(self).toks().len() - old(self).at(), 3int,
    {
        let ghost o = *old(self);
        let k = self.peek_kind();
        let kl = token_precedence(k).level();
        let pl = precedence.level();
        if k != TokenType::Semicolon && pl < kl && kl > 1 {
            proof {
                assert(o.at() + 1 < o.toks().len());
            }
            self.next_token();
            let r2 = if k == TokenType::Lparen {
                self.parse_call_expression(left)
            } else {
                self.parse_infix_expression(left)
            };
            match r2 {
                None => None,
                Some(left2) => {
                    let ghost rmid = *self;
                    let res = self.climb(left2, precedence);
                    proof {
                        let rsp = if k == TokenType::Lparen {
                            sp_call(o.toks(), o.at() + 1, left@)
                        } else {
                            sp_infix_op(o.toks(), o.at() + 1, left@)
                        };
                        let rest = sp_infix_loop(
                            o.toks(),
                            rmid.at(),
                            left2@,
                            precedence.spec_level(),
                        );
                        seq_assoc(o.errs(), rsp.errs, rest.errs);
                    }
                    res
                },
            }
        } else {
            proof {
                assert(self.errs() =~= o.errs() + Seq::<Seq<char>>::empty());
            }
            Some(left)
        }
    }

    /// A binary operator in infix position: the right operand is parsed at
    /// the operator's own precedence, which makes chains of the same level
    /// associate to the left.
    fn parse_infix_expression(&mut self, left: Expression) -> (r: Option<Expression>)
        requires
            old(self).wf(),
            has_infix(cur(old(self).toks(), old(self).at()).kind),
            cur(old(self).toks(), old(self).at()).kind != TokenType::Lparen,
        ensures
            ({
                let sp = sp_infix_op(old(self).toks(), old(self).at(), left@);
                &&& steps(*old(self), *final(self), sp.pos, sp.errs)
                &&& (r is Some <==> sp.out is Some)
                &&& (r is Some ==> (r->0)@ == sp.out->0)
            }),
        decreases old(self).toks().len() - old(self).at(), 2int,
    {
        let ghost o = *old(self);
        let k = self.cur_kind();
        let op = infix_token(k);
        let prec = self.current_precedence();
        proof {
            assert(o.at() < o.toks().len() - 1);
        }
        self.next_token();
        let right = self.parse_expression(prec);
        match right {
            None => None,
            Some(rr) => Some(
                Expression::Infix { operator: op, left: Box::new(left), right: Box::new(rr) },
            ),
        }
    }

    /// A call expression: `(` in infix position gathers the arguments.
    fn parse_call_expression(&mut self, callee: Expression) -> (r: Option<Expression>)
        requires
            old(self).wf(),
            cur(old(self).toks(), old(self).at()).kind == TokenType::Lparen,
        ensures
            ({
                let sp = sp_call(old(self).toks(), old(self).at(), callee@);
                &&& steps(*old(self), *final(self), sp.pos, sp.errs)
                &&& (r is Some <==> sp.out is Some)
                &&& (r is Some ==> (r->0)@ == sp.out->0)
            }),
        decreases old(self).toks().len() - old(self).at(), 2int,
    {
        let args = self.parse_call_arguments();
        match args {
            None => None,
            Some(v) => Some(Expression::Call { callee: Box::new(callee), arguments: v }),
        }
    }

    /// The argument list of a call; the current token is the opening
    /// parenthesis.
    fn parse_call_arguments(&mut self) -> (r: Option<Vec<Expression>>)
        requires
            old(self).wf(),
            cur(old(self).toks(), old(self).at()).kind == TokenType::Lparen,
        ensures
            ({
                let sp = sp_args(old(self).toks(), old(self).at());
                &&& steps(*old(self), *final(self), sp.pos, sp.errs)
                &&& (r is Some <==> sp.out is Some)
                &&& (r is Some ==> crate::ast::exprs_view((r->0)@) == sp.out->0)
            }),
        decreases old(self).toks().len() - old(self).at(), 1int,
    {
        let ghost o = *old(self);
        if self.peek_token_is(TokenType::Rparen) {
            self.next_token();
            let v: Vec<Expression> = Vec::new();
            proof {
                assert(crate::ast::exprs_view(v@) =~= Seq::<GExpr>::empty());
                assert(self.errs() =~= o.errs() + Seq::<Seq<char>>::empty());
            }
            return Some(v);
        }
        proof {
            assert(o.at() < o.toks().len() - 1);
        }
        self.next_token();
        let first = self.parse_expression(Precedence::Lowest);
        let first = match first {
            None => {
                return None;
            },
            Some(e) => e,
        };
        let mut acc: Vec<Expression> = Vec::new();
        acc.push(first);
        proof {
            let f = sp_expression(o.toks(), o.at() + 1, 1);
            assert(crate::ast::exprs_view(Seq::<Expression>::empty()) == Seq::<GExpr>::empty());
            crate::ast::lemma_exprs_view_push(Seq::<Expression>::empty(), acc@[0]);
            assert(acc@ =~= Seq::<Expression>::empty().push(acc@[0]));
            assert(crate::ast::exprs_view(acc@) =~= seq![f.out->0]);
        }
        let res = self.parse_args_rest(acc);
        proof {
            let f = sp_expression(o.toks(), o.at() + 1, 1);
            let rest = sp_args_rest(
                o.toks(),
                posc(o.at() + 1, f.pos, o.toks().len() as int),
                seq![f.out->0],
            );
            seq_assoc(o.errs(), f.errs, rest.errs);
        }
        res
    }

    /// Further `, <expression>` pairs of an argument list, then the
    /// required closing parenthesis.
    fn parse_args_rest(&mut self, acc: Vec<Expression>) -> (r: Option<Vec<Expression>>)
        requires
            old(self).wf(),
        ensures
            ({
                let sp = sp_args_rest(
                    old(self).toks(),
                    old(self).at(),
                    crate::ast::exprs_view(acc@),
                );
                &&& steps(*old(self), *final(self), sp.pos, sp.errs)
                &&& (r is Some <==> sp.out is Some)
                &&& (r is Some ==> crate::ast::exprs_view((r->0)@) == sp.out->0)
            }),
        decreases old(self).toks().len() - old(self).at(), 0int,
    {
        let ghost o = *old(self);
        if self.peek_token_is(TokenType::Comma) {
            proof {
                assert(o.at() + 1 < o.toks().len() - 1);
            }
            self.next_token();
            self.next_token();
            let e = self.parse_expression(Precedence::Lowest);
            let e = match e {
                None => {
                    return None;
                },
                Some(x) => x,
            };
            let mut acc2 = acc;
            acc2.push(e);
            proof {
                assert(acc2@.drop_last() =~= acc@);
                crate::ast::lemma_exprs_view_push(acc@, acc2@.last());
                assert(acc2@ =~= acc@.push(acc2@.last()));
            }
            let res = self.parse_args_rest(acc2);
            proof {
                let f = sp_expression(o.toks(), o.at() + 2, 1);
                let rest = sp_args_rest(
                    o.toks(),
                    posc(o.at() + 2, f.pos, o.toks().len() as int),
                    crate::ast::exprs_view(acc@).push(f.out->0),
                );
                seq_assoc(o.errs(), f.errs, rest.errs);
            }
            res
        } else {
            if self.expect_peek(TokenType::Rparen) {
                Some(acc)
            } else {
                None
            }
        }
    }

    /// Looks up the prefix handler for the current token's kind and runs
    /// it; a kind with no handler records the fixed diagnostic and
    /// produces no expression.
    fn parse_prefix_dispatch(&mut self) -> (r: Option<Expression>)
        requires
            old(self).wf(),
        ensures
            ({
                let sp = sp_prefix_dispatch(old(self).toks(), old(self).at());
                &&& steps(*old(self), *final(self), sp.pos, sp.errs)
                &&& (r is Some <==> sp.out is Some)
                &&& (r is Some ==> (r->0)@ == sp.out->0)
            }),
        decreases old(self).toks().len() - old(self).at(), 5int,
    {
        let ghost o = *old(self);
        let k = self.cur_kind();
        let r = match k {
            TokenType::Ident => self.parse_identifier(),
            TokenType::Int => self.parse_integer_literal(),
            TokenType::True => self.parse_boolean(),
            TokenType::False => self.parse_boolean(),
            TokenType::Bang => self.parse_prefix_expression(),
            TokenType::Minus => self.parse_prefix_expression(),
            TokenType::Lparen => self.parse_grouped_expression(),
            TokenType::If => self.parse_if_expression(),
            TokenType::Function => self.parse_function_literal(),
            _ => {
                self.no_prefix_parse_fn_error(k);
                None
            },
        };
        proof {
            let sp = sp_prefix_dispatch(o.toks(), o.at());
            if self.errs() == o.errs() {
                assert(self.errs() =~= o.errs() + Seq::<Seq<char>>::empty());
            }
            if sp.errs.len() == 1 && self.errs() == o.errs().push(sp.errs[0]) {
                assert(self.errs() =~= o.errs() + sp.errs);
            }
        }
        r
    }

    /// The climbing loop `parse_expression(min_precedence)`: a prefix
    /// handler builds the initial left expression, and infix handlers
    /// extend it while the lookahead token binds more strongly.
    pub fn parse_expression(&mut self, precedence: Precedence) -> (r: Option<Expression>)
        requires
            old(self).wf(),
        ensures
            ({
                let sp = sp_expression(old(self).toks(), old(self).at(), precedence.spec_level());
                &&& steps(*old(self), *final(self), sp.pos, sp.errs)
                &&& (r is Some <==> sp.out is Some)
                &&& (r is Some ==> (r->0)@ == sp.out->0)
            }),
        decreases old(self).toks().len() - old(self).at(), 6int,
    {
        let ghost o = *old(self);
        let pr = self.parse_prefix_dispatch();
        match pr {
            None => None,
            Some(left) => {
                let ghost rmid = *self;
                let res = self.climb(left, precedence);
                proof {
                    let prs = sp_prefix_dispatch(o.toks(), o.at());
                    let rest = sp_infix_loop(
                        o.toks(),
                        rmid.at(),
                        left@,
                        precedence.spec_level(),
                    );
                    seq_assoc(o.errs(), prs.errs, rest.errs);
                }
                res
            },
        }
    }

    /// Statement dispatch on the current token's kind: the variable-bind
    /// and return keywords have their own parsers; anything else is an
    /// expression statement.
    pub fn parse_statement(&mut self) -> (r: Option<Statement>)
        requires
            old(self).wf(),
        ensures
            ({
                let sp = sp_statement(old(self).toks(), old(self).at());
                &&& steps(*old(self), *final(self), sp.pos, sp.errs)
                &&& (r is Some <==> sp.out is Some)
                &&& (r is Some ==> (r->0)@ == sp.out->0)
            }),
        decreases old(self).toks().len() - old(self).at(), 8int,
    {
        let k = self.cur_kind();
        match k {
            TokenType::Var => self.parse_var_statement(),
            TokenType::Forge => self.parse_var_statement(),
            TokenType::Ret => self.parse_ret_statement(),
            TokenType::Ignite => self.parse_ret_statement(),
            _ => self.parse_expression_statement(),
        }
    }

    /// A variable binding: the name, the assignment token, the value
    /// expression at the lowest level, and an optional terminator.
    pub fn parse_var_statement(&mut self) -> (r: Option<Statement>)
        requires
            old(self).wf(),
        ensures
            ({
                let sp = sp_var(old(self).toks(), old(self).at());
                &&& steps(*old(self), *final(self), sp.pos, sp.errs)
                &&& (r is Some <==> sp.out is Some)
                &&& (r is Some ==> (r->0)@ == sp.out->0)
            }),
        decreases old(self).toks().len() - old(self).at(), 7int,
    {
        let ghost o = *old(self);
        if !self.expect_peek(TokenType::Ident) {
            return None;
        }
        let name = Identifier(self.cur_literal());
        if !self.expect_peek(TokenType::Assign) {
            return None;
        }
        proof {
            assert(self.at() < o.toks().len() - 1);
        }
        self.next_token();
        let value = self.parse_expression(Precedence::Lowest);
        match value {
            None => None,
            Some(v) => {
                if self.peek_token_is(TokenType::Semicolon) {
                    self.next_token();
                }
                Some(Statement::VariableBind { name, value: v })
            },
        }
    }

    /// A return statement: the value expression at the lowest level and an
    /// optional terminator.
    pub fn parse_ret_statement(&mut self) -> (r: Option<Statement>)
        requires
            old(self).wf(),
        ensures
            ({
                let sp = sp_ret(old(self).toks(), old(self).at());
                &&& steps(*old(self), *final(self), sp.pos, sp.errs)
                &&& (r is Some <==> sp.out is Some)
                &&& (r is Some ==> (r->0)@ == sp.out->0)
            }),
        decreases old(self).toks().len() - old(self).at(), 7int,
    {
        self.next_token();
        let value = self.parse_expression(Precedence::Lowest);
        match value {
            None => None,
            Some(v) => {
                if self.peek_token_is(TokenType::Semicolon) {
                    self.next_token();
                }
                Some(Statement::Return { value: v })
            },
        }
    }

    /// An expression in statement position, with an optional terminator.
    pub fn parse_expression_statement(&mut self) -> (r: Option<Statement>)
        requires
            old(self).wf(),
        ensures
            ({
                let sp = sp_expr_stmt(old(self).toks(), old(self).at());
                &&& steps(*old(self), *final(self), sp.pos, sp.errs)
                &&& (r is Some <==> sp.out is Some)
                &&& (r is Some ==> (r->0)@ == sp.out->0)
            }),
        decreases old(self).toks().len() - old(self).at(), 7int,
    {
        let value = self.parse_expression(Precedence::Lowest);
        match value {
            None => None,
            Some(v) => {
                if self.peek_token_is(TokenType::Semicolon) {
                    self.next_token();
                }
                Some(Statement::Expression { value: v })
            },
        }
    }

    /// A block: consumes statements until a closing brace or the end of
    /// input, collecting them in order.
    fn parse_block_statement(&mut self) -> (r: Statement)
        requires
            old(self).wf(),
            cur(old(self).toks(), old(self).at()).kind == TokenType::Lbrace,
        ensures
            ({
                let sp = sp_block(old(self).toks(), old(self).at());
                &&& steps(*old(self), *final(self), sp.1, sp.2)
                &&& r@ == sp.0
            }),
        decreases old(self).toks().len() - old(self).at(), 3int,
    {
        proof {
            assert(old(self).at() < old(self).toks().len() - 1);
        }
        self.next_token();
        let mut stmts: Vec<Statement> = Vec::new();
        proof {
            assert(crate::ast::stmts_view(stmts@) =~= Seq::<GStmt>::empty());
        }
        self.block_rest(&mut stmts);
        proof {
            let sp = sp_block_rest(old(self).toks(), old(self).at() + 1);
            assert(crate::ast::stmts_view(stmts@) =~= Seq::<GStmt>::empty() + sp.0);
        }
        Statement::Block { statements: stmts }
    }

    /// The body of the block loop: statements until a closing brace or
    /// `Eof`, appended to `out` in order; a failed statement is dropped
    /// and the loop advances past it.
    #[verifier::rlimit(100)]
    #[verifier::spinoff_prover]
    fn block_rest(&mut self, out: &mut Vec<Statement>)
        requires
            old(self).wf(),
        ensures
            ({
                let sp = sp_block_rest(old(self).toks(), old(self).at());
                &&& steps(*old(self), *final(self), sp.1, sp.2)
                &&& crate::ast::stmts_view(final(out)@) == crate::ast::stmts_view(old(out)@)
                    + sp.0
            }),
        decreases old(self).toks().len() - old(self).at(), 9int,
    {
        let ghost o = *old(self);
        if self.current_token_is(TokenType::Rbrace) || self.current_token_is(TokenType::Eof) {
            proof {
                seq_empty_right(crate::ast::stmts_view(out@));
                seq_empty_right(o.errs());
            }
            return;
        }
        let st = self.parse_statement();
        match st {
            Some(s) => {
                proof {
                    crate::ast::lemma_stmts_view_push(out@, s);
                }
                out.push(s);
            },
            None => {},
        }
        proof {
            assert(o.at() < o.toks().len() - 1);
        }
        self.next_token();
        let ghost rmid = *self;
        self.block_rest(out);
        proof {
            let sps = sp_statement(o.toks(), o.at());
            let rest = sp_block_rest(o.toks(), rmid.at());
            seq_assoc(o.errs(), sps.errs, rest.2);
            match sps.out {
                Some(s) => {
                    seq_snoc_assoc(crate::ast::stmts_view(old(out)@), s, rest.0);
                },
                None => {},
            }
        }
    }

    /// The body of the program loop: statements until `Eof`.
    #[verifier::rlimit(100)]
    #[verifier::spinoff_prover]
    fn program_rest(&mut self, out: &mut Vec<Statement>)
        requires
            old(self).wf(),
        ensures
            ({
                let sp = sp_program_rest(old(self).toks(), old(self).at());
                &&& steps(*old(self), *final(self), sp.1, sp.2)
                &&& crate::ast::stmts_view(final(out)@) == crate::ast::stmts_view(old(out)@)
                    + sp.0
            }),
        decreases old(self).toks().len() - old(self).at(), 9int,
    {
        let ghost o = *old(self);
        if self.current_token_is(TokenType::Eof) {
            proof {
                seq_empty_right(crate::ast::stmts_view(out@));
                seq_empty_right(o.errs());
            }
            return;
        }
        let st = self.parse_statement();
        match st {
            Some(s) => {
                proof {
                    crate::ast::lemma_stmts_view_push(out@, s);
                }
                out.push(s);
            },
            None => {},
        }
        proof {
            assert(o.at() < o.toks().len() - 1);
        }
        self.next_token();
        let ghost rmid = *self;
        self.program_rest(out);
        proof {
            let sps = sp_statement(o.toks(), o.at());
            let rest = sp_program_rest(o.toks(), rmid.at());
            seq_assoc(o.errs(), sps.errs, rest.2);
            match sps.out {
                Some(s) => {
                    seq_snoc_assoc(crate::ast::stmts_view(old(out)@), s, rest.0);
                },
                None => {},
            }
        }
    }

    /// Parses the whole token stream into a program. It never fails
    /// outright: each statement that cannot be parsed is recorded in the
    /// diagnostics and skipped, so the program may be partial exactly when
    /// the diagnostics are non-empty.
    pub fn parse_program(&mut self) -> (r: Option<Program>)
        requires
            old(self).wf(),
        ensures
            ({
                let sp = sp_program(old(self).toks(), old(self).at());
                &&& steps(*old(self), *final(self), sp.1, sp.2)
                &&& r is Some
                &&& (r->0)@ == sp.0
            }),
    {
        let mut stmts: Vec<Statement> = Vec::new();
        proof {
            assert(crate::ast::stmts_view(stmts@) =~= Seq::<GStmt>::empty());
        }
        self.program_rest(&mut stmts);
        proof {
            let sp = sp_program_rest(old(self).toks(), old(self).at());
            assert(crate::ast::stmts_view(stmts@) =~= Seq::<GStmt>::empty() + sp.0);
        }
        Some(Program { statements: stmts })
    }
}

/// Re-parsing the canonical text of a non-negative integer literal gives
/// back exactly that literal: one expression statement, no diagnostics,
/// and an unchanged stringification. (The re-parse fixed point is stated
/// for the fragment it is proved for; it does not hold of every canonical
/// form, since a conditional prints without the braces its grammar
/// requires.)
pub proof fn lemma_int_literal_reparse_fixed_point(v: i64)
    requires
        0 <= v,
    ensures
        ({
            let text = crate::num::spec_i64_dec(v as int);
            let toks = crate::lexer::spec_tokenize(text, 0);
            let r = sp_program(toks, 0);
            &&& r.0 == seq![GStmt::Expr { value: GExpr::Int { value: v } }]
            &&& r.2 == Seq::<Seq<char>>::empty()
            &&& crate::ast::gstmts_string(r.0) == text
        }),
{
    let s = crate::num::spec_u64_dec(v as nat);
    crate::num::lemma_u64_dec_roundtrip(v as nat);
    assert(crate::num::spec_i64_dec(v as int) == s);
    crate::lexer::lemma_tokenize_digits(s);
    let toks = crate::lexer::spec_tokenize(s, 0);
    let ti = SpecToken { kind: TokenType::Int, text: s };
    let te = SpecToken { kind: TokenType::Eof, text: ""@ };
    assert(toks == seq![ti, te]);
    assert(toks.len() == 2 && toks[0] == ti && toks[1] == te);
    assert(toks.last() == te);
    assert(wf_toks(toks));
    assert(cur(toks, 0) == ti && spk(toks, 0) == te && cur(toks, 1) == te);

    let g = GExpr::Int { value: v };
    let pd = sp_prefix_dispatch(toks, 0);
    assert(digits_val(s) == v as nat);
    assert(digits_val(s) <= i64::MAX);
    assert(digits_val(s) as i64 == v);
    assert(pd.out == Some(g) && pd.pos == 0 && pd.errs == Seq::<Seq<char>>::empty());

    let il = sp_infix_loop(toks, 0, g, 1);
    assert(spec_token_precedence(TokenType::Eof) == 1);
    assert(il.out == Some(g) && il.pos == 0 && il.errs == Seq::<Seq<char>>::empty());

    let ex = sp_expression(toks, 0, 1);
    assert(posc(0, 0, 2) == 0);
    assert(ex.out == Some(g) && ex.pos == 0);
    assert(ex.errs =~= Seq::<Seq<char>>::empty());

    let gs = GStmt::Expr { value: g };
    let est = sp_expr_stmt(toks, 0);
    assert(est.out == Some(gs) && est.pos == 0 && est.errs == ex.errs);

    let st = sp_statement(toks, 0);
    assert(st == est);

    let rest1 = sp_program_rest(toks, 1);
    assert(rest1.0 == Seq::<GStmt>::empty() && rest1.2 == Seq::<Seq<char>>::empty());

    let r = sp_program_rest(toks, 0);
    assert(adv(toks, posc(0, st.pos, 2)) == 1);
    assert(r.0 == seq![gs] + rest1.0);
    assert(r.0 =~= seq![gs]);
    assert(r.2 =~= Seq::<Seq<char>>::empty());

    assert(seq![gs].drop_first() =~= Seq::<GStmt>::empty());
    assert(crate::ast::gstmts_string(seq![gs]) == crate::ast::gstmt_string(gs)
        + crate::ast::gstmts_string(seq![gs].drop_first()));
    assert(crate::ast::gstmts_string(Seq::<GStmt>::empty()) == Seq::<char>::empty());
    assert(crate::ast::gstmt_string(gs) == crate::ast::gexpr_string(g));
    assert(crate::ast::gstmts_string(seq![gs]) =~= crate::ast::gexpr_string(g));
    assert(crate::ast::gexpr_string(g) == crate::num::spec_i64_dec(v as int));
}

} // verus!
