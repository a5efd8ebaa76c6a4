//! The abstract syntax tree: value types for programs, statements and
//! expressions, their mathematical models, and the canonical, fully
//! parenthesized stringification that serves as the oracle for precedence
//! and associativity.

use vstd::prelude::*;
use vstd::string::StringExecFns;

use crate::num::{i64_to_string, spec_i64_dec};
use crate::text::push_char;

verus! {

/// An identifier, carrying its text.
#[derive(Debug, PartialEq)]
pub struct Identifier(pub String);

/// A statement of the language.
#[derive(Debug, PartialEq)]
pub enum Statement {
    /// `var <name> = <value>;`
    VariableBind { name: Identifier, value: Expression },
    /// `ret <value>;`
    Return { value: Expression },
    /// An expression in statement position.
    Expression { value: Expression },
    /// `{ <statements> }`
    Block { statements: Vec<Statement> },
}

/// An expression of the language.
#[derive(Debug, PartialEq)]
pub enum Expression {
    Identifier { name: Identifier },
    Literal { value: Literal },
    Prefix { operator: Prefix, operand: Box<Expression> },
    Infix { operator: Infix, left: Box<Expression>, right: Box<Expression> },
    If {
        condition: Box<Expression>,
        consequence: Box<Statement>,
        alternative: Option<Box<Statement>>,
    },
    Function { parameters: Vec<Identifier>, body: Box<Statement> },
    Call { callee: Box<Expression>, arguments: Vec<Expression> },
}

/// A literal value: a 64-bit signed integer or a boolean.
#[derive(Debug, PartialEq)]
pub enum Literal {
    Integer(i64),
    Boolean(bool),
}

/// A prefix operator.
#[derive(Debug, Clone, Copy, PartialEq, Eq, Structural)]
pub enum Prefix {
    Minus,
    Not,
}

/// An infix operator.
#[derive(Debug, Clone, Copy, PartialEq, Eq, Structural)]
pub enum Infix {
    Plus,
    Minus,
    Multiply,
    Divide,
    Equal,
    NotEqual,
    GreaterThan,
    LessThan,
}

/// The binding strength levels of the Pratt climbing loop, strictly
/// ordered from `Lowest` to `Call`.
#[derive(Debug, Clone, Copy, PartialEq, Eq, Structural)]
pub enum Precedence {
    Lowest,
    Equals,
    LessGreater,
    Sum,
    Product,
    Prefix,
    Call,
}

impl Precedence {
    /// The numeric level of the precedence, for comparisons.
    pub open spec fn spec_level(self) -> int {
        match self {
            Precedence::Lowest => 1,
            Precedence::Equals => 2,
            Precedence::LessGreater => 3,
            Precedence::Sum => 4,
            Precedence::Product => 5,
            Precedence::Prefix => 6,
            Precedence::Call => 7,
        }
    }

    pub fn level(&self) -> (n: u8)
        ensures
            n as int == self.spec_level(),
    {
        match self {
            Precedence::Lowest => 1,
            Precedence::Equals => 2,
            Precedence::LessGreater => 3,
            Precedence::Sum => 4,
            Precedence::Product => 5,
            Precedence::Prefix => 6,
            Precedence::Call => 7,
        }
    }
}

/// A program: the ordered sequence of its statements.
#[derive(Debug, PartialEq)]
pub struct Program {
    pub statements: Vec<Statement>,
}

/// The mathematical model of a statement.
pub ghost enum GStmt {
    Bind { name: Seq<char>, value: GExpr },
    Ret { value: GExpr },
    Expr { value: GExpr },
    Block { statements: Seq<GStmt> },
}

/// The mathematical model of an expression.
pub ghost enum GExpr {
    Ident { name: Seq<char> },
    Int { value: i64 },
    Bool { value: bool },
    Prefix { op: Prefix, operand: Box<GExpr> },
    Infix { op: Infix, left: Box<GExpr>, right: Box<GExpr> },
    If { cond: Box<GExpr>, conseq: Box<GStmt>, alt: Option<Box<GStmt>> },
    Func { params: Seq<Seq<char>>, body: Box<GStmt> },
    Call { callee: Box<GExpr>, args: Seq<GExpr> },
}

pub open spec fn stmt_view(s: Statement) -> GStmt
    decreases s,
{
    match s {
        Statement::VariableBind { name, value } => GStmt::Bind {
            name: name.0@,
            value: expr_view(value),
        },
        Statement::Return { value } => GStmt::Ret { value: expr_view(value) },
        Statement::Expression { value } => GStmt::Expr { value: expr_view(value) },
        Statement::Block { statements } => GStmt::Block { statements: stmts_view(statements@) },
    }
}

pub open spec fn stmts_view(ss: Seq<Statement>) -> Seq<GStmt>
    decreases ss,
{
    if ss.len() == 0 {
        Seq::empty()
    } else {
        seq![stmt_view(ss[0])] + stmts_view(ss.drop_first())
    }
}

pub open spec fn idents_view(ps: Seq<Identifier>) -> Seq<Seq<char>>
    decreases ps,
{
    if ps.len() == 0 {
        Seq::empty()
    } else {
        seq![ps[0].0@] + idents_view(ps.drop_first())
    }
}

pub open spec fn expr_view(e: Expression) -> GExpr
    decreases e,
{
    match e {
        Expression::Identifier { name } => GExpr::Ident { name: name.0@ },
        Expression::Literal { value } => match value {
            Literal::Integer(v) => GExpr::Int { value: v },
            Literal::Boolean(b) => GExpr::Bool { value: b },
        },
        Expression::Prefix { operator, operand } => GExpr::Prefix {
            op: operator,
            operand: Box::new(expr_view(*operand)),
        },
        Expression::Infix { operator, left, right } => GExpr::Infix {
            op: operator,
            left: Box::new(expr_view(*left)),
            right: Box::new(expr_view(*right)),
        },
        Expression::If { condition, consequence, alternative } => GExpr::If {
            cond: Box::new(expr_view(*condition)),
            conseq: Box::new(stmt_view(*consequence)),
            alt: match alternative {
                Some(a) => Some(Box::new(stmt_view(*a))),
                None => None,
            },
        },
        Expression::Function { parameters, body } => GExpr::Func {
            params: idents_view(parameters@),
            body: Box::new(stmt_view(*body)),
        },
        Expression::Call { callee, arguments } => GExpr::Call {
            callee: Box::new(expr_view(*callee)),
            args: exprs_view(arguments@),
        },
    }
}

pub open spec fn exprs_view(es: Seq<Expression>) -> Seq<GExpr>
    decreases es,
{
    if es.len() == 0 {
        Seq::empty()
    } else {
        seq![expr_view(es[0])] + exprs_view(es.drop_first())
    }
}

impl View for Statement {
    type V = GStmt;

    open spec fn view(&self) -> GStmt {
        stmt_view(*self)
    }
}

impl View for Expression {
    type V = GExpr;

    open spec fn view(&self) -> GExpr {
        expr_view(*self)
    }
}

impl View for Program {
    type V = Seq<GStmt>;

    open spec fn view(&self) -> Seq<GStmt> {
        stmts_view(self.statements@)
    }
}

/// The text of a prefix operator.
pub open spec fn prefix_text(op: Prefix) -> Seq<char> {
    match op {
        Prefix::Minus => "-"@,
        Prefix::Not => "!"@,
    }
}

/// The text of an infix operator.
pub open spec fn infix_text(op: Infix) -> Seq<char> {
    match op {
        Infix::Plus => "+"@,
        Infix::Minus => "-"@,
        Infix::Multiply => "*"@,
        Infix::Divide => "/"@,
        Infix::Equal => "=="@,
        Infix::NotEqual => "!="@,
        Infix::GreaterThan => ">"@,
        Infix::LessThan => "<"@,
    }
}

/// Texts joined with a comma-and-space separator.
pub open spec fn join_texts(ts: Seq<Seq<char>>) -> Seq<char>
    decreases ts,
{
    if ts.len() == 0 {
        Seq::empty()
    } else if ts.len() == 1 {
        ts[0]
    } else {
        ts[0] + ", "@ + join_texts(ts.drop_first())
    }
}

/// The canonical, fully parenthesized text of an expression.
pub open spec fn gexpr_string(e: GExpr) -> Seq<char>
    decreases e,
{
    match e {
        GExpr::Ident { name } => name,
        GExpr::Int { value } => spec_i64_dec(value as int),
        GExpr::Bool { value } => if value {
            "true"@
        } else {
            "false"@
        },
        GExpr::Prefix { op, operand } => "("@ + prefix_text(op) + gexpr_string(*operand)
            + ")"@,
        GExpr::Infix { op, left, right } => "("@ + gexpr_string(*left) + " "@
            + infix_text(op) + " "@ + gexpr_string(*right) + ")"@,
        GExpr::If { cond, conseq, alt } => {
            let base = "if "@ + gexpr_string(*cond) + " "@ + gstmt_string(*conseq);
            match alt {
                Some(a) => base + "else "@ + gstmt_string(*a),
                None => base,
            }
        },
        GExpr::Func { params, body } => "def("@ + join_texts(params) + ")"@
            + gstmt_string(*body),
        GExpr::Call { callee, args } => gexpr_string(*callee) + "("@ + join_texts(
            gexprs_strings(args),
        ) + ")"@,
    }
}

/// The canonical texts of a sequence of expressions.
pub open spec fn gexprs_strings(es: Seq<GExpr>) -> Seq<Seq<char>>
    decreases es,
{
    if es.len() == 0 {
        Seq::empty()
    } else {
        seq![gexpr_string(es[0])] + gexprs_strings(es.drop_first())
    }
}

/// The canonical text of a statement.
pub open spec fn gstmt_string(s: GStmt) -> Seq<char>
    decreases s,
{
    match s {
        GStmt::Bind { name, value } => "var "@ + name + " = "@ + gexpr_string(value) + ";"@,
        GStmt::Ret { value } => "ret "@ + gexpr_string(value) + ";"@,
        GStmt::Expr { value } => gexpr_string(value),
        GStmt::Block { statements } => gstmts_string(statements),
    }
}

/// The concatenated texts of a sequence of statements.
pub open spec fn gstmts_string(ss: Seq<GStmt>) -> Seq<char>
    decreases ss,
{
    if ss.len() == 0 {
        Seq::empty()
    } else {
        gstmt_string(ss[0]) + gstmts_string(ss.drop_first())
    }
}

/// The literal text of the token that leads a statement.
pub open spec fn gstmt_token_literal(s: GStmt) -> Seq<char>
    decreases s,
{
    match s {
        GStmt::Bind { .. } => "var"@,
        GStmt::Ret { .. } => "ret"@,
        GStmt::Expr { value } => gexpr_token_literal(value),
        GStmt::Block { statements } => if statements.len() == 0 {
            ""@
        } else {
            gstmt_token_literal(statements[0])
        },
    }
}

/// The literal text of the token that leads an expression.
pub open spec fn gexpr_token_literal(e: GExpr) -> Seq<char>
    decreases e,
{
    match e {
        GExpr::Ident { name } => name,
        GExpr::Int { value } => spec_i64_dec(value as int),
        GExpr::Bool { value } => if value {
            "true"@
        } else {
            "false"@
        },
        GExpr::Prefix { op, .. } => prefix_text(op),
        GExpr::Infix { left, .. } => gexpr_token_literal(*left),
        GExpr::If { .. } => "if"@,
        GExpr::Func { .. } => "def"@,
        GExpr::Call { callee, .. } => gexpr_token_literal(*callee),
    }
}

/// The views of a sequence of strings.
pub open spec fn strs_view(ss: Seq<String>) -> Seq<Seq<char>>
    decreases ss,
{
    if ss.len() == 0 {
        Seq::empty()
    } else {
        seq![ss[0]@] + strs_view(ss.drop_first())
    }
}

/// The first statement's leading token literal, or nothing for an empty
/// program.
pub open spec fn gprogram_token_literal(ss: Seq<GStmt>) -> Seq<char> {
    if ss.len() == 0 {
        ""@
    } else {
        gstmt_token_literal(ss[0])
    }
}

pub proof fn lemma_stmts_view_elems(ss: Seq<Statement>)
    ensures
        stmts_view(ss).len() == ss.len(),
        forall|i: int| 0 <= i < ss.len() ==> stmts_view(ss)[i] == stmt_view(ss[i]),
    decreases ss,
{
    if ss.len() > 0 {
        lemma_stmts_view_elems(ss.drop_first());
    }
}

pub proof fn lemma_idents_view_elems(ps: Seq<Identifier>)
    ensures
        idents_view(ps).len() == ps.len(),
        forall|i: int| 0 <= i < ps.len() ==> idents_view(ps)[i] == ps[i].0@,
    decreases ps,
{
    if ps.len() > 0 {
        lemma_idents_view_elems(ps.drop_first());
    }
}

pub proof fn lemma_exprs_view_elems(es: Seq<Expression>)
    ensures
        exprs_view(es).len() == es.len(),
        forall|i: int| 0 <= i < es.len() ==> exprs_view(es)[i] == expr_view(es[i]),
    decreases es,
{
    if es.len() > 0 {
        lemma_exprs_view_elems(es.drop_first());
    }
}

pub proof fn lemma_gexprs_strings_elems(es: Seq<GExpr>)
    ensures
        gexprs_strings(es).len() == es.len(),
        forall|i: int| 0 <= i < es.len() ==> gexprs_strings(es)[i] == gexpr_string(es[i]),
    decreases es,
{
    if es.len() > 0 {
        lemma_gexprs_strings_elems(es.drop_first());
    }
}

pub proof fn lemma_strs_view_elems(ss: Seq<String>)
    ensures
        strs_view(ss).len() == ss.len(),
        forall|i: int| 0 <= i < ss.len() ==> strs_view(ss)[i] == ss[i]@,
    decreases ss,
{
    if ss.len() > 0 {
        lemma_strs_view_elems(ss.drop_first());
    }
}

pub proof fn lemma_strs_view_push(ss: Seq<String>, s: String)
    ensures
        strs_view(ss.push(s)) == strs_view(ss).push(s@),
    decreases ss,
{
    if ss.len() == 0 {
        assert(ss.push(s).drop_first() =~= Seq::<String>::empty());
        assert(ss.push(s).len() == 1);
        assert(ss.push(s)[0] == s);
        assert(strs_view(ss.push(s)) == seq![s@] + strs_view(ss.push(s).drop_first()));
        assert(strs_view(ss.push(s).drop_first()) == Seq::<Seq<char>>::empty());
        assert(strs_view(ss) == Seq::<Seq<char>>::empty());
        assert(strs_view(ss).push(s@) =~= seq![s@] + Seq::<Seq<char>>::empty());
        assert(strs_view(ss.push(s)) =~= strs_view(ss).push(s@));
    } else {
        assert(ss.push(s).drop_first() =~= ss.drop_first().push(s));
        lemma_strs_view_push(ss.drop_first(), s);
        lemma_strs_view_elems(ss);
        lemma_strs_view_elems(ss.drop_first());
        assert(strs_view(ss.push(s)) == seq![ss[0]@] + strs_view(ss.drop_first()).push(s@));
        assert(seq![ss[0]@] + strs_view(ss.drop_first()).push(s@) =~= (seq![ss[0]@] + strs_view(
            ss.drop_first(),
        )).push(s@));
    }
}

pub proof fn lemma_stmts_view_push(ss: Seq<Statement>, s: Statement)
    ensures
        stmts_view(ss.push(s)) == stmts_view(ss).push(stmt_view(s)),
    decreases ss,
{
    if ss.len() == 0 {
        assert(ss.push(s).drop_first() =~= Seq::<Statement>::empty());
        assert(ss.push(s)[0] == s);
        assert(stmts_view(ss.push(s)) == seq![stmt_view(s)] + stmts_view(
            ss.push(s).drop_first(),
        ));
        assert(stmts_view(ss.push(s).drop_first()) == Seq::<GStmt>::empty());
        assert(stmts_view(ss) == Seq::<GStmt>::empty());
        assert(stmts_view(ss).push(stmt_view(s)) =~= seq![stmt_view(s)] + Seq::<GStmt>::empty());
    } else {
        assert(ss.push(s).drop_first() =~= ss.drop_first().push(s));
        lemma_stmts_view_push(ss.drop_first(), s);
        lemma_stmts_view_elems(ss);
        lemma_stmts_view_elems(ss.drop_first());
        assert(stmts_view(ss.push(s)) == seq![stmt_view(ss[0])] + stmts_view(
            ss.drop_first(),
        ).push(stmt_view(s)));
        assert(seq![stmt_view(ss[0])] + stmts_view(ss.drop_first()).push(stmt_view(s)) =~= (seq![
            stmt_view(ss[0]),
        ] + stmts_view(ss.drop_first())).push(stmt_view(s)));
    }
}

pub proof fn lemma_gstmts_string_push(ss: Seq<GStmt>, s: GStmt)
    ensures
        gstmts_string(ss.push(s)) == gstmts_string(ss) + gstmt_string(s),
    decreases ss,
{
    if ss.len() == 0 {
        assert(ss.push(s).drop_first() =~= Seq::<GStmt>::empty());
        assert(ss.push(s)[0] == s);
        assert(gstmts_string(ss.push(s)) == gstmt_string(s) + gstmts_string(
            ss.push(s).drop_first(),
        ));
        assert(gstmts_string(ss.push(s).drop_first()) == Seq::<char>::empty());
        assert(gstmts_string(ss) == Seq::<char>::empty());
        assert(gstmt_string(s) + Seq::<char>::empty() =~= gstmts_string(ss) + gstmt_string(s));
    } else {
        assert(ss.push(s).drop_first() =~= ss.drop_first().push(s));
        lemma_gstmts_string_push(ss.drop_first(), s);
        assert(gstmts_string(ss.push(s)) == gstmt_string(ss[0]) + (gstmts_string(ss.drop_first())
            + gstmt_string(s)));
        assert(gstmt_string(ss[0]) + (gstmts_string(ss.drop_first()) + gstmt_string(s)) =~= (
        gstmt_string(ss[0]) + gstmts_string(ss.drop_first())) + gstmt_string(s));
    }
}

pub proof fn lemma_join_texts_push(ts: Seq<Seq<char>>, t: Seq<char>)
    ensures
        join_texts(ts.push(t)) == if ts.len() == 0 {
            t
        } else {
            join_texts(ts) + ", "@ + t
        },
    decreases ts,
{
    if ts.len() == 0 {
        assert(ts.push(t)[0] == t);
    } else if ts.len() == 1 {
        assert(ts.push(t).drop_first() =~= seq![t]);
        assert(join_texts(seq![t]) == t);
        assert(ts.push(t)[0] == ts[0]);
        assert(join_texts(ts.push(t)) == ts[0] + ", "@ + t);
    } else {
        assert(ts.push(t).drop_first() =~= ts.drop_first().push(t));
        lemma_join_texts_push(ts.drop_first(), t);
        assert(join_texts(ts.push(t)) == ts[0] + ", "@ + (join_texts(ts.drop_first()) + ", "@
            + t));
        assert(ts[0] + ", "@ + (join_texts(ts.drop_first()) + ", "@ + t) =~= (ts[0] + ", "@
            + join_texts(ts.drop_first())) + ", "@ + t);
    }
}

pub proof fn lemma_idents_view_push(ps: Seq<Identifier>, p: Identifier)
    ensures
        idents_view(ps.push(p)) == idents_view(ps).push(p.0@),
    decreases ps,
{
    if ps.len() == 0 {
        assert(ps.push(p).drop_first() =~= Seq::<Identifier>::empty());
        assert(ps.push(p)[0] == p);
        assert(idents_view(ps.push(p)) == seq![p.0@] + idents_view(ps.push(p).drop_first()));
        assert(idents_view(ps.push(p).drop_first()) == Seq::<Seq<char>>::empty());
        assert(idents_view(ps) == Seq::<Seq<char>>::empty());
        assert(idents_view(ps).push(p.0@) =~= seq![p.0@] + Seq::<Seq<char>>::empty());
    } else {
        assert(ps.push(p).drop_first() =~= ps.drop_first().push(p));
        lemma_idents_view_push(ps.drop_first(), p);
        lemma_idents_view_elems(ps);
        lemma_idents_view_elems(ps.drop_first());
        assert(idents_view(ps.push(p)) == seq![ps[0].0@] + idents_view(ps.drop_first()).push(
            p.0@,
        ));
        assert(seq![ps[0].0@] + idents_view(ps.drop_first()).push(p.0@) =~= (seq![ps[0].0@]
            + idents_view(ps.drop_first())).push(p.0@));
    }
}

pub proof fn lemma_exprs_view_push(es: Seq<Expression>, e: Expression)
    ensures
        exprs_view(es.push(e)) == exprs_view(es).push(expr_view(e)),
    decreases es,
{
    if es.len() == 0 {
        assert(es.push(e).drop_first() =~= Seq::<Expression>::empty());
        assert(es.push(e)[0] == e);
        assert(exprs_view(es.push(e)) == seq![expr_view(e)] + exprs_view(es.push(e).drop_first()));
        assert(exprs_view(es.push(e).drop_first()) == Seq::<GExpr>::empty());
        assert(exprs_view(es) == Seq::<GExpr>::empty());
        assert(exprs_view(es).push(expr_view(e)) =~= seq![expr_view(e)] + Seq::<GExpr>::empty());
    } else {
        assert(es.push(e).drop_first() =~= es.drop_first().push(e));
        lemma_exprs_view_push(es.drop_first(), e);
        lemma_exprs_view_elems(es);
        lemma_exprs_view_elems(es.drop_first());
        assert(exprs_view(es.push(e)) == seq![expr_view(es[0])] + exprs_view(
            es.drop_first(),
        ).push(expr_view(e)));
        assert(seq![expr_view(es[0])] + exprs_view(es.drop_first()).push(expr_view(e)) =~= (seq![
            expr_view(es[0]),
        ] + exprs_view(es.drop_first())).push(expr_view(e)));
    }
}

impl Prefix {
    /// The operator's text.
    pub fn string(&self) -> (r: String)
        ensures
            r@ == prefix_text(*self),
    {
        match self {
            Prefix::Minus => "-".to_owned(),
            Prefix::Not => "!".to_owned(),
        }
    }
}

impl Infix {
    /// The operator's text.
    pub fn string(&self) -> (r: String)
        ensures
            r@ == infix_text(*self),
    {
        match self {
            Infix::Plus => "+".to_owned(),
            Infix::Minus => "-".to_owned(),
            Infix::Multiply => "*".to_owned(),
            Infix::Divide => "/".to_owned(),
            Infix::Equal => "==".to_owned(),
            Infix::NotEqual => "!=".to_owned(),
            Infix::GreaterThan => ">".to_owned(),
            Infix::LessThan => "<".to_owned(),
        }
    }
}

/// Joins already-rendered parts with a comma-and-space separator.
#[verifier::loop_isolation(false)]
fn join_strings(parts: &Vec<String>) -> (r: String)
    ensures
        r@ == join_texts(strs_view(parts@)),
{
    let mut s = String::new();
    let mut i: usize = 0;
    while i < parts.len()
        invariant
            i <= parts@.len(),
            s@ == join_texts(strs_view(parts@.subrange(0, i as int))),
        decreases parts@.len() - i,
    {
        proof {
            lemma_strs_view_elems(parts@.subrange(0, i as int));
        }
        if i > 0 {
            s.append(", ");
        }
        s.append(parts[i].as_str());
        proof {
            let pre = parts@.subrange(0, i as int);
            assert(parts@.subrange(0, i as int + 1) =~= pre.push(parts@[i as int]));
            lemma_strs_view_push(pre, parts@[i as int]);
            lemma_join_texts_push(strs_view(pre), parts@[i as int]@);
            assert(s@ =~= join_texts(strs_view(parts@.subrange(0, i as int + 1))));
        }
        i = i + 1;
    }
    proof {
        assert(parts@.subrange(0, parts@.len() as int) =~= parts@);
    }
    s
}

/// Renders a sequence of statements one after the other.
#[verifier::loop_isolation(false)]
fn stmts_concat(v: &Vec<Statement>) -> (r: String)
    ensures
        r@ == gstmts_string(stmts_view(v@)),
    decreases v@, 1int,
{
    let mut s = String::new();
    let mut i: usize = 0;
    while i < v.len()
        invariant
            i <= v@.len(),
            s@ == gstmts_string(stmts_view(v@.subrange(0, i as int))),
        decreases v@.len() - i,
    {
        let part = v[i].string();
        s.append(part.as_str());
        proof {
            let pre = v@.subrange(0, i as int);
            assert(v@.subrange(0, i as int + 1) =~= pre.push(v@[i as int]));
            lemma_stmts_view_push(pre, v@[i as int]);
            lemma_gstmts_string_push(stmts_view(pre), stmt_view(v@[i as int]));
        }
        i = i + 1;
    }
    proof {
        assert(v@.subrange(0, v@.len() as int) =~= v@);
    }
    s
}

impl Expression {
    /// The canonical, fully parenthesized text of the expression.
    #[verifier::loop_isolation(false)]
    pub fn string(&self) -> (r: String)
        ensures
            r@ == gexpr_string(self@),
        decreases *self, 0int,
    {
        match self {
            Expression::Identifier { name } => name.0.clone(),
            Expression::Literal { value } => match value {
                Literal::Integer(v) => i64_to_string(*v),
                Literal::Boolean(b) => if *b {
                    "true".to_owned()
                } else {
                    "false".to_owned()
                },
            },
            Expression::Prefix { operator, operand } => {
                let os = operand.string();
                let ops = operator.string();
                let mut s = String::new();
                s.append("(");
                s.append(ops.as_str());
                s.append(os.as_str());
                s.append(")");
                proof {
                    assert(s@ =~= gexpr_string(self@));
                }
                s
            },
            Expression::Infix { operator, left, right } => {
                let ls = left.string();
                let rs = right.string();
                let ops = operator.string();
                let mut s = String::new();
                s.append("(");
                s.append(ls.as_str());
                s.append(" ");
                s.append(ops.as_str());
                s.append(" ");
                s.append(rs.as_str());
                s.append(")");
                proof {
                    assert(s@ =~= gexpr_string(self@));
                }
                s
            },
            Expression::If { condition, consequence, alternative } => {
                let cs = condition.string();
                let qs = consequence.string();
                let mut s = String::new();
                s.append("if ");
                s.append(cs.as_str());
                s.append(" ");
                s.append(qs.as_str());
                match alternative {
                    Some(a) => {
                        let als = a.string();
                        s.append("else ");
                        s.append(als.as_str());
                    },
                    None => {},
                }
                proof {
                    assert(s@ =~= gexpr_string(self@));
                }
                s
            },
            Expression::Function { parameters, body } => {
                let mut parts: Vec<String> = Vec::new();
                let mut i: usize = 0;
                while i < parameters.len()
                    invariant
                        i <= parameters@.len(),
                        parts@.len() == i,
                        forall|j: int| 0 <= j < i
                            ==> (#[trigger] parts@[j])@ == parameters@[j].0@,
                    decreases parameters@.len() - i,
                {
                    parts.push(parameters[i].0.clone());
                    i = i + 1;
                }
                let joined = join_strings(&parts);
                let bs = body.string();
                let mut s = String::new();
                s.append("def(");
                s.append(joined.as_str());
                s.append(")");
                s.append(bs.as_str());
                proof {
                    lemma_strs_view_elems(parts@);
                    lemma_idents_view_elems(parameters@);
                    assert(strs_view(parts@) =~= idents_view(parameters@));
                    assert(s@ =~= gexpr_string(self@));
                }
                s
            },
            Expression::Call { callee, arguments } => {
                let cs = callee.string();
                let mut parts: Vec<String> = Vec::new();
                let mut i: usize = 0;
                while i < arguments.len()
                    invariant
                        i <= arguments@.len(),
                        parts@.len() == i,
                        forall|j: int| 0 <= j < i
                            ==> (#[trigger] parts@[j])@ == gexpr_string(expr_view(arguments@[j])),
                    decreases arguments@.len() - i,
                {
                    parts.push(arguments[i].string());
                    i = i + 1;
                }
                let joined = join_strings(&parts);
                let mut s = String::new();
                s.append(cs.as_str());
                s.append("(");
                s.append(joined.as_str());
                s.append(")");
                proof {
                    lemma_strs_view_elems(parts@);
                    lemma_exprs_view_elems(arguments@);
                    lemma_gexprs_strings_elems(exprs_view(arguments@));
                    assert(strs_view(parts@) =~= gexprs_strings(exprs_view(arguments@)));
                    assert(s@ =~= gexpr_string(self@));
                }
                s
            },
        }
    }

    /// The literal text of the token that leads the expression.
    pub fn token_literal(&self) -> (r: String)
        ensures
            r@ == gexpr_token_literal(self@),
        decreases *self,
    {
        match self {
            Expression::Identifier { name } => name.0.clone(),
            Expression::Literal { value } => match value {
                Literal::Integer(v) => i64_to_string(*v),
                Literal::Boolean(b) => if *b {
                    "true".to_owned()
                } else {
                    "false".to_owned()
                },
            },
            Expression::Prefix { operator, .. } => operator.string(),
            Expression::Infix { left, .. } => left.token_literal(),
            Expression::If { .. } => "if".to_owned(),
            Expression::Function { .. } => "def".to_owned(),
            Expression::Call { callee, .. } => callee.token_literal(),
        }
    }
}

impl Statement {
    /// The canonical text of the statement.
    pub fn string(&self) -> (r: String)
        ensures
            r@ == gstmt_string(self@),
        decreases *self, 0int,
    {
        match self {
            Statement::VariableBind { name, value } => {
                let vs = value.string();
                let mut s = String::new();
                s.append("var ");
                s.append(name.0.as_str());
                s.append(" = ");
                s.append(vs.as_str());
                s.append(";");
                proof {
                    assert(s@ =~= gstmt_string(self@));
                }
                s
            },
            Statement::Return { value } => {
                let vs = value.string();
                let mut s = String::new();
                s.append("ret ");
                s.append(vs.as_str());
                s.append(";");
                proof {
                    assert(s@ =~= gstmt_string(self@));
                }
                s
            },
            Statement::Expression { value } => value.string(),
            Statement::Block { statements } => stmts_concat(statements),
        }
    }

    /// The literal text of the token that leads the statement.
    pub fn token_literal(&self) -> (r: String)
        ensures
            r@ == gstmt_token_literal(self@),
        decreases *self,
    {
        match self {
            Statement::VariableBind { .. } => "var".to_owned(),
            Statement::Return { .. } => "ret".to_owned(),
            Statement::Expression { value } => value.token_literal(),
            Statement::Block { statements } => {
                if statements.len() == 0 {
                    "".to_owned()
                } else {
                    proof {
                        lemma_stmts_view_elems(statements@);
                    }
                    statements[0].token_literal()
                }
            },
        }
    }
}

impl Program {
    /// An empty program.
    pub fn new() -> (p: Program)
        ensures
            p.statements@.len() == 0,
            p@ == Seq::<GStmt>::empty(),
    {
        Program { statements: Vec::new() }
    }

    /// The canonical text of the whole program: its statements' texts, one
    /// after the other.
    pub fn string(&self) -> (r: String)
        ensures
            r@ == gstmts_string(self@),
    {
        stmts_concat(&self.statements)
    }

    /// The leading token literal of the first statement, or empty text.
    pub fn token_literal(&self) -> (r: String)
        ensures
            r@ == gprogram_token_literal(self@),
    {
        if self.statements.len() == 0 {
            "".to_owned()
        } else {
            proof {
                lemma_stmts_view_elems(self.statements@);
            }
            self.statements[0].token_literal()
        }
    }
}


} // verus!
