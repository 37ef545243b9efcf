use crate::color::Color;
use crate::color::ColorInt;
use crate::lexer::Token;
use crate::lexer::TokenV;
use std::collections::VecDeque;
use vstd::prelude::*;
use vstd::string::StringExecFns;

verus! {

/// A function call expression: a name and its ordered arguments.
#[derive(Debug)]
pub struct Call {
    pub name: String,
    pub args: Vec<Expression>,
}

/// An expression of the language. Calls nest arbitrarily.
#[derive(Debug)]
pub enum Expression {
    Int(ColorInt),
    Color(Color),
    Identifier(String),
    Call(Call),
}

/// A `let` binding: name on the left, expression on the right.
#[derive(Debug)]
pub struct LetStatement {
    pub left: String,
    pub right: Expression,
}

/// An `include` of another source file.
#[derive(Debug)]
pub struct IncludeStatement {
    pub path: String,
}

/// One statement: exactly one per `;`-delimited chunk.
#[derive(Debug)]
pub enum Statement {
    Let(LetStatement),
    Include(IncludeStatement),
}

/// The one way parsing fails.
#[derive(Debug, PartialEq, Eq, Structural, Clone, Copy)]
pub enum ParseFault {
    Syntax,
}

impl ParseFault {
    /// The fault message shown to the user.
    pub fn msg(&self) -> (r: String)
        ensures
            r@ == "ParseError: Syntax"@,
    {
        String::from_str("ParseError: Syntax")
    }
}

/// The mathematical value of a call.
pub struct CallV {
    pub name: Seq<char>,
    pub args: Seq<ExprV>,
}

/// The mathematical value of an expression.
pub enum ExprV {
    Int(ColorInt),
    Color(Color),
    Identifier(Seq<char>),
    Call(CallV),
}

/// The mathematical value of a statement.
pub enum StmtV {
    Let { name: Seq<char>, right: ExprV },
    Include { path: Seq<char> },
}

/// The value of an expression tree.
pub open spec fn sp_expr_view(e: Expression) -> ExprV
    decreases e,
{
    match e {
        Expression::Int(v) => ExprV::Int(v),
        Expression::Color(c) => ExprV::Color(c),
        Expression::Identifier(s) => ExprV::Identifier(s@),
        Expression::Call(c) => ExprV::Call(CallV { name: c.name@, args: sp_exprs_view(c.args@) }),
    }
}

/// The values of a list of expressions.
pub open spec fn sp_exprs_view(es: Seq<Expression>) -> Seq<ExprV>
    decreases es,
{
    if es.len() == 0 {
        Seq::<ExprV>::empty()
    } else {
        sp_exprs_view(es.drop_last()).push(sp_expr_view(es.last()))
    }
}

pub proof fn lemma_sp_exprs_view_len(es: Seq<Expression>)
    ensures
        sp_exprs_view(es).len() == es.len(),
    decreases es,
{
    if es.len() > 0 {
        lemma_sp_exprs_view_len(es.drop_last());
    }
}

pub proof fn lemma_sp_exprs_view_index(es: Seq<Expression>, i: int)
    requires
        0 <= i < es.len(),
    ensures
        sp_exprs_view(es).len() == es.len(),
        sp_exprs_view(es)[i] == sp_expr_view(es[i]),
    decreases es,
{
    lemma_sp_exprs_view_len(es);
    if i < es.len() - 1 {
        lemma_sp_exprs_view_index(es.drop_last(), i);
        assert(es.drop_last()[i] == es[i]);
    }
}

pub proof fn lemma_sp_exprs_view_push(es: Seq<Expression>, e: Expression)
    ensures
        sp_exprs_view(es.push(e)) == sp_exprs_view(es).push(sp_expr_view(e)),
{
    assert(es.push(e).drop_last() =~= es);
    assert(es.push(e).last() == e);
}

impl View for Expression {
    type V = ExprV;

    open spec fn view(&self) -> ExprV {
        sp_expr_view(*self)
    }
}

impl View for Call {
    type V = CallV;

    open spec fn view(&self) -> CallV {
        CallV { name: self.name@, args: sp_exprs_view(self.args@) }
    }
}

impl View for LetStatement {
    type V = StmtV;

    open spec fn view(&self) -> StmtV {
        StmtV::Let { name: self.left@, right: sp_expr_view(self.right) }
    }
}

impl View for IncludeStatement {
    type V = StmtV;

    open spec fn view(&self) -> StmtV {
        StmtV::Include { path: self.path@ }
    }
}

impl View for Statement {
    type V = StmtV;

    open spec fn view(&self) -> StmtV {
        match self {
            Statement::Let(ls) => ls@,
            Statement::Include(is) => is@,
        }
    }
}

/// Parsing one expression from the front of the tokens: a color literal, an
/// integer, an identifier, or (when a `(` follows an identifier) a call.
/// Returns the expression and the unconsumed tokens.
pub open spec fn sp_parse_expr(ts: Seq<TokenV>) -> Result<(ExprV, Seq<TokenV>), ParseFault>
    decreases ts.len(), 0int,
{
    if ts.len() == 0 {
        Err(ParseFault::Syntax)
    } else {
        match ts[0] {
            TokenV::HexColor(c) => Ok((ExprV::Color(c), ts.skip(1))),
            TokenV::Int(v) => Ok((ExprV::Int(v), ts.skip(1))),
            TokenV::Identifier(name) => {
                if ts.len() >= 2 && ts[1] is LeftPare {
                    sp_parse_call(name, ts.skip(1))
                } else {
                    Ok((ExprV::Identifier(name), ts.skip(1)))
                }
            },
            _ => Err(ParseFault::Syntax),
        }
    }
}

/// Parsing a call's parenthesised argument list, the leading `(` included.
pub open spec fn sp_parse_call(name: Seq<char>, ts: Seq<TokenV>) -> Result<
    (ExprV, Seq<TokenV>),
    ParseFault,
>
    decreases ts.len(), 0int,
{
    if ts.len() == 0 || !(ts[0] is LeftPare) {
        Err(ParseFault::Syntax)
    } else {
        let rest = ts.skip(1);
        if rest.len() > 0 && rest[0] is RightPare {
            Ok((ExprV::Call(CallV { name, args: Seq::<ExprV>::empty() }), rest.skip(1)))
        } else {
            match sp_parse_expr(rest) {
                Err(e) => Err(e),
                Ok((e0, r0)) => {
                    // an expression always consumes at least one token, so
                    // this guard only serves the termination check
                    if r0.len() < ts.len() {
                        match sp_parse_args_rest(r0) {
                            Err(e) => Err(e),
                            Ok((es, rem)) => Ok(
                                (ExprV::Call(CallV { name, args: seq![e0] + es }), rem),
                            ),
                        }
                    } else {
                        Err(ParseFault::Syntax)
                    }
                },
            }
        }
    }
}

/// Parsing what follows an argument: either the closing `)`, or a comma and
/// another argument. Returns the remaining arguments and the unconsumed
/// tokens after the `)`.
pub open spec fn sp_parse_args_rest(ts: Seq<TokenV>) -> Result<
    (Seq<ExprV>, Seq<TokenV>),
    ParseFault,
>
    decreases ts.len(), 1int,
{
    if ts.len() == 0 {
        Err(ParseFault::Syntax)
    } else if ts[0] is RightPare {
        Ok((Seq::<ExprV>::empty(), ts.skip(1)))
    } else if ts[0] is Comma {
        match sp_parse_expr(ts.skip(1)) {
            Err(e) => Err(e),
            Ok((e, r)) => {
                // an expression always consumes at least one token, so this
                // guard only serves the termination check
                if r.len() < ts.len() {
                    match sp_parse_args_rest(r) {
                        Err(e2) => Err(e2),
                        Ok((es, rem)) => Ok((seq![e] + es, rem)),
                    }
                } else {
                    Err(ParseFault::Syntax)
                }
            },
        }
    } else {
        Err(ParseFault::Syntax)
    }
}

/// Parsing `IDENT "=" expr` once the (possibly implicit) `let` and the name
/// have been read.
pub open spec fn sp_parse_assign_expr(name: Seq<char>, ts: Seq<TokenV>) -> Result<
    (StmtV, Seq<TokenV>),
    ParseFault,
> {
    if ts.len() == 0 || !(ts[0] is Assign) {
        Err(ParseFault::Syntax)
    } else {
        match sp_parse_expr(ts.skip(1)) {
            Err(e) => Err(e),
            Ok((e, rem)) => Ok((StmtV::Let { name, right: e }, rem)),
        }
    }
}

/// Parsing what follows the `let` keyword.
pub open spec fn sp_parse_let(ts: Seq<TokenV>) -> Result<(StmtV, Seq<TokenV>), ParseFault> {
    if ts.len() == 0 {
        Err(ParseFault::Syntax)
    } else {
        match ts[0] {
            TokenV::Identifier(name) => sp_parse_assign_expr(name, ts.skip(1)),
            _ => Err(ParseFault::Syntax),
        }
    }
}

/// Parsing what follows the `include` keyword: one identifier, the path.
pub open spec fn sp_parse_include(ts: Seq<TokenV>) -> Result<(StmtV, Seq<TokenV>), ParseFault> {
    if ts.len() == 0 {
        Err(ParseFault::Syntax)
    } else {
        match ts[0] {
            TokenV::Identifier(path) => Ok((StmtV::Include { path }, ts.skip(1))),
            _ => Err(ParseFault::Syntax),
        }
    }
}

/// Parsing one whole statement: `let IDENT = expr`, the keyword-free
/// `IDENT = expr`, or `include IDENT`. Tokens left over after the statement
/// are a syntax fault.
pub open spec fn sp_statement(ts: Seq<TokenV>) -> Result<StmtV, ParseFault> {
    if ts.len() == 0 {
        Err(ParseFault::Syntax)
    } else {
        let inner = match ts[0] {
            TokenV::Let => sp_parse_let(ts.skip(1)),
            TokenV::Identifier(name) => sp_parse_assign_expr(name, ts.skip(1)),
            TokenV::Include => sp_parse_include(ts.skip(1)),
            _ => Err(ParseFault::Syntax),
        };
        match inner {
            Err(e) => Err(e),
            Ok((stmt, rem)) => {
                if rem.len() == 0 {
                    Ok(stmt)
                } else {
                    Err(ParseFault::Syntax)
                }
            },
        }
    }
}

/// Joins arguments already parsed with the outcome of parsing the rest.
pub open spec fn sp_args_join(
    name: Seq<char>,
    acc: Seq<ExprV>,
    r: Result<(Seq<ExprV>, Seq<TokenV>), ParseFault>,
) -> Result<(ExprV, Seq<TokenV>), ParseFault> {
    match r {
        Err(e) => Err(e),
        Ok((es, rem)) => Ok((ExprV::Call(CallV { name, args: acc + es }), rem)),
    }
}

/// Pops the next token and demands that it be exactly `expected`.
fn check_next_token(tokens: &mut VecDeque<Token>, expected: Token) -> (r: Result<(), ParseFault>)
    ensures
        match r {
            Ok(_) => {
                &&& old(tokens)@.len() > 0
                &&& old(tokens)@[0]@ == expected@
                &&& final(tokens)@ == old(tokens)@.skip(1)
            },
            Err(e) => {
                &&& old(tokens)@.len() == 0 || old(tokens)@[0]@ != expected@
                &&& e == ParseFault::Syntax
            },
        },
{
    let tkn = match tokens.pop_front() {
        Some(t) => t,
        None => {
            return Err(ParseFault::Syntax);
        },
    };
    if tkn != expected {
        return Err(ParseFault::Syntax);
    }
    Ok(())
}

/// True when the next token is exactly `expected`; consumes nothing.
fn peek_token_is(tokens: &mut VecDeque<Token>, expected: Token) -> (r: bool)
    ensures
        r == (old(tokens)@.len() > 0 && old(tokens)@[0]@ == expected@),
        *final(tokens) == *old(tokens),
{
    if tokens.len() == 0 {
        return false;
    }
    let front = &tokens[0];
    *front == expected
}

/// Parses the argument list of the call `name(...)`, the `(` at the front
/// of `tokens` included.
#[verifier::loop_isolation(false)]
fn parse_function(name: String, tokens: &mut VecDeque<Token>) -> (r: Result<Call, ParseFault>)
    ensures
        match r {
            Ok(call) => {
                &&& sp_parse_call(name@, old(tokens).deep_view()) == Ok::<
                    (ExprV, Seq<TokenV>),
                    ParseFault,
                >((ExprV::Call(call@), final(tokens).deep_view()))
                &&& final(tokens)@.len() < old(tokens)@.len()
            },
            Err(e) => sp_parse_call(name@, old(tokens).deep_view()) == Err::<
                (ExprV, Seq<TokenV>),
                ParseFault,
            >(e),
        },
    decreases old(tokens)@.len(), 1int,
{
    let ghost ts0 = tokens.deep_view();
    let ghost name0 = name@;
    match check_next_token(tokens, Token::LeftPare) {
        Err(e) => {
            return Err(e);
        },
        Ok(_) => {},
    }
    proof {
        assert(tokens.deep_view() =~= ts0.skip(1));
    }
    if peek_token_is(tokens, Token::RightPare) {
        match check_next_token(tokens, Token::RightPare) {
            Err(e) => {
                proof {
                    assert(false);
                }
                return Err(e);
            },
            Ok(_) => {},
        }
        proof {
            assert(tokens.deep_view() =~= ts0.skip(1).skip(1));
        }
        let call = Call { name, args: Vec::new() };
        proof {
            assert(call@.args =~= Seq::<ExprV>::empty());
        }
        return Ok(call);
    }
    let mut args: Vec<Expression> = Vec::new();
    let first = match parse_expression(tokens) {
        Err(e) => {
            return Err(e);
        },
        Ok(e) => e,
    };
    args.push(first);
    proof {
        assert(args@ =~= seq![first]);
        assert(args@.drop_last() =~= Seq::<Expression>::empty());
        assert(args@.last() == first);
        assert(sp_exprs_view(Seq::<Expression>::empty()) == Seq::<ExprV>::empty());
        assert(sp_exprs_view(args@) == sp_exprs_view(args@.drop_last()).push(
            sp_expr_view(args@.last()),
        ));
        assert(sp_exprs_view(args@) =~= seq![sp_expr_view(first)]);
    }
    loop
        invariant
            args@.len() >= 1,
            tokens.deep_view().len() < ts0.len(),
            sp_parse_call(name0, ts0) == sp_args_join(
                name0,
                sp_exprs_view(args@),
                sp_parse_args_rest(tokens.deep_view()),
            ),
        decreases tokens@.len(),
    {
        let ghost cur = tokens.deep_view();
        if peek_token_is(tokens, Token::RightPare) {
            match check_next_token(tokens, Token::RightPare) {
                Err(e) => {
                    proof {
                        assert(false);
                    }
                    return Err(e);
                },
                Ok(_) => {},
            }
            proof {
                assert(tokens.deep_view() =~= cur.skip(1));
                assert(sp_parse_args_rest(cur) == Ok::<(Seq<ExprV>, Seq<TokenV>), ParseFault>(
                    (Seq::<ExprV>::empty(), cur.skip(1)),
                ));
            }
            let call = Call { name, args };
            proof {
                assert(call@.args =~= sp_exprs_view(call.args@) + Seq::<ExprV>::empty());
            }
            return Ok(call);
        }
        match check_next_token(tokens, Token::Comma) {
            Err(e) => {
                return Err(e);
            },
            Ok(_) => {},
        }
        proof {
            assert(tokens.deep_view() =~= cur.skip(1));
        }
        let next = match parse_expression(tokens) {
            Err(e) => {
                return Err(e);
            },
            Ok(e) => e,
        };
        let ghost args_old = args@;
        args.push(next);
        proof {
            assert(args@ =~= args_old.push(next));
            lemma_sp_exprs_view_push(args_old, next);
            let r_rest = sp_parse_args_rest(tokens.deep_view());
            match r_rest {
                Ok((es, rem)) => {
                    assert(sp_exprs_view(args_old) + (seq![sp_expr_view(next)] + es)
                        =~= sp_exprs_view(args@) + es);
                },
                Err(_) => {},
            }
        }
    }
}

/// Parses one expression from the front of the tokens.
fn parse_expression(tokens: &mut VecDeque<Token>) -> (r: Result<Expression, ParseFault>)
    ensures
        match r {
            Ok(e) => {
                &&& sp_parse_expr(old(tokens).deep_view()) == Ok::<
                    (ExprV, Seq<TokenV>),
                    ParseFault,
                >((e@, final(tokens).deep_view()))
                &&& final(tokens)@.len() < old(tokens)@.len()
            },
            Err(e) => sp_parse_expr(old(tokens).deep_view()) == Err::<
                (ExprV, Seq<TokenV>),
                ParseFault,
            >(e),
        },
    decreases old(tokens)@.len(), 0int,
{
    let ghost ts0 = tokens.deep_view();
    let front = match tokens.pop_front() {
        Some(t) => t,
        None => {
            return Err(ParseFault::Syntax);
        },
    };
    proof {
        assert(front@ == ts0[0]);
        assert(tokens.deep_view() =~= ts0.skip(1));
    }
    match front {
        Token::HexColor(color) => Ok(Expression::Color(color)),
        Token::Int(v) => Ok(Expression::Int(v)),
        Token::Identifier(name) => {
            if peek_token_is(tokens, Token::LeftPare) {
                proof {
                    assert(ts0.skip(1)[0] == ts0[1]);
                }
                match parse_function(name, tokens) {
                    Ok(call) => Ok(Expression::Call(call)),
                    Err(e) => Err(e),
                }
            } else {
                proof {
                    if ts0.len() >= 2 {
                        assert(ts0.skip(1)[0] == ts0[1]);
                    }
                }
                Ok(Expression::Identifier(name))
            }
        },
        _ => Err(ParseFault::Syntax),
    }
}

/// Parses what follows the `let` keyword: a name, `=`, and an expression.
fn parse_let_statement(tokens: &mut VecDeque<Token>) -> (r: Result<LetStatement, ParseFault>)
    ensures
        match r {
            Ok(ls) => sp_parse_let(old(tokens).deep_view()) == Ok::<
                (StmtV, Seq<TokenV>),
                ParseFault,
            >((ls@, final(tokens).deep_view())),
            Err(e) => sp_parse_let(old(tokens).deep_view()) == Err::<
                (StmtV, Seq<TokenV>),
                ParseFault,
            >(e),
        },
{
    let ghost ts0 = tokens.deep_view();
    let iden_token = match tokens.pop_front() {
        Some(t) => t,
        None => {
            return Err(ParseFault::Syntax);
        },
    };
    proof {
        assert(iden_token@ == ts0[0]);
        assert(tokens.deep_view() =~= ts0.skip(1));
    }
    let identifier = match iden_token {
        Token::Identifier(id) => id,
        _ => {
            return Err(ParseFault::Syntax);
        },
    };
    parse_short_let_statement(identifier, tokens)
}

/// Parses the keyword-free binding `name = expr`, the name already read.
fn parse_short_let_statement(identifier: String, tokens: &mut VecDeque<Token>) -> (r: Result<
    LetStatement,
    ParseFault,
>)
    ensures
        match r {
            Ok(ls) => sp_parse_assign_expr(identifier@, old(tokens).deep_view()) == Ok::<
                (StmtV, Seq<TokenV>),
                ParseFault,
            >((ls@, final(tokens).deep_view())),
            Err(e) => sp_parse_assign_expr(identifier@, old(tokens).deep_view()) == Err::<
                (StmtV, Seq<TokenV>),
                ParseFault,
            >(e),
        },
{
    let ghost ts0 = tokens.deep_view();
    match check_next_token(tokens, Token::Assign) {
        Err(e) => {
            return Err(e);
        },
        Ok(_) => {},
    }
    proof {
        assert(tokens.deep_view() =~= ts0.skip(1));
    }
    let exp = match parse_expression(tokens) {
        Err(e) => {
            return Err(e);
        },
        Ok(e) => e,
    };
    Ok(LetStatement { left: identifier, right: exp })
}

/// Parses what follows the `include` keyword: the path identifier.
fn parse_include_statement(tokens: &mut VecDeque<Token>) -> (r: Result<
    IncludeStatement,
    ParseFault,
>)
    ensures
        match r {
            Ok(is) => sp_parse_include(old(tokens).deep_view()) == Ok::<
                (StmtV, Seq<TokenV>),
                ParseFault,
            >((is@, final(tokens).deep_view())),
            Err(e) => sp_parse_include(old(tokens).deep_view()) == Err::<
                (StmtV, Seq<TokenV>),
                ParseFault,
            >(e),
        },
{
    let ghost ts0 = tokens.deep_view();
    let path_token = match tokens.pop_front() {
        Some(t) => t,
        None => {
            return Err(ParseFault::Syntax);
        },
    };
    proof {
        assert(path_token@ == ts0[0]);
        assert(tokens.deep_view() =~= ts0.skip(1));
    }
    let path = match path_token {
        Token::Identifier(s) => s,
        _ => {
            return Err(ParseFault::Syntax);
        },
    };
    Ok(IncludeStatement { path })
}

/// Parses the token sequence of one chunk into exactly one statement; any
/// unconsumed token is a syntax fault.
pub fn parse_tokens_to_statement(line_tokens: VecDeque<Token>) -> (r: Result<
    Statement,
    ParseFault,
>)
    ensures
        match r {
            Ok(stmt) => sp_statement(line_tokens.deep_view()) == Ok::<StmtV, ParseFault>(stmt@),
            Err(e) => sp_statement(line_tokens.deep_view()) == Err::<StmtV, ParseFault>(e),
        },
{
    let ghost ts0 = line_tokens.deep_view();
    let mut line_tokens = line_tokens;
    let front_token = match line_tokens.pop_front() {
        Some(t) => t,
        None => {
            return Err(ParseFault::Syntax);
        },
    };
    proof {
        assert(front_token@ == ts0[0]);
        assert(line_tokens.deep_view() =~= ts0.skip(1));
    }
    let stmt = match front_token {
        Token::Let => {
            match parse_let_statement(&mut line_tokens) {
                Ok(ls) => Statement::Let(ls),
                Err(e) => {
                    return Err(e);
                },
            }
        },
        Token::Identifier(identifier) => {
            match parse_short_let_statement(identifier, &mut line_tokens) {
                Ok(ls) => Statement::Let(ls),
                Err(e) => {
                    return Err(e);
                },
            }
        },
        Token::Include => {
            match parse_include_statement(&mut line_tokens) {
                Ok(is) => Statement::Include(is),
                Err(e) => {
                    return Err(e);
                },
            }
        },
        _ => {
            return Err(ParseFault::Syntax);
        },
    };
    if line_tokens.len() != 0 {
        return Err(ParseFault::Syntax);
    }
    Ok(stmt)
}

} // verus!
