use vstd::prelude::*;

use crate::error::CellError;
use crate::num::{num_parse, parse_num_of};
use crate::scanner::{tokens_view, Token, TokenModel};

verus! {

// The parser is recursive descent over the token stream. A program is a
// sequence of `param NAME ;` and `cell NAME : EXPR ;` declarations. A binary
// expression is `PRIMARY [ OP EXPR ]`: every operator has the same
// precedence and groups to the right, so `1 - 2 - 3` reads as `1 - (2 - 3)`;
// parentheses are the way to group otherwise. A conditional is
// `if LHS CMP RHS ? EXPR : EXPR` and stands wherever a primary may.

/// A program: its declarations in source order.
#[derive(Debug, PartialEq)]
pub struct AST {
    pub nodes: Vec<Node>,
}

/// One top-level declaration.
#[derive(Debug, PartialEq)]
pub enum Node {
    Param(Param),
    Cell(Cell),
}

/// A parameter declaration: an input bound at evaluation time.
#[derive(Debug, PartialEq)]
pub struct Param {
    pub name: String,
}

/// A cell declaration: a named expression.
#[derive(Debug, PartialEq)]
pub struct Cell {
    pub name: String,
    pub expr: Expr,
}

/// A comparison operator of a conditional.
#[derive(Debug, Clone, Copy, PartialEq, Eq, Structural)]
pub enum Operator {
    Equals,
    Greater,
    GreaterEqual,
    Less,
    LessEqual,
}

/// An expression tree.
#[derive(Debug, PartialEq)]
pub enum Expr {
    Atom(Atom),
    Add(Box<Expr>, Box<Expr>),
    Mod(Box<Expr>, Box<Expr>),
    Sub(Box<Expr>, Box<Expr>),
    Mul(Box<Expr>, Box<Expr>),
    Div(Box<Expr>, Box<Expr>),
    Condition {
        lhs: Box<Expr>,
        rhs: Box<Expr>,
        op: Operator,
        true_branch: Box<Expr>,
        false_branch: Box<Expr>,
    },
}

/// A leaf of an expression. A number atom keeps both its binary64 bit
/// pattern and the literal text it was written as.
#[derive(Debug, PartialEq)]
pub enum Atom {
    Number { bits: u64, text: String },
    Ident(String),
    Call { name: String, arguments: Vec<Expr> },
}

/// The mathematical shadow of `Atom`.
pub enum AtomModel {
    Number { bits: u64, text: Seq<char> },
    Ident(Seq<char>),
    Call { name: Seq<char>, arguments: Seq<ExprModel> },
}

/// The mathematical shadow of `Expr`.
pub enum ExprModel {
    Atom(AtomModel),
    Add(Box<ExprModel>, Box<ExprModel>),
    Mod(Box<ExprModel>, Box<ExprModel>),
    Sub(Box<ExprModel>, Box<ExprModel>),
    Mul(Box<ExprModel>, Box<ExprModel>),
    Div(Box<ExprModel>, Box<ExprModel>),
    Condition {
        lhs: Box<ExprModel>,
        rhs: Box<ExprModel>,
        op: Operator,
        true_branch: Box<ExprModel>,
        false_branch: Box<ExprModel>,
    },
}

/// The mathematical shadow of `Node`.
pub enum NodeModel {
    Param { name: Seq<char> },
    Cell { name: Seq<char>, expr: ExprModel },
}

pub open spec fn expr_view(e: Expr) -> ExprModel
    decreases e,
{
    match e {
        Expr::Atom(a) => ExprModel::Atom(atom_view(a)),
        Expr::Add(l, r) => ExprModel::Add(Box::new(expr_view(*l)), Box::new(expr_view(*r))),
        Expr::Mod(l, r) => ExprModel::Mod(Box::new(expr_view(*l)), Box::new(expr_view(*r))),
        Expr::Sub(l, r) => ExprModel::Sub(Box::new(expr_view(*l)), Box::new(expr_view(*r))),
        Expr::Mul(l, r) => ExprModel::Mul(Box::new(expr_view(*l)), Box::new(expr_view(*r))),
        Expr::Div(l, r) => ExprModel::Div(Box::new(expr_view(*l)), Box::new(expr_view(*r))),
        Expr::Condition { lhs, rhs, op, true_branch, false_branch } => ExprModel::Condition {
            lhs: Box::new(expr_view(*lhs)),
            rhs: Box::new(expr_view(*rhs)),
            op,
            true_branch: Box::new(expr_view(*true_branch)),
            false_branch: Box::new(expr_view(*false_branch)),
        },
    }
}

pub open spec fn atom_view(a: Atom) -> AtomModel
    decreases a,
{
    match a {
        Atom::Number { bits, text } => AtomModel::Number { bits, text: text@ },
        Atom::Ident(s) => AtomModel::Ident(s@),
        Atom::Call { name, arguments } => AtomModel::Call {
            name: name@,
            arguments: exprs_view(arguments@),
        },
    }
}

pub open spec fn exprs_view(es: Seq<Expr>) -> Seq<ExprModel>
    decreases es,
{
    if es.len() == 0 {
        Seq::empty()
    } else {
        seq![expr_view(es[0])] + exprs_view(es.subrange(1, es.len() as int))
    }
}

impl View for Expr {
    type V = ExprModel;

    open spec fn view(&self) -> ExprModel {
        expr_view(*self)
    }
}

impl View for Atom {
    type V = AtomModel;

    open spec fn view(&self) -> AtomModel {
        atom_view(*self)
    }
}

impl View for Param {
    type V = NodeModel;

    open spec fn view(&self) -> NodeModel {
        NodeModel::Param { name: self.name@ }
    }
}

impl View for Cell {
    type V = NodeModel;

    open spec fn view(&self) -> NodeModel {
        NodeModel::Cell { name: self.name@, expr: self.expr@ }
    }
}

impl View for Node {
    type V = NodeModel;

    open spec fn view(&self) -> NodeModel {
        match self {
            Node::Param(p) => p@,
            Node::Cell(c) => c@,
        }
    }
}

/// A node sequence, seen through each node's model.
pub open spec fn nodes_view(ns: Seq<Node>) -> Seq<NodeModel> {
    ns.map_values(|n: Node| n@)
}

impl View for AST {
    type V = Seq<NodeModel>;

    open spec fn view(&self) -> Seq<NodeModel> {
        nodes_view(self.nodes@)
    }
}

/// The binary arithmetic tokens.
pub open spec fn is_binop(t: TokenModel) -> bool {
    t is Add || t is Sub || t is Mul || t is Div || t is Mod
}

/// The expression a binary token builds.
pub open spec fn bin_model(t: TokenModel, l: ExprModel, r: ExprModel) -> ExprModel {
    match t {
        TokenModel::Add => ExprModel::Add(Box::new(l), Box::new(r)),
        TokenModel::Sub => ExprModel::Sub(Box::new(l), Box::new(r)),
        TokenModel::Mul => ExprModel::Mul(Box::new(l), Box::new(r)),
        TokenModel::Div => ExprModel::Div(Box::new(l), Box::new(r)),
        _ => ExprModel::Mod(Box::new(l), Box::new(r)),
    }
}

/// The comparison operator of a token, if any.
pub open spec fn cmp_op_model(t: TokenModel) -> Option<Operator> {
    match t {
        TokenModel::Equal => Some(Operator::Equals),
        TokenModel::Greater => Some(Operator::Greater),
        TokenModel::GreaterEqual => Some(Operator::GreaterEqual),
        TokenModel::Less => Some(Operator::Less),
        TokenModel::LessEqual => Some(Operator::LessEqual),
        _ => None,
    }
}

/// The continuation position after a sub-parse that returned `q`, bounded
/// so that the recursion is visibly well-founded: past `p`, at most `len`.
/// A successful sub-parse always returns `p < q <= len`, so the bound is
/// the identity on every reachable path.
pub open spec fn nxt(len: nat, p: nat, q: nat) -> nat {
    let a: nat = if q > p { q } else { (p + 1) as nat };
    if a > len {
        len
    } else {
        a
    }
}

/// Parse one atom at `p`: a call, an identifier, or a number literal.
/// Returns the atom and the position after it, or the failing position.
pub open spec fn parse_atom_spec(ts: Seq<TokenModel>, p: nat) -> Result<(AtomModel, nat), nat>
    decreases ts.len() - p, 2int,
{
    if p >= ts.len() {
        Err(p)
    } else {
        match ts[p as int] {
            TokenModel::Ident(x) => if p + 1 < ts.len() && ts[p as int + 1] is ParOpen {
                match parse_args_spec(ts, p + 2) {
                    Ok((args, q)) => Ok((AtomModel::Call { name: x, arguments: args }, q)),
                    Err(e) => Err(e),
                }
            } else {
                Ok((AtomModel::Ident(x), p + 1))
            },
            TokenModel::Number(x) => match parse_num_of(x) {
                Some(bits) => Ok((AtomModel::Number { bits, text: x }, p + 1)),
                None => Err(p),
            },
            _ => Err(p),
        }
    }
}

/// Parse a call's argument list at `p`, just after the opening parenthesis:
/// either a closing parenthesis at once, or comma-separated expressions.
pub open spec fn parse_args_spec(ts: Seq<TokenModel>, p: nat) -> Result<
    (Seq<ExprModel>, nat),
    nat,
>
    decreases ts.len() - p, 5int,
{
    if p >= ts.len() {
        Err(p)
    } else if ts[p as int] is ParClose {
        Ok((Seq::empty(), p + 1))
    } else {
        parse_more_args_spec(ts, p)
    }
}

/// Parse one or more comma-separated arguments at `p`, up to and past the
/// closing parenthesis.
pub open spec fn parse_more_args_spec(ts: Seq<TokenModel>, p: nat) -> Result<
    (Seq<ExprModel>, nat),
    nat,
>
    decreases ts.len() - p, 4int,
{
    if p >= ts.len() {
        Err(p)
    } else {
        match parse_expr_spec(ts, p) {
            Ok((e, q)) => if q < ts.len() && ts[q as int] is ParClose {
                Ok((seq![e], q + 1))
            } else if q < ts.len() && ts[q as int] is Comma {
                match parse_more_args_spec(ts, nxt(ts.len(), p, q + 1)) {
                    Ok((rest, r)) => Ok((seq![e] + rest, r)),
                    Err(e2) => Err(e2),
                }
            } else {
                Err(q)
            },
            Err(e) => Err(e),
        }
    }
}

/// Parse a conditional at `p`, which holds the `if` token:
/// `if LHS CMP RHS ? EXPR : EXPR`.
pub open spec fn parse_cond_spec(ts: Seq<TokenModel>, p: nat) -> Result<(ExprModel, nat), nat>
    decreases ts.len() - p, 2int,
{
    if p >= ts.len() {
        Err(p)
    } else {
        match parse_expr_spec(ts, p + 1) {
            Ok((lhs, q1)) => if q1 < ts.len() && cmp_op_model(ts[q1 as int]) is Some {
                let op = cmp_op_model(ts[q1 as int])->Some_0;
                match parse_expr_spec(ts, nxt(ts.len(), p, q1 + 1)) {
                    Ok((rhs, q2)) => if q2 < ts.len() && ts[q2 as int] is QMark {
                        match parse_expr_spec(ts, nxt(ts.len(), p, q2 + 1)) {
                            Ok((tb, q3)) => if q3 < ts.len() && ts[q3 as int] is Colon {
                                match parse_expr_spec(ts, nxt(ts.len(), p, q3 + 1)) {
                                    Ok((fb, q4)) => Ok(
                                        (
                                            ExprModel::Condition {
                                                lhs: Box::new(lhs),
                                                rhs: Box::new(rhs),
                                                op,
                                                true_branch: Box::new(tb),
                                                false_branch: Box::new(fb),
                                            },
                                            q4,
                                        ),
                                    ),
                                    Err(e) => Err(e),
                                }
                            } else {
                                Err(q3)
                            },
                            Err(e) => Err(e),
                        }
                    } else {
                        Err(q2)
                    },
                    Err(e) => Err(e),
                }
            } else {
                Err(q1)
            },
            Err(e) => Err(e),
        }
    }
}

/// Parse an expression at `p`: a primary — a parenthesized expression, a
/// conditional, or an atom — then, where a binary operator follows, a whole
/// expression as its right operand.
pub open spec fn parse_expr_spec(ts: Seq<TokenModel>, p: nat) -> Result<(ExprModel, nat), nat>
    decreases ts.len() - p, 3int,
{
    if p >= ts.len() {
        Err(p)
    } else {
        let prim = if ts[p as int] is ParOpen {
            match parse_expr_spec(ts, p + 1) {
                Ok((e, q)) => if q < ts.len() && ts[q as int] is ParClose {
                    Ok((e, (q + 1) as nat))
                } else {
                    Err(q)
                },
                Err(e) => Err(e),
            }
        } else if ts[p as int] is If {
            parse_cond_spec(ts, p)
        } else {
            match parse_atom_spec(ts, p) {
                Ok((a, q)) => Ok((ExprModel::Atom(a), q)),
                Err(e) => Err(e),
            }
        };
        match prim {
            Ok((e1, q)) => if q < ts.len() && is_binop(ts[q as int]) {
                match parse_expr_spec(ts, nxt(ts.len(), p, q + 1)) {
                    Ok((e2, r)) => Ok((bin_model(ts[q as int], e1, e2), r)),
                    Err(e) => Err(e),
                }
            } else {
                Ok((e1, q))
            },
            Err(e) => Err(e),
        }
    }
}

/// Parse the whole program from `p`: declarations to the end of the stream.
pub open spec fn parse_spec(ts: Seq<TokenModel>, p: nat) -> Result<Seq<NodeModel>, nat>
    decreases ts.len() - p, 4int,
{
    if p >= ts.len() {
        Ok(Seq::empty())
    } else if ts[p as int] is Param {
        if p + 2 < ts.len() && ts[p as int + 1] is Ident && ts[p as int + 2] is SemiColon {
            let name = ts[p as int + 1]->Ident_0;
            match parse_spec(ts, p + 3) {
                Ok(rest) => Ok(seq![NodeModel::Param { name }] + rest),
                Err(e) => Err(e),
            }
        } else {
            Err(p + 1)
        }
    } else if ts[p as int] is Cell {
        if p + 2 < ts.len() && ts[p as int + 1] is Ident && ts[p as int + 2] is Colon {
            let name = ts[p as int + 1]->Ident_0;
            match parse_expr_spec(ts, p + 3) {
                Ok((e, q)) => if q < ts.len() && ts[q as int] is SemiColon {
                    match parse_spec(ts, nxt(ts.len(), p, q + 1)) {
                        Ok(rest) => Ok(seq![NodeModel::Cell { name, expr: e }] + rest),
                        Err(e2) => Err(e2),
                    }
                } else {
                    Err(q)
                },
                Err(e) => Err(e),
            }
        } else {
            Err(p + 1)
        }
    } else {
        Err(p)
    }
}

/// A successful sub-parse consumes at least one token and never passes the
/// end of the stream.
pub proof fn lemma_parse_atom_wf(ts: Seq<TokenModel>, p: nat)
    ensures
        parse_atom_spec(ts, p) matches Ok((a, q)) ==> p < q <= ts.len(),
    decreases ts.len() - p, 2int,
{
    if p < ts.len() {
        if ts[p as int] is Ident && p + 1 < ts.len() && ts[p as int + 1] is ParOpen {
            lemma_parse_args_wf(ts, p + 2);
        }
    }
}

pub proof fn lemma_parse_args_wf(ts: Seq<TokenModel>, p: nat)
    ensures
        parse_args_spec(ts, p) matches Ok((a, q)) ==> p < q <= ts.len(),
    decreases ts.len() - p, 5int,
{
    if p < ts.len() && !(ts[p as int] is ParClose) {
        lemma_parse_more_args_wf(ts, p);
    }
}

pub proof fn lemma_parse_more_args_wf(ts: Seq<TokenModel>, p: nat)
    ensures
        parse_more_args_spec(ts, p) matches Ok((a, q)) ==> p < q <= ts.len(),
    decreases ts.len() - p, 4int,
{
    if p < ts.len() {
        lemma_parse_expr_wf(ts, p);
        if let Ok((e, q)) = parse_expr_spec(ts, p) {
            if q < ts.len() && ts[q as int] is Comma {
                lemma_parse_more_args_wf(ts, nxt(ts.len(), p, q + 1));
            }
        }
    }
}

pub proof fn lemma_parse_cond_wf(ts: Seq<TokenModel>, p: nat)
    ensures
        parse_cond_spec(ts, p) matches Ok((e, q)) ==> p < q <= ts.len(),
    decreases ts.len() - p, 2int,
{
    if p < ts.len() {
        lemma_parse_expr_wf(ts, p + 1);
        if let Ok((lhs, q1)) = parse_expr_spec(ts, p + 1) {
            if q1 < ts.len() && cmp_op_model(ts[q1 as int]) is Some {
                lemma_parse_expr_wf(ts, nxt(ts.len(), p, q1 + 1));
                if let Ok((rhs, q2)) = parse_expr_spec(ts, nxt(ts.len(), p, q1 + 1)) {
                    if q2 < ts.len() && ts[q2 as int] is QMark {
                        lemma_parse_expr_wf(ts, nxt(ts.len(), p, q2 + 1));
                        if let Ok((tb, q3)) = parse_expr_spec(ts, nxt(ts.len(), p, q2 + 1)) {
                            if q3 < ts.len() && ts[q3 as int] is Colon {
                                lemma_parse_expr_wf(ts, nxt(ts.len(), p, q3 + 1));
                            }
                        }
                    }
                }
            }
        }
    }
}

pub proof fn lemma_parse_expr_wf(ts: Seq<TokenModel>, p: nat)
    ensures
        parse_expr_spec(ts, p) matches Ok((e, q)) ==> p < q <= ts.len(),
    decreases ts.len() - p, 3int,
{
    if p < ts.len() {
        if ts[p as int] is ParOpen {
            lemma_parse_expr_wf(ts, p + 1);
        } else if ts[p as int] is If {
            lemma_parse_cond_wf(ts, p);
        } else {
            lemma_parse_atom_wf(ts, p);
        }
        let prim = if ts[p as int] is ParOpen {
            match parse_expr_spec(ts, p + 1) {
                Ok((e, q)) => if q < ts.len() && ts[q as int] is ParClose {
                    Ok((e, (q + 1) as nat))
                } else {
                    Err(q)
                },
                Err(e) => Err(e),
            }
        } else if ts[p as int] is If {
            parse_cond_spec(ts, p)
        } else {
            match parse_atom_spec(ts, p) {
                Ok((a, q)) => Ok((ExprModel::Atom(a), q)),
                Err(e) => Err(e),
            }
        };
        if let Ok((e1, q)) = prim {
            if q < ts.len() && is_binop(ts[q as int]) {
                lemma_parse_expr_wf(ts, nxt(ts.len(), p, q + 1));
            }
        }
    }
}

impl Token {
    /// Whether this token is a binary arithmetic operator.
    pub fn is_operator(&self) -> (r: bool)
        ensures
            r == is_binop(self@),
    {
        match self {
            Token::Mul | Token::Add | Token::Sub | Token::Div | Token::Mod => true,
            _ => false,
        }
    }
}

proof fn lemma_exprs_prepend(e: Expr, rest: Seq<Expr>)
    ensures
        exprs_view(rest.insert(0, e)) == seq![expr_view(e)] + exprs_view(rest),
{
    let s = rest.insert(0, e);
    assert(s.len() > 0);
    assert(s[0] == e);
    assert(s.subrange(1, s.len() as int) =~= rest);
}

/// Parse one atom at `p`: a call, an identifier, or a number literal.
fn parse_atom(ts: &Vec<Token>, p: usize) -> (r: Result<(Atom, usize), CellError>)
    ensures
        match r {
            Ok((a, q)) => parse_atom_spec(tokens_view(ts@), p as nat) == Ok::<
                (AtomModel, nat),
                nat,
            >((a@, q as nat)) && p < q <= ts@.len(),
            Err(e) => e matches CellError::Parse { position } && parse_atom_spec(
                tokens_view(ts@),
                p as nat,
            ) == Err::<(AtomModel, nat), nat>(position as nat),
        },
    decreases ts@.len() - p, 2int,
{
    let ghost tv = tokens_view(ts@);
    if p >= ts.len() {
        return Err(CellError::Parse { position: p });
    }
    proof {
        assert(tv[p as int] == ts@[p as int]@);
    }
    match &ts[p] {
        Token::Ident(x) => {
            if p + 1 < ts.len() && matches!(&ts[p + 1], Token::ParOpen) {
                proof {
                    assert(tv[p as int + 1] == ts@[p as int + 1]@);
                    lemma_parse_args_wf(tv, (p + 2) as nat);
                }
                match parse_args(ts, p + 2) {
                    Ok((args, q)) => Ok((Atom::Call { name: x.clone(), arguments: args }, q)),
                    Err(e) => Err(e),
                }
            } else {
                proof {
                    if p + 1 < ts@.len() {
                        assert(tv[p as int + 1] == ts@[p as int + 1]@);
                    }
                }
                Ok((Atom::Ident(x.clone()), p + 1))
            }
        },
        Token::Number(x) => {
            match num_parse(x.as_str()) {
                Some(bits) => Ok((Atom::Number { bits, text: x.clone() }, p + 1)),
                None => Err(CellError::Parse { position: p }),
            }
        },
        _ => Err(CellError::Parse { position: p }),
    }
}

/// Parse a call's argument list at `p`, just after the opening parenthesis.
fn parse_args(ts: &Vec<Token>, p: usize) -> (r: Result<(Vec<Expr>, usize), CellError>)
    ensures
        match r {
            Ok((args, q)) => parse_args_spec(tokens_view(ts@), p as nat) == Ok::<
                (Seq<ExprModel>, nat),
                nat,
            >((exprs_view(args@), q as nat)) && p < q <= ts@.len(),
            Err(e) => e matches CellError::Parse { position } && parse_args_spec(
                tokens_view(ts@),
                p as nat,
            ) == Err::<(Seq<ExprModel>, nat), nat>(position as nat),
        },
    decreases ts@.len() - p, 5int,
{
    let ghost tv = tokens_view(ts@);
    if p >= ts.len() {
        return Err(CellError::Parse { position: p });
    }
    proof {
        assert(tv[p as int] == ts@[p as int]@);
    }
    if matches!(&ts[p], Token::ParClose) {
        proof {
            assert(exprs_view(Seq::<Expr>::empty()) =~= Seq::<ExprModel>::empty());
        }
        Ok((Vec::new(), p + 1))
    } else {
        parse_more_args(ts, p)
    }
}

/// Parse one or more comma-separated arguments at `p`, up to and past the
/// closing parenthesis.
fn parse_more_args(ts: &Vec<Token>, p: usize) -> (r: Result<(Vec<Expr>, usize), CellError>)
    ensures
        match r {
            Ok((args, q)) => parse_more_args_spec(tokens_view(ts@), p as nat) == Ok::<
                (Seq<ExprModel>, nat),
                nat,
            >((exprs_view(args@), q as nat)) && p < q <= ts@.len(),
            Err(e) => e matches CellError::Parse { position } && parse_more_args_spec(
                tokens_view(ts@),
                p as nat,
            ) == Err::<(Seq<ExprModel>, nat), nat>(position as nat),
        },
    decreases ts@.len() - p, 4int,
{
    let ghost tv = tokens_view(ts@);
    if p >= ts.len() {
        return Err(CellError::Parse { position: p });
    }
    let (e, q) = match parse_expr(ts, p) {
        Ok(x) => x,
        Err(er) => {
            return Err(er);
        },
    };
    proof {
        if q < ts@.len() {
            assert(tv[q as int] == ts@[q as int]@);
        }
    }
    if q < ts.len() && matches!(&ts[q], Token::ParClose) {
        let mut args: Vec<Expr> = Vec::new();
        proof {
            lemma_exprs_prepend(e, args@);
        }
        args.insert(0, e);
        Ok((args, q + 1))
    } else if q < ts.len() && matches!(&ts[q], Token::Comma) {
        proof {
            assert(nxt(tv.len(), p as nat, (q + 1) as nat) == (q + 1) as nat);
        }
        let (mut rest, r) = match parse_more_args(ts, q + 1) {
            Ok(x) => x,
            Err(er) => {
                return Err(er);
            },
        };
        proof {
            lemma_exprs_prepend(e, rest@);
        }
        rest.insert(0, e);
        Ok((rest, r))
    } else {
        Err(CellError::Parse { position: q })
    }
}

/// Parse a conditional at `p`, which holds the `if` token.
fn parse_cond(ts: &Vec<Token>, p: usize) -> (r: Result<(Expr, usize), CellError>)
    ensures
        match r {
            Ok((e, q)) => parse_cond_spec(tokens_view(ts@), p as nat) == Ok::<
                (ExprModel, nat),
                nat,
            >((e@, q as nat)) && p < q <= ts@.len(),
            Err(e) => e matches CellError::Parse { position } && parse_cond_spec(
                tokens_view(ts@),
                p as nat,
            ) == Err::<(ExprModel, nat), nat>(position as nat),
        },
    decreases ts@.len() - p, 2int,
{
    let ghost tv = tokens_view(ts@);
    if p >= ts.len() {
        return Err(CellError::Parse { position: p });
    }
    let (lhs, q1) = match parse_expr(ts, p + 1) {
        Ok(x) => x,
        Err(er) => {
            return Err(er);
        },
    };
    proof {
        if q1 < ts@.len() {
            assert(tv[q1 as int] == ts@[q1 as int]@);
        }
    }
    if !(q1 < ts.len()) {
        return Err(CellError::Parse { position: q1 });
    }
    let op = match &ts[q1] {
        Token::Equal => Operator::Equals,
        Token::Greater => Operator::Greater,
        Token::GreaterEqual => Operator::GreaterEqual,
        Token::Less => Operator::Less,
        Token::LessEqual => Operator::LessEqual,
        _ => {
            return Err(CellError::Parse { position: q1 });
        },
    };
    proof {
        assert(nxt(tv.len(), p as nat, (q1 + 1) as nat) == (q1 + 1) as nat);
    }
    let (rhs, q2) = match parse_expr(ts, q1 + 1) {
        Ok(x) => x,
        Err(er) => {
            return Err(er);
        },
    };
    proof {
        if q2 < ts@.len() {
            assert(tv[q2 as int] == ts@[q2 as int]@);
        }
    }
    if !(q2 < ts.len() && matches!(&ts[q2], Token::QMark)) {
        return Err(CellError::Parse { position: q2 });
    }
    proof {
        assert(nxt(tv.len(), p as nat, (q2 + 1) as nat) == (q2 + 1) as nat);
    }
    let (tb, q3) = match parse_expr(ts, q2 + 1) {
        Ok(x) => x,
        Err(er) => {
            return Err(er);
        },
    };
    proof {
        if q3 < ts@.len() {
            assert(tv[q3 as int] == ts@[q3 as int]@);
        }
    }
    if !(q3 < ts.len() && matches!(&ts[q3], Token::Colon)) {
        return Err(CellError::Parse { position: q3 });
    }
    proof {
        assert(nxt(tv.len(), p as nat, (q3 + 1) as nat) == (q3 + 1) as nat);
    }
    let (fb, q4) = match parse_expr(ts, q3 + 1) {
        Ok(x) => x,
        Err(er) => {
            return Err(er);
        },
    };
    Ok(
        (
            Expr::Condition {
                lhs: Box::new(lhs),
                rhs: Box::new(rhs),
                op,
                true_branch: Box::new(tb),
                false_branch: Box::new(fb),
            },
            q4,
        ),
    )
}

/// Parse an expression at `p`: a primary, then, where a binary operator
/// follows, a whole expression as its right operand.
fn parse_expr(ts: &Vec<Token>, p: usize) -> (r: Result<(Expr, usize), CellError>)
    ensures
        match r {
            Ok((e, q)) => parse_expr_spec(tokens_view(ts@), p as nat) == Ok::<
                (ExprModel, nat),
                nat,
            >((e@, q as nat)) && p < q <= ts@.len(),
            Err(e) => e matches CellError::Parse { position } && parse_expr_spec(
                tokens_view(ts@),
                p as nat,
            ) == Err::<(ExprModel, nat), nat>(position as nat),
        },
    decreases ts@.len() - p, 3int,
{
    let ghost tv = tokens_view(ts@);
    if p >= ts.len() {
        return Err(CellError::Parse { position: p });
    }
    proof {
        assert(tv[p as int] == ts@[p as int]@);
    }
    let (e1, q) = if matches!(&ts[p], Token::ParOpen) {
        let (e, q0) = match parse_expr(ts, p + 1) {
            Ok(x) => x,
            Err(er) => {
                return Err(er);
            },
        };
        proof {
            if q0 < ts@.len() {
                assert(tv[q0 as int] == ts@[q0 as int]@);
            }
        }
        if q0 < ts.len() && matches!(&ts[q0], Token::ParClose) {
            (e, q0 + 1)
        } else {
            return Err(CellError::Parse { position: q0 });
        }
    } else if matches!(&ts[p], Token::If) {
        match parse_cond(ts, p) {
            Ok(x) => x,
            Err(er) => {
                return Err(er);
            },
        }
    } else {
        match parse_atom(ts, p) {
            Ok((a, q0)) => (Expr::Atom(a), q0),
            Err(er) => {
                return Err(er);
            },
        }
    };
    proof {
        if q < ts@.len() {
            assert(tv[q as int] == ts@[q as int]@);
        }
    }
    if q < ts.len() && ts[q].is_operator() {
        proof {
            assert(nxt(tv.len(), p as nat, (q + 1) as nat) == (q + 1) as nat);
        }
        let (e2, r) = match parse_expr(ts, q + 1) {
            Ok(x) => x,
            Err(er) => {
                return Err(er);
            },
        };
        let bin = match &ts[q] {
            Token::Add => Expr::Add(Box::new(e1), Box::new(e2)),
            Token::Sub => Expr::Sub(Box::new(e1), Box::new(e2)),
            Token::Mul => Expr::Mul(Box::new(e1), Box::new(e2)),
            Token::Div => Expr::Div(Box::new(e1), Box::new(e2)),
            _ => Expr::Mod(Box::new(e1), Box::new(e2)),
        };
        Ok((bin, r))
    } else {
        Ok((e1, q))
    }
}

/// Parse a parameter declaration whose name stands at `p`, just after the
/// `param` keyword: `NAME ;`.
pub fn parse_param(ts: &Vec<Token>, p: usize) -> (r: Result<(Param, usize), CellError>)
    ensures
        match r {
            Ok((pa, q)) => {
                &&& q == p + 2 <= ts@.len()
                &&& p < ts@.len()
                &&& tokens_view(ts@)[p as int] matches TokenModel::Ident(n) && pa@ == (
                NodeModel::Param { name: n })
                &&& tokens_view(ts@)[p as int + 1] is SemiColon
            },
            Err(e) => {
                &&& e matches CellError::Parse { position } && position == p
                &&& !(p + 1 < ts@.len() && tokens_view(ts@)[p as int] is Ident && tokens_view(
                    ts@,
                )[p as int + 1] is SemiColon)
            },
        },
{
    let ghost tv = tokens_view(ts@);
    if p >= ts.len() || ts.len() - p < 2 {
        return Err(CellError::Parse { position: p });
    }
    proof {
        assert(tv[p as int] == ts@[p as int]@);
        assert(tv[p as int + 1] == ts@[p as int + 1]@);
    }
    match (&ts[p], &ts[p + 1]) {
        (Token::Ident(x), Token::SemiColon) => Ok((Param { name: x.clone() }, p + 2)),
        _ => Err(CellError::Parse { position: p }),
    }
}

/// Parse declarations from `p` to the end of the stream.
fn parse_nodes(ts: &Vec<Token>, p: usize) -> (r: Result<Vec<Node>, CellError>)
    ensures
        match r {
            Ok(ns) => parse_spec(tokens_view(ts@), p as nat) == Ok::<Seq<NodeModel>, nat>(
                nodes_view(ns@),
            ),
            Err(e) => e matches CellError::Parse { position } && parse_spec(
                tokens_view(ts@),
                p as nat,
            ) == Err::<Seq<NodeModel>, nat>(position as nat),
        },
    decreases ts@.len() - p, 6int,
{
    let ghost tv = tokens_view(ts@);
    if p >= ts.len() {
        proof {
            assert(nodes_view(Seq::<Node>::empty()) =~= Seq::<NodeModel>::empty());
        }
        return Ok(Vec::new());
    }
    proof {
        assert(tv[p as int] == ts@[p as int]@);
        if p + 1 < ts@.len() {
            assert(tv[p as int + 1] == ts@[p as int + 1]@);
        }
        if p + 2 < ts@.len() {
            assert(tv[p as int + 2] == ts@[p as int + 2]@);
        }
    }
    match &ts[p] {
        Token::Param => {
            if !(ts.len() - p > 2) {
                return Err(CellError::Parse { position: p + 1 });
            }
            let (pa, q) = match parse_param(ts, p + 1) {
                Ok(x) => x,
                Err(_) => {
                    return Err(CellError::Parse { position: p + 1 });
                },
            };
            let mut rest = match parse_nodes(ts, q) {
                Ok(x) => x,
                Err(er) => {
                    return Err(er);
                },
            };
            proof {
                lemma_nodes_prepend(Node::Param(pa), rest@);
            }
            rest.insert(0, Node::Param(pa));
            Ok(rest)
        },
        Token::Cell => {
            if !(ts.len() - p > 2) {
                return Err(CellError::Parse { position: p + 1 });
            }
            let name = match (&ts[p + 1], &ts[p + 2]) {
                (Token::Ident(x), Token::Colon) => x.clone(),
                _ => {
                    return Err(CellError::Parse { position: p + 1 });
                },
            };
            let (e, q) = match parse_expr(ts, p + 3) {
                Ok(x) => x,
                Err(er) => {
                    return Err(er);
                },
            };
            proof {
                if q < ts@.len() {
                    assert(tv[q as int] == ts@[q as int]@);
                }
            }
            if !(q < ts.len() && matches!(&ts[q], Token::SemiColon)) {
                return Err(CellError::Parse { position: q });
            }
            proof {
                assert(nxt(tv.len(), p as nat, (q + 1) as nat) == (q + 1) as nat);
            }
            let mut rest = match parse_nodes(ts, q + 1) {
                Ok(x) => x,
                Err(er) => {
                    return Err(er);
                },
            };
            let node = Node::Cell(Cell { name, expr: e });
            proof {
                lemma_nodes_prepend(node, rest@);
            }
            rest.insert(0, node);
            Ok(rest)
        },
        _ => Err(CellError::Parse { position: p }),
    }
}

proof fn lemma_nodes_prepend(n: Node, rest: Seq<Node>)
    ensures
        nodes_view(rest.insert(0, n)) == seq![n@] + nodes_view(rest),
{
    assert(nodes_view(rest.insert(0, n)) =~= seq![n@] + nodes_view(rest));
}

/// Parse a whole token stream into a program, or report the token position
/// of the first failure.
pub fn parse(tokens: Vec<Token>) -> (r: Result<AST, CellError>)
    ensures
        match r {
            Ok(ast) => parse_spec(tokens_view(tokens@), 0) == Ok::<Seq<NodeModel>, nat>(ast@),
            Err(e) => e matches CellError::Parse { position } && parse_spec(
                tokens_view(tokens@),
                0,
            ) == Err::<Seq<NodeModel>, nat>(position as nat),
        },
{
    match parse_nodes(&tokens, 0) {
        Ok(ns) => Ok(AST { nodes: ns }),
        Err(e) => Err(e),
    }
}

pub proof fn lemma_exprs_view_len(es: Seq<Expr>)
    ensures
        exprs_view(es).len() == es.len(),
    decreases es.len(),
{
    if es.len() > 0 {
        lemma_exprs_view_len(es.subrange(1, es.len() as int));
    }
}

pub proof fn lemma_exprs_view_index(es: Seq<Expr>, i: int)
    requires
        0 <= i < es.len(),
    ensures
        exprs_view(es)[i] == expr_view(es[i]),
    decreases es.len(),
{
    lemma_exprs_view_len(es.subrange(1, es.len() as int));
    if i > 0 {
        lemma_exprs_view_index(es.subrange(1, es.len() as int), i - 1);
    }
}

} // verus!
