use vstd::prelude::*;

use crate::parser::{
    lemma_exprs_view_index, lemma_exprs_view_len, Atom, AtomModel, Cell, Expr, ExprModel, Node,
    NodeModel, Operator, AST,
};
use vstd::string::StringExecFns;

verus! {

// Rendering a program back to source. Number literals come out exactly as
// they were written, every binary node and conditional is parenthesized,
// and declarations end in a semicolon and a line break, so the printed
// text scans and parses back to the same tree.

/// A comparison operator's source form.
pub open spec fn print_op(op: Operator) -> Seq<char> {
    match op {
        Operator::Equals => "=="@,
        Operator::Greater => ">"@,
        Operator::GreaterEqual => ">="@,
        Operator::Less => "<"@,
        Operator::LessEqual => "<="@,
    }
}

/// An expression's source form, fully parenthesized.
pub open spec fn print_expr(e: ExprModel) -> Seq<char>
    decreases e, 0int,
{
    match e {
        ExprModel::Atom(a) => match a {
            AtomModel::Number { bits, text } => text,
            AtomModel::Ident(n) => n,
            AtomModel::Call { name, arguments } => name + "("@ + print_args(arguments, 0) + ")"@,
        },
        ExprModel::Add(l, r) => "("@ + print_expr(*l) + " + "@ + print_expr(*r) + ")"@,
        ExprModel::Sub(l, r) => "("@ + print_expr(*l) + " - "@ + print_expr(*r) + ")"@,
        ExprModel::Mul(l, r) => "("@ + print_expr(*l) + " * "@ + print_expr(*r) + ")"@,
        ExprModel::Div(l, r) => "("@ + print_expr(*l) + " / "@ + print_expr(*r) + ")"@,
        ExprModel::Mod(l, r) => "("@ + print_expr(*l) + " % "@ + print_expr(*r) + ")"@,
        ExprModel::Condition { lhs, rhs, op, true_branch, false_branch } => "(if "@ + print_expr(
            *lhs,
        ) + " "@ + print_op(op) + " "@ + print_expr(*rhs) + " ? "@ + print_expr(*true_branch)
            + " : "@ + print_expr(*false_branch) + ")"@,
    }
}

/// Comma-separated argument forms, from argument `i` on.
pub open spec fn print_args(es: Seq<ExprModel>, i: nat) -> Seq<char>
    decreases es, es.len() - i,
{
    if i >= es.len() {
        Seq::empty()
    } else if i + 1 == es.len() {
        print_expr(es[i as int])
    } else {
        print_expr(es[i as int]) + ", "@ + print_args(es, i + 1)
    }
}

/// A program's source form, one declaration per line.
pub open spec fn print_program(ns: Seq<NodeModel>, i: nat) -> Seq<char>
    decreases ns.len() - i,
{
    if i >= ns.len() {
        Seq::empty()
    } else {
        (match ns[i as int] {
            NodeModel::Param { name } => "param "@ + name + ";\n"@,
            NodeModel::Cell { name, expr } => "cell "@ + name + ": "@ + print_expr(expr) + ";\n"@,
        }) + print_program(ns, i + 1)
    }
}

fn print_expr_x(e: &Expr) -> (r: String)
    ensures
        r@ == print_expr(e@),
    decreases e, 0int,
{
    let mut out = String::new();
    match e {
        Expr::Atom(a) => match a {
            Atom::Number { bits, text } => {
                out.append(text.as_str());
            },
            Atom::Ident(n) => {
                out.append(n.as_str());
            },
            Atom::Call { name, arguments } => {
                proof {
                    assert(crate::parser::atom_view(*a) matches AtomModel::Call {
                        name: nm,
                        arguments: ags,
                    } && nm == name@ && ags == crate::parser::exprs_view(arguments@));
                    assert(e@ matches ExprModel::Atom(am) && am == crate::parser::atom_view(
                        *a,
                    ));
                }
                out.append(name.as_str());
                out.append("(");
                out.append(print_args_x(arguments, 0).as_str());
                out.append(")");
            },
        },
        Expr::Add(l, r) => {
            proof {
                assert(e@ matches ExprModel::Add(bl, br) && *bl == l@ && *br == r@);
            }
            out.append("(");
            out.append(print_expr_x(l).as_str());
            out.append(" + ");
            out.append(print_expr_x(r).as_str());
            out.append(")");
        },
        Expr::Sub(l, r) => {
            proof {
                assert(e@ matches ExprModel::Sub(bl, br) && *bl == l@ && *br == r@);
            }
            out.append("(");
            out.append(print_expr_x(l).as_str());
            out.append(" - ");
            out.append(print_expr_x(r).as_str());
            out.append(")");
        },
        Expr::Mul(l, r) => {
            proof {
                assert(e@ matches ExprModel::Mul(bl, br) && *bl == l@ && *br == r@);
            }
            out.append("(");
            out.append(print_expr_x(l).as_str());
            out.append(" * ");
            out.append(print_expr_x(r).as_str());
            out.append(")");
        },
        Expr::Div(l, r) => {
            proof {
                assert(e@ matches ExprModel::Div(bl, br) && *bl == l@ && *br == r@);
            }
            out.append("(");
            out.append(print_expr_x(l).as_str());
            out.append(" / ");
            out.append(print_expr_x(r).as_str());
            out.append(")");
        },
        Expr::Mod(l, r) => {
            proof {
                assert(e@ matches ExprModel::Mod(bl, br) && *bl == l@ && *br == r@);
            }
            out.append("(");
            out.append(print_expr_x(l).as_str());
            out.append(" % ");
            out.append(print_expr_x(r).as_str());
            out.append(")");
        },
        Expr::Condition { lhs, rhs, op, true_branch, false_branch } => {
            proof {
                assert(e@ matches ExprModel::Condition {
                    lhs: bl,
                    rhs: br,
                    op: bo,
                    true_branch: bt,
                    false_branch: bf,
                } && *bl == lhs@ && *br == rhs@ && bo == *op && *bt == true_branch@ && *bf
                    == false_branch@);
            }
            out.append("(if ");
            out.append(print_expr_x(lhs).as_str());
            out.append(" ");
            match op {
                Operator::Equals => out.append("=="),
                Operator::Greater => out.append(">"),
                Operator::GreaterEqual => out.append(">="),
                Operator::Less => out.append("<"),
                Operator::LessEqual => out.append("<="),
            }
            out.append(" ");
            out.append(print_expr_x(rhs).as_str());
            out.append(" ? ");
            out.append(print_expr_x(true_branch).as_str());
            out.append(" : ");
            out.append(print_expr_x(false_branch).as_str());
            out.append(")");
        },
    }
    out
}

fn print_args_x(args: &Vec<Expr>, i: usize) -> (r: String)
    requires
        i <= args@.len(),
    ensures
        r@ == print_args(crate::parser::exprs_view(args@), i as nat),
    decreases args@, args@.len() - i,
{
    let ghost ev = crate::parser::exprs_view(args@);
    proof {
        lemma_exprs_view_len(args@);
    }
    let mut out = String::new();
    if i >= args.len() {
        return out;
    }
    proof {
        lemma_exprs_view_index(args@, i as int);
    }
    out.append(print_expr_x(&args[i]).as_str());
    if i + 1 < args.len() {
        out.append(", ");
        out.append(print_args_x(args, i + 1).as_str());
    }
    out
}

/// Render a program back to source text. The result scans and parses back
/// to the same tree: literals are kept verbatim and grouping is explicit.
pub fn pretty_print(ast: &AST) -> (r: String)
    ensures
        r@ == print_program(ast@, 0),
{
    let ghost nv = ast@;
    let mut out = String::new();
    let mut i: usize = 0;
    proof {
        assert(out@ + print_program(nv, 0) =~= print_program(nv, 0));
    }
    while i < ast.nodes.len()
        invariant
            i <= ast.nodes@.len(),
            nv == ast@,
            nv == crate::parser::nodes_view(ast.nodes@),
            nv.len() == ast.nodes@.len(),
            print_program(nv, 0) == out@ + print_program(nv, i as nat),
        decreases ast.nodes@.len() - i,
    {
        proof {
            assert(nv[i as int] == ast.nodes@[i as int]@);
        }
        let ghost out0 = out@;
        match &ast.nodes[i] {
            Node::Param(p) => {
                proof {
                    assert(nv[i as int] matches NodeModel::Param { name } && name == p.name@);
                }
                out.append("param ");
                out.append(p.name.as_str());
                out.append(";\n");
                proof {
                    assert(out@ =~= out0 + ("param "@ + p.name@ + ";\n"@));
                }
            },
            Node::Cell(c) => {
                proof {
                    assert(nv[i as int] matches NodeModel::Cell { name, expr } && name == c.name@
                        && expr == c.expr@);
                }
                out.append("cell ");
                out.append(c.name.as_str());
                out.append(": ");
                out.append(print_expr_x(&c.expr).as_str());
                out.append(";\n");
                proof {
                    assert(out@ =~= out0 + ("cell "@ + c.name@ + ": "@ + print_expr(c.expr@)
                        + ";\n"@));
                }
            },
        }
        proof {
            assert(out@ + print_program(nv, (i + 1) as nat) =~= out0 + print_program(
                nv,
                i as nat,
            ));
        }
        i = i + 1;
    }
    proof {
        assert(out@ + Seq::<char>::empty() =~= out@);
    }
    out
}

} // verus!
