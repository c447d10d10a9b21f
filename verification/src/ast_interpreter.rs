use vstd::prelude::*;

use crate::deps::{
    find_node_model, lemma_names_contains, lemma_prog_insert_decreases, names_of, names_set,
    node_name, find_node_x,
};
use crate::error::{CellError, ErrSpec};
use crate::num::{
    add_bits_of, div_bits_of, float_eq, float_le, float_lt, mod_bits_of, mul_bits_of, num_add,
    num_div, num_mod, num_mul, num_round, num_sub, rand_unit_bits, round_bits_of, spec_float_eq,
    spec_float_le, spec_float_lt, sub_bits_of,
};
use crate::parser::{
    lemma_exprs_view_index, lemma_exprs_view_len, Atom, AtomModel, Cell, Expr, ExprModel, Node,
    NodeModel, Operator, AST,
};
use crate::strutil::{contains_name, strs_view};

verus! {

// The tree-walking evaluator. A cell's value is its expression's value; an
// identifier reads a parameter binding or evaluates the named cell on the
// spot. The names currently being evaluated ride along; meeting one again
// is a dependency cycle. Arithmetic is IEEE-754 binary64 on bit patterns.
// On a program that never calls `rand`, the result equals the mathematical
// evaluation `eval_expr_spec` below, the yardstick all engines share.

/// A parameter list, seen as name-to-bits pairs.
pub open spec fn params_view(ps: Seq<(String, u64)>) -> Seq<(Seq<char>, u64)> {
    ps.map_values(|p: (String, u64)| (p.0@, p.1))
}

/// The first binding of a name, searching from entry `i`.
pub open spec fn plookup_from(ps: Seq<(Seq<char>, u64)>, name: Seq<char>, i: nat) -> Option<u64>
    decreases ps.len() - i,
{
    if i >= ps.len() {
        None
    } else if ps[i as int].0 == name {
        Some(ps[i as int].1)
    } else {
        plookup_from(ps, name, i + 1)
    }
}

/// The first binding of a name, if any.
pub open spec fn plookup(ps: Seq<(Seq<char>, u64)>, name: Seq<char>) -> Option<u64> {
    plookup_from(ps, name, 0)
}

/// Whether an expression calls `rand`, anywhere.
pub open spec fn uses_rand(e: ExprModel) -> bool
    decreases e, 0int,
{
    match e {
        ExprModel::Atom(a) => match a {
            AtomModel::Number { bits, text } => false,
            AtomModel::Ident(n) => false,
            AtomModel::Call { name, arguments } => name == "rand"@ || args_use_rand(arguments, 0),
        },
        ExprModel::Add(l, r) => uses_rand(*l) || uses_rand(*r),
        ExprModel::Mod(l, r) => uses_rand(*l) || uses_rand(*r),
        ExprModel::Sub(l, r) => uses_rand(*l) || uses_rand(*r),
        ExprModel::Mul(l, r) => uses_rand(*l) || uses_rand(*r),
        ExprModel::Div(l, r) => uses_rand(*l) || uses_rand(*r),
        ExprModel::Condition { lhs, rhs, op, true_branch, false_branch } => uses_rand(*lhs)
            || uses_rand(*rhs) || uses_rand(*true_branch) || uses_rand(*false_branch),
    }
}

pub open spec fn args_use_rand(es: Seq<ExprModel>, i: nat) -> bool
    decreases es, es.len() - i,
{
    if i >= es.len() {
        false
    } else {
        uses_rand(es[i as int]) || args_use_rand(es, i + 1)
    }
}

/// Whether any cell of the program calls `rand`.
pub open spec fn program_uses_rand(ns: Seq<NodeModel>, i: nat) -> bool
    decreases ns.len() - i,
{
    if i >= ns.len() {
        false
    } else {
        (match ns[i as int] {
            NodeModel::Cell { name, expr } => uses_rand(expr),
            NodeModel::Param { name } => false,
        }) || program_uses_rand(ns, i + 1)
    }
}

/// The comparison a conditional's operator makes, on two bit patterns.
pub open spec fn cmp_holds(op: Operator, l: u64, r: u64) -> bool {
    match op {
        Operator::Equals => spec_float_eq(l, r),
        Operator::Greater => spec_float_lt(r, l),
        Operator::GreaterEqual => spec_float_le(r, l),
        Operator::Less => spec_float_lt(l, r),
        Operator::LessEqual => spec_float_le(l, r),
    }
}

/// The value of an expression: numbers are their bits; an identifier is a
/// parameter's binding or the named cell's value; arithmetic goes through
/// the binary64 operations. `visited` holds the cells being evaluated;
/// meeting one is a cycle. A `rand` call stands at 0 here: the evaluators
/// are held to this function only on programs that never call it.
pub open spec fn eval_expr_spec(
    ns: Seq<NodeModel>,
    e: ExprModel,
    ps: Seq<(Seq<char>, u64)>,
    visited: Set<Seq<char>>,
) -> Result<u64, ErrSpec>
    decreases names_set(ns).difference(visited).len(), e, 0int,
    when visited.finite()
    via eval_expr_spec_decreases
{
    match e {
        ExprModel::Atom(a) => match a {
            AtomModel::Number { bits, text } => Ok(bits),
            AtomModel::Ident(n) => if visited.contains(n) {
                Err(ErrSpec::Cycle { name: n })
            } else {
                match find_node_model(ns, n) {
                    None => Err(ErrSpec::Resolve { name: n }),
                    Some(NodeModel::Param { name }) => match plookup(ps, n) {
                        Some(v) => Ok(v),
                        None => Err(ErrSpec::MissingParam { name: n }),
                    },
                    Some(NodeModel::Cell { name, expr }) => eval_expr_spec(
                        ns,
                        expr,
                        ps,
                        visited.insert(n),
                    ),
                }
            },
            AtomModel::Call { name, arguments } => if name == "rand"@ {
                if arguments.len() == 0 {
                    Ok(0)
                } else {
                    Err(ErrSpec::Arity { name })
                }
            } else if name == "int"@ {
                if arguments.len() == 1 {
                    match eval_expr_spec(ns, arguments[0], ps, visited) {
                        Ok(v) => Ok(round_bits_of(v)),
                        Err(er) => Err(er),
                    }
                } else {
                    Err(ErrSpec::Arity { name })
                }
            } else {
                Err(ErrSpec::UnknownBuiltin { name })
            },
        },
        ExprModel::Add(l, r) => eval_bin(
            eval_expr_spec(ns, *l, ps, visited),
            eval_expr_spec(ns, *r, ps, visited),
            InstrKind::Add,
        ),
        ExprModel::Sub(l, r) => eval_bin(
            eval_expr_spec(ns, *l, ps, visited),
            eval_expr_spec(ns, *r, ps, visited),
            InstrKind::Sub,
        ),
        ExprModel::Mul(l, r) => eval_bin(
            eval_expr_spec(ns, *l, ps, visited),
            eval_expr_spec(ns, *r, ps, visited),
            InstrKind::Mul,
        ),
        ExprModel::Div(l, r) => eval_bin(
            eval_expr_spec(ns, *l, ps, visited),
            eval_expr_spec(ns, *r, ps, visited),
            InstrKind::Div,
        ),
        ExprModel::Mod(l, r) => eval_bin(
            eval_expr_spec(ns, *l, ps, visited),
            eval_expr_spec(ns, *r, ps, visited),
            InstrKind::Mod,
        ),
        ExprModel::Condition { lhs, rhs, op, true_branch, false_branch } => match eval_expr_spec(
            ns,
            *lhs,
            ps,
            visited,
        ) {
            Ok(vl) => match eval_expr_spec(ns, *rhs, ps, visited) {
                Ok(vr) => if cmp_holds(op, vl, vr) {
                    eval_expr_spec(ns, *true_branch, ps, visited)
                } else {
                    eval_expr_spec(ns, *false_branch, ps, visited)
                },
                Err(er) => Err(er),
            },
            Err(er) => Err(er),
        },
    }
}

/// The arithmetic shapes, to share the binary evaluation rule.
pub enum InstrKind {
    Add,
    Sub,
    Mul,
    Div,
    Mod,
}

/// Combine two operand results with a binary operation, left error first.
pub open spec fn eval_bin(
    l: Result<u64, ErrSpec>,
    r: Result<u64, ErrSpec>,
    k: InstrKind,
) -> Result<u64, ErrSpec> {
    match l {
        Ok(vl) => match r {
            Ok(vr) => Ok(
                match k {
                    InstrKind::Add => add_bits_of(vl, vr),
                    InstrKind::Sub => sub_bits_of(vl, vr),
                    InstrKind::Mul => mul_bits_of(vl, vr),
                    InstrKind::Div => div_bits_of(vl, vr),
                    InstrKind::Mod => mod_bits_of(vl, vr),
                },
            ),
            Err(er) => Err(er),
        },
        Err(er) => Err(er),
    }
}

#[via_fn]
proof fn eval_expr_spec_decreases(
    ns: Seq<NodeModel>,
    e: ExprModel,
    ps: Seq<(Seq<char>, u64)>,
    visited: Set<Seq<char>>,
) {
    if let ExprModel::Atom(a) = e {
        if let AtomModel::Ident(n) = a {
            if !visited.contains(n) && find_node_model(ns, n) is Some {
                lemma_names_contains(ns, n);
                lemma_prog_insert_decreases(ns, n, visited);
            }
        }
    }
}

/// In a program without `rand`, no cell's expression calls it.
proof fn lemma_no_rand_cell(ns: Seq<NodeModel>, name: Seq<char>, i: nat)
    requires
        !program_uses_rand(ns, i),
        i <= ns.len(),
    ensures
        crate::deps::find_node_from(ns, name, i) matches Some(nm) ==> (nm
            matches NodeModel::Cell { name: n2, expr } ==> !uses_rand(expr)),
    decreases ns.len() - i,
{
    if i < ns.len() && node_name(ns[i as int]) != name {
        lemma_no_rand_cell(ns, name, i + 1);
    }
}

/// The set a call stack covers.
pub open spec fn stack_set(v: Seq<String>) -> Set<Seq<char>> {
    strs_view(v).to_set()
}

proof fn lemma_stack_set_push(v: Seq<String>, x: String)
    ensures
        stack_set(v.push(x)) == stack_set(v).insert(x@),
        stack_set(v).finite(),
{
    broadcast use vstd::set::group_set_axioms;

    vstd::seq_lib::seq_to_set_is_finite(strs_view(v));
    crate::strutil::lemma_strs_push(v, x);
    vstd::seq_lib::seq_to_set_is_finite(strs_view(v.push(x)));
    assert forall|y: Seq<char>| stack_set(v.push(x)).contains(y) implies stack_set(v).insert(
        x@,
    ).contains(y) by {
        let k = choose|k: int|
            0 <= k < strs_view(v.push(x)).len() && strs_view(v.push(x))[k] == y;
        if k < v.len() {
            assert(strs_view(v)[k] == y);
            assert(strs_view(v).contains(y));
        }
    }
    assert forall|y: Seq<char>| stack_set(v).insert(x@).contains(y) implies stack_set(
        v.push(x),
    ).contains(y) by {
        if y == x@ {
            assert(strs_view(v.push(x))[v.len() as int] == y);
        } else {
            let k = choose|k: int| 0 <= k < strs_view(v).len() && strs_view(v)[k] == y;
            assert(strs_view(v.push(x))[k] == y);
        }
    }
    assert(stack_set(v.push(x)) =~= stack_set(v).insert(x@));
}

/// Look up a parameter binding, first binding wins.
pub fn lookup_param(ps: &Vec<(String, u64)>, name: &String) -> (r: Option<u64>)
    ensures
        r == plookup(params_view(ps@), name@),
{
    lookup_param_from(ps, name, 0)
}

fn lookup_param_from(ps: &Vec<(String, u64)>, name: &String, i: usize) -> (r: Option<u64>)
    requires
        i <= ps@.len(),
    ensures
        r == plookup_from(params_view(ps@), name@, i as nat),
    decreases ps@.len() - i,
{
    let ghost pv = params_view(ps@);
    if i >= ps.len() {
        return None;
    }
    proof {
        assert(pv[i as int] == (ps@[i as int].0@, ps@[i as int].1));
    }
    if ps[i].0.eq(name) {
        Some(ps[i].1)
    } else {
        lookup_param_from(ps, name, i + 1)
    }
}

/// Evaluate one expression. `stack` holds the cells being evaluated, for
/// cycle detection; it comes back as it went in. On a program without
/// `rand` the result is exactly `eval_expr_spec`; a `rand` call draws a
/// fresh value, and only the error-free shape is promised.
#[verifier::rlimit(100)]
#[verifier::spinoff_prover]
pub fn run_expr(
    nodes: &Vec<Node>,
    expr: &Expr,
    params: &Vec<(String, u64)>,
    stack: &mut Vec<String>,
) -> (r: Result<u64, CellError>)
    ensures
        final(stack)@ == old(stack)@,
        !program_uses_rand(crate::parser::nodes_view(nodes@), 0) && !uses_rand(expr@) ==> (match r {
            Ok(v) => eval_expr_spec(
                crate::parser::nodes_view(nodes@),
                expr@,
                params_view(params@),
                stack_set(old(stack)@),
            ) == Ok::<u64, ErrSpec>(v),
            Err(e) => eval_expr_spec(
                crate::parser::nodes_view(nodes@),
                expr@,
                params_view(params@),
                stack_set(old(stack)@),
            ) matches Err(es) && es == e@,
        }),
    decreases
            names_set(crate::parser::nodes_view(nodes@)).difference(stack_set(stack@)).len(),
            expr,
            0int,
{
    let ghost nv = crate::parser::nodes_view(nodes@);
    let ghost pv = params_view(params@);
    let ghost vis = stack_set(stack@);
    proof {
        vstd::seq_lib::seq_to_set_is_finite(strs_view(stack@));
    }
    match expr {
        Expr::Atom(a) => match a {
            Atom::Number { bits, text } => {
                proof {
                    assert(crate::parser::atom_view(*a) matches AtomModel::Number {
                        bits: bb,
                        text: tt,
                    } && bb == *bits);
                    assert(expr@ matches ExprModel::Atom(am) && am == crate::parser::atom_view(
                        *a,
                    ));
                    assert(eval_expr_spec(nv, expr@, pv, vis) == Ok::<u64, ErrSpec>(*bits));
                }
                Ok(*bits)
            },
            Atom::Ident(n) => {
                proof {
                    assert(crate::parser::atom_view(*a) matches AtomModel::Ident(nm) && nm
                        == n@);
                    assert(expr@ matches ExprModel::Atom(am) && am == crate::parser::atom_view(
                        *a,
                    ));
                }
                if contains_name(stack, n) {
                    proof {
                        let k = choose|k: int|
                            0 <= k < strs_view(stack@).len() && strs_view(stack@)[k] == n@;
                        assert(vis.contains(n@));
                    }
                    return Err(CellError::Cycle { name: n.clone() });
                }
                proof {
                    if vis.contains(n@) {
                        assert(strs_view(stack@).contains(n@));
                    }
                }
                let node = match find_node_x(nodes, n, 0) {
                    None => {
                        return Err(CellError::Resolve { name: n.clone() });
                    },
                    Some(node) => node,
                };
                proof {
                    lemma_names_contains(nv, n@);
                }
                match node {
                    Node::Param(p) => {
                        proof {
                            assert(node@ is Param);
                        }
                        match lookup_param(params, n) {
                            Some(v) => {
                                proof {
                                    assert(eval_expr_spec(nv, expr@, pv, vis) == Ok::<
                                        u64,
                                        ErrSpec,
                                    >(v));
                                }
                                Ok(v)
                            },
                            None => {
                                proof {
                                    assert(eval_expr_spec(nv, expr@, pv, vis) matches Err(es)
                                        && es == (ErrSpec::MissingParam { name: n@ }));
                                }
                                Err(CellError::MissingParam { name: n.clone() })
                            },
                        }
                    },
                    Node::Cell(c) => {
                        proof {
                            assert(node@ matches NodeModel::Cell { name: nm, expr: ex } && ex
                                == c.expr@);
                            lemma_stack_set_push(stack@, *n);
                            lemma_prog_insert_decreases(nv, n@, vis);
                            if !program_uses_rand(nv, 0) {
                                lemma_no_rand_cell(nv, n@, 0);
                            }
                        }
                        stack.push(n.clone());
                        let out = run_expr(nodes, &c.expr, params, stack);
                        stack.pop();
                        proof {
                            assert(stack@ =~= old(stack)@);
                            if !program_uses_rand(nv, 0) && !uses_rand(expr@) {
                                assert(eval_expr_spec(nv, expr@, pv, vis) == eval_expr_spec(
                                    nv,
                                    c.expr@,
                                    pv,
                                    vis.insert(n@),
                                ));
                                if let Ok(v) = out {
                                    assert(eval_expr_spec(nv, c.expr@, pv, vis.insert(n@))
                                        == Ok::<u64, ErrSpec>(v));
                                }
                            }
                        }
                        out
                    },
                }
            },
            Atom::Call { name, arguments } => {
                proof {
                    assert(crate::parser::atom_view(*a) matches AtomModel::Call {
                        name: nm,
                        arguments: ags,
                    } && nm == name@ && ags == crate::parser::exprs_view(arguments@));
                    assert(expr@ matches ExprModel::Atom(am) && am == crate::parser::atom_view(
                        *a,
                    ));
                    lemma_exprs_view_len(arguments@);
                }
                if name.eq(&String::from_str("rand")) {
                    if arguments.len() != 0 {
                        return Err(CellError::Arity { name: name.clone() });
                    }
                    proof {
                        assert(uses_rand(expr@));
                    }
                    Ok(rand_unit_bits())
                } else if name.eq(&String::from_str("int")) {
                    if arguments.len() != 1 {
                        return Err(CellError::Arity { name: name.clone() });
                    }
                    proof {
                        lemma_exprs_view_index(arguments@, 0);
                    }
                    match run_expr(nodes, &arguments[0], params, stack) {
                        Ok(v) => {
                            proof {
                                if !program_uses_rand(nv, 0) && !uses_rand(expr@) {
                                    let ags = crate::parser::exprs_view(arguments@);
                                    assert(!args_use_rand(ags, 0));
                                    assert(!uses_rand(ags[0]));
                                    assert(eval_expr_spec(nv, ags[0], pv, vis) == Ok::<
                                        u64,
                                        ErrSpec,
                                    >(v));
                                    assert(eval_expr_spec(nv, expr@, pv, vis) == Ok::<
                                        u64,
                                        ErrSpec,
                                    >(round_bits_of(v)));
                                }
                            }
                            Ok(num_round(v))
                        },
                        Err(e) => {
                            proof {
                                if !program_uses_rand(nv, 0) && !uses_rand(expr@) {
                                    let ags = crate::parser::exprs_view(arguments@);
                                    assert(!args_use_rand(ags, 0));
                                    assert(!uses_rand(ags[0]));
                                    assert(eval_expr_spec(nv, expr@, pv, vis) matches Err(es)
                                        && es == e@);
                                }
                            }
                            Err(e)
                        },
                    }
                } else {
                    proof {
                        assert(eval_expr_spec(nv, expr@, pv, vis) matches Err(es) && es == (
                        ErrSpec::UnknownBuiltin { name: name@ }));
                    }
                    Err(CellError::UnknownBuiltin { name: name.clone() })
                }
            },
        },
        Expr::Add(l, r) => {
            proof {
                assert(expr@ matches ExprModel::Add(bl, br) && *bl == l@ && *br == r@);
            }
            let vl = match run_expr(nodes, l, params, stack) {
                Ok(v) => v,
                Err(e) => {
                    return Err(e);
                },
            };
            let vr = match run_expr(nodes, r, params, stack) {
                Ok(v) => v,
                Err(e) => {
                    return Err(e);
                },
            };
            proof {
                if !program_uses_rand(nv, 0) && !uses_rand(expr@) {
                    assert(eval_expr_spec(nv, l@, pv, vis) == Ok::<u64, ErrSpec>(vl));
                    assert(eval_expr_spec(nv, r@, pv, vis) == Ok::<u64, ErrSpec>(vr));
                    assert(eval_expr_spec(nv, expr@, pv, vis) == Ok::<u64, ErrSpec>(
                        add_bits_of(vl, vr),
                    ));
                }
            }
            Ok(num_add(vl, vr))
        },
        Expr::Sub(l, r) => {
            proof {
                assert(expr@ matches ExprModel::Sub(bl, br) && *bl == l@ && *br == r@);
            }
            let vl = match run_expr(nodes, l, params, stack) {
                Ok(v) => v,
                Err(e) => {
                    return Err(e);
                },
            };
            let vr = match run_expr(nodes, r, params, stack) {
                Ok(v) => v,
                Err(e) => {
                    return Err(e);
                },
            };
            proof {
                if !program_uses_rand(nv, 0) && !uses_rand(expr@) {
                    assert(eval_expr_spec(nv, expr@, pv, vis) == Ok::<u64, ErrSpec>(
                        sub_bits_of(vl, vr),
                    ));
                }
            }
            Ok(num_sub(vl, vr))
        },
        Expr::Mul(l, r) => {
            proof {
                assert(expr@ matches ExprModel::Mul(bl, br) && *bl == l@ && *br == r@);
            }
            let vl = match run_expr(nodes, l, params, stack) {
                Ok(v) => v,
                Err(e) => {
                    return Err(e);
                },
            };
            let vr = match run_expr(nodes, r, params, stack) {
                Ok(v) => v,
                Err(e) => {
                    return Err(e);
                },
            };
            proof {
                if !program_uses_rand(nv, 0) && !uses_rand(expr@) {
                    assert(eval_expr_spec(nv, expr@, pv, vis) == Ok::<u64, ErrSpec>(
                        mul_bits_of(vl, vr),
                    ));
                }
            }
            Ok(num_mul(vl, vr))
        },
        Expr::Div(l, r) => {
            proof {
                assert(expr@ matches ExprModel::Div(bl, br) && *bl == l@ && *br == r@);
            }
            let vl = match run_expr(nodes, l, params, stack) {
                Ok(v) => v,
                Err(e) => {
                    return Err(e);
                },
            };
            let vr = match run_expr(nodes, r, params, stack) {
                Ok(v) => v,
                Err(e) => {
                    return Err(e);
                },
            };
            proof {
                if !program_uses_rand(nv, 0) && !uses_rand(expr@) {
                    assert(eval_expr_spec(nv, expr@, pv, vis) == Ok::<u64, ErrSpec>(
                        div_bits_of(vl, vr),
                    ));
                }
            }
            Ok(num_div(vl, vr))
        },
        Expr::Mod(l, r) => {
            proof {
                assert(expr@ matches ExprModel::Mod(bl, br) && *bl == l@ && *br == r@);
            }
            let vl = match run_expr(nodes, l, params, stack) {
                Ok(v) => v,
                Err(e) => {
                    return Err(e);
                },
            };
            let vr = match run_expr(nodes, r, params, stack) {
                Ok(v) => v,
                Err(e) => {
                    return Err(e);
                },
            };
            proof {
                if !program_uses_rand(nv, 0) && !uses_rand(expr@) {
                    assert(eval_expr_spec(nv, expr@, pv, vis) == Ok::<u64, ErrSpec>(
                        mod_bits_of(vl, vr),
                    ));
                }
            }
            Ok(num_mod(vl, vr))
        },
        Expr::Condition { lhs, rhs, op, true_branch, false_branch } => {
            proof {
                assert(expr@ matches ExprModel::Condition {
                    lhs: bl,
                    rhs: br,
                    op: bo,
                    true_branch: bt,
                    false_branch: bf,
                } && *bl == lhs@ && *br == rhs@ && bo == *op && *bt == true_branch@ && *bf
                    == false_branch@);
            }
            let vl = match run_expr(nodes, lhs, params, stack) {
                Ok(v) => v,
                Err(e) => {
                    return Err(e);
                },
            };
            let vr = match run_expr(nodes, rhs, params, stack) {
                Ok(v) => v,
                Err(e) => {
                    return Err(e);
                },
            };
            let taken = match op {
                Operator::Equals => float_eq(vl, vr),
                Operator::Greater => float_lt(vr, vl),
                Operator::GreaterEqual => float_le(vr, vl),
                Operator::Less => float_lt(vl, vr),
                Operator::LessEqual => float_le(vl, vr),
            };
            proof {
                if !program_uses_rand(nv, 0) && !uses_rand(expr@) {
                    assert(taken == cmp_holds(*op, vl, vr));
                }
            }
            let res = if taken {
                run_expr(nodes, true_branch, params, stack)
            } else {
                run_expr(nodes, false_branch, params, stack)
            };
            proof {
                if !program_uses_rand(nv, 0) && !uses_rand(expr@) {
                    match &res {
                        Ok(v) => {
                            assert(eval_expr_spec(nv, expr@, pv, vis) == Ok::<u64, ErrSpec>(
                                *v,
                            ));
                        },
                        Err(e) => {
                            assert(eval_expr_spec(nv, expr@, pv, vis) matches Err(es) && es
                                == e@);
                        },
                    }
                }
            }
            res
        },
    }
}

/// The first declared parameter with no binding, searching from node `i`.
pub open spec fn first_unbound_param(
    ns: Seq<NodeModel>,
    ps: Seq<(Seq<char>, u64)>,
    i: nat,
) -> Option<Seq<char>>
    decreases ns.len() - i,
{
    if i >= ns.len() {
        None
    } else {
        match ns[i as int] {
            NodeModel::Param { name } => if plookup(ps, name) is None {
                Some(name)
            } else {
                first_unbound_param(ns, ps, i + 1)
            },
            NodeModel::Cell { name, expr } => first_unbound_param(ns, ps, i + 1),
        }
    }
}

/// The values of the queried names, each evaluated from a clean state.
pub open spec fn run_spec(
    ns: Seq<NodeModel>,
    queries: Seq<Seq<char>>,
    ps: Seq<(Seq<char>, u64)>,
    i: nat,
) -> Result<Seq<(Seq<char>, u64)>, ErrSpec>
    decreases queries.len() - i,
{
    if i >= queries.len() {
        Ok(Seq::empty())
    } else {
        match eval_expr_spec(
            ns,
            ExprModel::Atom(AtomModel::Ident(queries[i as int])),
            ps,
            Set::empty(),
        ) {
            Ok(v) => match run_spec(ns, queries, ps, i + 1) {
                Ok(rest) => Ok(seq![(queries[i as int], v)] + rest),
                Err(er) => Err(er),
            },
            Err(er) => Err(er),
        }
    }
}

/// Evaluate the queried cells of a program against parameter bindings.
/// Fails first where a declared parameter has no binding; then each query
/// is evaluated in turn. On a program without `rand` the result is exactly
/// `run_spec`.
pub fn run(code: &AST, cell_names: &Vec<String>, params: &Vec<(String, u64)>) -> (r: Result<
    Vec<(String, u64)>,
    CellError,
>)
    ensures
        first_unbound_param(code@, params_view(params@), 0) matches Some(n) ==> (r matches Err(e)
            && e@ == (ErrSpec::MissingParam { name: n })),
        !program_uses_rand(code@, 0) && first_unbound_param(code@, params_view(params@), 0)
            is None ==> (match r {
            Ok(out) => run_spec(code@, strs_view(cell_names@), params_view(params@), 0) == Ok::<
                Seq<(Seq<char>, u64)>,
                ErrSpec,
            >(params_view(out@)),
            Err(e) => run_spec(code@, strs_view(cell_names@), params_view(params@), 0)
                matches Err(es) && es == e@,
        }),
{
    let ghost nv = code@;
    let ghost pv = params_view(params@);
    let mut i: usize = 0;
    while i < code.nodes.len()
        invariant
            i <= code.nodes@.len(),
            nv == code@,
            nv == crate::parser::nodes_view(code.nodes@),
            pv == params_view(params@),
            first_unbound_param(nv, pv, 0) == first_unbound_param(nv, pv, i as nat),
        decreases code.nodes@.len() - i,
    {
        proof {
            assert(nv[i as int] == code.nodes@[i as int]@);
        }
        match &code.nodes[i] {
            Node::Param(p) => {
                proof {
                    assert(nv[i as int] matches NodeModel::Param { name } && name == p.name@);
                }
                if lookup_param(params, &p.name).is_none() {
                    return Err(CellError::MissingParam { name: p.name.clone() });
                }
            },
            Node::Cell(c) => {
                proof {
                    assert(nv[i as int] is Cell);
                }
            },
        }
        i = i + 1;
    }
    let ghost qv = strs_view(cell_names@);
    let mut out: Vec<(String, u64)> = Vec::new();
    let mut k: usize = 0;
    proof {
        assert(params_view(Seq::<(String, u64)>::empty()) =~= Seq::<(Seq<char>, u64)>::empty());
    }
    while k < cell_names.len()
        invariant
            k <= cell_names@.len(),
            nv == code@,
            nv == crate::parser::nodes_view(code.nodes@),
            pv == params_view(params@),
            qv == strs_view(cell_names@),
            first_unbound_param(nv, pv, 0) is None,
            !program_uses_rand(nv, 0) ==> (match run_spec(nv, qv, pv, k as nat) {
                Ok(rest) => run_spec(nv, qv, pv, 0) == Ok::<Seq<(Seq<char>, u64)>, ErrSpec>(
                    params_view(out@) + rest,
                ),
                Err(es) => run_spec(nv, qv, pv, 0) == Err::<Seq<(Seq<char>, u64)>, ErrSpec>(es),
            }),
        decreases cell_names@.len() - k,
    {
        proof {
            crate::strutil::lemma_strs_view_len(cell_names@);
            assert(qv[k as int] == cell_names@[k as int]@);
        }
        let q = &cell_names[k];
        let at = Atom::Ident(q.clone());
        proof {
            assert(crate::parser::atom_view(at) matches AtomModel::Ident(nm) && nm == qv[
                k as int
            ]);
        }
        let probe = Expr::Atom(at);
        let mut stack: Vec<String> = Vec::new();
        proof {
            assert(stack_set(Seq::<String>::empty()) =~= Set::<Seq<char>>::empty());
            assert(probe@ matches ExprModel::Atom(am) && am matches AtomModel::Ident(nm) && nm
                == qv[k as int]);
        }
        let v = match run_expr(&code.nodes, &probe, params, &mut stack) {
            Ok(v) => v,
            Err(e) => {
                return Err(e);
            },
        };
        let ghost out0 = out@;
        out.push((q.clone(), v));
        proof {
            if !program_uses_rand(nv, 0) {
                if let Ok(rest) = run_spec(nv, qv, pv, k as nat) {
                    assert(params_view(out@) =~= params_view(out0).push((qv[k as int], v)));
                    assert(params_view(out0).push((qv[k as int], v)) + run_spec(
                        nv,
                        qv,
                        pv,
                        (k + 1) as nat,
                    )->Ok_0 =~= params_view(out0) + rest);
                }
            }
        }
        k = k + 1;
    }
    proof {
        if !program_uses_rand(nv, 0) {
            assert(params_view(out@) + Seq::<(Seq<char>, u64)>::empty() =~= params_view(out@));
        }
    }
    Ok(out)
}

} // verus!
