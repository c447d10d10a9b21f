use vstd::prelude::*;

use crate::parser::{Atom, AtomModel, Cell, Expr, ExprModel, Node, NodeModel, AST};
use crate::strutil::{contains_name, lemma_strs_prepend, strs_view};

verus! {

// The dependency analyzer orders the program's names so that every cell
// comes after everything it reads. The order is found by depth-first search
// from each name, names taken in lexicographic order, a cell's dependencies
// in the order they occur in its expression. A name is appended once all of
// its declared dependencies are appended; a name on a dependency cycle is
// never appended, which the code generator reports as a cycle.

/// The name a declaration introduces.
pub open spec fn node_name(n: NodeModel) -> Seq<char> {
    match n {
        NodeModel::Param { name } => name,
        NodeModel::Cell { name, expr } => name,
    }
}

/// All declared names, in program order, duplicates kept.
pub open spec fn names_of(ns: Seq<NodeModel>) -> Seq<Seq<char>> {
    ns.map_values(|n: NodeModel| node_name(n))
}

/// The first declaration of a name at or after position `i`, if any.
pub open spec fn find_node_from(ns: Seq<NodeModel>, name: Seq<char>, i: nat) -> Option<NodeModel>
    decreases ns.len() - i,
{
    if i >= ns.len() {
        None
    } else if node_name(ns[i as int]) == name {
        Some(ns[i as int])
    } else {
        find_node_from(ns, name, i + 1)
    }
}

/// The first declaration of a name, if any.
pub open spec fn find_node_model(ns: Seq<NodeModel>, name: Seq<char>) -> Option<NodeModel> {
    find_node_from(ns, name, 0)
}

/// The names an expression reads, in occurrence order, duplicates kept.
/// A call's own name is a built-in, not a read.
pub open spec fn expr_free_names(e: ExprModel) -> Seq<Seq<char>>
    decreases e, 0int,
{
    match e {
        ExprModel::Atom(a) => match a {
            AtomModel::Number { bits, text } => Seq::empty(),
            AtomModel::Ident(n) => seq![n],
            AtomModel::Call { name, arguments } => exprs_free_from(arguments, 0),
        },
        ExprModel::Add(l, r) => expr_free_names(*l) + expr_free_names(*r),
        ExprModel::Mod(l, r) => expr_free_names(*l) + expr_free_names(*r),
        ExprModel::Sub(l, r) => expr_free_names(*l) + expr_free_names(*r),
        ExprModel::Mul(l, r) => expr_free_names(*l) + expr_free_names(*r),
        ExprModel::Div(l, r) => expr_free_names(*l) + expr_free_names(*r),
        ExprModel::Condition { lhs, rhs, op, true_branch, false_branch } => expr_free_names(*lhs)
            + expr_free_names(*rhs) + expr_free_names(*true_branch) + expr_free_names(
            *false_branch,
        ),
    }
}

pub open spec fn exprs_free_from(es: Seq<ExprModel>, i: nat) -> Seq<Seq<char>>
    decreases es, es.len() - i,
{
    if i >= es.len() {
        Seq::empty()
    } else {
        expr_free_names(es[i as int]) + exprs_free_from(es, i + 1)
    }
}

/// What a name depends on: a cell reads its expression's free names; a
/// parameter reads nothing; an undeclared name has no entry.
pub open spec fn deps_of(ns: Seq<NodeModel>, name: Seq<char>) -> Seq<Seq<char>> {
    match find_node_model(ns, name) {
        Some(NodeModel::Cell { name: _, expr }) => expr_free_names(expr),
        _ => Seq::empty(),
    }
}

/// Lexicographic order on names, by character code point, from position `i`.
pub open spec fn str_le_from(a: Seq<char>, b: Seq<char>, i: nat) -> bool
    decreases a.len() - i,
{
    if i >= a.len() {
        true
    } else if i >= b.len() {
        false
    } else if (a[i as int] as u32) < (b[i as int] as u32) {
        true
    } else if (a[i as int] as u32) > (b[i as int] as u32) {
        false
    } else {
        str_le_from(a, b, i + 1)
    }
}

/// Lexicographic order on names, by character code point.
pub open spec fn str_le(a: Seq<char>, b: Seq<char>) -> bool {
    str_le_from(a, b, 0)
}

/// Insert a name into the sorted list `s[i..]`, before the first entry it
/// precedes.
pub open spec fn ins_from(x: Seq<char>, s: Seq<Seq<char>>, i: nat) -> Seq<Seq<char>>
    decreases s.len() - i,
{
    if i >= s.len() {
        seq![x]
    } else if str_le(x, s[i as int]) {
        seq![x] + s.subrange(i as int, s.len() as int)
    } else {
        seq![s[i as int]] + ins_from(x, s, i + 1)
    }
}

/// Insertion sort over the names `s[i..]`.
pub open spec fn sort_from(s: Seq<Seq<char>>, i: nat) -> Seq<Seq<char>>
    decreases s.len() - i,
{
    if i >= s.len() {
        Seq::empty()
    } else {
        ins_from(s[i as int], sort_from(s, i + 1), 0)
    }
}

/// The first occurrence of each name of `s[i..]` that is not in `seen`.
pub open spec fn dedup_from(s: Seq<Seq<char>>, i: nat, seen: Seq<Seq<char>>) -> Seq<Seq<char>>
    decreases s.len() - i,
{
    if i >= s.len() {
        Seq::empty()
    } else if seen.contains(s[i as int]) {
        dedup_from(s, i + 1, seen)
    } else {
        seq![s[i as int]] + dedup_from(s, i + 1, seen.push(s[i as int]))
    }
}

/// The declared names as a set.
pub open spec fn names_set(ns: Seq<NodeModel>) -> Set<Seq<char>> {
    names_of(ns).to_set()
}

/// Visit one name: append it to the order once all its declared
/// dependencies are appended. `prog` holds the names on the current search
/// path; meeting one again means a cycle, and the name is left out.
pub open spec fn visit_spec(
    ns: Seq<NodeModel>,
    name: Seq<char>,
    order: Seq<Seq<char>>,
    prog: Set<Seq<char>>,
) -> Seq<Seq<char>>
    decreases names_set(ns).difference(prog).len(), 0int, 0int,
    when prog.finite()
    via visit_spec_decreases
{
    if order.contains(name) || !names_of(ns).contains(name) || prog.contains(name) {
        order
    } else {
        let deps = deps_of(ns, name);
        let order1 = visit_list_spec(ns, deps, 0, order, prog.insert(name));
        if forall|k: int|
            0 <= k < deps.len() && names_of(ns).contains(deps[k]) ==> order1.contains(deps[k]) {
            order1.push(name)
        } else {
            order1
        }
    }
}

/// Visit each name of `names[i..]` in turn, threading the order through.
pub open spec fn visit_list_spec(
    ns: Seq<NodeModel>,
    names: Seq<Seq<char>>,
    i: nat,
    order: Seq<Seq<char>>,
    prog: Set<Seq<char>>,
) -> Seq<Seq<char>>
    decreases names_set(ns).difference(prog).len(), names.len() - i, 1int,
    when prog.finite()
{
    if i >= names.len() {
        order
    } else {
        let order1 = visit_spec(ns, names[i as int], order, prog);
        visit_list_spec(ns, names, i + 1, order1, prog)
    }
}

#[via_fn]
proof fn visit_spec_decreases(
    ns: Seq<NodeModel>,
    name: Seq<char>,
    order: Seq<Seq<char>>,
    prog: Set<Seq<char>>,
) {
    if !(order.contains(name) || !names_of(ns).contains(name) || prog.contains(name)) {
        lemma_prog_insert_decreases(ns, name, prog);
    }
}

/// Putting an unvisited declared name on the search path shrinks what is
/// left to visit.
pub proof fn lemma_prog_insert_decreases(ns: Seq<NodeModel>, name: Seq<char>, prog: Set<Seq<char>>)
    requires
        prog.finite(),
        names_of(ns).contains(name),
        !prog.contains(name),
    ensures
        names_set(ns).difference(prog.insert(name)).len() < names_set(ns).difference(prog).len(),
{
    broadcast use vstd::set::group_set_axioms;

    vstd::seq_lib::seq_to_set_is_finite(names_of(ns));
    let a = names_set(ns).difference(prog);
    vstd::set::axiom_set_difference_finite(names_set(ns), prog);
    assert(names_set(ns).contains(name));
    assert(a.contains(name));
    assert(names_set(ns).difference(prog.insert(name)) =~= a.remove(name));
    vstd::set::axiom_set_remove_len(a, name);
}

/// The order of execution of a program's names: a depth-first search from
/// each declared name, names in lexicographic order.
pub open spec fn order_spec(ns: Seq<NodeModel>) -> Seq<Seq<char>> {
    visit_list_spec(
        ns,
        sort_from(dedup_from(names_of(ns), 0, Seq::empty()), 0),
        0,
        Seq::empty(),
        Set::empty(),
    )
}

/// A name is declared exactly when a search from the front finds it.
pub proof fn lemma_find_node_contains(ns: Seq<NodeModel>, name: Seq<char>, i: nat)
    requires
        i <= ns.len(),
    ensures
        find_node_from(ns, name, i) is Some <==> exists|k: int|
            i <= k < ns.len() && node_name(ns[k]) == name,
    decreases ns.len() - i,
{
    if i < ns.len() && node_name(ns[i as int]) != name {
        lemma_find_node_contains(ns, name, i + 1);
    }
}

pub proof fn lemma_names_contains(ns: Seq<NodeModel>, name: Seq<char>)
    ensures
        names_of(ns).contains(name) <==> find_node_model(ns, name) is Some,
{
    lemma_find_node_contains(ns, name, 0);
    if names_of(ns).contains(name) {
        let k = choose|k: int| 0 <= k < names_of(ns).len() && names_of(ns)[k] == name;
        assert(node_name(ns[k]) == name);
    }
    if find_node_model(ns, name) is Some {
        let k = choose|k: int| 0 <= k < ns.len() && node_name(ns[k]) == name;
        assert(names_of(ns)[k] == name);
    }
}

/// The first declaration of a name at or after position `i`, by reference.
pub fn find_node_x<'a>(ns: &'a Vec<Node>, name: &String, i: usize) -> (r: Option<&'a Node>)
    requires
        i <= ns@.len(),
    ensures
        match r {
            Some(n) => find_node_from(crate::parser::nodes_view(ns@), name@, i as nat) == Some(n@),
            None => find_node_from(crate::parser::nodes_view(ns@), name@, i as nat) is None,
        },
    decreases ns@.len() - i,
{
    let ghost nv = crate::parser::nodes_view(ns@);
    if i >= ns.len() {
        return None;
    }
    proof {
        assert(nv[i as int] == ns@[i as int]@);
    }
    let same = match &ns[i] {
        Node::Param(p) => p.name.eq(name),
        Node::Cell(c) => c.name.eq(name),
    };
    if same {
        Some(&ns[i])
    } else {
        find_node_x(ns, name, i + 1)
    }
}

/// The names an expression reads, in occurrence order.
pub fn free_names_x(e: &Expr) -> (r: Vec<String>)
    ensures
        strs_view(r@) == expr_free_names(e@),
    decreases e, 0int,
{
    match e {
        Expr::Atom(a) => match a {
            Atom::Number { bits, text } => {
                proof {
                    assert(strs_view(Seq::<String>::empty()) =~= Seq::<Seq<char>>::empty());
                }
                Vec::new()
            },
            Atom::Ident(n) => {
                let mut r: Vec<String> = Vec::new();
                r.push(n.clone());
                proof {
                    assert(strs_view(r@) =~= seq![n@]);
                }
                r
            },
            Atom::Call { name, arguments } => {
                let r = frees_args_x(arguments, 0);
                proof {
                    assert(e@ is Atom);
                    assert(crate::parser::atom_view(*a) matches AtomModel::Call { name: nm, arguments: ags }
                        && ags == crate::parser::exprs_view(arguments@));
                    assert(expr_free_names(e@) == exprs_free_from(
                        crate::parser::exprs_view(arguments@),
                        0,
                    ));
                }
                r
            },
        },
        Expr::Add(l, r) => {
            let mut a = free_names_x(l);
            let mut b = free_names_x(r);
            a.append(&mut b);
            proof {
                assert(strs_view(a@) =~= expr_free_names(e@));
            }
            a
        },
        Expr::Mod(l, r) => {
            let mut a = free_names_x(l);
            let mut b = free_names_x(r);
            a.append(&mut b);
            proof {
                assert(strs_view(a@) =~= expr_free_names(e@));
            }
            a
        },
        Expr::Sub(l, r) => {
            let mut a = free_names_x(l);
            let mut b = free_names_x(r);
            a.append(&mut b);
            proof {
                assert(strs_view(a@) =~= expr_free_names(e@));
            }
            a
        },
        Expr::Mul(l, r) => {
            let mut a = free_names_x(l);
            let mut b = free_names_x(r);
            a.append(&mut b);
            proof {
                assert(strs_view(a@) =~= expr_free_names(e@));
            }
            a
        },
        Expr::Div(l, r) => {
            let mut a = free_names_x(l);
            let mut b = free_names_x(r);
            a.append(&mut b);
            proof {
                assert(strs_view(a@) =~= expr_free_names(e@));
            }
            a
        },
        Expr::Condition { lhs, rhs, op, true_branch, false_branch } => {
            let mut a = free_names_x(lhs);
            let mut b = free_names_x(rhs);
            let mut c = free_names_x(true_branch);
            let mut d = free_names_x(false_branch);
            a.append(&mut b);
            a.append(&mut c);
            a.append(&mut d);
            proof {
                assert(strs_view(a@) =~= expr_free_names(e@));
            }
            a
        },
    }
}

/// The free names of the arguments `args[i..]`, in order.
fn frees_args_x(args: &Vec<Expr>, i: usize) -> (r: Vec<String>)
    requires
        i <= args@.len(),
    ensures
        strs_view(r@) == exprs_free_from(crate::parser::exprs_view(args@), i as nat),
    decreases args@, args@.len() - i,
{
    let ghost ev = crate::parser::exprs_view(args@);
    proof {
        crate::parser::lemma_exprs_view_len(args@);
    }
    if i >= args.len() {
        proof {
            assert(strs_view(Seq::<String>::empty()) =~= Seq::<Seq<char>>::empty());
        }
        return Vec::new();
    }
    proof {
        crate::parser::lemma_exprs_view_index(args@, i as int);
    }
    let mut a = free_names_x(&args[i]);
    let mut b = frees_args_x(args, i + 1);
    a.append(&mut b);
    proof {
        assert(strs_view(a@) =~= exprs_free_from(ev, i as nat));
    }
    a
}

/// The set a list of names covers.
pub open spec fn strs_set(v: Seq<String>) -> Set<Seq<char>> {
    strs_view(v).to_set()
}

proof fn lemma_strs_set_push(v: Seq<String>, x: String)
    ensures
        strs_set(v.push(x)) == strs_set(v).insert(x@),
        strs_set(v).finite(),
{
    broadcast use vstd::set::group_set_axioms;

    vstd::seq_lib::seq_to_set_is_finite(strs_view(v));
    crate::strutil::lemma_strs_push(v, x);
    vstd::seq_lib::seq_to_set_is_finite(strs_view(v.push(x)));
    assert forall|y: Seq<char>| strs_set(v.push(x)).contains(y) implies strs_set(v).insert(
        x@,
    ).contains(y) by {
        let k = choose|k: int|
            0 <= k < strs_view(v.push(x)).len() && strs_view(v.push(x))[k] == y;
        if k < v.len() {
            assert(strs_view(v)[k] == y);
            assert(strs_view(v).contains(y));
        }
    }
    assert forall|y: Seq<char>| strs_set(v).insert(x@).contains(y) implies strs_set(
        v.push(x),
    ).contains(y) by {
        if y == x@ {
            assert(strs_view(v.push(x))[v.len() as int] == y);
        } else {
            let k = choose|k: int| 0 <= k < strs_view(v).len() && strs_view(v)[k] == y;
            assert(strs_view(v.push(x))[k] == y);
        }
    }
    assert(strs_set(v.push(x)) =~= strs_set(v).insert(x@));
}

/// All declared names of a program, in declaration order.
pub(crate) fn collect_names(ns: &Vec<Node>) -> (r: Vec<String>)
    ensures
        strs_view(r@) == names_of(crate::parser::nodes_view(ns@)),
{
    let ghost nv = crate::parser::nodes_view(ns@);
    let mut r: Vec<String> = Vec::new();
    let mut i: usize = 0;
    while i < ns.len()
        invariant
            i <= ns@.len(),
            nv == crate::parser::nodes_view(ns@),
            strs_view(r@) == names_of(nv).subrange(0, i as int),
        decreases ns@.len() - i,
    {
        proof {
            assert(nv[i as int] == ns@[i as int]@);
        }
        let name = match &ns[i] {
            Node::Param(p) => {
                let nm = p.name.clone();
                proof {
                    assert(nm@ == node_name(nv[i as int]));
                }
                nm
            },
            Node::Cell(c) => {
                let nm = c.name.clone();
                proof {
                    assert(nm@ == node_name(nv[i as int]));
                }
                nm
            },
        };
        proof {
            assert(names_of(nv)[i as int] == node_name(nv[i as int]));
        }
        let ghost r0 = r@;
        r.push(name);
        proof {
            crate::strutil::lemma_strs_push(r0, name);
            assert(strs_view(r@) =~= names_of(nv).subrange(0, i + 1 as int));
        }
        i = i + 1;
    }
    proof {
        assert(names_of(nv).subrange(0, ns@.len() as int) =~= names_of(nv));
    }
    r
}

/// The first occurrence of each name of `v[i..]` not yet in `seen`.
fn dedup_x(v: &Vec<String>, i: usize, seen: Vec<String>) -> (r: Vec<String>)
    requires
        i <= v@.len(),
    ensures
        strs_view(r@) == dedup_from(strs_view(v@), i as nat, strs_view(seen@)),
    decreases v@.len() - i,
{
    let ghost sv = strs_view(v@);
    if i >= v.len() {
        proof {
            assert(strs_view(Seq::<String>::empty()) =~= Seq::<Seq<char>>::empty());
        }
        return Vec::new();
    }
    proof {
        assert(sv[i as int] == v@[i as int]@);
    }
    if contains_name(&seen, &v[i]) {
        dedup_x(v, i + 1, seen)
    } else {
        let x = v[i].clone();
        let mut seen2 = seen;
        seen2.push(v[i].clone());
        proof {
            crate::strutil::lemma_strs_push(seen@, seen2@[seen2@.len() - 1]);
        }
        let mut rest = dedup_x(v, i + 1, seen2);
        proof {
            lemma_strs_prepend(x, rest@);
        }
        rest.insert(0, x);
        rest
    }
}

/// Lexicographic comparison of two names, from character `i` on.
fn str_le_x(a: &String, b: &String, i: usize) -> (r: bool)
    requires
        i <= a@.len(),
    ensures
        r == str_le_from(a@, b@, i as nat),
    decreases a@.len() - i,
{
    let an = a.as_str().unicode_len();
    let bn = b.as_str().unicode_len();
    if i >= an {
        true
    } else if i >= bn {
        false
    } else {
        let ca = a.as_str().get_char(i) as u32;
        let cb = b.as_str().get_char(i) as u32;
        if ca < cb {
            true
        } else if ca > cb {
            false
        } else {
            str_le_x(a, b, i + 1)
        }
    }
}

/// The suffix `v[i..]`, cloned.
fn suffix_x(v: &Vec<String>, i: usize) -> (r: Vec<String>)
    requires
        i <= v@.len(),
    ensures
        strs_view(r@) == strs_view(v@).subrange(i as int, v@.len() as int),
    decreases v@.len() - i,
{
    if i >= v.len() {
        proof {
            assert(strs_view(Seq::<String>::empty()) =~= strs_view(v@).subrange(
                i as int,
                v@.len() as int,
            ));
        }
        return Vec::new();
    }
    let x = v[i].clone();
    let mut rest = suffix_x(v, i + 1);
    proof {
        lemma_strs_prepend(x, rest@);
    }
    rest.insert(0, x);
    proof {
        assert(strs_view(rest@) =~= strs_view(v@).subrange(i as int, v@.len() as int));
    }
    rest
}

/// Insert a name into the sorted list `v[i..]`.
fn ins_x(x: String, v: &Vec<String>, i: usize) -> (r: Vec<String>)
    requires
        i <= v@.len(),
    ensures
        strs_view(r@) == ins_from(x@, strs_view(v@), i as nat),
    decreases v@.len() - i,
{
    let ghost sv = strs_view(v@);
    if i >= v.len() {
        let mut r: Vec<String> = Vec::new();
        r.push(x);
        proof {
            assert(strs_view(r@) =~= seq![r@[0]@]);
        }
        return r;
    }
    proof {
        assert(sv[i as int] == v@[i as int]@);
    }
    if str_le_x(&x, &v[i], 0) {
        let mut rest = suffix_x(v, i);
        proof {
            lemma_strs_prepend(x, rest@);
        }
        rest.insert(0, x);
        rest
    } else {
        let h = v[i].clone();
        let mut rest = ins_x(x, v, i + 1);
        proof {
            lemma_strs_prepend(h, rest@);
        }
        rest.insert(0, h);
        rest
    }
}

/// Insertion sort of the names `v[i..]`.
fn sort_x(v: &Vec<String>, i: usize) -> (r: Vec<String>)
    requires
        i <= v@.len(),
    ensures
        strs_view(r@) == sort_from(strs_view(v@), i as nat),
    decreases v@.len() - i,
{
    if i >= v.len() {
        proof {
            assert(strs_view(Seq::<String>::empty()) =~= Seq::<Seq<char>>::empty());
        }
        return Vec::new();
    }
    proof {
        assert(strs_view(v@)[i as int] == v@[i as int]@);
    }
    let rest = sort_x(v, i + 1);
    ins_x(v[i].clone(), &rest, 0)
}

/// Visit one name of the search.
fn visit_x(ns: &Vec<Node>, name: &String, order: Vec<String>, prog: &mut Vec<String>) -> (r: Vec<
    String,
>)
    ensures
        strs_view(r@) == visit_spec(
            crate::parser::nodes_view(ns@),
            name@,
            strs_view(order@),
            strs_set(old(prog)@),
        ),
        final(prog)@ == old(prog)@,
    decreases
            names_set(crate::parser::nodes_view(ns@)).difference(strs_set(prog@)).len(),
            0int,
            0int,
{
    let ghost nv = crate::parser::nodes_view(ns@);
    let ghost prog0 = strs_set(prog@);
    proof {
        vstd::seq_lib::seq_to_set_is_finite(strs_view(prog@));
    }
    if contains_name(&order, name) {
        return order;
    }
    let node = match find_node_x(ns, name, 0) {
        Some(n) => n,
        None => {
            proof {
                lemma_names_contains(nv, name@);
            }
            return order;
        },
    };
    proof {
        lemma_names_contains(nv, name@);
    }
    if contains_name(prog, name) {
        proof {
            let k = choose|k: int|
                0 <= k < strs_view(prog@).len() && strs_view(prog@)[k] == name@;
            assert(strs_set(prog@).contains(name@));
        }
        return order;
    }
    proof {
        if strs_set(prog@).contains(name@) {
            let y = name@;
            assert(strs_view(prog@).to_set().contains(y));
            assert(strs_view(prog@).contains(y));
        }
        assert(!strs_set(prog@).contains(name@));
    }
    let deps = match node {
        Node::Cell(c) => free_names_x(&c.expr),
        Node::Param(p) => {
            proof {
                assert(strs_view(Seq::<String>::empty()) =~= Seq::<Seq<char>>::empty());
            }
            Vec::new()
        },
    };
    proof {
        assert(node@ == find_node_model(nv, name@)->Some_0);
        assert(strs_view(deps@) == deps_of(nv, name@));
        lemma_strs_set_push(prog@, *name);
        lemma_prog_insert_decreases(nv, name@, strs_set(prog@));
    }
    prog.push(name.clone());
    proof {
        lemma_strs_set_push(old(prog)@, prog@[prog@.len() - 1]);
        assert(strs_set(prog@) == prog0.insert(name@));
    }
    let order1 = visit_list_x(ns, &deps, 0, order, prog);
    prog.pop();
    proof {
        assert(prog@ =~= old(prog)@);
    }
    let mut all_in: bool = true;
    let mut k: usize = 0;
    let ghost dv = strs_view(deps@);
    while k < deps.len()
        invariant
            k <= deps@.len(),
            dv == strs_view(deps@),
            nv == crate::parser::nodes_view(ns@),
            all_in == (forall|j: int|
                0 <= j < k && names_of(nv).contains(dv[j]) ==> strs_view(order1@).contains(
                    dv[j],
                )),
        decreases deps@.len() - k,
    {
        proof {
            assert(dv[k as int] == deps@[k as int]@);
        }
        let declared = match find_node_x(ns, &deps[k], 0) {
            Some(_) => true,
            None => false,
        };
        proof {
            lemma_names_contains(nv, deps@[k as int]@);
        }
        if declared && !contains_name(&order1, &deps[k]) {
            all_in = false;
        }
        k = k + 1;
    }
    if all_in {
        let mut order2 = order1;
        order2.push(name.clone());
        proof {
            crate::strutil::lemma_strs_push(order1@, order2@[order2@.len() - 1]);
        }
        order2
    } else {
        proof {
            let j = choose|j: int|
                0 <= j < dv.len() && names_of(nv).contains(dv[j]) && !strs_view(
                    order1@,
                ).contains(dv[j]);
            assert(!(forall|jj: int|
                0 <= jj < dv.len() && names_of(nv).contains(dv[jj]) ==> strs_view(
                    order1@,
                ).contains(dv[jj])));
        }
        order1
    }
}

/// Visit each name of `names[i..]` in turn.
fn visit_list_x(
    ns: &Vec<Node>,
    names: &Vec<String>,
    i: usize,
    order: Vec<String>,
    prog: &mut Vec<String>,
) -> (r: Vec<String>)
    requires
        i <= names@.len(),
    ensures
        strs_view(r@) == visit_list_spec(
            crate::parser::nodes_view(ns@),
            strs_view(names@),
            i as nat,
            strs_view(order@),
            strs_set(old(prog)@),
        ),
        final(prog)@ == old(prog)@,
    decreases
            names_set(crate::parser::nodes_view(ns@)).difference(strs_set(prog@)).len(),
            names@.len() - i,
            1int,
{
    proof {
        vstd::seq_lib::seq_to_set_is_finite(strs_view(prog@));
    }
    if i >= names.len() {
        return order;
    }
    proof {
        assert(strs_view(names@)[i as int] == names@[i as int]@);
    }
    let order1 = visit_x(ns, &names[i], order, prog);
    visit_list_x(ns, names, i + 1, order1, prog)
}

/// The order in which the program's names are computed: dependencies first,
/// ties broken lexicographically. A name on a dependency cycle is missing
/// from the result.
pub fn get_order_of_execution(ast: &AST) -> (r: Vec<String>)
    ensures
        strs_view(r@) == order_spec(ast@),
{
    let names = collect_names(&ast.nodes);
    let dd = dedup_x(&names, 0, Vec::new());
    proof {
        assert(strs_view(Seq::<String>::empty()) =~= Seq::<Seq<char>>::empty());
    }
    let sorted = sort_x(&dd, 0);
    let mut prog: Vec<String> = Vec::new();
    let r = visit_list_x(&ast.nodes, &sorted, 0, Vec::new(), &mut prog);
    proof {
        assert(strs_set(prog@) =~= Set::<Seq<char>>::empty());
        assert(strs_view(Seq::<String>::empty()) =~= Seq::<Seq<char>>::empty());
    }
    r
}

} // verus!
