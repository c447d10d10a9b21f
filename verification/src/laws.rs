use vstd::prelude::*;

use crate::ast_interpreter::{program_uses_rand, run_spec};
use crate::deps::{
    deps_of, names_of, names_set, order_spec, sort_from, dedup_from, visit_list_spec, visit_spec,
    lemma_prog_insert_decreases,
};
use crate::error::ErrSpec;
use crate::ir::{code_gen_spec, gen_from, first_missing_from, InstrModel};
use crate::parser::NodeModel;
use crate::vm::{read_outputs, vm_exec, vm_run_spec};

verus! {

// The laws that hold across the pipeline's pieces, stated over the same
// mathematical models the functions' own contracts use.

/// Whether an order lists every name after all of its declared
/// dependencies.
pub open spec fn order_closed(ns: Seq<NodeModel>, order: Seq<Seq<char>>) -> bool {
    forall|i: int, k: int|
        0 <= i < order.len() && 0 <= k < deps_of(ns, order[i]).len() && names_of(ns).contains(
            deps_of(ns, order[i])[k],
        ) ==> exists|j: int| 0 <= j < i && order[j] == deps_of(ns, order[i])[k]
}

/// Visiting one name only appends to the order.
pub proof fn lemma_visit_extends(
    ns: Seq<NodeModel>,
    name: Seq<char>,
    order: Seq<Seq<char>>,
    prog: Set<Seq<char>>,
)
    requires
        prog.finite(),
    ensures
        order.is_prefix_of(visit_spec(ns, name, order, prog)),
    decreases names_set(ns).difference(prog).len(), 0int, 0int,
{
    if !(order.contains(name) || !names_of(ns).contains(name) || prog.contains(name)) {
        lemma_prog_insert_decreases(ns, name, prog);
        lemma_visit_list_extends(ns, deps_of(ns, name), 0, order, prog.insert(name));
    }
}

/// Visiting a list of names only appends to the order.
pub proof fn lemma_visit_list_extends(
    ns: Seq<NodeModel>,
    names: Seq<Seq<char>>,
    i: nat,
    order: Seq<Seq<char>>,
    prog: Set<Seq<char>>,
)
    requires
        prog.finite(),
    ensures
        order.is_prefix_of(visit_list_spec(ns, names, i, order, prog)),
    decreases names_set(ns).difference(prog).len(), names.len() - i, 1int,
{
    if i < names.len() {
        let order1 = visit_spec(ns, names[i as int], order, prog);
        lemma_visit_extends(ns, names[i as int], order, prog);
        lemma_visit_list_extends(ns, names, i + 1, order1, prog);
    }
}

/// Visiting one name keeps the order closed: a name is appended only once
/// every declared dependency of it is already there.
pub proof fn lemma_visit_closed(
    ns: Seq<NodeModel>,
    name: Seq<char>,
    order: Seq<Seq<char>>,
    prog: Set<Seq<char>>,
)
    requires
        prog.finite(),
        order_closed(ns, order),
    ensures
        order_closed(ns, visit_spec(ns, name, order, prog)),
    decreases names_set(ns).difference(prog).len(), 0int, 0int,
{
    if !(order.contains(name) || !names_of(ns).contains(name) || prog.contains(name)) {
        lemma_prog_insert_decreases(ns, name, prog);
        let deps = deps_of(ns, name);
        let order1 = visit_list_spec(ns, deps, 0, order, prog.insert(name));
        lemma_visit_list_closed(ns, deps, 0, order, prog.insert(name));
        if forall|k: int|
            0 <= k < deps.len() && names_of(ns).contains(deps[k]) ==> order1.contains(deps[k]) {
            let order2 = order1.push(name);
            assert forall|i: int, k: int|
                0 <= i < order2.len() && 0 <= k < deps_of(ns, order2[i]).len() && names_of(
                    ns,
                ).contains(deps_of(ns, order2[i])[k]) implies exists|j: int|
                0 <= j < i && order2[j] == deps_of(ns, order2[i])[k] by {
                if i < order1.len() {
                    assert(order2[i] == order1[i]);
                    let j = choose|j: int|
                        0 <= j < i && order1[j] == deps_of(ns, order1[i])[k];
                    assert(order2[j] == deps_of(ns, order2[i])[k]);
                } else {
                    assert(order2[i] == name);
                    assert(order1.contains(deps[k]));
                    let j = choose|j: int|
                        0 <= j < order1.len() && order1[j] == deps[k];
                    assert(order2[j] == deps_of(ns, order2[i])[k]);
                }
            }
        }
    }
}

/// Visiting a list of names keeps the order closed.
pub proof fn lemma_visit_list_closed(
    ns: Seq<NodeModel>,
    names: Seq<Seq<char>>,
    i: nat,
    order: Seq<Seq<char>>,
    prog: Set<Seq<char>>,
)
    requires
        prog.finite(),
        order_closed(ns, order),
    ensures
        order_closed(ns, visit_list_spec(ns, names, i, order, prog)),
    decreases names_set(ns).difference(prog).len(), names.len() - i, 1int,
{
    if i < names.len() {
        let order1 = visit_spec(ns, names[i as int], order, prog);
        lemma_visit_closed(ns, names[i as int], order, prog);
        lemma_visit_list_closed(ns, names, i + 1, order1, prog);
    }
}

/// Topological soundness: in the order of execution, every name comes
/// after each declared name its expression reads.
pub proof fn lemma_order_topologically_sound(ns: Seq<NodeModel>)
    ensures
        order_closed(ns, order_spec(ns)),
{
    let sorted = sort_from(dedup_from(names_of(ns), 0, Seq::empty()), 0);
    assert(order_closed(ns, Seq::<Seq<char>>::empty()));
    lemma_visit_list_closed(ns, sorted, 0, Seq::empty(), Set::empty());
}

/// Determinism of tree evaluation: two runs of a program without `rand`,
/// on the same bindings and queries, agree on every value.
pub proof fn lemma_run_deterministic(
    ns: Seq<NodeModel>,
    queries: Seq<Seq<char>>,
    ps: Seq<(Seq<char>, u64)>,
    out1: Seq<(Seq<char>, u64)>,
    out2: Seq<(Seq<char>, u64)>,
)
    requires
        !program_uses_rand(ns, 0),
        run_spec(ns, queries, ps, 0) == Ok::<Seq<(Seq<char>, u64)>, ErrSpec>(out1),
        run_spec(ns, queries, ps, 0) == Ok::<Seq<(Seq<char>, u64)>, ErrSpec>(out2),
    ensures
        out1 == out2,
{
}

/// Determinism of the stack machine: two runs of code without `rand`, on
/// the same bindings, agree on every value.
pub proof fn lemma_vm_deterministic(
    code: Seq<InstrModel>,
    meta: Seq<(Seq<char>, nat)>,
    ps: Seq<(Seq<char>, u64)>,
    out1: Seq<(Seq<char>, u64)>,
    out2: Seq<(Seq<char>, u64)>,
)
    requires
        !crate::vm::code_has_rand(code, 0),
        vm_run_spec(code, meta, ps) == Ok::<Seq<(Seq<char>, u64)>, ErrSpec>(out1),
        vm_run_spec(code, meta, ps) == Ok::<Seq<(Seq<char>, u64)>, ErrSpec>(out2),
    ensures
        out1 == out2,
{
}

/// An empty program lowers to no code and no slots, and every engine
/// yields an empty result map on it.
pub proof fn lemma_empty_program(ps: Seq<(Seq<char>, u64)>)
    ensures
        code_gen_spec(Seq::empty()) == Ok::<
            (Seq<InstrModel>, Seq<(Seq<char>, nat)>),
            ErrSpec,
        >((Seq::empty(), Seq::empty())),
        vm_run_spec(Seq::empty(), Seq::empty(), ps) == Ok::<Seq<(Seq<char>, u64)>, ErrSpec>(
            Seq::empty(),
        ),
        run_spec(Seq::empty(), Seq::empty(), ps, 0) == Ok::<Seq<(Seq<char>, u64)>, ErrSpec>(
            Seq::empty(),
        ),
{
    let ns = Seq::<NodeModel>::empty();
    assert(names_of(ns) =~= Seq::<Seq<char>>::empty());
    assert(dedup_from(names_of(ns), 0, Seq::empty()) =~= Seq::<Seq<char>>::empty());
    assert(sort_from(dedup_from(names_of(ns), 0, Seq::empty()), 0) =~= Seq::<Seq<char>>::empty());
    assert(order_spec(ns) =~= Seq::<Seq<char>>::empty());
    assert(first_missing_from(names_of(ns), order_spec(ns), 0) is None);
    assert(gen_from(ns, order_spec(ns), 0, Seq::empty(), Seq::empty()) == Ok::<
        (Seq<InstrModel>, Seq<(Seq<char>, nat)>),
        ErrSpec,
    >((Seq::empty(), Seq::empty())));
    assert(vm_exec(Seq::empty(), ps, 0, Seq::empty()) == Ok::<Seq<u64>, ErrSpec>(Seq::empty()));
    assert(read_outputs(Seq::empty(), Seq::empty(), 0) == Ok::<
        Seq<(Seq<char>, u64)>,
        ErrSpec,
    >(Seq::empty()));
}

/// Division is total: with both operands evaluated, a quotient always
/// evaluates, whatever the divisor — zero included. The value follows
/// IEEE-754, an infinity or NaN where the divisor is zero.
pub proof fn lemma_division_never_fails(
    ns: Seq<NodeModel>,
    l: crate::parser::ExprModel,
    r: crate::parser::ExprModel,
    ps: Seq<(Seq<char>, u64)>,
    visited: Set<Seq<char>>,
)
    requires
        visited.finite(),
        crate::ast_interpreter::eval_expr_spec(ns, l, ps, visited) is Ok,
        crate::ast_interpreter::eval_expr_spec(ns, r, ps, visited) is Ok,
    ensures
        crate::ast_interpreter::eval_expr_spec(
            ns,
            crate::parser::ExprModel::Div(Box::new(l), Box::new(r)),
            ps,
            visited,
        ) is Ok,
{
}

} // verus!
