use vstd::prelude::*;

use crate::deps::{
    find_node_model, get_order_of_execution, names_of, node_name, order_spec, find_node_x,
};
use crate::error::{CellError, ErrSpec};
use crate::parser::{
    lemma_exprs_view_index, lemma_exprs_view_len, Atom, AtomModel, Cell, Expr, ExprModel, Node,
    NodeModel, Operator, AST,
};
use crate::strutil::strs_view;
use vstd::string::StringExecFns;

verus! {

// The intermediate representation: a linear, stack-oriented instruction
// list with a metadata record. Each parameter or cell leaves its final
// value at a persistent slot at the base of the operand stack, which later
// cells read back with `Read`. The metadata maps each name to its slot, in
// the order of execution, which also fixes the output ordering.

/// One instruction of the stack machine. A constant keeps the literal text
/// it was written as, for rendering.
#[derive(Debug, PartialEq)]
pub enum Instruction {
    JMPIfFalse(usize),
    JMP(usize),
    Greater,
    GreaterEqual,
    Less,
    LessEqual,
    Equal,
    LoadConst { bits: u64, text: String },
    Read(usize),
    Add,
    Sub,
    Mul,
    Mod,
    Div,
    Nop,
    Call(String),
    LoadParam(String),
}

/// The mathematical shadow of `Instruction`.
pub enum InstrModel {
    JMPIfFalse(nat),
    JMP(nat),
    Greater,
    GreaterEqual,
    Less,
    LessEqual,
    Equal,
    LoadConst { bits: u64, text: Seq<char> },
    Read(nat),
    Add,
    Sub,
    Mul,
    Mod,
    Div,
    Nop,
    Call(Seq<char>),
    LoadParam(Seq<char>),
}

impl View for Instruction {
    type V = InstrModel;

    open spec fn view(&self) -> InstrModel {
        match self {
            Instruction::JMPIfFalse(t) => InstrModel::JMPIfFalse(*t as nat),
            Instruction::JMP(t) => InstrModel::JMP(*t as nat),
            Instruction::Greater => InstrModel::Greater,
            Instruction::GreaterEqual => InstrModel::GreaterEqual,
            Instruction::Less => InstrModel::Less,
            Instruction::LessEqual => InstrModel::LessEqual,
            Instruction::Equal => InstrModel::Equal,
            Instruction::LoadConst { bits, text } => InstrModel::LoadConst {
                bits: *bits,
                text: text@,
            },
            Instruction::Read(s) => InstrModel::Read(*s as nat),
            Instruction::Add => InstrModel::Add,
            Instruction::Sub => InstrModel::Sub,
            Instruction::Mul => InstrModel::Mul,
            Instruction::Mod => InstrModel::Mod,
            Instruction::Div => InstrModel::Div,
            Instruction::Nop => InstrModel::Nop,
            Instruction::Call(n) => InstrModel::Call(n@),
            Instruction::LoadParam(n) => InstrModel::LoadParam(n@),
        }
    }
}

/// An instruction sequence, seen through each instruction's model.
pub open spec fn instrs_view(v: Seq<Instruction>) -> Seq<InstrModel> {
    v.map_values(|i: Instruction| i@)
}

proof fn lemma_instrs_view_len(v: Seq<Instruction>)
    ensures
        instrs_view(v).len() == v.len(),
{
}

proof fn lemma_instrs_push(v: Seq<Instruction>, x: Instruction)
    ensures
        instrs_view(v.push(x)) == instrs_view(v).push(x@),
{
    assert(instrs_view(v.push(x)) =~= instrs_view(v).push(x@));
}

proof fn lemma_instrs_set(v: Seq<Instruction>, i: int, x: Instruction)
    requires
        0 <= i < v.len(),
    ensures
        instrs_view(v.update(i, x)) == instrs_view(v).update(i, x@),
{
    assert(instrs_view(v.update(i, x)) =~= instrs_view(v).update(i, x@));
}

/// The declared shape of indexmap's ordered map, which the metadata uses to
/// keep names in insertion order.
#[verifier::external_type_specification]
#[verifier::external_body]
#[verifier::reject_recursive_types(K)]
#[verifier::reject_recursive_types(V)]
#[verifier::reject_recursive_types(S)]
pub struct ExIndexMap<K, V, S>(indexmap::IndexMap<K, V, S>);

/// What the ordered map holds: its name-to-slot pairs, in insertion order.
pub uninterp spec fn index_map_model(m: indexmap::IndexMap<String, usize>) -> Seq<
    (Seq<char>, nat),
>;

/// Relies on indexmap::IndexMap::new: a new map holds nothing.
#[verifier::external_body]
fn im_new() -> (m: indexmap::IndexMap<String, usize>)
    ensures
        index_map_model(m) == Seq::<(Seq<char>, nat)>::empty(),
{
    indexmap::IndexMap::new()
}

/// Relies on indexmap::IndexMap::insert: a pair with a fresh key is
/// appended last in order.
#[verifier::external_body]
fn im_insert(m: &mut indexmap::IndexMap<String, usize>, k: String, v: usize)
    requires
        forall|j: int|
            0 <= j < index_map_model(*old(m)).len() ==> index_map_model(*old(m))[j].0 != k@,
    ensures
        index_map_model(*final(m)) == index_map_model(*old(m)).push((k@, v as nat)),
{
    let _ = m.insert(k, v);
}

/// Relies on indexmap::IndexMap::get: the value stored with the key, if the
/// key is in the map.
#[verifier::external_body]
fn im_get(m: &indexmap::IndexMap<String, usize>, k: &String) -> (r: Option<usize>)
    ensures
        match r {
            Some(v) => exists|j: int|
                0 <= j < index_map_model(*m).len() && index_map_model(*m)[j] == (k@, v as nat),
            None => forall|j: int|
                0 <= j < index_map_model(*m).len() ==> index_map_model(*m)[j].0 != k@,
        },
{
    m.get(k).copied()
}

/// Relies on indexmap::IndexMap::len: the number of pairs held.
#[verifier::external_body]
fn im_len(m: &indexmap::IndexMap<String, usize>) -> (n: usize)
    ensures
        n == index_map_model(*m).len(),
{
    m.len()
}

/// A pair list, seen through each pair's views.
pub open spec fn pairs_view(v: Seq<(String, usize)>) -> Seq<(Seq<char>, nat)> {
    v.map_values(|p: (String, usize)| (p.0@, p.1 as nat))
}

/// Relies on indexmap::IndexMap::iter: the pairs in insertion order.
#[verifier::external_body]
fn im_pairs(m: &indexmap::IndexMap<String, usize>) -> (r: Vec<(String, usize)>)
    ensures
        pairs_view(r@) == index_map_model(*m),
{
    m.iter().map(|p| (p.0.clone(), *p.1)).collect()
}

/// The metadata of a program's code: each name's persistent slot, in the
/// order of execution, and the next free slot.
#[derive(Debug)]
pub struct CodeGenMeta {
    pub cell_addrs: indexmap::IndexMap<String, usize>,
    pub st: usize,
}

impl View for CodeGenMeta {
    type V = Seq<(Seq<char>, nat)>;

    open spec fn view(&self) -> Seq<(Seq<char>, nat)> {
        index_map_model(self.cell_addrs)
    }
}

/// Whether a slot table is well formed: no name twice, and the next free
/// slot is the table's size.
pub open spec fn meta_wf(m: CodeGenMeta) -> bool {
    &&& forall|i: int, j: int| 0 <= i < j < m@.len() ==> m@[i].0 != m@[j].0
    &&& m.st == m@.len()
}

/// The slot of a name in the table, searching from entry `i`.
pub open spec fn find_slot_from(m: Seq<(Seq<char>, nat)>, name: Seq<char>, i: nat) -> Option<nat>
    decreases m.len() - i,
{
    if i >= m.len() {
        None
    } else if m[i as int].0 == name {
        Some(m[i as int].1)
    } else {
        find_slot_from(m, name, i + 1)
    }
}

/// The slot of a name in the table, if any.
pub open spec fn find_slot(m: Seq<(Seq<char>, nat)>, name: Seq<char>) -> Option<nat> {
    find_slot_from(m, name, 0)
}

proof fn lemma_find_slot_none(m: Seq<(Seq<char>, nat)>, name: Seq<char>, i: nat)
    requires
        forall|j: int| 0 <= j < m.len() ==> m[j].0 != name,
        i <= m.len(),
    ensures
        find_slot_from(m, name, i) is None,
    decreases m.len() - i,
{
    if i < m.len() {
        lemma_find_slot_none(m, name, i + 1);
    }
}

proof fn lemma_find_slot_some(m: Seq<(Seq<char>, nat)>, name: Seq<char>, v: nat, i: nat)
    requires
        forall|a: int, b: int| 0 <= a < b < m.len() ==> m[a].0 != m[b].0,
        exists|j: int| i <= j < m.len() && m[j] == (name, v),
        i <= m.len(),
    ensures
        find_slot_from(m, name, i) == Some(v),
    decreases m.len() - i,
{
    if m[i as int].0 == name {
        let j = choose|j: int| i <= j < m.len() && m[j] == (name, v);
        assert(j == i);
    } else {
        let j = choose|j: int| i <= j < m.len() && m[j] == (name, v);
        assert(i + 1 <= j);
        lemma_find_slot_some(m, name, v, i + 1);
    }
}

impl CodeGenMeta {
    /// The slot where a name's value lives, or a resolution error.
    pub fn find_cell(&self, name: &String) -> (r: Result<usize, CellError>)
        requires
            forall|i: int, j: int| 0 <= i < j < self@.len() ==> self@[i].0 != self@[j].0,
        ensures
            match r {
                Ok(s) => find_slot(self@, name@) == Some(s as nat),
                Err(e) => {
                    &&& find_slot(self@, name@) is None
                    &&& e matches CellError::Resolve { name: n } && n@ == name@
                },
            },
    {
        match im_get(&self.cell_addrs, name) {
            Some(v) => {
                proof {
                    lemma_find_slot_some(self@, name@, v as nat, 0);
                }
                Ok(v)
            },
            None => {
                proof {
                    lemma_find_slot_none(self@, name@, 0);
                }
                Err(CellError::Resolve { name: name.clone() })
            },
        }
    }

    /// Record a fresh name's slot.
    pub fn add_cell(&mut self, name: String, spo: usize)
        requires
            forall|j: int| 0 <= j < old(self)@.len() ==> old(self)@[j].0 != name@,
        ensures
            final(self)@ == old(self)@.push((name@, spo as nat)),
            final(self).st == old(self).st,
    {
        im_insert(&mut self.cell_addrs, name, spo);
    }

    /// Take the next free slot.
    pub fn add_st(&mut self) -> (r: usize)
        requires
            old(self).st < usize::MAX,
        ensures
            r == old(self).st,
            final(self).st == old(self).st + 1,
            final(self)@ == old(self)@,
    {
        let old_st = self.st;
        self.st = self.st + 1;
        old_st
    }

    /// The name-to-slot pairs, in the order of execution.
    pub fn pairs(&self) -> (r: Vec<(String, usize)>)
        ensures
            pairs_view(r@) == self@,
    {
        im_pairs(&self.cell_addrs)
    }
}

/// A lowered program: its instructions and its slot table.
#[derive(Debug)]
pub struct IR {
    pub instructions: Vec<Instruction>,
    pub meta: CodeGenMeta,
}

/// The comparison instruction of a conditional's operator.
pub open spec fn cmp_instr(op: Operator) -> InstrModel {
    match op {
        Operator::Equals => InstrModel::Equal,
        Operator::Greater => InstrModel::Greater,
        Operator::GreaterEqual => InstrModel::GreaterEqual,
        Operator::Less => InstrModel::Less,
        Operator::LessEqual => InstrModel::LessEqual,
    }
}

/// The code of one expression, placed at absolute position `base`. Every
/// sub-expression leaves exactly one value on the operand stack. A binary
/// node lowers its right operand first, then its left, then the operator,
/// so that the machine pops the left operand first. A conditional lowers
/// `[cmp][JMPIfFalse past the true branch][true][JMP end][false][Nop]`,
/// with the `Nop` as the landing pad both branches reach.
pub open spec fn lower_expr_spec(e: ExprModel, m: Seq<(Seq<char>, nat)>, base: nat) -> Result<
    Seq<InstrModel>,
    ErrSpec,
>
    decreases e,
{
    match e {
        ExprModel::Atom(a) => match a {
            AtomModel::Number { bits, text } => Ok(seq![InstrModel::LoadConst { bits, text }]),
            AtomModel::Ident(n) => match find_slot(m, n) {
                Some(s) => Ok(seq![InstrModel::Read(s)]),
                None => Err(ErrSpec::Resolve { name: n }),
            },
            AtomModel::Call { name, arguments } => if name == "rand"@ {
                if arguments.len() == 0 {
                    Ok(seq![InstrModel::Call(name)])
                } else {
                    Err(ErrSpec::Arity { name })
                }
            } else if name == "int"@ {
                if arguments.len() == 1 {
                    match lower_expr_spec(arguments[0], m, base) {
                        Ok(code) => Ok(code + seq![InstrModel::Call(name)]),
                        Err(er) => Err(er),
                    }
                } else {
                    Err(ErrSpec::Arity { name })
                }
            } else {
                Err(ErrSpec::UnknownBuiltin { name })
            },
        },
        ExprModel::Add(l, r) => match lower_expr_spec(*r, m, base) {
            Ok(cr) => match lower_expr_spec(*l, m, base + cr.len()) {
                Ok(cl) => Ok(cr + cl + seq![InstrModel::Add]),
                Err(er) => Err(er),
            },
            Err(er) => Err(er),
        },
        ExprModel::Mod(l, r) => match lower_expr_spec(*r, m, base) {
            Ok(cr) => match lower_expr_spec(*l, m, base + cr.len()) {
                Ok(cl) => Ok(cr + cl + seq![InstrModel::Mod]),
                Err(er) => Err(er),
            },
            Err(er) => Err(er),
        },
        ExprModel::Sub(l, r) => match lower_expr_spec(*r, m, base) {
            Ok(cr) => match lower_expr_spec(*l, m, base + cr.len()) {
                Ok(cl) => Ok(cr + cl + seq![InstrModel::Sub]),
                Err(er) => Err(er),
            },
            Err(er) => Err(er),
        },
        ExprModel::Mul(l, r) => match lower_expr_spec(*r, m, base) {
            Ok(cr) => match lower_expr_spec(*l, m, base + cr.len()) {
                Ok(cl) => Ok(cr + cl + seq![InstrModel::Mul]),
                Err(er) => Err(er),
            },
            Err(er) => Err(er),
        },
        ExprModel::Div(l, r) => match lower_expr_spec(*r, m, base) {
            Ok(cr) => match lower_expr_spec(*l, m, base + cr.len()) {
                Ok(cl) => Ok(cr + cl + seq![InstrModel::Div]),
                Err(er) => Err(er),
            },
            Err(er) => Err(er),
        },
        ExprModel::Condition { lhs, rhs, op, true_branch, false_branch } => match lower_expr_spec(
            *rhs,
            m,
            base,
        ) {
            Ok(cr) => match lower_expr_spec(*lhs, m, base + cr.len()) {
                Ok(cl) => {
                    let jif_at = base + cr.len() + cl.len() + 1;
                    match lower_expr_spec(*true_branch, m, jif_at + 1) {
                        Ok(ct) => {
                            let jmp_at = jif_at + 1 + ct.len();
                            match lower_expr_spec(*false_branch, m, jmp_at + 1) {
                                Ok(cf) => {
                                    let end = jmp_at + 1 + cf.len();
                                    Ok(
                                        cr + cl + seq![cmp_instr(op)] + seq![
                                            InstrModel::JMPIfFalse((jmp_at + 1) as nat)
                                        ] + ct + seq![InstrModel::JMP(end as nat)] + cf + seq![
                                            InstrModel::Nop
                                        ],
                                    )
                                },
                                Err(er) => Err(er),
                            }
                        },
                        Err(er) => Err(er),
                    }
                },
                Err(er) => Err(er),
            },
            Err(er) => Err(er),
        },
    }
}

/// Lower one expression into the program being built, appending its code.
/// On failure the instruction list may hold a partial prefix; the caller
/// abandons it.
#[verifier::rlimit(100)]
#[verifier::spinoff_prover]
pub fn code_gen_expr(expr: &Expr, ir: &mut IR) -> (r: Result<(), CellError>)
    requires
        forall|i: int, j: int|
            0 <= i < j < old(ir).meta@.len() ==> old(ir).meta@[i].0 != old(ir).meta@[j].0,
    ensures
        final(ir).meta@ == old(ir).meta@,
        final(ir).meta.st == old(ir).meta.st,
        match r {
            Ok(_) => lower_expr_spec(expr@, old(ir).meta@, old(ir).instructions@.len() as nat)
                matches Ok(code) && instrs_view(final(ir).instructions@) == instrs_view(
                old(ir).instructions@,
            ) + code,
            Err(e) => lower_expr_spec(expr@, old(ir).meta@, old(ir).instructions@.len() as nat)
                matches Err(es) && es == e@,
        },
    decreases expr, 0int,
{
    let ghost m = ir.meta@;
    let ghost base = ir.instructions@.len() as nat;
    match expr {
        Expr::Atom(a) => match a {
            Atom::Number { bits, text } => {
                let ghost v0 = ir.instructions@;
                let inst = Instruction::LoadConst { bits: *bits, text: text.clone() };
                proof {
                    lemma_instrs_push(v0, inst);
                    assert(instrs_view(v0).push(inst@) =~= instrs_view(v0) + seq![inst@]);
                }
                ir.instructions.push(inst);
                Ok(())
            },
            Atom::Ident(n) => {
                proof {
                    assert(crate::parser::atom_view(*a) matches AtomModel::Ident(nm) && nm
                        == n@);
                    assert(expr@ matches ExprModel::Atom(am) && am == crate::parser::atom_view(
                        *a,
                    ));
                }
                let slot = match ir.meta.find_cell(n) {
                    Ok(s) => s,
                    Err(e) => {
                        proof {
                            assert(lower_expr_spec(expr@, m, base) matches Err(es) && es == e@);
                        }
                        return Err(e);
                    },
                };
                let ghost v0 = ir.instructions@;
                let inst = Instruction::Read(slot);
                proof {
                    lemma_instrs_push(v0, inst);
                    assert(instrs_view(v0).push(inst@) =~= instrs_view(v0) + seq![inst@]);
                }
                ir.instructions.push(inst);
                Ok(())
            },
            Atom::Call { name, arguments } => {
                proof {
                    assert(crate::parser::atom_view(*a) matches AtomModel::Call {
                        name: nm,
                        arguments: ags,
                    } && nm == name@ && ags == crate::parser::exprs_view(arguments@));
                    assert(expr@ matches ExprModel::Atom(am) && am == crate::parser::atom_view(
                        *a,
                    ));
                    lemma_exprs_view_len(arguments@);
                }
                if name.eq(&String::from_str("rand")) {
                    if arguments.len() != 0 {
                        return Err(CellError::Arity { name: name.clone() });
                    }
                    let ghost v0 = ir.instructions@;
                    let inst = Instruction::Call(name.clone());
                    proof {
                        lemma_instrs_push(v0, inst);
                        assert(instrs_view(v0).push(inst@) =~= instrs_view(v0) + seq![inst@]);
                    }
                    ir.instructions.push(inst);
                    Ok(())
                } else if name.eq(&String::from_str("int")) {
                    if arguments.len() != 1 {
                        return Err(CellError::Arity { name: name.clone() });
                    }
                    proof {
                        lemma_exprs_view_index(arguments@, 0);
                    }
                    match code_gen_expr(&arguments[0], ir) {
                        Ok(_) => {},
                        Err(e) => {
                            return Err(e);
                        },
                    }
                    let ghost v1 = ir.instructions@;
                    let inst = Instruction::Call(name.clone());
                    proof {
                        lemma_instrs_push(v1, inst);
                    }
                    ir.instructions.push(inst);
                    proof {
                        assert(lower_expr_spec(expr@, m, base) matches Ok(code) && instrs_view(
                            ir.instructions@,
                        ) =~= instrs_view(old(ir).instructions@) + code);
                    }
                    Ok(())
                } else {
                    Err(CellError::UnknownBuiltin { name: name.clone() })
                }
            },
        },
        Expr::Add(l, r) => {
            proof {
                assert(expr@ matches ExprModel::Add(bl, br) && *bl == l@ && *br == r@);
                lemma_instrs_view_len(old(ir).instructions@);
            }
            match code_gen_expr(r, ir) {
                Ok(_) => {},
                Err(e) => {
                    return Err(e);
                },
            }
            proof {
                lemma_instrs_view_len(ir.instructions@);
            }
            match code_gen_expr(l, ir) {
                Ok(_) => {},
                Err(e) => {
                    return Err(e);
                },
            }
            let ghost v2 = ir.instructions@;
            proof {
                lemma_instrs_push(v2, Instruction::Add);
            }
            ir.instructions.push(Instruction::Add);
            proof {
                assert(lower_expr_spec(expr@, m, base) matches Ok(code) && instrs_view(
                    ir.instructions@,
                ) =~= instrs_view(old(ir).instructions@) + code);
            }
            Ok(())
        },
        Expr::Mod(l, r) => {
            proof {
                assert(expr@ matches ExprModel::Mod(bl, br) && *bl == l@ && *br == r@);
                lemma_instrs_view_len(old(ir).instructions@);
            }
            match code_gen_expr(r, ir) {
                Ok(_) => {},
                Err(e) => {
                    return Err(e);
                },
            }
            proof {
                lemma_instrs_view_len(ir.instructions@);
            }
            match code_gen_expr(l, ir) {
                Ok(_) => {},
                Err(e) => {
                    return Err(e);
                },
            }
            let ghost v2 = ir.instructions@;
            proof {
                lemma_instrs_push(v2, Instruction::Mod);
            }
            ir.instructions.push(Instruction::Mod);
            proof {
                assert(lower_expr_spec(expr@, m, base) matches Ok(code) && instrs_view(
                    ir.instructions@,
                ) =~= instrs_view(old(ir).instructions@) + code);
            }
            Ok(())
        },
        Expr::Sub(l, r) => {
            proof {
                assert(expr@ matches ExprModel::Sub(bl, br) && *bl == l@ && *br == r@);
                lemma_instrs_view_len(old(ir).instructions@);
            }
            match code_gen_expr(r, ir) {
                Ok(_) => {},
                Err(e) => {
                    return Err(e);
                },
            }
            proof {
                lemma_instrs_view_len(ir.instructions@);
            }
            match code_gen_expr(l, ir) {
                Ok(_) => {},
                Err(e) => {
                    return Err(e);
                },
            }
            let ghost v2 = ir.instructions@;
            proof {
                lemma_instrs_push(v2, Instruction::Sub);
            }
            ir.instructions.push(Instruction::Sub);
            proof {
                assert(lower_expr_spec(expr@, m, base) matches Ok(code) && instrs_view(
                    ir.instructions@,
                ) =~= instrs_view(old(ir).instructions@) + code);
            }
            Ok(())
        },
        Expr::Mul(l, r) => {
            proof {
                assert(expr@ matches ExprModel::Mul(bl, br) && *bl == l@ && *br == r@);
                lemma_instrs_view_len(old(ir).instructions@);
            }
            match code_gen_expr(r, ir) {
                Ok(_) => {},
                Err(e) => {
                    return Err(e);
                },
            }
            proof {
                lemma_instrs_view_len(ir.instructions@);
            }
            match code_gen_expr(l, ir) {
                Ok(_) => {},
                Err(e) => {
                    return Err(e);
                },
            }
            let ghost v2 = ir.instructions@;
            proof {
                lemma_instrs_push(v2, Instruction::Mul);
            }
            ir.instructions.push(Instruction::Mul);
            proof {
                assert(lower_expr_spec(expr@, m, base) matches Ok(code) && instrs_view(
                    ir.instructions@,
                ) =~= instrs_view(old(ir).instructions@) + code);
            }
            Ok(())
        },
        Expr::Div(l, r) => {
            proof {
                assert(expr@ matches ExprModel::Div(bl, br) && *bl == l@ && *br == r@);
                lemma_instrs_view_len(old(ir).instructions@);
            }
            match code_gen_expr(r, ir) {
                Ok(_) => {},
                Err(e) => {
                    return Err(e);
                },
            }
            proof {
                lemma_instrs_view_len(ir.instructions@);
            }
            match code_gen_expr(l, ir) {
                Ok(_) => {},
                Err(e) => {
                    return Err(e);
                },
            }
            let ghost v2 = ir.instructions@;
            proof {
                lemma_instrs_push(v2, Instruction::Div);
            }
            ir.instructions.push(Instruction::Div);
            proof {
                assert(lower_expr_spec(expr@, m, base) matches Ok(code) && instrs_view(
                    ir.instructions@,
                ) =~= instrs_view(old(ir).instructions@) + code);
            }
            Ok(())
        },
        Expr::Condition { lhs, rhs, op, true_branch, false_branch } => {
            proof {
                assert(expr@ matches ExprModel::Condition {
                    lhs: bl,
                    rhs: br,
                    op: bo,
                    true_branch: bt,
                    false_branch: bf,
                } && *bl == lhs@ && *br == rhs@ && bo == *op && *bt == true_branch@ && *bf
                    == false_branch@);
            }
            proof {
                lemma_instrs_view_len(old(ir).instructions@);
            }
            match code_gen_expr(rhs, ir) {
                Ok(_) => {},
                Err(e) => {
                    return Err(e);
                },
            }
            proof {
                lemma_instrs_view_len(ir.instructions@);
            }
            match code_gen_expr(lhs, ir) {
                Ok(_) => {},
                Err(e) => {
                    return Err(e);
                },
            }
            let cmp = match op {
                Operator::Equals => Instruction::Equal,
                Operator::Greater => Instruction::Greater,
                Operator::GreaterEqual => Instruction::GreaterEqual,
                Operator::Less => Instruction::Less,
                Operator::LessEqual => Instruction::LessEqual,
            };
            let ghost vb = ir.instructions@;
            proof {
                lemma_instrs_push(vb, cmp);
            }
            ir.instructions.push(cmp);
            let jmp_if_idx = ir.instructions.len();
            let ghost vc = ir.instructions@;
            proof {
                lemma_instrs_push(vc, Instruction::JMPIfFalse(0));
            }
            ir.instructions.push(Instruction::JMPIfFalse(0));
            proof {
                lemma_instrs_view_len(ir.instructions@);
            }
            match code_gen_expr(true_branch, ir) {
                Ok(_) => {},
                Err(e) => {
                    return Err(e);
                },
            }
            let true_branch_jmp_idx = ir.instructions.len();
            let ghost vd = ir.instructions@;
            proof {
                lemma_instrs_push(vd, Instruction::JMP(0));
            }
            ir.instructions.push(Instruction::JMP(0));
            proof {
                lemma_instrs_view_len(ir.instructions@);
            }
            match code_gen_expr(false_branch, ir) {
                Ok(_) => {},
                Err(e) => {
                    return Err(e);
                },
            }
            let target_idx = ir.instructions.len();
            let ghost ve = ir.instructions@;
            proof {
                lemma_instrs_push(ve, Instruction::Nop);
            }
            ir.instructions.push(Instruction::Nop);
            proof {
                lemma_instrs_view_len(vb);
                lemma_instrs_view_len(vc);
                lemma_instrs_view_len(vd);
                lemma_instrs_view_len(ve);
                lemma_instrs_view_len(ir.instructions@);
                assert(jmp_if_idx < true_branch_jmp_idx);
                assert(true_branch_jmp_idx < target_idx);
                assert(target_idx < ir.instructions@.len());
            }
            let ghost vf = ir.instructions@;
            proof {
                lemma_instrs_set(
                    vf,
                    jmp_if_idx as int,
                    Instruction::JMPIfFalse((true_branch_jmp_idx + 1) as usize),
                );
            }
            ir.instructions.set(jmp_if_idx, Instruction::JMPIfFalse(true_branch_jmp_idx + 1));
            let ghost vg = ir.instructions@;
            proof {
                lemma_instrs_set(vg, true_branch_jmp_idx as int, Instruction::JMP(target_idx));
            }
            ir.instructions.set(true_branch_jmp_idx, Instruction::JMP(target_idx));
            proof {
                assert(lower_expr_spec(expr@, m, base) matches Ok(code) && instrs_view(
                    ir.instructions@,
                ) =~= instrs_view(old(ir).instructions@) + code);
            }
            Ok(())
        },
    }
}

proof fn lemma_find_slot_none_to_forall(m: Seq<(Seq<char>, nat)>, name: Seq<char>, i: nat)
    requires
        find_slot_from(m, name, i) is None,
        i <= m.len(),
    ensures
        forall|j: int| i <= j < m.len() ==> m[j].0 != name,
    decreases m.len() - i,
{
    if i < m.len() {
        lemma_find_slot_none_to_forall(m, name, i + 1);
    }
}

/// Generate code for the names `order[i..]`, extending the given
/// instructions and slot table. Each parameter loads its binding; each cell
/// runs its expression; either leaves one value at a fresh slot. A name
/// already in the table is not generated twice.
pub open spec fn gen_from(
    ns: Seq<NodeModel>,
    order: Seq<Seq<char>>,
    i: nat,
    instrs: Seq<InstrModel>,
    meta: Seq<(Seq<char>, nat)>,
) -> Result<(Seq<InstrModel>, Seq<(Seq<char>, nat)>), ErrSpec>
    decreases order.len() - i,
{
    if i >= order.len() {
        Ok((instrs, meta))
    } else {
        let name = order[i as int];
        if find_slot(meta, name) is Some {
            gen_from(ns, order, i + 1, instrs, meta)
        } else {
            match find_node_model(ns, name) {
                Some(NodeModel::Param { name: _ }) => gen_from(
                    ns,
                    order,
                    i + 1,
                    instrs + seq![InstrModel::LoadParam(name)],
                    meta.push((name, meta.len())),
                ),
                Some(NodeModel::Cell { name: _, expr }) => match lower_expr_spec(
                    expr,
                    meta,
                    instrs.len(),
                ) {
                    Ok(code) => gen_from(
                        ns,
                        order,
                        i + 1,
                        instrs + code,
                        meta.push((name, meta.len())),
                    ),
                    Err(er) => Err(er),
                },
                None => Err(ErrSpec::Resolve { name }),
            }
        }
    }
}

/// The first declared name, in declaration order, that the execution order
/// misses; such a name sits on a dependency cycle.
pub open spec fn first_missing_from(
    names: Seq<Seq<char>>,
    order: Seq<Seq<char>>,
    i: nat,
) -> Option<Seq<char>>
    decreases names.len() - i,
{
    if i >= names.len() {
        None
    } else if !order.contains(names[i as int]) {
        Some(names[i as int])
    } else {
        first_missing_from(names, order, i + 1)
    }
}

/// The whole program's code and slot table: a cycle error where the order
/// misses a name, else the generated code in dependency order.
pub open spec fn code_gen_spec(ns: Seq<NodeModel>) -> Result<
    (Seq<InstrModel>, Seq<(Seq<char>, nat)>),
    ErrSpec,
> {
    let order = order_spec(ns);
    match first_missing_from(names_of(ns), order, 0) {
        Some(n) => Err(ErrSpec::Cycle { name: n }),
        None => gen_from(ns, order, 0, Seq::empty(), Seq::empty()),
    }
}

/// Lower a program to its stack code, in dependency order. Fails with a
/// cycle error when cells depend on themselves, with a resolution error
/// when an expression reads an undeclared name, and with arity or
/// unknown-built-in errors on ill-formed calls.
pub fn code_gen(ast: &AST) -> (r: Result<IR, CellError>)
    ensures
        match r {
            Ok(ir) => {
                &&& code_gen_spec(ast@) matches Ok((insts, mm)) && instrs_view(ir.instructions@)
                    == insts && ir.meta@ == mm
                &&& meta_wf(ir.meta)
            },
            Err(e) => code_gen_spec(ast@) matches Err(es) && es == e@,
        },
{
    let ghost nsv = ast@;
    let order = get_order_of_execution(ast);
    let ghost ov = strs_view(order@);
    let names = crate::deps::collect_names(&ast.nodes);
    let ghost namesv = strs_view(names@);
    let mut k: usize = 0;
    while k < names.len()
        invariant
            k <= names@.len(),
            namesv == strs_view(names@),
            namesv == names_of(ast@),
            first_missing_from(namesv, ov, 0) == first_missing_from(namesv, ov, k as nat),
            ov == strs_view(order@),
            ov == order_spec(ast@),
        decreases names@.len() - k,
    {
        proof {
            crate::strutil::lemma_strs_view_len(names@);
            crate::strutil::lemma_strs_view_len(order@);
            assert(namesv[k as int] == names@[k as int]@);
        }
        if !crate::strutil::contains_name(&order, &names[k]) {
            proof {
                assert(k < namesv.len());
                assert(!ov.contains(namesv[k as int]));
                assert(first_missing_from(namesv, ov, k as nat) == Some(namesv[k as int]));
                assert(code_gen_spec(ast@) == Err::<
                    (Seq<InstrModel>, Seq<(Seq<char>, nat)>),
                    ErrSpec,
                >(ErrSpec::Cycle { name: namesv[k as int] }));
            }
            return Err(CellError::Cycle { name: names[k].clone() });
        }
        k = k + 1;
    }
    let mut ir = IR { instructions: Vec::new(), meta: CodeGenMeta { cell_addrs: im_new(), st: 0 } };
    proof {
        assert(instrs_view(Seq::<Instruction>::empty()) =~= Seq::<InstrModel>::empty());
        assert(nsv =~= crate::parser::nodes_view(ast.nodes@));
        assert(first_missing_from(names_of(nsv), ov, 0) == first_missing_from(namesv, ov, 0));
    }
    let mut i: usize = 0;
    while i < order.len()
        invariant
            i <= order@.len(),
            ov == strs_view(order@),
            ov == order_spec(ast@),
            nsv == ast@,
            nsv == crate::parser::nodes_view(ast.nodes@),
            first_missing_from(names_of(nsv), ov, 0) is None,
            forall|a: int, b: int|
                0 <= a < b < ir.meta@.len() ==> ir.meta@[a].0 != ir.meta@[b].0,
            ir.meta.st == ir.meta@.len(),
            ir.meta@.len() <= i,
            gen_from(nsv, ov, 0, Seq::empty(), Seq::empty()) == gen_from(
                nsv,
                ov,
                i as nat,
                instrs_view(ir.instructions@),
                ir.meta@,
            ),
        decreases order@.len() - i,
    {
        proof {
            crate::strutil::lemma_strs_view_len(order@);
            assert(ov[i as int] == order@[i as int]@);
            lemma_instrs_view_len(ir.instructions@);
        }
        let name = &order[i];
        let already = match ir.meta.find_cell(name) {
            Ok(_) => true,
            Err(_) => false,
        };
        if !already {
            match find_node_x(&ast.nodes, name, 0) {
                None => {
                    return Err(CellError::Resolve { name: name.clone() });
                },
                Some(node) => {
                    proof {
                        lemma_find_slot_none_to_forall(ir.meta@, name@, 0);
                    }
                    match node {
                        Node::Param(p) => {
                            let ghost v0 = ir.instructions@;
                            let inst = Instruction::LoadParam(name.clone());
                            proof {
                                lemma_instrs_push(v0, inst);
                                assert(instrs_view(v0).push(inst@) =~= instrs_view(v0) + seq![
                                    inst@
                                ]);
                            }
                            ir.instructions.push(inst);
                            let spo = ir.meta.add_st();
                            ir.meta.add_cell(name.clone(), spo);
                        },
                        Node::Cell(c) => {
                            proof {
                                assert(node@ matches NodeModel::Cell { name: nm, expr: ex } && ex
                                    == c.expr@);
                            }
                            match code_gen_expr(&c.expr, &mut ir) {
                                Ok(_) => {},
                                Err(e) => {
                                    return Err(e);
                                },
                            }
                            proof {
                                lemma_instrs_view_len(ir.instructions@);
                            }
                            let spo = ir.meta.add_st();
                            ir.meta.add_cell(name.clone(), spo);
                        },
                    }
                },
            }
        }
        i = i + 1;
    }
    Ok(ir)
}

/// The name stored at a slot, for rendering; reads are shown by name.
pub open spec fn slot_name(meta: Seq<(Seq<char>, nat)>, slot: nat, i: nat) -> Seq<char>
    decreases meta.len() - i,
{
    if i >= meta.len() {
        "unknown"@
    } else if meta[i as int].1 == slot {
        meta[i as int].0
    } else {
        slot_name(meta, slot, i + 1)
    }
}

/// A constant's rendered text: the literal, with `.0` supplied where the
/// literal had no fraction part.
pub open spec fn const_text(text: Seq<char>) -> Seq<char> {
    if text.contains('.') {
        text
    } else {
        text + ".0"@
    }
}

/// One instruction's rendered form.
pub open spec fn render_instr(ins: InstrModel, meta: Seq<(Seq<char>, nat)>) -> Seq<char> {
    match ins {
        InstrModel::JMPIfFalse(t) => "JMPIfFalse("@ + crate::strutil::dec_str(t) + ")"@,
        InstrModel::JMP(t) => "JMP("@ + crate::strutil::dec_str(t) + ")"@,
        InstrModel::Greater => "Greater"@,
        InstrModel::GreaterEqual => "GreaterEqual"@,
        InstrModel::Less => "Less"@,
        InstrModel::LessEqual => "LessEqual"@,
        InstrModel::Equal => "Equal"@,
        InstrModel::LoadConst { bits, text } => "LoadConst("@ + const_text(text) + ")"@,
        InstrModel::Read(s) => "Read(\""@ + slot_name(meta, s, 0) + "\")"@,
        InstrModel::Add => "Add"@,
        InstrModel::Sub => "Sub"@,
        InstrModel::Mul => "Mul"@,
        InstrModel::Mod => "Mod"@,
        InstrModel::Div => "Div"@,
        InstrModel::Nop => "Nop"@,
        InstrModel::Call(n) => "Call(\""@ + n + "\")"@,
        InstrModel::LoadParam(n) => "LoadParam(\""@ + n + "\")"@,
    }
}

/// The rendered program from instruction `i` on: one numbered line each.
pub open spec fn ir_text_from(instrs: Seq<InstrModel>, meta: Seq<(Seq<char>, nat)>, i: nat) -> Seq<
    char,
>
    decreases instrs.len() - i,
{
    if i >= instrs.len() {
        Seq::empty()
    } else {
        crate::strutil::dec_str(i) + "\t:"@ + render_instr(instrs[i as int], meta) + "\n"@
            + ir_text_from(instrs, meta, i + 1)
    }
}

fn slot_name_x(pairs: &Vec<(String, usize)>, slot: usize, i: usize) -> (r: String)
    requires
        i <= pairs@.len(),
    ensures
        r@ == slot_name(pairs_view(pairs@), slot as nat, i as nat),
    decreases pairs@.len() - i,
{
    let ghost mv = pairs_view(pairs@);
    if i >= pairs.len() {
        return String::from_str("unknown");
    }
    proof {
        assert(mv[i as int] == (pairs@[i as int].0@, pairs@[i as int].1 as nat));
    }
    if pairs[i].1 == slot {
        pairs[i].0.clone()
    } else {
        slot_name_x(pairs, slot, i + 1)
    }
}

fn render_instr_x(ins: &Instruction, pairs: &Vec<(String, usize)>) -> (r: String)
    ensures
        r@ == render_instr(ins@, pairs_view(pairs@)),
{
    let mut out = String::new();
    match ins {
        Instruction::JMPIfFalse(t) => {
            out.append("JMPIfFalse(");
            out.append(crate::strutil::chars_to_string(&crate::strutil::dec_chars(*t)).as_str());
            out.append(")");
        },
        Instruction::JMP(t) => {
            out.append("JMP(");
            out.append(crate::strutil::chars_to_string(&crate::strutil::dec_chars(*t)).as_str());
            out.append(")");
        },
        Instruction::Greater => {
            out.append("Greater");
        },
        Instruction::GreaterEqual => {
            out.append("GreaterEqual");
        },
        Instruction::Less => {
            out.append("Less");
        },
        Instruction::LessEqual => {
            out.append("LessEqual");
        },
        Instruction::Equal => {
            out.append("Equal");
        },
        Instruction::LoadConst { bits, text } => {
            out.append("LoadConst(");
            out.append(text.as_str());
            if !crate::strutil::contains_char(text, '.') {
                out.append(".0");
            }
            out.append(")");
        },
        Instruction::Read(sl) => {
            out.append("Read(\"");
            out.append(slot_name_x(pairs, *sl, 0).as_str());
            out.append("\")");
        },
        Instruction::Add => {
            out.append("Add");
        },
        Instruction::Sub => {
            out.append("Sub");
        },
        Instruction::Mul => {
            out.append("Mul");
        },
        Instruction::Mod => {
            out.append("Mod");
        },
        Instruction::Div => {
            out.append("Div");
        },
        Instruction::Nop => {
            out.append("Nop");
        },
        Instruction::Call(n) => {
            out.append("Call(\"");
            out.append(n.as_str());
            out.append("\")");
        },
        Instruction::LoadParam(n) => {
            out.append("LoadParam(\"");
            out.append(n.as_str());
            out.append("\")");
        },
    }
    out
}

impl IR {
    /// The program rendered one instruction per numbered line, constants as
    /// they were written and reads by the name whose slot they read.
    pub fn text(&self) -> (s: String)
        ensures
            s@ == ir_text_from(instrs_view(self.instructions@), self.meta@, 0),
    {
        let ghost cv = instrs_view(self.instructions@);
        let ghost mv = self.meta@;
        let pairs = self.meta.pairs();
        let mut out = String::new();
        let mut i: usize = 0;
        proof {
            lemma_instrs_view_len(self.instructions@);
            assert(out@ + ir_text_from(cv, mv, 0) =~= ir_text_from(cv, mv, 0));
        }
        while i < self.instructions.len()
            invariant
                i <= self.instructions@.len(),
                cv == instrs_view(self.instructions@),
                cv.len() == self.instructions@.len(),
                mv == self.meta@,
                mv == pairs_view(pairs@),
                ir_text_from(cv, mv, 0) == out@ + ir_text_from(cv, mv, i as nat),
            decreases self.instructions@.len() - i,
        {
            proof {
                assert(cv[i as int] == self.instructions@[i as int]@);
            }
            let ghost out0 = out@;
            out.append(crate::strutil::chars_to_string(&crate::strutil::dec_chars(i)).as_str());
            out.append("\t:");
            out.append(render_instr_x(&self.instructions[i], &pairs).as_str());
            out.append("\n");
            proof {
                assert(out0 + (crate::strutil::dec_str(i as nat) + "\t:"@ + render_instr(
                    cv[i as int],
                    mv,
                ) + "\n"@) =~= out@);
                assert(out0 + (crate::strutil::dec_str(i as nat) + "\t:"@ + render_instr(
                    cv[i as int],
                    mv,
                ) + "\n"@) + ir_text_from(cv, mv, (i + 1) as nat) =~= out0 + ir_text_from(
                    cv,
                    mv,
                    i as nat,
                ));
            }
            i = i + 1;
        }
        proof {
            assert(out@ + Seq::<char>::empty() =~= out@);
        }
        out
    }
}

} // verus!
