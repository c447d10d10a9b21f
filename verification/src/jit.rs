use vstd::prelude::*;

use crate::error::{CellError, ErrSpec};
use crate::ir::{instrs_view, InstrModel, Instruction, IR};

verus! {

// The native-code path starts from a translation plan. The flat
// instruction list is cut into basic blocks: every jump target starts one,
// and so does the instruction after a conditional jump. The operand stack
// is rebuilt as single-assignment temporaries: a push defines the
// temporary numbered by the stack depth it lands on, and a `Read` pushes
// the temporary already bound to the slot it reads, touching no memory.
// Calls are not translated: a plan for code that calls a built-in fails.
// A backend walks the steps, emits one native operation each, and wires
// the blocks together; running its output is outside this library.

/// One step of the translation: what the backend emits per instruction.
#[derive(Debug, PartialEq)]
pub enum JitStep {
    /// Define temporary `dst` as a constant.
    Const { dst: usize, bits: u64 },
    /// Define temporary `dst` as the named parameter's value.
    Param { dst: usize, name: String },
    /// Push the temporary already holding the slot being read.
    Reuse { src: usize },
    /// Define `dst` from two operands: an arithmetic or comparison
    /// instruction, the left operand the deeper-pushed temporary.
    Op { kind: Instruction, dst: usize, lhs: usize, rhs: usize },
    /// Branch on a temporary: to `target` when it is false, else fall
    /// through to `next`.
    Branch { cond: usize, target: usize, next: usize },
    /// Jump to a block start.
    Jump { target: usize },
    /// A landing pad; nothing is emitted.
    Skip,
}

/// The mathematical shadow of `JitStep`.
pub enum JitStepModel {
    Const { dst: nat, bits: u64 },
    Param { dst: nat, name: Seq<char> },
    Reuse { src: nat },
    Op { kind: InstrModel, dst: nat, lhs: nat, rhs: nat },
    Branch { cond: nat, target: nat, next: nat },
    Jump { target: nat },
    Skip,
}

impl View for JitStep {
    type V = JitStepModel;

    open spec fn view(&self) -> JitStepModel {
        match self {
            JitStep::Const { dst, bits } => JitStepModel::Const { dst: *dst as nat, bits: *bits },
            JitStep::Param { dst, name } => JitStepModel::Param {
                dst: *dst as nat,
                name: name@,
            },
            JitStep::Reuse { src } => JitStepModel::Reuse { src: *src as nat },
            JitStep::Op { kind, dst, lhs, rhs } => JitStepModel::Op {
                kind: kind@,
                dst: *dst as nat,
                lhs: *lhs as nat,
                rhs: *rhs as nat,
            },
            JitStep::Branch { cond, target, next } => JitStepModel::Branch {
                cond: *cond as nat,
                target: *target as nat,
                next: *next as nat,
            },
            JitStep::Jump { target } => JitStepModel::Jump { target: *target as nat },
            JitStep::Skip => JitStepModel::Skip,
        }
    }
}

pub open spec fn steps_view(v: Seq<JitStep>) -> Seq<JitStepModel> {
    v.map_values(|s: JitStep| s@)
}

/// Whether some instruction from `i` on makes position `k` a block start:
/// a jump target, or the instruction after a conditional jump.
pub open spec fn marked_from(code: Seq<InstrModel>, k: nat, i: nat) -> bool
    decreases code.len() - i,
{
    if i >= code.len() {
        false
    } else {
        (match code[i as int] {
            InstrModel::JMPIfFalse(t) => t == k || i + 1 == k,
            InstrModel::JMP(t) => t == k,
            _ => false,
        }) || marked_from(code, k, i + 1)
    }
}

/// Whether position `k` starts a basic block. Position 0 always does.
pub open spec fn is_block_start(code: Seq<InstrModel>, k: nat) -> bool {
    k == 0 || marked_from(code, k, 0)
}

/// The steps for the instructions from `i` on, with `st` the abstract
/// operand stack of temporary numbers. A new value lands in the temporary
/// numbered by its depth; a `Read` pushes the temporary already at the
/// slot. A call, an ill-formed jump, or an underflow stops the plan.
pub open spec fn plan_from(code: Seq<InstrModel>, i: nat, st: Seq<nat>) -> Result<
    Seq<JitStepModel>,
    ErrSpec,
>
    decreases code.len() - i,
{
    if i >= code.len() {
        Ok(Seq::empty())
    } else {
        let step = match code[i as int] {
            InstrModel::LoadConst { bits, text } => Ok(
                (JitStepModel::Const { dst: st.len(), bits }, st.push(st.len())),
            ),
            InstrModel::LoadParam(n) => Ok(
                (JitStepModel::Param { dst: st.len(), name: n }, st.push(st.len())),
            ),
            InstrModel::Read(s) => if s < st.len() {
                Ok((JitStepModel::Reuse { src: st[s as int] }, st.push(st[s as int])))
            } else {
                Err(ErrSpec::Jit { ip: i })
            },
            InstrModel::JMPIfFalse(t) => if st.len() >= 1 && t > i && t <= code.len() {
                Ok(
                    (
                        JitStepModel::Branch {
                            cond: st[st.len() - 1],
                            target: t,
                            next: i + 1,
                        },
                        st.drop_last(),
                    ),
                )
            } else {
                Err(ErrSpec::Jit { ip: i })
            },
            InstrModel::JMP(t) => if t > i && t <= code.len() {
                Ok((JitStepModel::Jump { target: t }, st))
            } else {
                Err(ErrSpec::Jit { ip: i })
            },
            InstrModel::Call(n) => Err(ErrSpec::Jit { ip: i }),
            InstrModel::Nop => Ok((JitStepModel::Skip, st)),
            _ => if st.len() >= 2 {
                Ok(
                    (
                        JitStepModel::Op {
                            kind: code[i as int],
                            dst: (st.len() - 2) as nat,
                            lhs: st[st.len() - 1],
                            rhs: st[st.len() - 2],
                        },
                        st.drop_last().drop_last().push((st.len() - 2) as nat),
                    ),
                )
            } else {
                Err(ErrSpec::Jit { ip: i })
            },
        };
        match step {
            Ok((s, st2)) => match plan_from(code, i + 1, st2) {
                Ok(rest) => Ok(seq![s] + rest),
                Err(er) => Err(er),
            },
            Err(er) => Err(er),
        }
    }
}

proof fn lemma_steps_prepend(x: JitStep, rest: Seq<JitStep>)
    ensures
        steps_view(rest.insert(0, x)) == seq![x@] + steps_view(rest),
{
    assert(steps_view(rest.insert(0, x)) =~= seq![x@] + steps_view(rest));
}

/// A temporary-number list, seen as its mathematical shadow.
pub open spec fn temps_view(v: Seq<usize>) -> Seq<nat> {
    v.map_values(|t: usize| t as nat)
}

fn plan_steps(code: &Vec<Instruction>, i: usize, st: Vec<usize>) -> (r: Result<
    Vec<JitStep>,
    CellError,
>)
    requires
        i <= code@.len(),
        forall|k: int| 0 <= k < st@.len() ==> st@[k] <= k,
    ensures
        match r {
            Ok(steps) => plan_from(instrs_view(code@), i as nat, temps_view(st@)) == Ok::<
                Seq<JitStepModel>,
                ErrSpec,
            >(steps_view(steps@)),
            Err(e) => plan_from(instrs_view(code@), i as nat, temps_view(st@)) matches Err(es)
                && es == e@,
        },
    decreases code@.len() - i,
{
    let ghost cv = instrs_view(code@);
    let ghost sv = temps_view(st@);
    proof {
        assert(cv.len() == code@.len());
        assert(sv.len() == st@.len());
    }
    if i >= code.len() {
        proof {
            assert(steps_view(Seq::<JitStep>::empty()) =~= Seq::<JitStepModel>::empty());
        }
        return Ok(Vec::new());
    }
    proof {
        assert(cv[i as int] == code@[i as int]@);
    }
    let mut st2 = st;
    let step: JitStep = match &code[i] {
        Instruction::LoadConst { bits, text } => {
            let dst = st2.len();
            st2.push(dst);
            proof {
                assert(temps_view(st2@) =~= sv.push(sv.len()));
            }
            JitStep::Const { dst, bits: *bits }
        },
        Instruction::LoadParam(n) => {
            let dst = st2.len();
            st2.push(dst);
            proof {
                assert(temps_view(st2@) =~= sv.push(sv.len()));
            }
            JitStep::Param { dst, name: n.clone() }
        },
        Instruction::Read(s) => {
            if !(*s < st2.len()) {
                return Err(CellError::Jit { ip: i });
            }
            let src = st2[*s];
            st2.push(src);
            proof {
                assert(temps_view(st2@) =~= sv.push(sv[*s as int]));
            }
            JitStep::Reuse { src }
        },
        Instruction::JMPIfFalse(t) => {
            if !(st2.len() >= 1 && *t > i && *t <= code.len()) {
                return Err(CellError::Jit { ip: i });
            }
            let cond = st2[st2.len() - 1];
            st2.pop();
            proof {
                assert(temps_view(st2@) =~= sv.drop_last());
            }
            JitStep::Branch { cond, target: *t, next: i + 1 }
        },
        Instruction::JMP(t) => {
            if !(*t > i && *t <= code.len()) {
                return Err(CellError::Jit { ip: i });
            }
            JitStep::Jump { target: *t }
        },
        Instruction::Call(n) => {
            return Err(CellError::Jit { ip: i });
        },
        Instruction::Nop => JitStep::Skip,
        _ => {
            if !(st2.len() >= 2) {
                return Err(CellError::Jit { ip: i });
            }
            let lhs = st2[st2.len() - 1];
            let rhs = st2[st2.len() - 2];
            let dst = st2.len() - 2;
            st2.pop();
            st2.pop();
            st2.push(dst);
            proof {
                assert(temps_view(st2@) =~= sv.drop_last().drop_last().push((sv.len() - 2) as nat));
            }
            let kind = match &code[i] {
                Instruction::Add => Instruction::Add,
                Instruction::Sub => Instruction::Sub,
                Instruction::Mul => Instruction::Mul,
                Instruction::Div => Instruction::Div,
                Instruction::Mod => Instruction::Mod,
                Instruction::Greater => Instruction::Greater,
                Instruction::GreaterEqual => Instruction::GreaterEqual,
                Instruction::Less => Instruction::Less,
                Instruction::LessEqual => Instruction::LessEqual,
                _ => Instruction::Equal,
            };
            JitStep::Op { kind, dst, lhs, rhs }
        },
    };
    let mut rest = match plan_steps(code, i + 1, st2) {
        Ok(v) => v,
        Err(e) => {
            return Err(e);
        },
    };
    proof {
        lemma_steps_prepend(step, rest@);
    }
    rest.insert(0, step);
    Ok(rest)
}

/// Whether each position starts a basic block, by one scan per position.
fn block_starts(code: &Vec<Instruction>) -> (r: Vec<bool>)
    ensures
        r@.len() == code@.len(),
        forall|k: int|
            0 <= k < code@.len() ==> r@[k] == is_block_start(instrs_view(code@), k as nat),
{
    let ghost cv = instrs_view(code@);
    proof {
        assert(cv.len() == code@.len());
    }
    let mut r: Vec<bool> = Vec::new();
    let mut k: usize = 0;
    while k < code.len()
        invariant
            k <= code@.len(),
            cv == instrs_view(code@),
            cv.len() == code@.len(),
            r@.len() == k,
            forall|j: int| 0 <= j < k ==> r@[j] == is_block_start(cv, j as nat),
        decreases code@.len() - k,
    {
        let m = if k == 0 {
            true
        } else {
            marked_x(code, k, 0)
        };
        r.push(m);
        k = k + 1;
    }
    r
}

fn marked_x(code: &Vec<Instruction>, k: usize, i: usize) -> (r: bool)
    requires
        i <= code@.len(),
    ensures
        r == marked_from(instrs_view(code@), k as nat, i as nat),
    decreases code@.len() - i,
{
    let ghost cv = instrs_view(code@);
    proof {
        assert(cv.len() == code@.len());
    }
    if i >= code.len() {
        return false;
    }
    proof {
        assert(cv[i as int] == code@[i as int]@);
    }
    let here = match &code[i] {
        Instruction::JMPIfFalse(t) => *t == k || i + 1 == k,
        Instruction::JMP(t) => *t == k,
        _ => false,
    };
    if here {
        true
    } else {
        marked_x(code, k, i + 1)
    }
}

/// A lowered program's translation plan: which positions start blocks, and
/// the step the backend emits for each instruction.
#[derive(Debug)]
pub struct JitPlan {
    pub block_start: Vec<bool>,
    pub steps: Vec<JitStep>,
}

/// Plan the native translation of a lowered program. Fails on any built-in
/// call — the native path does not link them — and on ill-formed code.
pub fn jit_plan(ir: &IR) -> (r: Result<JitPlan, CellError>)
    ensures
        match r {
            Ok(plan) => {
                &&& plan_from(instrs_view(ir.instructions@), 0, Seq::empty()) == Ok::<
                    Seq<JitStepModel>,
                    ErrSpec,
                >(steps_view(plan.steps@))
                &&& plan.block_start@.len() == ir.instructions@.len()
                &&& forall|k: int|
                    0 <= k < ir.instructions@.len() ==> plan.block_start@[k] == is_block_start(
                        instrs_view(ir.instructions@),
                        k as nat,
                    )
            },
            Err(e) => plan_from(instrs_view(ir.instructions@), 0, Seq::empty()) matches Err(es)
                && es == e@,
        },
{
    proof {
        assert(temps_view(Seq::<usize>::empty()) =~= Seq::<nat>::empty());
    }
    let steps = match plan_steps(&ir.instructions, 0, Vec::new()) {
        Ok(s) => s,
        Err(e) => {
            return Err(e);
        },
    };
    let block_start = block_starts(&ir.instructions);
    Ok(JitPlan { block_start, steps })
}

} // verus!
