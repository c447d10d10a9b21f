use vstd::prelude::*;

use crate::ast_interpreter::{lookup_param, params_view, plookup, plookup_from};
use crate::error::{CellError, ErrSpec};
use crate::ir::{instrs_view, pairs_view, InstrModel, Instruction, IR};
use crate::num::{
    add_bits_of, div_bits_of, float_eq, float_le, float_lt, mod_bits_of, mul_bits_of, num_add,
    num_div, num_mod, num_mul, num_round, num_sub, rand_unit_bits, round_bits_of, spec_float_eq,
    spec_float_le, spec_float_lt, sub_bits_of, FALSE_BITS, TRUE_BITS,
};
use crate::strutil::strs_view;

verus! {

// The stack machine. Instructions run in order; every value is a binary64
// bit pattern on a bounded operand stack. A binary operation pops its left
// operand first — the lowering pushed the right one first — and pushes the
// result. A comparison pushes 1.0 for true and 0.0 for false, and the
// conditional jump pops that flag and jumps when it equals 0.0. Jumps go
// strictly forward, as the lowering lays them out; anything else is an
// ill-formed program and an error. When the instructions never call
// `rand`, the run equals the mathematical execution `vm_exec` below.

/// The operand stack's capacity.
pub const STACK_CAP: usize = 64;

/// Whether any instruction from `i` on calls `rand`.
pub open spec fn code_has_rand(code: Seq<InstrModel>, i: nat) -> bool
    decreases code.len() - i,
{
    if i >= code.len() {
        false
    } else {
        (code[i as int] matches InstrModel::Call(n) && n == "rand"@) || code_has_rand(code, i + 1)
    }
}

/// A `rand` call anywhere means the code has one.
proof fn lemma_code_has_rand_at(code: Seq<InstrModel>, i: nat, j: nat)
    requires
        i <= j < code.len(),
        code[j as int] matches InstrModel::Call(n) && n == "rand"@,
    ensures
        code_has_rand(code, i),
    decreases j - i,
{
    if i < j {
        lemma_code_has_rand_at(code, i + 1, j);
    }
}

/// The result a binary arithmetic instruction pushes.
pub open spec fn bin_bits(instr: InstrModel, l: u64, r: u64) -> u64 {
    match instr {
        InstrModel::Add => add_bits_of(l, r),
        InstrModel::Sub => sub_bits_of(l, r),
        InstrModel::Mul => mul_bits_of(l, r),
        InstrModel::Div => div_bits_of(l, r),
        _ => mod_bits_of(l, r),
    }
}

/// Whether an arithmetic instruction pops two operands.
pub open spec fn is_arith(instr: InstrModel) -> bool {
    instr is Add || instr is Sub || instr is Mul || instr is Div || instr is Mod
}

/// Whether a comparison instruction pops two operands.
pub open spec fn is_cmp(instr: InstrModel) -> bool {
    instr is Greater || instr is GreaterEqual || instr is Less || instr is LessEqual
        || instr is Equal
}

/// What a comparison instruction tests, left operand first.
pub open spec fn instr_cmp_holds(instr: InstrModel, l: u64, r: u64) -> bool {
    match instr {
        InstrModel::Greater => spec_float_lt(r, l),
        InstrModel::GreaterEqual => spec_float_le(r, l),
        InstrModel::Less => spec_float_lt(l, r),
        InstrModel::LessEqual => spec_float_le(l, r),
        _ => spec_float_eq(l, r),
    }
}

/// Run the instructions from `ip` on the given operand stack to the end,
/// yielding the final stack. The top of the stack is the left operand of a
/// binary operation. A `rand` call stands at 0 here: the machine is held
/// to this function only on code that never calls it.
pub open spec fn vm_exec(
    code: Seq<InstrModel>,
    ps: Seq<(Seq<char>, u64)>,
    ip: nat,
    stack: Seq<u64>,
) -> Result<Seq<u64>, ErrSpec>
    decreases code.len() - ip,
{
    if ip >= code.len() {
        Ok(stack)
    } else {
        let instr = code[ip as int];
        match instr {
            InstrModel::LoadConst { bits, text } => if stack.len() >= STACK_CAP {
                Err(ErrSpec::Vm { ip })
            } else {
                vm_exec(code, ps, ip + 1, stack.push(bits))
            },
            InstrModel::LoadParam(n) => match plookup(ps, n) {
                Some(v) => if stack.len() >= STACK_CAP {
                    Err(ErrSpec::Vm { ip })
                } else {
                    vm_exec(code, ps, ip + 1, stack.push(v))
                },
                None => Err(ErrSpec::MissingParam { name: n }),
            },
            InstrModel::Read(s) => if s < stack.len() && stack.len() < STACK_CAP {
                vm_exec(code, ps, ip + 1, stack.push(stack[s as int]))
            } else {
                Err(ErrSpec::Vm { ip })
            },
            InstrModel::JMPIfFalse(t) => if stack.len() >= 1 {
                let v = stack[stack.len() - 1];
                if spec_float_eq(v, FALSE_BITS) {
                    if t > ip && t <= code.len() {
                        vm_exec(code, ps, t, stack.drop_last())
                    } else {
                        Err(ErrSpec::Vm { ip })
                    }
                } else {
                    vm_exec(code, ps, ip + 1, stack.drop_last())
                }
            } else {
                Err(ErrSpec::Vm { ip })
            },
            InstrModel::JMP(t) => if t > ip && t <= code.len() {
                vm_exec(code, ps, t, stack)
            } else {
                Err(ErrSpec::Vm { ip })
            },
            InstrModel::Call(n) => if n == "rand"@ {
                if stack.len() >= STACK_CAP {
                    Err(ErrSpec::Vm { ip })
                } else {
                    vm_exec(code, ps, ip + 1, stack.push(0))
                }
            } else if n == "int"@ {
                if stack.len() >= 1 {
                    let v = stack[stack.len() - 1];
                    vm_exec(code, ps, ip + 1, stack.drop_last().push(round_bits_of(v)))
                } else {
                    Err(ErrSpec::Vm { ip })
                }
            } else {
                Err(ErrSpec::UnknownBuiltin { name: n })
            },
            InstrModel::Nop => vm_exec(code, ps, ip + 1, stack),
            _ => if is_arith(instr) || is_cmp(instr) {
                if stack.len() >= 2 {
                    let l = stack[stack.len() - 1];
                    let r = stack[stack.len() - 2];
                    let pushed = if is_arith(instr) {
                        bin_bits(instr, l, r)
                    } else if instr_cmp_holds(instr, l, r) {
                        TRUE_BITS
                    } else {
                        FALSE_BITS
                    };
                    vm_exec(code, ps, ip + 1, stack.drop_last().drop_last().push(pushed))
                } else {
                    Err(ErrSpec::Vm { ip })
                }
            } else {
                vm_exec(code, ps, ip + 1, stack)
            },
        }
    }
}

/// Read each name's persistent slot out of the final stack, in table order.
pub open spec fn read_outputs(
    meta: Seq<(Seq<char>, nat)>,
    stack: Seq<u64>,
    i: nat,
) -> Result<Seq<(Seq<char>, u64)>, ErrSpec>
    decreases meta.len() - i,
{
    if i >= meta.len() {
        Ok(Seq::empty())
    } else {
        let (name, slot) = meta[i as int];
        if slot < stack.len() {
            match read_outputs(meta, stack, i + 1) {
                Ok(rest) => Ok(seq![(name, stack[slot as int])] + rest),
                Err(er) => Err(er),
            }
        } else {
            Err(ErrSpec::Vm { ip: slot })
        }
    }
}

/// A whole run: execute the code from an empty stack, then read each slot.
pub open spec fn vm_run_spec(
    code: Seq<InstrModel>,
    meta: Seq<(Seq<char>, nat)>,
    ps: Seq<(Seq<char>, u64)>,
) -> Result<Seq<(Seq<char>, u64)>, ErrSpec> {
    match vm_exec(code, ps, 0, Seq::empty()) {
        Ok(stack) => read_outputs(meta, stack, 0),
        Err(er) => Err(er),
    }
}

/// Execute a lowered program against parameter bindings, returning each
/// name's value in the order of execution. On code without `rand` the
/// result is exactly `vm_run_spec`.
#[verifier::rlimit(100)]
#[verifier::spinoff_prover]
pub fn run(ir: &IR, params: &Vec<(String, u64)>) -> (r: Result<Vec<(String, u64)>, CellError>)
    ensures
        !code_has_rand(instrs_view(ir.instructions@), 0) ==> (match r {
            Ok(out) => vm_run_spec(
                instrs_view(ir.instructions@),
                ir.meta@,
                params_view(params@),
            ) == Ok::<Seq<(Seq<char>, u64)>, ErrSpec>(params_view(out@)),
            Err(e) => vm_run_spec(instrs_view(ir.instructions@), ir.meta@, params_view(params@))
                matches Err(es) && es == e@,
        }),
{
    let ghost cv = instrs_view(ir.instructions@);
    let ghost pv = params_view(params@);
    let mut stack: Vec<u64> = Vec::new();
    let mut ip: usize = 0;
    proof {
        assert(instrs_view(ir.instructions@).len() == ir.instructions@.len());
    }
    while ip < ir.instructions.len()
        invariant
            cv == instrs_view(ir.instructions@),
            cv.len() == ir.instructions@.len(),
            pv == params_view(params@),
            ip <= ir.instructions@.len(),
            !code_has_rand(cv, 0) ==> vm_exec(cv, pv, ip as nat, stack@) == vm_exec(
                cv,
                pv,
                0,
                Seq::<u64>::empty(),
            ),
        decreases ir.instructions@.len() - ip,
    {
        proof {
            assert(cv[ip as int] == ir.instructions@[ip as int]@);
        }
        let ghost st0 = stack@;
        match &ir.instructions[ip] {
            Instruction::LoadConst { bits, text } => {
                if stack.len() >= STACK_CAP {
                    return Err(CellError::Vm { ip });
                }
                stack.push(*bits);
                ip = ip + 1;
            },
            Instruction::LoadParam(n) => {
                let v = match lookup_param(params, n) {
                    Some(v) => v,
                    None => {
                        return Err(CellError::MissingParam { name: n.clone() });
                    },
                };
                if stack.len() >= STACK_CAP {
                    return Err(CellError::Vm { ip });
                }
                stack.push(v);
                ip = ip + 1;
            },
            Instruction::Read(s) => {
                if !(*s < stack.len() && stack.len() < STACK_CAP) {
                    return Err(CellError::Vm { ip });
                }
                let v = stack[*s];
                stack.push(v);
                ip = ip + 1;
            },
            Instruction::Add => {
                if stack.len() < 2 {
                    return Err(CellError::Vm { ip });
                }
                let l = stack.pop().unwrap();
                let r = stack.pop().unwrap();
                stack.push(num_add(l, r));
                ip = ip + 1;
            },
            Instruction::Sub => {
                if stack.len() < 2 {
                    return Err(CellError::Vm { ip });
                }
                let l = stack.pop().unwrap();
                let r = stack.pop().unwrap();
                stack.push(num_sub(l, r));
                ip = ip + 1;
            },
            Instruction::Mul => {
                if stack.len() < 2 {
                    return Err(CellError::Vm { ip });
                }
                let l = stack.pop().unwrap();
                let r = stack.pop().unwrap();
                stack.push(num_mul(l, r));
                ip = ip + 1;
            },
            Instruction::Div => {
                if stack.len() < 2 {
                    return Err(CellError::Vm { ip });
                }
                let l = stack.pop().unwrap();
                let r = stack.pop().unwrap();
                stack.push(num_div(l, r));
                ip = ip + 1;
            },
            Instruction::Mod => {
                if stack.len() < 2 {
                    return Err(CellError::Vm { ip });
                }
                let l = stack.pop().unwrap();
                let r = stack.pop().unwrap();
                stack.push(num_mod(l, r));
                ip = ip + 1;
            },
            Instruction::Greater => {
                if stack.len() < 2 {
                    return Err(CellError::Vm { ip });
                }
                let l = stack.pop().unwrap();
                let r = stack.pop().unwrap();
                stack.push(if float_lt(r, l) {
                    TRUE_BITS
                } else {
                    FALSE_BITS
                });
                ip = ip + 1;
            },
            Instruction::GreaterEqual => {
                if stack.len() < 2 {
                    return Err(CellError::Vm { ip });
                }
                let l = stack.pop().unwrap();
                let r = stack.pop().unwrap();
                stack.push(if float_le(r, l) {
                    TRUE_BITS
                } else {
                    FALSE_BITS
                });
                ip = ip + 1;
            },
            Instruction::Less => {
                if stack.len() < 2 {
                    return Err(CellError::Vm { ip });
                }
                let l = stack.pop().unwrap();
                let r = stack.pop().unwrap();
                stack.push(if float_lt(l, r) {
                    TRUE_BITS
                } else {
                    FALSE_BITS
                });
                ip = ip + 1;
            },
            Instruction::LessEqual => {
                if stack.len() < 2 {
                    return Err(CellError::Vm { ip });
                }
                let l = stack.pop().unwrap();
                let r = stack.pop().unwrap();
                stack.push(if float_le(l, r) {
                    TRUE_BITS
                } else {
                    FALSE_BITS
                });
                ip = ip + 1;
            },
            Instruction::Equal => {
                if stack.len() < 2 {
                    return Err(CellError::Vm { ip });
                }
                let l = stack.pop().unwrap();
                let r = stack.pop().unwrap();
                stack.push(if float_eq(l, r) {
                    TRUE_BITS
                } else {
                    FALSE_BITS
                });
                ip = ip + 1;
            },
            Instruction::JMPIfFalse(t) => {
                if stack.len() < 1 {
                    return Err(CellError::Vm { ip });
                }
                let v = stack.pop().unwrap();
                if float_eq(v, FALSE_BITS) {
                    if !(*t > ip && *t <= ir.instructions.len()) {
                        return Err(CellError::Vm { ip });
                    }
                    ip = *t;
                } else {
                    ip = ip + 1;
                }
            },
            Instruction::JMP(t) => {
                if !(*t > ip && *t <= ir.instructions.len()) {
                    return Err(CellError::Vm { ip });
                }
                ip = *t;
            },
            Instruction::Nop => {
                ip = ip + 1;
            },
            Instruction::Call(n) => {
                if n.eq(&String::from_str("rand")) {
                    proof {
                        lemma_code_has_rand_at(cv, 0, ip as nat);
                    }
                    if stack.len() >= STACK_CAP {
                        return Err(CellError::Vm { ip });
                    }
                    stack.push(rand_unit_bits());
                    ip = ip + 1;
                } else if n.eq(&String::from_str("int")) {
                    if stack.len() < 1 {
                        return Err(CellError::Vm { ip });
                    }
                    let v = stack.pop().unwrap();
                    stack.push(num_round(v));
                    ip = ip + 1;
                } else {
                    return Err(CellError::UnknownBuiltin { name: n.clone() });
                }
            },
        }
    }
    let pairs = ir.meta.pairs();
    let ghost mv = ir.meta@;
    let ghost sv = stack@;
    let mut out: Vec<(String, u64)> = Vec::new();
    let mut k: usize = 0;
    proof {
        assert(params_view(Seq::<(String, u64)>::empty()) =~= Seq::<(Seq<char>, u64)>::empty());
        assert(pairs_view(pairs@).len() == pairs@.len());
    }
    while k < pairs.len()
        invariant
            k <= pairs@.len(),
            cv == instrs_view(ir.instructions@),
            pv == params_view(params@),
            mv == pairs_view(pairs@),
            mv == ir.meta@,
            sv == stack@,
            mv.len() == pairs@.len(),
            !code_has_rand(cv, 0) ==> vm_exec(cv, pv, 0, Seq::<u64>::empty()) == Ok::<
                Seq<u64>,
                ErrSpec,
            >(sv),
            match read_outputs(mv, sv, k as nat) {
                Ok(rest) => read_outputs(mv, sv, 0) == Ok::<Seq<(Seq<char>, u64)>, ErrSpec>(
                    params_view(out@) + rest,
                ),
                Err(es) => read_outputs(mv, sv, 0) == Err::<Seq<(Seq<char>, u64)>, ErrSpec>(es),
            },
        decreases pairs@.len() - k,
    {
        proof {
            assert(mv[k as int] == (pairs@[k as int].0@, pairs@[k as int].1 as nat));
        }
        let slot = pairs[k].1;
        if !(slot < stack.len()) {
            return Err(CellError::Vm { ip: slot });
        }
        let ghost out0 = out@;
        out.push((pairs[k].0.clone(), stack[slot]));
        proof {
            if let Ok(rest) = read_outputs(mv, sv, k as nat) {
                assert(params_view(out@) =~= params_view(out0).push((mv[k as int].0, sv[mv[
                    k as int
                ].1 as int])));
                assert(params_view(out0).push((mv[k as int].0, sv[mv[k as int].1 as int]))
                    + read_outputs(mv, sv, (k + 1) as nat)->Ok_0 =~= params_view(out0) + rest);
            }
        }
        k = k + 1;
    }
    proof {
        assert(params_view(out@) + Seq::<(Seq<char>, u64)>::empty() =~= params_view(out@));
    }
    Ok(out)
}

} // verus!
