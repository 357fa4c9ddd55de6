//! General facts about the step semantics, proved over the model that the
//! contracts of `Interpreter` use.
use vstd::prelude::*;
use crate::interpreter::{mem_ok, run_spec, step_spec, ExecError, Instruction, Machine, MEM_SIZE, REG_NUMBER};

verus! {

/// A successful step never changes the program. Unless the instruction is a
/// `JUMP`, or a `JUMP_NEG` taken on a negative accumulator, it moves the
/// program counter forward by exactly one.
pub proof fn lemma_step_advances(m: Machine)
    requires
        m.instructions.len() <= usize::MAX,
        step_spec(m) is Ok,
    ensures
        step_spec(m)->Ok_0.instructions == m.instructions,
        ({
            let ins = m.instructions[m.pc as int];
            !(ins is JUMP) && !(ins is JUMP_NEG && m.accumulator < 0) ==> step_spec(m)->Ok_0.pc
                == m.pc + 1
        }),
{
}

/// For an instruction whose register operand is `r` (and whose memory
/// operand `a`, where it has one, is in range), the step fails with
/// `IllegalRegister(r)` exactly when `r` is outside `0..REG_NUMBER`, and with
/// no other error.
pub proof fn lemma_register_bounds(m: Machine, r: i32, a: i32)
    requires
        m.pc < m.instructions.len(),
        ({
            let ins = m.instructions[m.pc as int];
            ins == Instruction::R2A_LOAD(r) || ins == Instruction::A2R_STORE(r) || ins
                == Instruction::R_ADD(r) || (mem_ok(a) && (ins == Instruction::M2R_LOAD(a, r) || ins
                == Instruction::R2M_STORE(r, a)))
        }),
    ensures
        step_spec(m) == Err::<Machine, ExecError>(ExecError::IllegalRegister(r)) <==> (r < 0 || r
            >= REG_NUMBER),
        step_spec(m) is Err ==> step_spec(m) == Err::<Machine, ExecError>(
            ExecError::IllegalRegister(r),
        ),
{
}

/// For an instruction whose memory operand is `a`, the step fails with
/// `IllegalMemoryAccess(a)` exactly when `a` is outside `0..MEM_SIZE`.
pub proof fn lemma_memory_bounds(m: Machine, a: i32, r: i32)
    requires
        m.pc < m.instructions.len(),
        ({
            let ins = m.instructions[m.pc as int];
            ins == Instruction::M2A_LOAD(a) || ins == Instruction::A2M_STORE(a) || ins
                == Instruction::M2R_LOAD(a, r) || ins == Instruction::R2M_STORE(r, a)
        }),
    ensures
        step_spec(m) == Err::<Machine, ExecError>(ExecError::IllegalMemoryAccess(a)) <==> (a < 0
            || a >= MEM_SIZE),
{
}

/// A `JUMP(t)` or `JUMP_NEG(t)` in a program of `n` instructions fails, with
/// `IllegalJump` naming `t`, exactly when `t` is outside `0..n`.
pub proof fn lemma_jump_bounds(m: Machine, t: i32)
    requires
        m.pc < m.instructions.len(),
        m.instructions[m.pc as int] == Instruction::JUMP(t) || m.instructions[m.pc as int]
            == Instruction::JUMP_NEG(t),
    ensures
        step_spec(m) is Err <==> (t < 0 || t >= m.instructions.len()),
        step_spec(m) is Err ==> step_spec(m) == Err::<Machine, ExecError>(
            ExecError::IllegalJump { from: m.pc, to: t, len: m.instructions.len() as usize },
        ),
{
}

/// A legal `JUMP_NEG(t)` moves the program counter to `t` when the
/// accumulator is negative; otherwise it moves it forward by one, and
/// nothing else changes either way.
pub proof fn lemma_jump_neg(m: Machine, t: i32)
    requires
        m.pc < m.instructions.len(),
        m.instructions[m.pc as int] == Instruction::JUMP_NEG(t),
        0 <= t < m.instructions.len(),
    ensures
        step_spec(m) is Ok,
        m.accumulator < 0 ==> step_spec(m)->Ok_0 == (Machine { pc: t as usize, ..m }),
        m.accumulator >= 0 ==> step_spec(m)->Ok_0 == (Machine { pc: (m.pc + 1) as usize, ..m }),
        step_spec(m)->Ok_0.accumulator == m.accumulator,
{
}

/// Running over any number `k` of consecutive `NOOP`s moves the program
/// counter forward by `k` and changes nothing else.
pub proof fn lemma_noops_change_only_pc(m: Machine, k: nat)
    requires
        m.instructions.len() <= usize::MAX,
        m.pc + k <= m.instructions.len(),
        forall|i: int| m.pc <= i < m.pc + k ==> m.instructions[i] == Instruction::NOOP(),
    ensures
        run_spec(m, k).0 == (Machine { pc: (m.pc + k) as usize, ..m }),
    decreases k,
{
    if k > 0 {
        let next = Machine { pc: (m.pc + 1) as usize, ..m };
        assert(step_spec(m) == Ok::<Machine, ExecError>(next));
        assert forall|i: int| next.pc <= i < next.pc + (k - 1) implies next.instructions[i]
            == Instruction::NOOP() by {}
        lemma_noops_change_only_pc(next, (k - 1) as nat);
        assert((Machine { pc: (next.pc + (k - 1)) as usize, ..next }) == (Machine {
            pc: (m.pc + k) as usize,
            ..m
        }));
    }
}

/// A run that has not ended and still has steps left is one step followed
/// by the run from the state that step reaches; a failing step ends the run
/// with that error, in the state before it.
pub proof fn lemma_run_is_steps(m: Machine, fuel: nat)
    requires
        m.pc < m.instructions.len(),
        fuel > 0,
    ensures
        step_spec(m) is Ok ==> run_spec(m, fuel) == run_spec(step_spec(m)->Ok_0, (fuel - 1) as nat),
        step_spec(m) is Err ==> run_spec(m, fuel) == (m, Some(
            Err::<i32, ExecError>(step_spec(m)->Err_0),
        )),
{
}

/// A run from a state whose program counter has left the program ends at
/// once with the accumulator, whatever the step budget.
pub proof fn lemma_run_finished(m: Machine, fuel: nat)
    requires
        m.pc >= m.instructions.len(),
    ensures
        run_spec(m, fuel) == (m, Some(Ok::<i32, ExecError>(m.accumulator))),
{
}

} // verus!
