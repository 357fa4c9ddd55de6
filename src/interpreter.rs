use vstd::prelude::*;

verus! {

/// Number of general-purpose registers.
pub const REG_NUMBER: usize = 4;

/// Number of words of data memory.
pub const MEM_SIZE: usize = 1024;

/// One machine instruction. Each variant carries its operands; whether an
/// operand is an immediate, a register index or a memory address is fixed
/// by the variant.
#[derive(Clone, Copy, PartialEq, Eq, Debug, Structural)]
pub enum Instruction {
    /// No effect.
    NOOP(),
    /// accumulator := immediate
    LOAD(i32),
    /// accumulator := registers[reg]
    R2A_LOAD(i32),
    /// registers[reg] := memory[addr]; operands are (addr, reg)
    M2R_LOAD(i32, i32),
    /// accumulator := memory[addr]
    M2A_LOAD(i32),
    /// registers[reg] := accumulator
    A2R_STORE(i32),
    /// memory[addr] := accumulator
    A2M_STORE(i32),
    /// memory[addr] := registers[reg]; operands are (reg, addr)
    R2M_STORE(i32, i32),
    /// accumulator += immediate, wrapping
    I_ADD(i32),
    /// accumulator += registers[reg], wrapping
    R_ADD(i32),
    /// pc := target
    JUMP(i32),
    /// pc := target when the accumulator is negative
    JUMP_NEG(i32),
}

/// Why an instruction could not be executed.
#[derive(Clone, Copy, PartialEq, Eq, Debug, Structural)]
pub enum ExecError {
    /// The program counter does not point at an instruction.
    OutOfBounds(usize),
    /// A register operand outside `0..REG_NUMBER`.
    IllegalRegister(i32),
    /// A memory operand outside `0..MEM_SIZE`.
    IllegalMemoryAccess(i32),
    /// A jump target outside the program.
    IllegalJump { from: usize, to: i32, len: usize },
    /// The run was still going after the given number of steps.
    StepLimit(u64),
}

/// The machine state: the loaded program, the program counter, the
/// accumulator, the register file and the data memory.
#[derive(Clone, PartialEq, Eq, Debug)]
pub struct Interpreter {
    pub instructions: Vec<Instruction>,
    pub pc: usize,
    pub accumulator: i32,
    pub registers: [i32; REG_NUMBER],
    pub memory: [i32; MEM_SIZE],
}

/// Mathematical model of a machine state.
pub struct Machine {
    pub instructions: Seq<Instruction>,
    pub pc: usize,
    pub accumulator: i32,
    pub registers: Seq<i32>,
    pub memory: Seq<i32>,
}

impl View for Interpreter {
    type V = Machine;

    open spec fn view(&self) -> Machine {
        Machine {
            instructions: self.instructions@,
            pc: self.pc,
            accumulator: self.accumulator,
            registers: self.registers@,
            memory: self.memory@,
        }
    }
}

pub open spec fn reg_ok(r: i32) -> bool {
    0 <= r < REG_NUMBER
}

pub open spec fn mem_ok(a: i32) -> bool {
    0 <= a < MEM_SIZE
}

pub open spec fn jump_ok(t: i32, len: int) -> bool {
    0 <= t < len
}

/// The accumulator after adding `x` with two's-complement wraparound.
pub open spec fn wrap_add(acc: i32, x: i32) -> i32 {
    vstd::wrapping::i32_specs::wrapping_add(acc, x)
}

/// `m` with the program counter moved to the next instruction.
pub open spec fn advance(m: Machine) -> Machine {
    Machine { pc: (m.pc + 1) as usize, ..m }
}

/// What executing `ins` does to `m`: the next state (program counter
/// included), or the error, in which case the state is left as it was.
pub open spec fn exec_spec(m: Machine, ins: Instruction) -> Result<Machine, ExecError> {
    match ins {
        Instruction::NOOP() => Ok(advance(m)),
        Instruction::LOAD(x) => Ok(advance(Machine { accumulator: x, ..m })),
        Instruction::R2A_LOAD(r) => if !reg_ok(r) {
            Err(ExecError::IllegalRegister(r))
        } else {
            Ok(advance(Machine { accumulator: m.registers[r as int], ..m }))
        },
        Instruction::M2R_LOAD(a, r) => if !mem_ok(a) {
            Err(ExecError::IllegalMemoryAccess(a))
        } else if !reg_ok(r) {
            Err(ExecError::IllegalRegister(r))
        } else {
            Ok(advance(Machine { registers: m.registers.update(r as int, m.memory[a as int]), ..m }))
        },
        Instruction::M2A_LOAD(a) => if !mem_ok(a) {
            Err(ExecError::IllegalMemoryAccess(a))
        } else {
            Ok(advance(Machine { accumulator: m.memory[a as int], ..m }))
        },
        Instruction::A2R_STORE(r) => if !reg_ok(r) {
            Err(ExecError::IllegalRegister(r))
        } else {
            Ok(advance(Machine { registers: m.registers.update(r as int, m.accumulator), ..m }))
        },
        Instruction::A2M_STORE(a) => if !mem_ok(a) {
            Err(ExecError::IllegalMemoryAccess(a))
        } else {
            Ok(advance(Machine { memory: m.memory.update(a as int, m.accumulator), ..m }))
        },
        Instruction::R2M_STORE(r, a) => if !mem_ok(a) {
            Err(ExecError::IllegalMemoryAccess(a))
        } else if !reg_ok(r) {
            Err(ExecError::IllegalRegister(r))
        } else {
            Ok(advance(Machine { memory: m.memory.update(a as int, m.registers[r as int]), ..m }))
        },
        Instruction::I_ADD(x) => Ok(advance(Machine { accumulator: wrap_add(m.accumulator, x), ..m })),
        Instruction::R_ADD(r) => if !reg_ok(r) {
            Err(ExecError::IllegalRegister(r))
        } else {
            Ok(advance(Machine { accumulator: wrap_add(m.accumulator, m.registers[r as int]), ..m }))
        },
        Instruction::JUMP(t) => if !jump_ok(t, m.instructions.len() as int) {
            Err(ExecError::IllegalJump { from: m.pc, to: t, len: m.instructions.len() as usize })
        } else {
            Ok(Machine { pc: t as usize, ..m })
        },
        Instruction::JUMP_NEG(t) => if !jump_ok(t, m.instructions.len() as int) {
            Err(ExecError::IllegalJump { from: m.pc, to: t, len: m.instructions.len() as usize })
        } else if m.accumulator < 0 {
            Ok(Machine { pc: t as usize, ..m })
        } else {
            Ok(advance(m))
        },
    }
}

/// One step of the machine: fetch the instruction at the program counter
/// and execute it.
pub open spec fn step_spec(m: Machine) -> Result<Machine, ExecError> {
    if m.pc >= m.instructions.len() {
        Err(ExecError::OutOfBounds(m.pc))
    } else {
        exec_spec(m, m.instructions[m.pc as int])
    }
}

/// Running `m` for at most `fuel` steps: the state reached and, unless the
/// fuel ran out first, the outcome (the accumulator once the program counter
/// has left the program, or the first error).
pub open spec fn run_spec(m: Machine, fuel: nat) -> (Machine, Option<Result<i32, ExecError>>)
    decreases fuel,
{
    if m.pc >= m.instructions.len() {
        (m, Some(Ok(m.accumulator)))
    } else if fuel == 0 {
        (m, None)
    } else {
        match step_spec(m) {
            Ok(next) => run_spec(next, (fuel - 1) as nat),
            Err(e) => (m, Some(Err(e))),
        }
    }
}

/// Whether a successful `ins` leaves it to the caller to move the program
/// counter to the next instruction: every instruction but a jump that is
/// taken.
pub open spec fn increments(pre: Machine, ins: Instruction) -> bool {
    !(ins is JUMP || (ins is JUMP_NEG && pre.accumulator < 0))
}

/// What a handler promises: on success it returns `increments(pre, ins)`,
/// and the state, once the caller has moved the program counter where that
/// asks for it, is the one `exec_spec` gives; a handler that leaves the move
/// to its caller does not touch the program counter itself. On failure the
/// state is unchanged.
pub open spec fn handled(pre: Machine, post: Machine, ins: Instruction, r: Result<bool, ExecError>) -> bool {
    match exec_spec(pre, ins) {
        Ok(next) => r == Ok::<bool, ExecError>(increments(pre, ins)) && if r->Ok_0 {
            post.pc == pre.pc && advance(post) == next
        } else {
            post == next
        },
        Err(e) => r == Err::<bool, ExecError>(e) && post == pre,
    }
}

impl Interpreter {
    /// A fresh machine for `ins`: program counter, accumulator, registers
    /// and memory all zero.
    pub fn new(ins: Vec<Instruction>) -> (r: Interpreter)
        ensures
            r@.instructions == ins@,
            r@.pc == 0,
            r@.accumulator == 0,
            r@.registers == Seq::new(REG_NUMBER as nat, |i: int| 0i32),
            r@.memory == Seq::new(MEM_SIZE as nat, |i: int| 0i32),
    {
        let r = Interpreter {
            instructions: ins,
            pc: 0,
            accumulator: 0,
            registers: [0i32; REG_NUMBER],
            memory: [0i32; MEM_SIZE],
        };
        assert(r@.registers =~= Seq::new(REG_NUMBER as nat, |i: int| 0i32));
        assert(r@.memory =~= Seq::new(MEM_SIZE as nat, |i: int| 0i32));
        r
    }

    /// Whether the program counter has left the program, which is how a run
    /// ends successfully.
    pub fn finished(&self) -> (r: bool)
        ensures
            r == (self.pc >= self.instructions.len()),
    {
        self.pc >= self.instructions.len()
    }

    /// Executes the instruction at the program counter. On success the
    /// state is the one `step_spec` gives; on failure it is unchanged and
    /// the error is returned.
    pub fn run_single(&mut self) -> (r: Result<(), ExecError>)
        ensures
            match step_spec(old(self)@) {
                Ok(next) => r == Ok::<(), ExecError>(()) && final(self)@ == next,
                Err(e) => r == Err::<(), ExecError>(e) && final(self)@ == old(self)@,
            },
    {
        if self.pc >= self.instructions.len() {
            return Err(ExecError::OutOfBounds(self.pc));
        }
        let ins = self.instructions[self.pc];
        let ret = match ins {
            Instruction::NOOP() => Ok(true),
            Instruction::LOAD(x) => LOAD(self, x),
            Instruction::R2A_LOAD(reg) => R2A_LOAD(self, reg),
            Instruction::M2R_LOAD(mem_addr, reg) => M2R_LOAD(self, mem_addr, reg),
            Instruction::M2A_LOAD(mem_addr) => M2A_LOAD(self, mem_addr),
            Instruction::A2R_STORE(reg) => A2R_STORE(self, reg),
            Instruction::A2M_STORE(mem_addr) => A2M_STORE(self, mem_addr),
            Instruction::R2M_STORE(reg, mem_addr) => R2M_STORE(self, reg, mem_addr),
            Instruction::I_ADD(x) => I_ADD(self, x),
            Instruction::R_ADD(reg) => R_ADD(self, reg),
            Instruction::JUMP(target) => JUMP(self, target),
            Instruction::JUMP_NEG(target) => JUMP_NEG(self, target),
        };
        match ret {
            Ok(increment) => {
                if increment {
                    self.pc = self.pc + 1;
                }
                Ok(())
            },
            Err(e) => Err(e),
        }
    }

    /// Steps the machine until the program counter leaves the program (the
    /// result is then the accumulator), a step fails (the result is that
    /// error), or `max_steps` steps have run (the result is
    /// `StepLimit(max_steps)`).
    pub fn run_with_limit(&mut self, max_steps: u64) -> (r: Result<i32, ExecError>)
        ensures
            final(self)@ == run_spec(old(self)@, max_steps as nat).0,
            r == match run_spec(old(self)@, max_steps as nat).1 {
                Some(outcome) => outcome,
                None => Err(ExecError::StepLimit(max_steps)),
            },
    {
        let mut steps: u64 = 0;
        while !self.finished()
            invariant
                steps <= max_steps,
                run_spec(self@, (max_steps - steps) as nat) == run_spec(old(self)@, max_steps as nat),
            decreases max_steps - steps,
        {
            if steps == max_steps {
                return Err(ExecError::StepLimit(max_steps));
            }
            match self.run_single() {
                Ok(()) => {},
                Err(e) => {
                    return Err(e);
                },
            }
            steps = steps + 1;
        }
        Ok(self.accumulator)
    }

    /// Runs the program to its end and returns the final accumulator, or
    /// the first error. A verified loop has to end, so the run is cut off
    /// after `u64::MAX` steps, a number that no real run reaches.
    pub fn run_program(&mut self) -> (r: Result<i32, ExecError>)
        ensures
            final(self)@ == run_spec(old(self)@, u64::MAX as nat).0,
            r == match run_spec(old(self)@, u64::MAX as nat).1 {
                Some(outcome) => outcome,
                None => Err(ExecError::StepLimit(u64::MAX)),
            },
    {
        self.run_with_limit(u64::MAX)
    }
}

fn LOAD(s: &mut Interpreter, x: i32) -> (r: Result<bool, ExecError>)
    requires
        old(s).pc < old(s).instructions.len(),
    ensures
        handled(old(s)@, final(s)@, Instruction::LOAD(x), r),
{
    s.accumulator = x;
    Ok(true)
}

fn R2A_LOAD(s: &mut Interpreter, reg: i32) -> (r: Result<bool, ExecError>)
    requires
        old(s).pc < old(s).instructions.len(),
    ensures
        handled(old(s)@, final(s)@, Instruction::R2A_LOAD(reg), r),
{
    if reg < 0 || reg >= REG_NUMBER as i32 {
        return Err(ExecError::IllegalRegister(reg));
    }
    s.accumulator = s.registers[reg as usize];
    Ok(true)
}

fn M2R_LOAD(s: &mut Interpreter, mem_addr: i32, reg: i32) -> (r: Result<bool, ExecError>)
    requires
        old(s).pc < old(s).instructions.len(),
    ensures
        handled(old(s)@, final(s)@, Instruction::M2R_LOAD(mem_addr, reg), r),
{
    if mem_addr < 0 || mem_addr >= MEM_SIZE as i32 {
        return Err(ExecError::IllegalMemoryAccess(mem_addr));
    }
    if reg < 0 || reg >= REG_NUMBER as i32 {
        return Err(ExecError::IllegalRegister(reg));
    }
    s.registers[reg as usize] = s.memory[mem_addr as usize];
    Ok(true)
}

fn M2A_LOAD(s: &mut Interpreter, mem_addr: i32) -> (r: Result<bool, ExecError>)
    requires
        old(s).pc < old(s).instructions.len(),
    ensures
        handled(old(s)@, final(s)@, Instruction::M2A_LOAD(mem_addr), r),
{
    if mem_addr < 0 || mem_addr >= MEM_SIZE as i32 {
        return Err(ExecError::IllegalMemoryAccess(mem_addr));
    }
    s.accumulator = s.memory[mem_addr as usize];
    Ok(true)
}

fn A2R_STORE(s: &mut Interpreter, reg: i32) -> (r: Result<bool, ExecError>)
    requires
        old(s).pc < old(s).instructions.len(),
    ensures
        handled(old(s)@, final(s)@, Instruction::A2R_STORE(reg), r),
{
    if reg < 0 || reg >= REG_NUMBER as i32 {
        return Err(ExecError::IllegalRegister(reg));
    }
    s.registers[reg as usize] = s.accumulator;
    Ok(true)
}

fn A2M_STORE(s: &mut Interpreter, mem_addr: i32) -> (r: Result<bool, ExecError>)
    requires
        old(s).pc < old(s).instructions.len(),
    ensures
        handled(old(s)@, final(s)@, Instruction::A2M_STORE(mem_addr), r),
{
    if mem_addr < 0 || mem_addr >= MEM_SIZE as i32 {
        return Err(ExecError::IllegalMemoryAccess(mem_addr));
    }
    s.memory[mem_addr as usize] = s.accumulator;
    Ok(true)
}

fn R2M_STORE(s: &mut Interpreter, reg: i32, mem_addr: i32) -> (r: Result<bool, ExecError>)
    requires
        old(s).pc < old(s).instructions.len(),
    ensures
        handled(old(s)@, final(s)@, Instruction::R2M_STORE(reg, mem_addr), r),
{
    if mem_addr < 0 || mem_addr >= MEM_SIZE as i32 {
        return Err(ExecError::IllegalMemoryAccess(mem_addr));
    }
    if reg < 0 || reg >= REG_NUMBER as i32 {
        return Err(ExecError::IllegalRegister(reg));
    }
    s.memory[mem_addr as usize] = s.registers[reg as usize];
    Ok(true)
}

fn I_ADD(s: &mut Interpreter, x: i32) -> (r: Result<bool, ExecError>)
    requires
        old(s).pc < old(s).instructions.len(),
    ensures
        handled(old(s)@, final(s)@, Instruction::I_ADD(x), r),
{
    s.accumulator = s.accumulator.wrapping_add(x);
    Ok(true)
}

fn R_ADD(s: &mut Interpreter, reg: i32) -> (r: Result<bool, ExecError>)
    requires
        old(s).pc < old(s).instructions.len(),
    ensures
        handled(old(s)@, final(s)@, Instruction::R_ADD(reg), r),
{
    if reg < 0 || reg >= REG_NUMBER as i32 {
        return Err(ExecError::IllegalRegister(reg));
    }
    s.accumulator = s.accumulator.wrapping_add(s.registers[reg as usize]);
    Ok(true)
}

fn JUMP(s: &mut Interpreter, x: i32) -> (r: Result<bool, ExecError>)
    requires
        old(s).pc < old(s).instructions.len(),
    ensures
        handled(old(s)@, final(s)@, Instruction::JUMP(x), r),
{
    if x < 0 || x as usize >= s.instructions.len() {
        return Err(ExecError::IllegalJump { from: s.pc, to: x, len: s.instructions.len() });
    }
    s.pc = x as usize;
    Ok(false)
}

fn JUMP_NEG(s: &mut Interpreter, x: i32) -> (r: Result<bool, ExecError>)
    requires
        old(s).pc < old(s).instructions.len(),
    ensures
        handled(old(s)@, final(s)@, Instruction::JUMP_NEG(x), r),
{
    if x < 0 || x as usize >= s.instructions.len() {
        return Err(ExecError::IllegalJump { from: s.pc, to: x, len: s.instructions.len() });
    }
    if s.accumulator >= 0 {
        return Ok(true);
    }
    s.pc = x as usize;
    Ok(false)
}

} // verus!
