//! The machine: storage, program counter, instruction register, condition
//! code and running flag, and the fetch-decode-execute cycle.

use crate::condition_code::ConditionCode;
use crate::errors::{Failable, LC3Error};
use crate::nice_vector::Vector;
use crate::operation::{
    branch_selected, lemma_branch_condition, lemma_execute_failures,
    lemma_execute_halts_only_by_trap, lemma_execute_preserves_wf, lemma_field_ranges,
    lemma_unsupported_trap, outcome, pc_relative, spec_execute, ConsoleRequest, Interaction,
    Operation,
};
use crate::program::Program;
use crate::utils::{extract_signed, extract_unsigned, UnsignedBitSelection};
use vstd::prelude::*;

verus! {

/// A machine word: a 16-bit two's-complement value, the unit held by every
/// register and memory cell.
pub type Word = i16;

/// An index into memory. Arithmetic on addresses wraps modulo 65536.
pub type Address = u16;

/// An instruction encoding, as it stands in the instruction register.
pub type Instruction = u16;

/// The number of registers.
pub const NUM_REGISTERS: i32 = 8;

/// The number of memory cells.
pub const NUM_MEMORY_ADDRESSES: i32 = 65536;

/// The address that a number names, and the 16 bits of a number read
/// unsigned: the number modulo 65536.
pub open spec fn wrap_address(value: int) -> Address {
    (value % 65536) as u16
}

/// The word with the same low 16 bits as a number: the one word that
/// differs from it by a multiple of 65536.
pub open spec fn wrap_word(value: int) -> Word {
    if value % 65536 < 32768 {
        (value % 65536) as i16
    } else {
        (value % 65536 - 65536) as i16
    }
}

/// The address that `value` names: its low 16 bits.
pub fn to_address(value: i32) -> (address: Address)
    ensures
        address == wrap_address(value as int),
{
    let low: i32 = value & 0xFFFF;
    assert(0 <= low < 65536 && low == value % 65536) by (bit_vector)
        requires
            low == value & 0xFFFF,
    ;
    low as u16
}

/// The word with the low 16 bits of `value`.
pub fn to_word(value: i32) -> (word: Word)
    ensures
        word == wrap_word(value as int),
{
    let low: i32 = value & 0xFFFF;
    assert(0 <= low < 65536 && low == value % 65536) by (bit_vector)
        requires
            low == value & 0xFFFF,
    ;
    if low < 32768 {
        low as i16
    } else {
        (low - 65536) as i16
    }
}

/// The state of a machine, as mathematics sees it.
pub struct Machine {
    pub mem: Seq<Word>,
    pub reg: Seq<Word>,
    pub running: bool,
    pub pc: Address,
    pub ir: Instruction,
    pub cc: ConditionCode,
}

impl Machine {
    /// Memory has 65536 cells and there are 8 registers.
    pub open spec fn wf(self) -> bool {
        &&& self.mem.len() == 65536
        &&& self.reg.len() == 8
    }

    /// A new machine: all storage zero, running, at address 0.
    pub open spec fn initial() -> Machine {
        Machine {
            mem: Seq::new(65536, |i: int| 0i16),
            reg: Seq::new(8, |i: int| 0i16),
            running: true,
            pc: 0,
            ir: 0,
            cc: ConditionCode::Z,
        }
    }

    /// The machine after `value` is written to the destination register
    /// `reg_num`: the register holds it and the condition code is its sign.
    pub open spec fn set_dr(self, reg_num: int, value: Word) -> Machine {
        Machine {
            reg: self.reg.update(reg_num, value),
            cc: ConditionCode::spec_from_value(value as int),
            ..self
        }
    }

    /// The machine after the fetch: the instruction register holds the 16
    /// bits of the word at the program counter, and the program counter has
    /// moved on by one, from 0xFFFF to 0.
    pub open spec fn fetch(self) -> Machine {
        Machine {
            ir: wrap_address(self.mem[self.pc as int] as int),
            pc: wrap_address(self.pc + 1),
            ..self
        }
    }

    /// The machine after a program is loaded: the program counter is the
    /// start address and memory holds the instructions from there on.
    pub open spec fn load(self, start: Address, instructions: Seq<Instruction>) -> Machine {
        Machine { pc: start, mem: loaded(self.mem, start, instructions), ..self }
    }

    /// One instruction cycle: the machine after it, and what it reports. A
    /// halted machine refuses and stays as it is. A running one fetches,
    /// then executes the operation that bits 15 to 12 of the fetched word
    /// select.
    pub open spec fn step(self) -> (Machine, Result<Interaction, LC3Error>) {
        if !self.running {
            (self, Err(LC3Error::CpuNotRunning))
        } else {
            let fetched = self.fetch();
            spec_execute(Operation::decode(extract_unsigned(fetched.ir, 15, 12)), fetched)
        }
    }

    /// Up to `cycles` instruction cycles: the machine after them, and either
    /// the failure of the cycle that failed, or the request of the last cycle
    /// with the number of cycles that are still to run. The run stops at the
    /// first cycle that fails, that leaves the machine halted (nothing is
    /// then left to run), or that asks something of the console (the run
    /// goes on, once the console has answered, with the cycles that are
    /// left).
    pub open spec fn run(self, cycles: nat) -> (Machine, Result<(nat, Interaction), LC3Error>)
        decreases cycles,
    {
        if cycles == 0 {
            (self, Ok((0nat, Interaction::Nothing)))
        } else {
            let (after, reported) = self.step();
            match reported {
                Err(e) => (after, Err(e)),
                Ok(request) => if !after.running {
                    (after, Ok((0nat, request)))
                } else if request != Interaction::Nothing {
                    (after, Ok(((cycles - 1) as nat, request)))
                } else {
                    after.run((cycles - 1) as nat)
                },
            }
        }
    }
}

/// Memory after `instructions` are written to it one after the other, the
/// first at `start`, each to the address after the one before, and after the
/// last address to address 0.
pub open spec fn loaded(mem: Seq<Word>, start: Address, instructions: Seq<Instruction>) -> Seq<
    Word,
>
    decreases instructions.len(),
{
    if instructions.len() == 0 {
        mem
    } else {
        loaded(mem, start, instructions.drop_last()).update(
            wrap_address(start + instructions.len() - 1) as int,
            wrap_word(instructions.last() as int),
        )
    }
}

/// What a run returned, with the count and the request seen as mathematics
/// sees them.
pub open spec fn run_outcome(done: Failable<(u32, ConsoleRequest)>) -> Result<
    (nat, Interaction),
    LC3Error,
> {
    match done {
        Ok((left, request)) => Ok((left as nat, request@)),
        Err(e) => Err(e),
    }
}

/// A cycle keeps the number of memory cells and of registers.
pub proof fn lemma_step_preserves_wf(m: Machine)
    requires
        m.wf(),
    ensures
        m.step().0.wf(),
{
    if m.running {
        lemma_execute_preserves_wf(
            Operation::decode(extract_unsigned(m.fetch().ir, 15, 12)),
            m.fetch(),
        );
    }
}

/// A run keeps the number of memory cells and of registers, and leaves
/// fewer cycles to run than it was asked for, unless it was asked for none.
pub proof fn lemma_run_preserves_wf(m: Machine, cycles: nat)
    requires
        m.wf(),
    ensures
        m.run(cycles).0.wf(),
        m.run(cycles).1 matches Ok((left, _)) ==> left < cycles || cycles == 0,
    decreases cycles,
{
    if cycles > 0 {
        lemma_step_preserves_wf(m);
        lemma_run_preserves_wf(m.step().0, (cycles - 1) as nat);
    }
}

/// The fetch moves the program counter on by one, and from the last address
/// to address 0, before the operation has any effect: a running machine's
/// cycle is the operation applied to the machine after the fetch.
pub proof fn lemma_fetch_wraps(m: Machine)
    requires
        m.running,
    ensures
        m.fetch().pc == if m.pc == 0xFFFF {
            0
        } else {
            m.pc + 1
        },
        m.fetch().mem == m.mem,
        m.fetch().reg == m.reg,
        m.fetch().cc == m.cc,
        m.step() == spec_execute(
            Operation::decode(extract_unsigned(m.fetch().ir, 15, 12)),
            m.fetch(),
        ),
{
}

/// The operations that address memory by an offset from the program counter
/// count from the address after the instruction's own.
pub proof fn lemma_pc_relative_counts_from_next(m: Machine)
    requires
        m.wf(),
        m.running,
    ensures
        ({
            let fetched = m.fetch();
            let operation = Operation::decode(extract_unsigned(fetched.ir, 15, 12));
            let target = wrap_address(m.pc + 1 + extract_signed(fetched.ir, 8, 0));
            let register = extract_unsigned(fetched.ir, 11, 9);
            &&& pc_relative(fetched) == target
            &&& operation == Operation::LD ==> m.step().0 == fetched.set_dr(
                register,
                m.mem[target as int],
            )
            &&& operation == Operation::LDI ==> m.step().0 == fetched.set_dr(
                register,
                m.mem[wrap_address(m.mem[target as int] as int) as int],
            )
            &&& operation == Operation::LEA ==> m.step().0 == fetched.set_dr(
                register,
                wrap_word(target as int),
            )
            &&& operation == Operation::ST ==> m.step().0 == (Machine {
                mem: m.mem.update(target as int, m.reg[register]),
                ..fetched
            })
            &&& operation == Operation::STI ==> m.step().0 == (Machine {
                mem: m.mem.update(
                    wrap_address(m.mem[target as int] as int) as int,
                    m.reg[register],
                ),
                ..fetched
            })
            &&& operation == Operation::BR ==> m.step().0 == if branch_selected(fetched.ir, m.cc) {
                Machine { pc: target, ..fetched }
            } else {
                fetched
            }
        }),
{
    let fetched = m.fetch();
    let offset = extract_signed(fetched.ir, 8, 0);
    assert(pc_relative(fetched) == wrap_address(m.pc + 1 + offset)) by {
        if m.pc == 0xFFFF {
            assert(fetched.pc + offset == m.pc + 1 + offset - 65536);
        }
    }
    lemma_branch_condition(fetched);
}

/// The halt trap stops the machine and changes nothing else; the next
/// cycle, and every run, is then refused and changes nothing.
pub proof fn lemma_halt_stops(m: Machine)
    requires
        m.wf(),
        m.running,
        extract_unsigned(m.fetch().ir, 15, 12) == 15,
        extract_unsigned(m.fetch().ir, 7, 0) == 0x25,
    ensures
        m.step().0 == (Machine { running: false, ..m.fetch() }),
        m.step().1 == Ok::<Interaction, LC3Error>(Interaction::HaltNotice),
        m.step().0.step() == (m.step().0, Err::<Interaction, LC3Error>(LC3Error::CpuNotRunning)),
{
}

/// A halted machine refuses every cycle and every run of at least one
/// cycle, and stays as it is.
pub proof fn lemma_halted_machine_refuses(m: Machine, cycles: nat)
    requires
        !m.running,
    ensures
        m.step() == (m, Err::<Interaction, LC3Error>(LC3Error::CpuNotRunning)),
        cycles > 0 ==> m.run(cycles) == (
            m,
            Err::<(nat, Interaction), LC3Error>(LC3Error::CpuNotRunning),
        ),
{
}

/// A running machine stops only by the halt trap.
pub proof fn lemma_halts_only_by_trap(m: Machine)
    requires
        m.running,
        !m.step().0.running,
    ensures
        extract_unsigned(m.fetch().ir, 15, 12) == 15,
        extract_unsigned(m.fetch().ir, 7, 0) == 0x25,
        m.step().1 == Ok::<Interaction, LC3Error>(Interaction::HaltNotice),
{
    let fetched = m.fetch();
    lemma_field_ranges(fetched.ir);
    lemma_execute_halts_only_by_trap(
        Operation::decode(extract_unsigned(fetched.ir, 15, 12)),
        fetched,
    );
}

/// A trap with a code that has no routine fails with that code; registers
/// and memory stay as they were, and only the fetch has taken place.
pub proof fn lemma_unsupported_trap_changes_nothing(m: Machine)
    requires
        m.running,
        extract_unsigned(m.fetch().ir, 15, 12) == 15,
        extract_unsigned(m.fetch().ir, 7, 0) != 0x20,
        extract_unsigned(m.fetch().ir, 7, 0) != 0x21,
        extract_unsigned(m.fetch().ir, 7, 0) != 0x22,
        extract_unsigned(m.fetch().ir, 7, 0) != 0x23,
        extract_unsigned(m.fetch().ir, 7, 0) != 0x25,
    ensures
        m.step().1 == Err::<Interaction, LC3Error>(
            LC3Error::UnsupportedTrapCode(extract_unsigned(m.fetch().ir, 7, 0) as i32),
        ),
        m.step().0 == m.fetch(),
        m.step().0.reg == m.reg,
        m.step().0.mem == m.mem,
        m.step().0.cc == m.cc,
        m.step().0.running,
{
    lemma_unsupported_trap(m.fetch());
}

/// A cycle that fails leaves a running machine as the fetch left it, and a
/// halted one as it was. It fails in one of four ways.
pub proof fn lemma_step_failures(m: Machine)
    requires
        m.step().1 is Err,
    ensures
        m.step().0 == if m.running {
            m.fetch()
        } else {
            m
        },
        m.step().1 matches Err(e) && (e == LC3Error::CpuNotRunning || e == LC3Error::UnusedOpCode
            || e == LC3Error::RTINotSupported || e == LC3Error::UnsupportedTrapCode(
            extract_unsigned(m.fetch().ir, 7, 0) as i32,
        )),
{
    if m.running {
        lemma_execute_failures(
            Operation::decode(extract_unsigned(m.fetch().ir, 15, 12)),
            m.fetch(),
        );
    }
}

/// After a program of no more than 65536 instructions is loaded, the cell
/// that lies `i` addresses after the start holds instruction `i`, and every
/// cell beyond the program holds what it held.
pub proof fn lemma_loaded_cells(mem: Seq<Word>, start: Address, instructions: Seq<Instruction>)
    requires
        mem.len() == 65536,
        instructions.len() <= 65536,
    ensures
        loaded(mem, start, instructions).len() == 65536,
        forall|a: int|
            0 <= a < 65536 ==> #[trigger] loaded(mem, start, instructions)[a] == if (a - start)
                % 65536 < instructions.len() {
                wrap_word(instructions[(a - start) % 65536] as int)
            } else {
                mem[a]
            },
    decreases instructions.len(),
{
    if instructions.len() > 0 {
        let front = instructions.drop_last();
        lemma_loaded_cells(mem, start, front);
        let last = instructions.len() - 1;
        assert forall|a: int| 0 <= a < 65536 implies #[trigger] loaded(mem, start, instructions)[a]
            == if (a - start) % 65536 < instructions.len() {
            wrap_word(instructions[(a - start) % 65536] as int)
        } else {
            mem[a]
        } by {
            assert(loaded(mem, start, front)[a] == if (a - start) % 65536 < front.len() {
                wrap_word(front[(a - start) % 65536] as int)
            } else {
                mem[a]
            });
            if a == wrap_address(start + last) as int {
                assert((a - start) % 65536 == last);
            } else {
                assert((a - start) % 65536 != last);
            }
        }
    }
}

/// The machine. Its state is reached through the operations below alone.
pub struct CPU {
    mem: Vector,
    reg: Vector,
    running: bool,
    pc: Address,
    ir: Instruction,
    cc: ConditionCode,
}

impl View for CPU {
    type V = Machine;

    closed spec fn view(&self) -> Machine {
        Machine {
            mem: self.mem@,
            reg: self.reg@,
            running: self.running,
            pc: self.pc,
            ir: self.ir,
            cc: self.cc,
        }
    }
}

impl CPU {
    /// A new machine: all storage zero, running, at address 0, with the
    /// condition code of zero.
    pub fn new() -> (cpu: CPU)
        ensures
            cpu@ == Machine::initial(),
            cpu@.wf(),
    {
        CPU {
            mem: Vector::new(NUM_MEMORY_ADDRESSES),
            reg: Vector::new(NUM_REGISTERS),
            running: true,
            pc: 0,
            ir: 0,
            cc: ConditionCode::Z,
        }
    }

    /// The whole memory.
    pub fn mem(&self) -> (mem: &Vector)
        ensures
            mem@ == self@.mem,
    {
        &self.mem
    }

    /// The whole register file.
    pub fn reg(&self) -> (reg: &Vector)
        ensures
            reg@ == self@.reg,
    {
        &self.reg
    }

    /// Whether the machine runs; a halted machine does not.
    pub fn running(&self) -> (running: bool)
        ensures
            running == self@.running,
    {
        self.running
    }

    /// The program counter.
    pub fn pc(&self) -> (pc: Address)
        ensures
            pc == self@.pc,
    {
        self.pc
    }

    /// The instruction register.
    pub fn ir(&self) -> (ir: Instruction)
        ensures
            ir == self@.ir,
    {
        self.ir
    }

    /// The condition code.
    pub fn cc(&self) -> (cc: ConditionCode)
        ensures
            cc == self@.cc,
    {
        self.cc
    }

    /// The word in register `reg_num`; a number that names no register is
    /// refused.
    pub fn register_value(&self, reg_num: i32) -> (value: Failable<Word>)
        ensures
            0 <= reg_num < self@.reg.len() ==> value == Ok::<Word, LC3Error>(
                self@.reg[reg_num as int],
            ),
            !(0 <= reg_num < self@.reg.len()) ==> value == Err::<Word, LC3Error>(
                LC3Error::InvalidRegister,
            ),
    {
        if reg_num < 0 {
            return Err(LC3Error::InvalidRegister);
        }
        match self.reg.get(reg_num as usize) {
            Some(word) => Ok(word),
            None => Err(LC3Error::InvalidRegister),
        }
    }

    /// The word in the memory cell at `addr`; an address beyond the memory
    /// is refused.
    pub fn memory_address_value(&self, addr: Address) -> (value: Failable<Word>)
        ensures
            addr < self@.mem.len() ==> value == Ok::<Word, LC3Error>(self@.mem[addr as int]),
            !(addr < self@.mem.len()) ==> value == Err::<Word, LC3Error>(
                LC3Error::AddressOutOfRange,
            ),
    {
        match self.mem.get(addr) {
            Some(word) => Ok(word),
            None => Err(LC3Error::AddressOutOfRange),
        }
    }

    /// Loads a program: sets the program counter to its start address and
    /// writes its instructions to memory from there on, going from the last
    /// address on to address 0.
    pub fn load_program(&mut self, program: &Program) -> (done: Failable<()>)
        requires
            old(self)@.wf(),
        ensures
            done is Ok,
            final(self)@ == old(self)@.load(program@.header, program@.instructions),
            final(self)@.wf(),
    {
        self.pc = program.program_counter_start();
        // load program instructions into memory
        let mut temp_pc = self.pc;
        let instructions = program.instructions();
        let mut i: usize = 0;
        while i < instructions.len()
            invariant
                i <= instructions@.len(),
                instructions@ == program@.instructions,
                temp_pc == wrap_address(program@.header + i),
                self@.wf(),
                self@ == old(self)@.load(program@.header, instructions@.take(i as int)),
            decreases instructions@.len() - i,
        {
            proof {
                assert(instructions@.take(i + 1).drop_last() =~= instructions@.take(i as int));
            }
            self.set_memory_address_value(temp_pc, to_word(instructions[i] as i32))?;
            temp_pc = temp_pc.wrapping_add(1);
            i += 1;
        }
        proof {
            assert(instructions@.take(i as int) =~= instructions@);
        }
        Ok(())
    }

    /// Runs one instruction cycle. What it does to the machine and what it
    /// returns are those of `Machine::step`: a request where the cycle went
    /// through, the failure where it did not.
    pub fn run_one_instruction_cycle(&mut self) -> (done: Failable<ConsoleRequest>)
        requires
            old(self)@.wf(),
        ensures
            final(self)@ == old(self)@.step().0,
            outcome(done) == old(self)@.step().1,
            final(self)@.wf(),
    {
        if !self.running {
            return Err(LC3Error::CpuNotRunning);
        }
        // load current instruction into instruction register

        let word = self.memory_address_value(self.pc)?;
        self.ir = to_address(word as i32);
        self.pc = if self.pc == 0xffff {
            0x0000
        } else {
            self.pc + 1
        };
        // execute current instruction
        proof {
            lemma_field_ranges(self.ir);
            assert(self@ == old(self)@.fetch());
        }
        let op_code = self.ir.bits(15, 12) as u8;
        let operation = Operation::from_code(op_code)?;
        self.run_operation(operation)
    }

    /// Executes one operation on the instruction that the machine has
    /// fetched. What it does to the machine and what it returns are those of
    /// `spec_execute`.
    pub fn run_operation(&mut self, operation: Operation) -> (done: Failable<ConsoleRequest>)
        requires
            old(self)@.wf(),
        ensures
            final(self)@ == spec_execute(operation, old(self)@).0,
            outcome(done) == spec_execute(operation, old(self)@).1,
            final(self)@.wf(),
    {
        operation.execute(self)
    }

    /// Writes `val` to the destination register `reg_num` and sets the
    /// condition code to its sign. A number that names no register is
    /// refused, and the machine stays as it was.
    pub fn set_dr(&mut self, reg_num: i32, val: Word) -> (done: Failable<()>)
        ensures
            0 <= reg_num < old(self)@.reg.len() ==> done is Ok && final(self)@ == old(
                self,
            )@.set_dr(reg_num as int, val),
            !(0 <= reg_num < old(self)@.reg.len()) ==> done == Err::<(), LC3Error>(
                LC3Error::InvalidRegister,
            ) && final(self)@ == old(self)@,
            final(self)@.wf() == old(self)@.wf(),
    {
        if reg_num < 0 {
            return Err(LC3Error::InvalidRegister);
        }
        if self.reg.set(reg_num as usize, val) {
            self.cc = ConditionCode::from_value(val);
            Ok(())
        } else {
            Err(LC3Error::InvalidRegister)
        }
    }

    /// Sets the program counter and makes the machine run again.
    pub fn set_pc_address(&mut self, addr: Address)
        ensures
            final(self)@ == (Machine { pc: addr, running: true, ..old(self)@ }),
            final(self)@.wf() == old(self)@.wf(),
    {
        self.pc = addr;
        self.running = true;
    }

    /// Stores `val` in the memory cell at `addr`. An address beyond the
    /// memory is refused, and the machine stays as it was.
    pub fn set_memory_address_value(&mut self, addr: Address, val: Word) -> (done: Failable<()>)
        ensures
            addr < old(self)@.mem.len() ==> done is Ok && final(self)@ == (Machine {
                mem: old(self)@.mem.update(addr as int, val),
                ..old(self)@
            }),
            !(addr < old(self)@.mem.len()) ==> done == Err::<(), LC3Error>(
                LC3Error::AddressOutOfRange,
            ) && final(self)@ == old(self)@,
            final(self)@.wf() == old(self)@.wf(),
    {
        if self.mem.set(addr, val) {
            Ok(())
        } else {
            Err(LC3Error::AddressOutOfRange)
        }
    }

    /// Stores `val` in register `reg_num`; the condition code stays. A
    /// number that names no register is refused, and the machine stays as it
    /// was.
    pub fn set_register_value(&mut self, reg_num: i32, val: Word) -> (done: Failable<()>)
        ensures
            0 <= reg_num < old(self)@.reg.len() ==> done is Ok && final(self)@ == (Machine {
                reg: old(self)@.reg.update(reg_num as int, val),
                ..old(self)@
            }),
            !(0 <= reg_num < old(self)@.reg.len()) ==> done == Err::<(), LC3Error>(
                LC3Error::InvalidRegister,
            ) && final(self)@ == old(self)@,
            final(self)@.wf() == old(self)@.wf(),
    {
        if reg_num < 0 {
            return Err(LC3Error::InvalidRegister);
        }
        if self.reg.set(reg_num as usize, val) {
            Ok(())
        } else {
            Err(LC3Error::InvalidRegister)
        }
    }

    /// Runs up to `num_cycles` instruction cycles and returns the request of
    /// the last one, with the number of cycles that are still to run once
    /// the console has answered it. What it does to the machine and what it
    /// returns are those of `Machine::run`.
    pub fn run_many_instruction_cycles(&mut self, num_cycles: u32) -> (done: Failable<
        (u32, ConsoleRequest),
    >)
        requires
            old(self)@.wf(),
        ensures
            final(self)@ == old(self)@.run(num_cycles as nat).0,
            run_outcome(done) == old(self)@.run(num_cycles as nat).1,
            final(self)@.wf(),
    {
        let mut left: u32 = num_cycles;
        while left > 0
            invariant
                self@.wf(),
                old(self)@.run(num_cycles as nat) == self@.run(left as nat),
            decreases left,
        {
            let request = self.run_one_instruction_cycle()?;
            left -= 1;
            if !self.running {
                return Ok((0, request));
            }
            let asks = match &request {
                ConsoleRequest::Nothing => false,
                _ => true,
            };
            if asks {
                return Ok((left, request));
            }
        }
        Ok((0, ConsoleRequest::Nothing))
    }

    /// The memory cells that do not hold zero, each with its address, in
    /// the order of the addresses.
    pub fn nonzero_memory(&self) -> (cells: Vec<(Address, Word)>)
        requires
            self@.wf(),
        ensures
            forall|k: int|
                0 <= k < cells@.len() ==> (#[trigger] cells@[k]).1 != 0 && self@.mem[cells@[k].0 as int]
                    == cells@[k].1,
            forall|j: int, k: int|
                0 <= j < k < cells@.len() ==> (#[trigger] cells@[j]).0 < (#[trigger] cells@[k]).0,
            forall|a: int|
                0 <= a < 65536 && #[trigger] self@.mem[a] != 0 ==> exists|k: int|
                    0 <= k < cells@.len() && (#[trigger] cells@[k]).0 == a,
    {
        let mut cells: Vec<(Address, Word)> = Vec::new();
        let mut i: usize = 0;
        while i < self.mem.len()
            invariant
                self@.wf(),
                i <= 65536,
                forall|k: int|
                    0 <= k < cells@.len() ==> (#[trigger] cells@[k]).1 != 0 && self@.mem[cells@[k].0 as int]
                        == cells@[k].1 && cells@[k].0 < i,
                forall|j: int, k: int|
                    0 <= j < k < cells@.len() ==> (#[trigger] cells@[j]).0 < (
                    #[trigger] cells@[k]).0,
                forall|a: int|
                    0 <= a < i && #[trigger] self@.mem[a] != 0 ==> exists|k: int|
                        0 <= k < cells@.len() && (#[trigger] cells@[k]).0 == a,
            decreases 65536 - i,
        {
            let word = self.mem.vals()[i];
            if word != 0 {
                let ghost before = cells@;
                cells.push((i as u16, word));
                proof {
                    assert forall|a: int| 0 <= a < i + 1 && #[trigger] self@.mem[a] != 0 implies exists|
                        k: int,
                    |
                        0 <= k < cells@.len() && (#[trigger] cells@[k]).0 == a by {
                        if a < i {
                            let k = choose|k: int|
                                0 <= k < before.len() && (#[trigger] before[k]).0 == a;
                            assert(cells@[k] == before[k]);
                        } else {
                            assert(cells@[before.len() as int].0 == a);
                        }
                    }
                }
            }
            i += 1;
        }
        cells
    }

    /// Moves the program counter; the running flag stays.
    pub(crate) fn jump(&mut self, addr: Address)
        ensures
            final(self)@ == (Machine { pc: addr, ..old(self)@ }),
    {
        self.pc = addr;
    }

    /// Stops the machine.
    pub(crate) fn halt(&mut self)
        ensures
            final(self)@ == (Machine { running: false, ..old(self)@ }),
            final(self)@.wf() == old(self)@.wf(),
    {
        self.running = false;
    }
}

} // verus!
