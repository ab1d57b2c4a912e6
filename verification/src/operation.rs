//! The sixteen operations and the trap routines.

use crate::condition_code::ConditionCode;
use crate::cpu::{to_address, to_word, wrap_address, wrap_word, Address, Machine, Word, CPU};
use crate::errors::{Failable, LC3Error};
use crate::utils::{
    bit_is_set, extract_signed, extract_unsigned, lemma_extract_signed_bounds,
    lemma_extract_unsigned_bounds, lemma_signed_reading, SignedBitSelection,
    UnsignedBitSelection,
};
use vstd::arithmetic::power2::{lemma2_to64, pow2};
use vstd::prelude::*;

verus! {

//////////////////////////////////////////////////////
// LC3 INSTRUCTION TABLE
//////////////////////////////////////////////////////
/// The sixteen operations, in the order of their opcodes.
#[derive(Clone, Copy, Debug, PartialEq, Eq, Structural)]
pub enum Operation {
    BR,
    ADD,
    LD,
    ST,
    JSR,
    AND,
    LDR,
    STR,
    RTI,
    NOT,
    LDI,
    STI,
    JMP,
    ERR,
    LEA,
    TRAP,
}

/// What a cycle asks the console to do.
#[derive(Debug, PartialEq, Eq)]
pub enum ConsoleRequest {
    /// Nothing.
    Nothing,
    /// Wait for one byte of input and hand it to `trap_getchar`.
    ReadChar,
    /// Write this byte as one character.
    WriteChar(u8),
    /// Write these words, first to last, each as the character that
    /// `character_of` gives for it.
    WriteString(Vec<Word>),
    /// Write `INPUT_PROMPT`, then wait for one byte of input and hand it to
    /// `trap_input`.
    PromptAndReadChar,
    /// Write `HALT_NOTICE`.
    HaltNotice,
}

/// A `ConsoleRequest`, as mathematics sees it.
pub enum Interaction {
    Nothing,
    ReadChar,
    WriteChar(u8),
    WriteString(Seq<Word>),
    PromptAndReadChar,
    HaltNotice,
}

impl View for ConsoleRequest {
    type V = Interaction;

    open spec fn view(&self) -> Interaction {
        match self {
            ConsoleRequest::Nothing => Interaction::Nothing,
            ConsoleRequest::ReadChar => Interaction::ReadChar,
            ConsoleRequest::WriteChar(byte) => Interaction::WriteChar(*byte),
            ConsoleRequest::WriteString(words) => Interaction::WriteString(words@),
            ConsoleRequest::PromptAndReadChar => Interaction::PromptAndReadChar,
            ConsoleRequest::HaltNotice => Interaction::HaltNotice,
        }
    }
}

/// What a fallible step returned, with the request seen as mathematics sees
/// it.
pub open spec fn outcome(done: Failable<ConsoleRequest>) -> Result<Interaction, LC3Error> {
    match done {
        Ok(request) => Ok(request@),
        Err(e) => Err(e),
    }
}

/// The text that asks for a character.
pub const INPUT_PROMPT: &'static str = "Enter a character: ";

/// The text that tells of a halt.
pub const HALT_NOTICE: &'static str = "Trap halt reached, halting CPU";

impl Operation {
    /// The operation that a 4-bit opcode selects.
    pub open spec fn decode(op_code: int) -> Operation {
        if op_code == 0 {
            Operation::BR
        } else if op_code == 1 {
            Operation::ADD
        } else if op_code == 2 {
            Operation::LD
        } else if op_code == 3 {
            Operation::ST
        } else if op_code == 4 {
            Operation::JSR
        } else if op_code == 5 {
            Operation::AND
        } else if op_code == 6 {
            Operation::LDR
        } else if op_code == 7 {
            Operation::STR
        } else if op_code == 8 {
            Operation::RTI
        } else if op_code == 9 {
            Operation::NOT
        } else if op_code == 10 {
            Operation::LDI
        } else if op_code == 11 {
            Operation::STI
        } else if op_code == 12 {
            Operation::JMP
        } else if op_code == 13 {
            Operation::ERR
        } else if op_code == 14 {
            Operation::LEA
        } else {
            Operation::TRAP
        }
    }

    /// Every opcode from 0 to 15 selects its operation; a larger number is
    /// refused.
    pub fn from_code(op_code: u8) -> (operation: Failable<Operation>)
        ensures
            op_code < 16 ==> operation == Ok::<Operation, LC3Error>(Self::decode(op_code as int)),
            op_code >= 16 ==> operation == Err::<Operation, LC3Error>(
                LC3Error::UnrecognizedOpCode(op_code as i32),
            ),
    {
        match op_code {
            0b0000 => Ok(Operation::BR),
            0b0001 => Ok(Operation::ADD),
            0b0010 => Ok(Operation::LD),
            0b0011 => Ok(Operation::ST),
            0b0100 => Ok(Operation::JSR),
            0b0101 => Ok(Operation::AND),
            0b0110 => Ok(Operation::LDR),
            0b0111 => Ok(Operation::STR),
            0b1000 => Ok(Operation::RTI),
            0b1001 => Ok(Operation::NOT),
            0b1010 => Ok(Operation::LDI),
            0b1011 => Ok(Operation::STI),
            0b1100 => Ok(Operation::JMP),
            0b1101 => Ok(Operation::ERR),
            0b1110 => Ok(Operation::LEA),
            0b1111 => Ok(Operation::TRAP),
            _ => Err(LC3Error::UnrecognizedOpCode(op_code as i32)),
        }
    }

    /// Executes the operation on the instruction that the machine has
    /// fetched. What it does to the machine and what it returns are those of
    /// `spec_execute`.
    pub fn execute(&self, cpu: &mut CPU) -> (done: Failable<ConsoleRequest>)
        requires
            old(cpu)@.wf(),
        ensures
            final(cpu)@ == spec_execute(*self, old(cpu)@).0,
            outcome(done) == spec_execute(*self, old(cpu)@).1,
            final(cpu)@.wf(),
    {
        match *self {
            Operation::BR => instr_br(cpu)?,
            Operation::ADD => instr_add(cpu)?,
            Operation::LD => instr_ld(cpu)?,
            Operation::ST => instr_st(cpu)?,
            Operation::JSR => instr_jsr(cpu)?,
            Operation::AND => instr_and(cpu)?,
            Operation::LDR => instr_ldr(cpu)?,
            Operation::STR => instr_str(cpu)?,
            Operation::RTI => instr_rti()?,
            Operation::NOT => instr_not(cpu)?,
            Operation::LDI => instr_ldi(cpu)?,
            Operation::STI => instr_sti(cpu)?,
            Operation::JMP => instr_jmp(cpu)?,
            Operation::ERR => instr_err()?,
            Operation::LEA => instr_lea(cpu)?,
            Operation::TRAP => {
                return instr_trap(cpu);
            },
        }
        Ok(ConsoleRequest::Nothing)
    }
}

/// The machine after an operation, and what the operation reports: a request
/// to the console, or a failure. The reserved opcode and return from
/// interrupt always fail and leave the machine as it is; a trap does what
/// `spec_instr_trap` says; every other operation asks nothing.
pub open spec fn spec_execute(operation: Operation, m: Machine) -> (
    Machine,
    Result<Interaction, LC3Error>,
) {
    match operation {
        Operation::BR => (spec_instr_br(m), Ok(Interaction::Nothing)),
        Operation::ADD => (spec_instr_add(m), Ok(Interaction::Nothing)),
        Operation::LD => (spec_instr_ld(m), Ok(Interaction::Nothing)),
        Operation::ST => (spec_instr_st(m), Ok(Interaction::Nothing)),
        Operation::JSR => (spec_instr_jsr(m), Ok(Interaction::Nothing)),
        Operation::AND => (spec_instr_and(m), Ok(Interaction::Nothing)),
        Operation::LDR => (spec_instr_ldr(m), Ok(Interaction::Nothing)),
        Operation::STR => (spec_instr_str(m), Ok(Interaction::Nothing)),
        Operation::RTI => (m, Err(LC3Error::RTINotSupported)),
        Operation::NOT => (spec_instr_not(m), Ok(Interaction::Nothing)),
        Operation::LDI => (spec_instr_ldi(m), Ok(Interaction::Nothing)),
        Operation::STI => (spec_instr_sti(m), Ok(Interaction::Nothing)),
        Operation::JMP => (spec_instr_jmp(m), Ok(Interaction::Nothing)),
        Operation::ERR => (m, Err(LC3Error::UnusedOpCode)),
        Operation::LEA => (spec_instr_lea(m), Ok(Interaction::Nothing)),
        Operation::TRAP => spec_instr_trap(m),
    }
}

//////////////////////////////////////////////////////
// LC3 INSTRUCTION SET
//////////////////////////////////////////////////////
/// The address that the signed offset in bits 8 to 0 names, counted from the
/// program counter.
pub open spec fn pc_relative(m: Machine) -> Address {
    wrap_address(m.pc + extract_signed(m.ir, 8, 0))
}

/// BR: where bits 11 to 9 share a bit with the condition code's flag, the
/// program counter moves by the signed offset in bits 8 to 0.
pub open spec fn spec_instr_br(m: Machine) -> Machine {
    if (extract_unsigned(m.ir, 11, 9) as i32) & (m.cc.spec_bit() as i32) != 0 {
        Machine { pc: pc_relative(m), ..m }
    } else {
        m
    }
}

/// Executes BR on the instruction that the machine has fetched.
pub fn instr_br(cpu: &mut CPU) -> (done: Failable<()>)
    requires
        old(cpu)@.wf(),
    ensures
        done is Ok,
        final(cpu)@ == spec_instr_br(old(cpu)@),
        final(cpu)@.wf(),
{
    let ir = cpu.ir();
    let nzp = ir.bits(11, 9);
    let pc_offset = ir.bits_signed(8, 0);
    proof {
        lemma_field_ranges(ir);
    }
    if nzp & cpu.cc().bit() != 0 {
        cpu.jump(to_address(cpu.pc() as i32 + pc_offset));
    }
    Ok(())
}

/// ADD: the register in bits 11 to 9 receives, as destination, the sum of
/// the register in bits 8 to 6 and, where bit 5 is 0, the register in bits 2
/// to 0, else the signed number in bits 4 to 0. The sum keeps its low 16
/// bits.
pub open spec fn spec_instr_add(m: Machine) -> Machine {
    let dr = extract_unsigned(m.ir, 11, 9);
    let src1 = extract_unsigned(m.ir, 8, 6);
    if extract_unsigned(m.ir, 5, 5) == 0 {
        let src2 = extract_unsigned(m.ir, 2, 0);
        m.set_dr(dr, wrap_word(m.reg[src1] + m.reg[src2]))
    } else {
        m.set_dr(dr, wrap_word(m.reg[src1] + extract_signed(m.ir, 4, 0)))
    }
}

/// Executes ADD on the instruction that the machine has fetched.
pub fn instr_add(cpu: &mut CPU) -> (done: Failable<()>)
    requires
        old(cpu)@.wf(),
    ensures
        done is Ok,
        final(cpu)@ == spec_instr_add(old(cpu)@),
        final(cpu)@.wf(),
{
    let ir = cpu.ir();
    let dr = ir.bits(11, 9);
    let src1 = ir.bits(8, 6);
    let encoding = ir.bits(5, 5);
    proof {
        lemma_field_ranges(ir);
    }
    if encoding == 0 {
        let src2 = ir.bits(2, 0);
        let result = to_word(cpu.register_value(src1)? as i32 + cpu.register_value(src2)? as i32);
        cpu.set_dr(dr, result)
    } else {
        let imm5 = ir.bits_signed(4, 0);
        let result = to_word(cpu.register_value(src1)? as i32 + imm5);
        cpu.set_dr(dr, result)
    }
}

/// LD: the register in bits 11 to 9 receives, as destination, the word at
/// the address that the offset in bits 8 to 0 names.
pub open spec fn spec_instr_ld(m: Machine) -> Machine {
    m.set_dr(extract_unsigned(m.ir, 11, 9), m.mem[pc_relative(m) as int])
}

/// Executes LD on the instruction that the machine has fetched.
pub fn instr_ld(cpu: &mut CPU) -> (done: Failable<()>)
    requires
        old(cpu)@.wf(),
    ensures
        done is Ok,
        final(cpu)@ == spec_instr_ld(old(cpu)@),
        final(cpu)@.wf(),
{
    let ir = cpu.ir();
    let dr = ir.bits(11, 9);
    let pc_offset = ir.bits_signed(8, 0);
    proof {
        lemma_field_ranges(ir);
    }
    let result = cpu.memory_address_value(to_address(cpu.pc() as i32 + pc_offset))?;
    cpu.set_dr(dr, result)
}

/// ST: the cell at the address that the offset in bits 8 to 0 names receives
/// the register in bits 11 to 9.
pub open spec fn spec_instr_st(m: Machine) -> Machine {
    Machine {
        mem: m.mem.update(pc_relative(m) as int, m.reg[extract_unsigned(m.ir, 11, 9)]),
        ..m
    }
}

/// Executes ST on the instruction that the machine has fetched.
pub fn instr_st(cpu: &mut CPU) -> (done: Failable<()>)
    requires
        old(cpu)@.wf(),
    ensures
        done is Ok,
        final(cpu)@ == spec_instr_st(old(cpu)@),
        final(cpu)@.wf(),
{
    let ir = cpu.ir();
    let src = ir.bits(11, 9);
    let pc_offset = ir.bits_signed(8, 0);
    proof {
        lemma_field_ranges(ir);
    }
    let value = cpu.register_value(src)?;
    cpu.set_memory_address_value(to_address(cpu.pc() as i32 + pc_offset), value)
}

/// JSR and JSRR: register 7 receives the program counter. Then, where bit 11
/// is 1, the program counter moves by the signed offset in bits 10 to 0;
/// else it becomes the register in bits 8 to 6, as that register then
/// stands.
pub open spec fn spec_instr_jsr(m: Machine) -> Machine {
    let linked = Machine { reg: m.reg.update(7, wrap_word(m.pc as int)), ..m };
    if extract_unsigned(m.ir, 11, 11) == 1 {
        Machine { pc: wrap_address(m.pc + extract_signed(m.ir, 10, 0)), ..linked }
    } else {
        Machine { pc: wrap_address(linked.reg[extract_unsigned(m.ir, 8, 6)] as int), ..linked }
    }
}

/// Executes JSR and JSRR on the instruction that the machine has fetched.
pub fn instr_jsr(cpu: &mut CPU) -> (done: Failable<()>)
    requires
        old(cpu)@.wf(),
    ensures
        done is Ok,
        final(cpu)@ == spec_instr_jsr(old(cpu)@),
        final(cpu)@.wf(),
{
    let ir = cpu.ir();
    let mode = ir.bits(11, 11);
    proof {
        lemma_field_ranges(ir);
    }
    cpu.set_register_value(7, to_word(cpu.pc() as i32))?;
    if mode == 1 {
        let pc_offset = ir.bits_signed(10, 0);
        cpu.jump(to_address(cpu.pc() as i32 + pc_offset));
    } else {
        // JSSR
        let reg_num = ir.bits(8, 6);
        let target = cpu.register_value(reg_num)?;
        cpu.jump(to_address(target as i32));
    }
    Ok(())
}

/// AND: as ADD, with the bitwise AND in place of the sum.
pub open spec fn spec_instr_and(m: Machine) -> Machine {
    let dr = extract_unsigned(m.ir, 11, 9);
    let src1 = extract_unsigned(m.ir, 8, 6);
    if extract_unsigned(m.ir, 5, 5) == 0 {
        let src2 = extract_unsigned(m.ir, 2, 0);
        m.set_dr(dr, m.reg[src1] & m.reg[src2])
    } else {
        m.set_dr(dr, m.reg[src1] & (extract_signed(m.ir, 4, 0) as i16))
    }
}

/// Executes AND on the instruction that the machine has fetched.
pub fn instr_and(cpu: &mut CPU) -> (done: Failable<()>)
    requires
        old(cpu)@.wf(),
    ensures
        done is Ok,
        final(cpu)@ == spec_instr_and(old(cpu)@),
        final(cpu)@.wf(),
{
    let ir = cpu.ir();
    let dr = ir.bits(11, 9);
    let src1 = ir.bits(8, 6);
    let encoding = ir.bits(5, 5);
    proof {
        lemma_field_ranges(ir);
    }
    if encoding == 0 {
        let src2 = ir.bits(2, 0);
        let result = cpu.register_value(src1)? & cpu.register_value(src2)?;
        cpu.set_dr(dr, result)
    } else {
        let imm5 = ir.bits_signed(4, 0);
        let result = cpu.register_value(src1)? & (imm5 as i16);
        cpu.set_dr(dr, result)
    }
}

/// LDR: the register in bits 11 to 9 receives, as destination, the word at
/// the address that the register in bits 8 to 6 and the signed offset in
/// bits 5 to 0 add up to.
pub open spec fn spec_instr_ldr(m: Machine) -> Machine {
    let base = extract_unsigned(m.ir, 8, 6);
    m.set_dr(
        extract_unsigned(m.ir, 11, 9),
        m.mem[wrap_address(m.reg[base] + extract_signed(m.ir, 5, 0)) as int],
    )
}

/// Executes LDR on the instruction that the machine has fetched.
pub fn instr_ldr(cpu: &mut CPU) -> (done: Failable<()>)
    requires
        old(cpu)@.wf(),
    ensures
        done is Ok,
        final(cpu)@ == spec_instr_ldr(old(cpu)@),
        final(cpu)@.wf(),
{
    let ir = cpu.ir();
    let dr = ir.bits(11, 9);
    let base = ir.bits(8, 6);
    let offset = ir.bits_signed(5, 0);
    proof {
        lemma_field_ranges(ir);
    }
    let address = to_address(cpu.register_value(base)? as i32 + offset);
    let result = cpu.memory_address_value(address)?;
    cpu.set_dr(dr, result)
}

/// STR: the cell at the address that the register in bits 8 to 6 and the
/// unsigned offset in bits 5 to 0 add up to receives the register in bits 11
/// to 9.
pub open spec fn spec_instr_str(m: Machine) -> Machine {
    let base = extract_unsigned(m.ir, 8, 6);
    Machine {
        mem: m.mem.update(
            wrap_address(m.reg[base] + extract_unsigned(m.ir, 5, 0)) as int,
            m.reg[extract_unsigned(m.ir, 11, 9)],
        ),
        ..m
    }
}

/// Executes STR on the instruction that the machine has fetched.
pub fn instr_str(cpu: &mut CPU) -> (done: Failable<()>)
    requires
        old(cpu)@.wf(),
    ensures
        done is Ok,
        final(cpu)@ == spec_instr_str(old(cpu)@),
        final(cpu)@.wf(),
{
    let ir = cpu.ir();
    let dr = ir.bits(11, 9);
    let base = ir.bits(8, 6);
    let offset = ir.bits(5, 0);
    proof {
        lemma_field_ranges(ir);
    }
    let address = to_address(cpu.register_value(base)? as i32 + offset);
    let value = cpu.register_value(dr)?;
    cpu.set_memory_address_value(address, value)
}

/// Return from interrupt: the machine has none.
pub fn instr_rti() -> (done: Failable<()>)
    ensures
        done == Err::<(), LC3Error>(LC3Error::RTINotSupported),
{
    Err(LC3Error::RTINotSupported)
}

/// NOT: the register in bits 11 to 9 receives, as destination, the bitwise
/// complement of the register in bits 8 to 6.
pub open spec fn spec_instr_not(m: Machine) -> Machine {
    m.set_dr(extract_unsigned(m.ir, 11, 9), !m.reg[extract_unsigned(m.ir, 8, 6)])
}

/// Executes NOT on the instruction that the machine has fetched.
pub fn instr_not(cpu: &mut CPU) -> (done: Failable<()>)
    requires
        old(cpu)@.wf(),
    ensures
        done is Ok,
        final(cpu)@ == spec_instr_not(old(cpu)@),
        final(cpu)@.wf(),
{
    let ir = cpu.ir();
    let dr = ir.bits(11, 9);
    let src = ir.bits(8, 6);
    proof {
        lemma_field_ranges(ir);
    }
    let value = cpu.register_value(src)?;
    let result = !value;
    assert(result == -1 - value) by (bit_vector)
        requires
            result == !value,
    ;
    cpu.set_dr(dr, result)
}

/// LDI: the register in bits 11 to 9 receives, as destination, the word at
/// the address held in the cell that the offset in bits 8 to 0 names.
pub open spec fn spec_instr_ldi(m: Machine) -> Machine {
    m.set_dr(
        extract_unsigned(m.ir, 11, 9),
        m.mem[wrap_address(m.mem[pc_relative(m) as int] as int) as int],
    )
}

/// Executes LDI on the instruction that the machine has fetched.
pub fn instr_ldi(cpu: &mut CPU) -> (done: Failable<()>)
    requires
        old(cpu)@.wf(),
    ensures
        done is Ok,
        final(cpu)@ == spec_instr_ldi(old(cpu)@),
        final(cpu)@.wf(),
{
    let ir = cpu.ir();
    let dr = ir.bits(11, 9);
    let pc_offset = ir.bits_signed(8, 0);
    proof {
        lemma_field_ranges(ir);
    }
    let pointer = cpu.memory_address_value(to_address(cpu.pc() as i32 + pc_offset))?;
    let result = cpu.memory_address_value(to_address(pointer as i32))?;
    cpu.set_dr(dr, result)
}

/// STI: the cell at the address held in the cell that the offset in bits 8
/// to 0 names receives the register in bits 11 to 9.
pub open spec fn spec_instr_sti(m: Machine) -> Machine {
    Machine {
        mem: m.mem.update(
            wrap_address(m.mem[pc_relative(m) as int] as int) as int,
            m.reg[extract_unsigned(m.ir, 11, 9)],
        ),
        ..m
    }
}

/// Executes STI on the instruction that the machine has fetched.
pub fn instr_sti(cpu: &mut CPU) -> (done: Failable<()>)
    requires
        old(cpu)@.wf(),
    ensures
        done is Ok,
        final(cpu)@ == spec_instr_sti(old(cpu)@),
        final(cpu)@.wf(),
{
    let ir = cpu.ir();
    let src = ir.bits(11, 9);
    let pc_offset = ir.bits_signed(8, 0);
    proof {
        lemma_field_ranges(ir);
    }
    let dest = cpu.memory_address_value(to_address(cpu.pc() as i32 + pc_offset))?;
    let value = cpu.register_value(src)?;
    cpu.set_memory_address_value(to_address(dest as i32), value)
}

/// JMP: the program counter becomes the register in bits 8 to 6.
pub open spec fn spec_instr_jmp(m: Machine) -> Machine {
    Machine { pc: wrap_address(m.reg[extract_unsigned(m.ir, 8, 6)] as int), ..m }
}

/// Executes JMP on the instruction that the machine has fetched.
pub fn instr_jmp(cpu: &mut CPU) -> (done: Failable<()>)
    requires
        old(cpu)@.wf(),
    ensures
        done is Ok,
        final(cpu)@ == spec_instr_jmp(old(cpu)@),
        final(cpu)@.wf(),
{
    let ir = cpu.ir();
    let base = ir.bits(8, 6);
    proof {
        lemma_field_ranges(ir);
    }
    let target = cpu.register_value(base)?;
    cpu.jump(to_address(target as i32));
    Ok(())
}

/// The reserved opcode.
pub fn instr_err() -> (done: Failable<()>)
    ensures
        done == Err::<(), LC3Error>(LC3Error::UnusedOpCode),
{
    Err(LC3Error::UnusedOpCode)
}

/// LEA: the register in bits 11 to 9 receives, as destination, the address
/// that the offset in bits 8 to 0 names.
pub open spec fn spec_instr_lea(m: Machine) -> Machine {
    m.set_dr(extract_unsigned(m.ir, 11, 9), wrap_word(pc_relative(m) as int))
}

/// Executes LEA on the instruction that the machine has fetched.
pub fn instr_lea(cpu: &mut CPU) -> (done: Failable<()>)
    requires
        old(cpu)@.wf(),
    ensures
        done is Ok,
        final(cpu)@ == spec_instr_lea(old(cpu)@),
        final(cpu)@.wf(),
{
    let ir = cpu.ir();
    let dr = ir.bits(11, 9);
    let pc_offset = ir.bits_signed(8, 0);
    proof {
        lemma_field_ranges(ir);
    }
    let result = to_word(to_address(cpu.pc() as i32 + pc_offset) as i32);
    cpu.set_dr(dr, result)
}

/// TRAP: the routine that the code in bits 7 to 0 selects. Only the halt
/// changes the machine; input reaches register 0 when the console hands it
/// over. A code without a routine fails with that code and changes nothing.
pub open spec fn spec_instr_trap(m: Machine) -> (Machine, Result<Interaction, LC3Error>) {
    let trap_code = extract_unsigned(m.ir, 7, 0);
    if trap_code == 0x20 {
        (m, Ok(Interaction::ReadChar))
    } else if trap_code == 0x21 {
        (m, Ok(Interaction::WriteChar(spec_trap_out(m))))
    } else if trap_code == 0x22 {
        (m, Ok(Interaction::WriteString(spec_trap_puts(m))))
    } else if trap_code == 0x23 {
        (m, Ok(Interaction::PromptAndReadChar))
    } else if trap_code == 0x25 {
        (Machine { running: false, ..m }, Ok(Interaction::HaltNotice))
    } else {
        (m, Err(LC3Error::UnsupportedTrapCode(trap_code as i32)))
    }
}

/// TRAP. What it does to the machine and what it returns are those of
/// `spec_instr_trap`; the console does what the request says.
pub fn instr_trap(cpu: &mut CPU) -> (done: Failable<ConsoleRequest>)
    requires
        old(cpu)@.wf(),
    ensures
        final(cpu)@ == spec_instr_trap(old(cpu)@).0,
        outcome(done) == spec_instr_trap(old(cpu)@).1,
        final(cpu)@.wf(),
{
    let trap_code = cpu.ir().bits(7, 0);
    match trap_code {
        0x20 => Ok(ConsoleRequest::ReadChar),
        0x21 => Ok(ConsoleRequest::WriteChar(trap_out(cpu)?)),
        0x22 => Ok(ConsoleRequest::WriteString(trap_puts(cpu)?)),
        0x23 => Ok(ConsoleRequest::PromptAndReadChar),
        0x25 => {
            trap_halt(cpu);
            Ok(ConsoleRequest::HaltNotice)
        },
        _ => Err(LC3Error::UnsupportedTrapCode(trap_code)),
    }
}

//////////////////////////////////////////////////////
// TRAP CODES
//////////////////////////////////////////////////////
/// Stores the byte that the console read in register 0. The condition code
/// stays.
pub fn trap_getchar(cpu: &mut CPU, input_char: u8) -> (done: Failable<()>)
    requires
        old(cpu)@.wf(),
    ensures
        done is Ok,
        final(cpu)@ == (Machine { reg: old(cpu)@.reg.update(0, input_char as i16), ..old(cpu)@ }),
        final(cpu)@.wf(),
{
    cpu.set_register_value(0, input_char as i16)
}

/// The character that the output trap writes: the low 8 bits of register 0.
pub open spec fn spec_trap_out(m: Machine) -> u8 {
    (m.reg[0] as int % 256) as u8
}

/// The output trap, but for the writing: the character to write.
pub fn trap_out(cpu: &CPU) -> (written: Failable<u8>)
    requires
        cpu@.wf(),
    ensures
        written == Ok::<u8, LC3Error>(spec_trap_out(cpu@)),
{
    let value: i32 = cpu.register_value(0)? as i32;
    let low: i32 = value & 0xFF;
    assert(0 <= low < 256 && low == value % 256) by (bit_vector)
        requires
            low == value & 0xFF,
    ;
    Ok(low as u8)
}

/// The words from `start` on, up to the first zero word and without it,
/// going from the last address on to address 0, and `limit` words at most.
pub open spec fn string_at(mem: Seq<Word>, start: Address, limit: nat) -> Seq<Word>
    decreases limit,
{
    if limit == 0 || mem[start as int] == 0 {
        Seq::empty()
    } else {
        seq![mem[start as int]] + string_at(mem, wrap_address(start + 1), (limit - 1) as nat)
    }
}

/// The string that the string trap writes: the words from the address in
/// register 0 up to the first zero word. Where no cell holds zero, every
/// cell is written once.
pub open spec fn spec_trap_puts(m: Machine) -> Seq<Word> {
    string_at(m.mem, wrap_address(m.reg[0] as int), 65536)
}

/// The string trap, but for the writing: the words to write.
pub fn trap_puts(cpu: &CPU) -> (written: Failable<Vec<Word>>)
    requires
        cpu@.wf(),
    ensures
        written matches Ok(words) && words@ == spec_trap_puts(cpu@),
{
    let start = to_address(cpu.register_value(0)? as i32);
    let mut temp_pc = start;
    let mut words: Vec<Word> = Vec::new();
    let mut left: u32 = 65536;
    loop
        invariant
            cpu@.wf(),
            left <= 65536,
            words@ + string_at(cpu@.mem, temp_pc, left as nat) == string_at(
                cpu@.mem,
                start,
                65536,
            ),
        ensures
            words@ == string_at(cpu@.mem, start, 65536),
        decreases left,
    {
        if left == 0 {
            assert(words@ + Seq::<Word>::empty() =~= words@);
            break ;
        }
        let word = cpu.memory_address_value(temp_pc)?;
        if word == 0 {
            assert(words@ + Seq::<Word>::empty() =~= words@);
            break ;
        }
        proof {
            assert(words@.push(word) + string_at(
                cpu@.mem,
                wrap_address(temp_pc + 1),
                (left - 1) as nat,
            ) =~= words@ + string_at(cpu@.mem, temp_pc, left as nat));
        }
        words.push(word);
        temp_pc = temp_pc.wrapping_add(1);
        left = left - 1;
    }
    Ok(words)
}

/// The character that a word of a string is written as: the character
/// whose code is the word's 16 bits, read unsigned. The codes from 0xD800 to
/// 0xDFFF belong to no character; a word with such a code is written as the
/// replacement character.
pub open spec fn spec_character_of(word: Word) -> char {
    let code = wrap_address(word as int) as u32;
    if 0xD800 <= code <= 0xDFFF {
        '\u{FFFD}'
    } else {
        code as char
    }
}

/// `char::from_u32`: the character with the code `code`, or nothing where
/// no character has it, which is so for the codes from 0xD800 to 0xDFFF and
/// for those above 0x10FFFF.
#[verifier::external_body]
fn char_from_code(code: u32) -> (c: Option<char>)
    ensures
        0xD800 <= code <= 0xDFFF || code > 0x10FFFF ==> c is None,
        !(0xD800 <= code <= 0xDFFF || code > 0x10FFFF) ==> c == Some(code as char),
{
    char::from_u32(code)
}

/// The character that a word of a string is written as.
pub fn character_of(word: Word) -> (c: char)
    ensures
        c == spec_character_of(word),
{
    match char_from_code(to_address(word as i32) as u32) {
        Some(c) => c,
        None => '\u{FFFD}',
    }
}

/// The input trap, once the console has written the prompt and read a byte:
/// as `trap_getchar`.
pub fn trap_input(cpu: &mut CPU, input_char: u8) -> (done: Failable<()>)
    requires
        old(cpu)@.wf(),
    ensures
        done is Ok,
        final(cpu)@ == (Machine { reg: old(cpu)@.reg.update(0, input_char as i16), ..old(cpu)@ }),
        final(cpu)@.wf(),
{
    trap_getchar(cpu, input_char)
}

/// The halt trap, but for its notice: halts the machine.
pub fn trap_halt(cpu: &mut CPU)
    ensures
        final(cpu)@ == (Machine { running: false, ..old(cpu)@ }),
        final(cpu)@.wf() == old(cpu)@.wf(),
{
    cpu.halt();
}

/// Whether bits 11 to 9 of a branch select the condition code: bit 11 for
/// `N`, bit 10 for `Z`, bit 9 for `P`.
pub open spec fn branch_selected(ir: u16, cc: ConditionCode) -> bool {
    match cc {
        ConditionCode::N => bit_is_set(ir, 11),
        ConditionCode::Z => bit_is_set(ir, 10),
        ConditionCode::P => bit_is_set(ir, 9),
    }
}

/// BR moves the program counter exactly where the instruction's bit for
/// the condition code in force is set.
pub proof fn lemma_branch_condition(m: Machine)
    ensures
        branch_selected(m.ir, m.cc) ==> spec_instr_br(m) == (Machine { pc: pc_relative(m), ..m }),
        !branch_selected(m.ir, m.cc) ==> spec_instr_br(m) == m,
{
    lemma_field_values(m.ir);
    let ir = m.ir;
    let nzp: i32 = ((ir / 512) % 8) as i32;
    assert(nzp == extract_unsigned(ir, 11, 9) as i32);
    assert((nzp & 4 != 0) == ((ir / 2048) % 2 == 1) && (nzp & 2 != 0) == ((ir / 1024) % 2 == 1)
        && (nzp & 1 != 0) == ((ir / 512) % 2 == 1)) by (bit_vector)
        requires
            nzp == ((ir / 512) % 8) as i32,
    ;
}

/// STR and LDR take their offsets from the same six bits, and read them
/// differently: STR as a number from 0 to 63, LDR as a signed number whose
/// sign is bit 6. Where bit 6 is set the two differ.
pub proof fn lemma_str_unsigned_ldr_signed(m: Machine)
    requires
        m.wf(),
    ensures
        spec_instr_str(m).mem == m.mem.update(
            wrap_address(m.reg[extract_unsigned(m.ir, 8, 6)] + m.ir % 64) as int,
            m.reg[extract_unsigned(m.ir, 11, 9)],
        ),
        spec_instr_ldr(m).reg[extract_unsigned(m.ir, 11, 9)] == m.mem[wrap_address(
            m.reg[extract_unsigned(m.ir, 8, 6)] + extract_signed(m.ir, 5, 0),
        ) as int],
        !bit_is_set(m.ir, 6) ==> extract_signed(m.ir, 5, 0) == m.ir % 64,
        bit_is_set(m.ir, 6) ==> extract_signed(m.ir, 5, 0) == m.ir % 32 - 32,
{
    lemma_field_values(m.ir);
    lemma_field_ranges(m.ir);
    lemma_signed_reading(m.ir, 5, 0);
    lemma2_to64();
}

/// ADD in immediate mode with a negative immediate, one whose bit 4 is set,
/// adds the two's-complement value of bits 4 to 0: the bits' number less
/// 32.
pub proof fn lemma_add_negative_immediate(m: Machine)
    requires
        bit_is_set(m.ir, 5),
        bit_is_set(m.ir, 4),
    ensures
        spec_instr_add(m) == m.set_dr(
            extract_unsigned(m.ir, 11, 9),
            wrap_word(m.reg[extract_unsigned(m.ir, 8, 6)] + (m.ir % 32 - 32)),
        ),
{
    lemma_negative_immediate(m.ir);
    lemma_field_values(m.ir);
}

/// In immediate mode the sign of the immediate is bit 5; where bit 4 is set
/// as well, the immediate is the two's-complement value of bits 4 to 0.
pub proof fn lemma_negative_immediate(ir: u16)
    requires
        bit_is_set(ir, 5),
        bit_is_set(ir, 4),
    ensures
        extract_signed(ir, 4, 0) == extract_unsigned(ir, 4, 0) - 32,
        -16 <= extract_signed(ir, 4, 0) < 0,
{
    lemma_field_values(ir);
    lemma_signed_reading(ir, 4, 0);
    lemma2_to64();
    assert(extract_unsigned(ir, 4, 4) == (ir as int / pow2(4) as int) % (pow2(1) as int));
    assert((ir / 16) % 2 == 1 ==> ir % 32 == 16 + ir % 16) by (bit_vector);
}

/// A trap code without a routine fails with that code and leaves the
/// machine as it is.
pub proof fn lemma_unsupported_trap(m: Machine)
    requires
        extract_unsigned(m.ir, 7, 0) != 0x20,
        extract_unsigned(m.ir, 7, 0) != 0x21,
        extract_unsigned(m.ir, 7, 0) != 0x22,
        extract_unsigned(m.ir, 7, 0) != 0x23,
        extract_unsigned(m.ir, 7, 0) != 0x25,
    ensures
        spec_instr_trap(m) == (
            m,
            Err::<Interaction, LC3Error>(
                LC3Error::UnsupportedTrapCode(extract_unsigned(m.ir, 7, 0) as i32),
            ),
        ),
{
}

/// Whether an operation writes a destination register.
pub open spec fn writes_destination(operation: Operation) -> bool {
    operation == Operation::ADD || operation == Operation::AND || operation == Operation::NOT
        || operation == Operation::LD || operation == Operation::LDI || operation
        == Operation::LDR || operation == Operation::LEA
}

/// An operation that writes a destination register leaves the condition
/// code at the sign of what that register then holds; every other operation
/// leaves the condition code as it was.
pub proof fn lemma_condition_code_follows_destination(operation: Operation, m: Machine)
    requires
        m.wf(),
    ensures
        writes_destination(operation) ==> spec_execute(operation, m).0.cc
            == ConditionCode::spec_from_value(
            spec_execute(operation, m).0.reg[extract_unsigned(m.ir, 11, 9)] as int,
        ),
        !writes_destination(operation) ==> spec_execute(operation, m).0.cc == m.cc,
{
    lemma_field_ranges(m.ir);
    let complemented: Word = m.reg[extract_unsigned(m.ir, 8, 6)];
    assert(!complemented == -1 - complemented) by (bit_vector);
}

/// Every operation keeps the number of memory cells and of registers.
pub proof fn lemma_execute_preserves_wf(operation: Operation, m: Machine)
    requires
        m.wf(),
    ensures
        spec_execute(operation, m).0.wf(),
{
    lemma_field_ranges(m.ir);
    let complemented: Word = m.reg[extract_unsigned(m.ir, 8, 6)];
    assert(!complemented == -1 - complemented) by (bit_vector);
}

/// Only the halt trap stops the machine.
pub proof fn lemma_execute_halts_only_by_trap(operation: Operation, m: Machine)
    requires
        m.running,
        !spec_execute(operation, m).0.running,
    ensures
        operation == Operation::TRAP,
        extract_unsigned(m.ir, 7, 0) == 0x25,
        spec_execute(operation, m) == (
            Machine { running: false, ..m },
            Ok::<Interaction, LC3Error>(Interaction::HaltNotice),
        ),
{
}

/// An operation that fails leaves the machine as it is, and fails in one of
/// three ways: the reserved opcode, return from interrupt, or a trap code
/// without a routine.
pub proof fn lemma_execute_failures(operation: Operation, m: Machine)
    requires
        spec_execute(operation, m).1 is Err,
    ensures
        spec_execute(operation, m).0 == m,
        operation == Operation::ERR ==> spec_execute(operation, m).1 == Err::<
            Interaction,
            LC3Error,
        >(LC3Error::UnusedOpCode),
        operation == Operation::RTI ==> spec_execute(operation, m).1 == Err::<
            Interaction,
            LC3Error,
        >(LC3Error::RTINotSupported),
        operation == Operation::TRAP ==> spec_execute(operation, m).1 == Err::<
            Interaction,
            LC3Error,
        >(LC3Error::UnsupportedTrapCode(extract_unsigned(m.ir, 7, 0) as i32)),
        operation == Operation::ERR || operation == Operation::RTI || operation
            == Operation::TRAP,
{
}

/// The fields that the operations read, in arithmetic: a field is the word
/// divided by the weight of its lowest bit, modulo the number of values it
/// can take.
pub proof fn lemma_field_values(ir: u16)
    ensures
        extract_unsigned(ir, 15, 12) == ir / 4096,
        extract_unsigned(ir, 11, 11) == (ir / 2048) % 2,
        extract_unsigned(ir, 11, 9) == (ir / 512) % 8,
        extract_unsigned(ir, 10, 10) == (ir / 1024) % 2,
        extract_unsigned(ir, 9, 9) == (ir / 512) % 2,
        extract_unsigned(ir, 8, 6) == (ir / 64) % 8,
        extract_unsigned(ir, 6, 6) == (ir / 64) % 2,
        extract_unsigned(ir, 5, 5) == (ir / 32) % 2,
        extract_unsigned(ir, 2, 0) == ir % 8,
        extract_unsigned(ir, 3, 0) == ir % 16,
        extract_unsigned(ir, 4, 0) == ir % 32,
        extract_unsigned(ir, 5, 0) == ir % 64,
        extract_unsigned(ir, 7, 0) == ir % 256,
        extract_unsigned(ir, 8, 0) == ir % 512,
        extract_unsigned(ir, 10, 0) == ir % 2048,
{
    lemma2_to64();
    assert(extract_unsigned(ir, 15, 12) == (ir as int / pow2(12) as int) % (pow2(4) as int));
    assert(extract_unsigned(ir, 11, 11) == (ir as int / pow2(11) as int) % (pow2(1) as int));
    assert(extract_unsigned(ir, 11, 9) == (ir as int / pow2(9) as int) % (pow2(3) as int));
    assert(extract_unsigned(ir, 10, 10) == (ir as int / pow2(10) as int) % (pow2(1) as int));
    assert(extract_unsigned(ir, 9, 9) == (ir as int / pow2(9) as int) % (pow2(1) as int));
    assert(extract_unsigned(ir, 8, 6) == (ir as int / pow2(6) as int) % (pow2(3) as int));
    assert(extract_unsigned(ir, 6, 6) == (ir as int / pow2(6) as int) % (pow2(1) as int));
    assert(extract_unsigned(ir, 5, 5) == (ir as int / pow2(5) as int) % (pow2(1) as int));
    assert(extract_unsigned(ir, 2, 0) == (ir as int / pow2(0) as int) % (pow2(3) as int));
    assert(extract_unsigned(ir, 3, 0) == (ir as int / pow2(0) as int) % (pow2(4) as int));
    assert(extract_unsigned(ir, 4, 0) == (ir as int / pow2(0) as int) % (pow2(5) as int));
    assert(extract_unsigned(ir, 5, 0) == (ir as int / pow2(0) as int) % (pow2(6) as int));
    assert(extract_unsigned(ir, 7, 0) == (ir as int / pow2(0) as int) % (pow2(8) as int));
    assert(extract_unsigned(ir, 8, 0) == (ir as int / pow2(0) as int) % (pow2(9) as int));
    assert(extract_unsigned(ir, 10, 0) == (ir as int / pow2(0) as int) % (pow2(11) as int));
}

/// The ranges of the fields that the operations read.
pub proof fn lemma_field_ranges(ir: u16)
    ensures
        0 <= extract_unsigned(ir, 15, 12) < 16,
        0 <= extract_unsigned(ir, 11, 9) < 8,
        0 <= extract_unsigned(ir, 8, 6) < 8,
        0 <= extract_unsigned(ir, 2, 0) < 8,
        0 <= extract_unsigned(ir, 5, 5) < 2,
        0 <= extract_unsigned(ir, 11, 11) < 2,
        0 <= extract_unsigned(ir, 5, 0) < 64,
        0 <= extract_unsigned(ir, 7, 0) < 256,
        -16 <= extract_signed(ir, 4, 0) < 32,
        -32 <= extract_signed(ir, 5, 0) < 64,
        -256 <= extract_signed(ir, 8, 0) < 512,
        -1024 <= extract_signed(ir, 10, 0) < 2048,
{
    lemma2_to64();
    lemma_extract_unsigned_bounds(ir, 15, 12);
    lemma_extract_unsigned_bounds(ir, 11, 9);
    lemma_extract_unsigned_bounds(ir, 8, 6);
    lemma_extract_unsigned_bounds(ir, 2, 0);
    lemma_extract_unsigned_bounds(ir, 5, 5);
    lemma_extract_unsigned_bounds(ir, 11, 11);
    lemma_extract_unsigned_bounds(ir, 5, 0);
    lemma_extract_unsigned_bounds(ir, 7, 0);
    lemma_extract_signed_bounds(ir, 4, 0);
    lemma_extract_signed_bounds(ir, 5, 0);
    lemma_extract_signed_bounds(ir, 8, 0);
    lemma_extract_signed_bounds(ir, 10, 0);
}

} // verus!
