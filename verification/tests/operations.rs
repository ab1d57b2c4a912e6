use lc3_simulator::condition_code::ConditionCode;
use lc3_simulator::cpu::CPU;
use lc3_simulator::errors::LC3Error;
use lc3_simulator::operation::{
    character_of, instr_add, instr_and, instr_br, instr_err, instr_jmp, instr_jsr, instr_ld, instr_ldi,
    instr_ldr, instr_lea, instr_not, instr_rti, instr_st, instr_sti, instr_str, instr_trap,
    trap_getchar, trap_halt, trap_input, trap_out, trap_puts, ConsoleRequest, Operation,
    HALT_NOTICE, INPUT_PROMPT,
};
use lc3_simulator::program::Program;

fn machine_at(start: u16, instruction: u16) -> CPU {
    let mut cpu = CPU::new();
    assert_eq!(cpu.load_program(&Program::new(start, vec![instruction])), Ok(()));
    cpu
}

fn step(cpu: &mut CPU) -> Result<ConsoleRequest, LC3Error> {
    cpu.run_one_instruction_cycle()
}

fn register(cpu: &CPU, reg_num: i32) -> i16 {
    cpu.register_value(reg_num).unwrap()
}

fn memory(cpu: &CPU, addr: u16) -> i16 {
    cpu.memory_address_value(addr).unwrap()
}

#[test]
fn opcodes_decode_to_their_operations() {
    let table = [
        Operation::BR,
        Operation::ADD,
        Operation::LD,
        Operation::ST,
        Operation::JSR,
        Operation::AND,
        Operation::LDR,
        Operation::STR,
        Operation::RTI,
        Operation::NOT,
        Operation::LDI,
        Operation::STI,
        Operation::JMP,
        Operation::ERR,
        Operation::LEA,
        Operation::TRAP,
    ];
    for code in 0u8..16 {
        assert_eq!(Operation::from_code(code), Ok(table[code as usize]));
    }
}

#[test]
fn opcodes_above_fifteen_are_refused() {
    assert_eq!(Operation::from_code(16), Err(LC3Error::UnrecognizedOpCode(16)));
    assert_eq!(Operation::from_code(255), Err(LC3Error::UnrecognizedOpCode(255)));
}

#[test]
fn add_register_mode() {
    // ADD R0, R1, R2
    let mut cpu = machine_at(0x3000, 0x1042);
    cpu.set_register_value(1, 5).unwrap();
    cpu.set_register_value(2, 3).unwrap();
    assert_eq!(step(&mut cpu), Ok(ConsoleRequest::Nothing));
    assert_eq!(register(&cpu, 0), 8);
    assert_eq!(cpu.cc(), ConditionCode::P);
}

#[test]
fn add_immediate_mode_sign_extends() {
    // ADD R0, R1, #-1
    let mut cpu = machine_at(0x3000, 0x107F);
    cpu.set_register_value(1, 5).unwrap();
    assert_eq!(step(&mut cpu), Ok(ConsoleRequest::Nothing));
    assert_eq!(register(&cpu, 0), 4);
    assert_eq!(cpu.cc(), ConditionCode::P);
    // ADD R3, R3, #-16
    let mut cpu = machine_at(0x3000, 0x16F0);
    assert_eq!(step(&mut cpu), Ok(ConsoleRequest::Nothing));
    assert_eq!(register(&cpu, 3), -16);
    assert_eq!(cpu.cc(), ConditionCode::N);
}

#[test]
fn add_immediate_with_bit_four_clear_is_still_negative() {
    // ADD R0, R1, #1 as encoded: the mode bit is read as the sign
    let mut cpu = machine_at(0x3000, 0x1061);
    cpu.set_register_value(1, 20).unwrap();
    assert_eq!(step(&mut cpu), Ok(ConsoleRequest::Nothing));
    assert_eq!(register(&cpu, 0), 5);
}

#[test]
fn add_wraps_at_sixteen_bits() {
    let mut cpu = machine_at(0x3000, 0x1042);
    cpu.set_register_value(1, i16::MAX).unwrap();
    cpu.set_register_value(2, 1).unwrap();
    assert_eq!(step(&mut cpu), Ok(ConsoleRequest::Nothing));
    assert_eq!(register(&cpu, 0), i16::MIN);
    assert_eq!(cpu.cc(), ConditionCode::N);
    let mut cpu = machine_at(0x3000, 0x1042);
    cpu.set_register_value(1, i16::MIN).unwrap();
    cpu.set_register_value(2, -1).unwrap();
    assert_eq!(step(&mut cpu), Ok(ConsoleRequest::Nothing));
    assert_eq!(register(&cpu, 0), i16::MAX);
    assert_eq!(cpu.cc(), ConditionCode::P);
}

#[test]
fn add_to_zero_sets_zero() {
    let mut cpu = machine_at(0x3000, 0x1042);
    cpu.set_register_value(1, 7).unwrap();
    cpu.set_register_value(2, -7).unwrap();
    cpu.set_dr(5, 3).unwrap();
    assert_eq!(step(&mut cpu), Ok(ConsoleRequest::Nothing));
    assert_eq!(register(&cpu, 0), 0);
    assert_eq!(cpu.cc(), ConditionCode::Z);
}

#[test]
fn and_register_mode() {
    // AND R3, R1, R2
    let mut cpu = machine_at(0x3000, 0x5642);
    cpu.set_register_value(1, 0b1100).unwrap();
    cpu.set_register_value(2, 0b1010).unwrap();
    assert_eq!(step(&mut cpu), Ok(ConsoleRequest::Nothing));
    assert_eq!(register(&cpu, 3), 0b1000);
    assert_eq!(cpu.cc(), ConditionCode::P);
}

#[test]
fn and_immediate_mode() {
    // AND R0, R1, imm with bits 4 to 0 = 10101: read as -11
    let mut cpu = machine_at(0x3000, 0x5075);
    cpu.set_register_value(1, 0x7FFF).unwrap();
    assert_eq!(step(&mut cpu), Ok(ConsoleRequest::Nothing));
    assert_eq!(register(&cpu, 0), 0x7FFF & -11);
    // AND R0, R0, imm 00000 in immediate mode: read as -16
    let mut cpu = machine_at(0x3000, 0x5020);
    cpu.set_register_value(0, 0x00FF).unwrap();
    assert_eq!(step(&mut cpu), Ok(ConsoleRequest::Nothing));
    assert_eq!(register(&cpu, 0), 0x00F0);
}

#[test]
fn not_complements() {
    // NOT R2, R1
    let mut cpu = machine_at(0x3000, 0x947F);
    cpu.set_register_value(1, 0x0F0F).unwrap();
    assert_eq!(step(&mut cpu), Ok(ConsoleRequest::Nothing));
    assert_eq!(register(&cpu, 2), !0x0F0Fi16);
    assert_eq!(cpu.cc(), ConditionCode::N);
    let mut cpu = machine_at(0x3000, 0x947F);
    cpu.set_register_value(1, -1).unwrap();
    assert_eq!(step(&mut cpu), Ok(ConsoleRequest::Nothing));
    assert_eq!(register(&cpu, 2), 0);
    assert_eq!(cpu.cc(), ConditionCode::Z);
}

#[test]
fn ld_counts_from_the_incremented_program_counter() {
    // LD R2, #2
    let mut cpu = machine_at(0x3000, 0x2402);
    cpu.set_memory_address_value(0x3002, 111).unwrap();
    cpu.set_memory_address_value(0x3003, -222).unwrap();
    assert_eq!(step(&mut cpu), Ok(ConsoleRequest::Nothing));
    assert_eq!(register(&cpu, 2), -222);
    assert_eq!(cpu.cc(), ConditionCode::N);
    assert_eq!(cpu.pc(), 0x3001);
}

#[test]
fn ld_into_an_odd_register_reads_backwards() {
    // LD R3 with bits 8 to 0 = 2: bit 9, the low bit of the register number, is the sign,
    // so the offset is 2 - 256
    let mut cpu = machine_at(0x3000, 0x2602);
    cpu.set_memory_address_value(0x3003, -222).unwrap();
    cpu.set_memory_address_value(0x3001 - 254, 19).unwrap();
    assert_eq!(step(&mut cpu), Ok(ConsoleRequest::Nothing));
    assert_eq!(register(&cpu, 3), 19);
    assert_eq!(cpu.cc(), ConditionCode::P);
}

#[test]
fn ld_with_negative_offset() {
    // LD R0 with bits 8 to 0 = 0_1111_1110 and bit 9 (low bit of R1) set: offset -2
    let mut cpu = machine_at(0x3000, 0x22FE);
    cpu.set_memory_address_value(0x2FFF, 42).unwrap();
    assert_eq!(step(&mut cpu), Ok(ConsoleRequest::Nothing));
    assert_eq!(register(&cpu, 1), 42);
}

#[test]
fn st_counts_from_the_incremented_program_counter() {
    // ST R2, #5
    let mut cpu = machine_at(0x3000, 0x3405);
    cpu.set_register_value(2, 77).unwrap();
    assert_eq!(step(&mut cpu), Ok(ConsoleRequest::Nothing));
    assert_eq!(memory(&cpu, 0x3006), 77);
    assert_eq!(memory(&cpu, 0x3005), 0);
    assert_eq!(cpu.cc(), ConditionCode::Z);
}

#[test]
fn ldi_follows_the_pointer() {
    // LDI R4, #1
    let mut cpu = machine_at(0x3000, 0xA801);
    cpu.set_memory_address_value(0x3002, 0x4000).unwrap();
    cpu.set_memory_address_value(0x4000, 9).unwrap();
    assert_eq!(step(&mut cpu), Ok(ConsoleRequest::Nothing));
    assert_eq!(register(&cpu, 4), 9);
    assert_eq!(cpu.cc(), ConditionCode::P);
}

#[test]
fn ldi_reads_a_negative_pointer_as_a_high_address() {
    let mut cpu = machine_at(0x3000, 0xA801);
    cpu.set_memory_address_value(0x3002, 0xFFF0u16 as i16).unwrap();
    cpu.set_memory_address_value(0xFFF0, -5).unwrap();
    assert_eq!(step(&mut cpu), Ok(ConsoleRequest::Nothing));
    assert_eq!(register(&cpu, 4), -5);
}

#[test]
fn sti_follows_the_pointer() {
    // STI R4, #1
    let mut cpu = machine_at(0x3000, 0xB801);
    cpu.set_memory_address_value(0x3002, 0x4000).unwrap();
    cpu.set_register_value(4, 31).unwrap();
    assert_eq!(step(&mut cpu), Ok(ConsoleRequest::Nothing));
    assert_eq!(memory(&cpu, 0x4000), 31);
    assert_eq!(memory(&cpu, 0x3002), 0x4000);
}

#[test]
fn lea_counts_from_the_incremented_program_counter() {
    // LEA R4, #16
    let mut cpu = machine_at(0x3000, 0xE810);
    assert_eq!(step(&mut cpu), Ok(ConsoleRequest::Nothing));
    assert_eq!(register(&cpu, 4), 0x3011);
    assert_eq!(cpu.cc(), ConditionCode::P);
    // LEA R5 with bits 8 to 0 = 16: read as 16 - 256
    let mut cpu = machine_at(0x3000, 0xEA10);
    assert_eq!(step(&mut cpu), Ok(ConsoleRequest::Nothing));
    assert_eq!(register(&cpu, 5), 0x3001 - 240);
}

#[test]
fn lea_of_a_high_address_is_negative() {
    let mut cpu = machine_at(0x9000, 0xE810);
    assert_eq!(step(&mut cpu), Ok(ConsoleRequest::Nothing));
    assert_eq!(register(&cpu, 4), 0x9011u16 as i16);
    assert_eq!(cpu.cc(), ConditionCode::N);
}

#[test]
fn br_taken_counts_from_the_incremented_program_counter() {
    // BRz #4 on a new machine, whose condition code is Z
    let mut cpu = machine_at(0x3000, 0x0404);
    assert_eq!(step(&mut cpu), Ok(ConsoleRequest::Nothing));
    assert_eq!(cpu.pc(), 0x3005);
}

#[test]
fn br_not_taken() {
    // BRn #4 with condition code Z
    let mut cpu = machine_at(0x3000, 0x0804);
    assert_eq!(step(&mut cpu), Ok(ConsoleRequest::Nothing));
    assert_eq!(cpu.pc(), 0x3001);
    // BR with no flag never branches
    let mut cpu = machine_at(0x3000, 0x0004);
    assert_eq!(step(&mut cpu), Ok(ConsoleRequest::Nothing));
    assert_eq!(cpu.pc(), 0x3001);
}

#[test]
fn br_on_positive_reads_its_flag_as_the_sign_of_the_offset() {
    // BRp with bits 8 to 0 = 4: bit 9, the P flag, is the sign, so the offset is 4 - 256
    let mut cpu = machine_at(0x3000, 0x0204);
    cpu.set_dr(0, 1).unwrap();
    assert_eq!(step(&mut cpu), Ok(ConsoleRequest::Nothing));
    assert_eq!(cpu.pc(), 0x3001 - 252);
}

#[test]
fn br_on_negative() {
    // BRn #3
    let mut cpu = machine_at(0x3000, 0x0803);
    cpu.set_dr(0, -1).unwrap();
    assert_eq!(step(&mut cpu), Ok(ConsoleRequest::Nothing));
    assert_eq!(cpu.pc(), 0x3004);
}

#[test]
fn br_wraps_around_memory() {
    // BRz #255 near the top
    let mut cpu = machine_at(0xFFF0, 0x04FF);
    assert_eq!(step(&mut cpu), Ok(ConsoleRequest::Nothing));
    assert_eq!(cpu.pc(), 0x00F0);
}

#[test]
fn ldr_offset_is_signed_and_str_offset_is_unsigned() {
    // LDR R0, R1, bits 5 to 0 = 111111: bit 6, the low bit of the base number, is the sign
    let mut cpu = machine_at(0x3000, 0x607F);
    cpu.set_register_value(1, 0x4000).unwrap();
    cpu.set_memory_address_value(0x3FFF, 5).unwrap();
    cpu.set_memory_address_value(0x403F, 6).unwrap();
    assert_eq!(step(&mut cpu), Ok(ConsoleRequest::Nothing));
    assert_eq!(register(&cpu, 0), 5);
    // STR R0, R1, bits 5 to 0 = 111111: the offset is 63
    let mut cpu = machine_at(0x3000, 0x707F);
    cpu.set_register_value(0, 9).unwrap();
    cpu.set_register_value(1, 0x4000).unwrap();
    assert_eq!(step(&mut cpu), Ok(ConsoleRequest::Nothing));
    assert_eq!(memory(&cpu, 0x403F), 9);
    assert_eq!(memory(&cpu, 0x3FFF), 0);
}

#[test]
fn ldr_with_an_even_base_reads_forward() {
    // LDR R0, R2, #5
    let mut cpu = machine_at(0x3000, 0x6085);
    cpu.set_register_value(2, 0x5000).unwrap();
    cpu.set_memory_address_value(0x5005, -3).unwrap();
    assert_eq!(step(&mut cpu), Ok(ConsoleRequest::Nothing));
    assert_eq!(register(&cpu, 0), -3);
    assert_eq!(cpu.cc(), ConditionCode::N);
}

#[test]
fn str_adds_the_offset_to_the_base_register() {
    // STR R3, R2, #5
    let mut cpu = machine_at(0x3000, 0x7685);
    cpu.set_register_value(2, 0x5000).unwrap();
    cpu.set_register_value(3, 44).unwrap();
    assert_eq!(step(&mut cpu), Ok(ConsoleRequest::Nothing));
    assert_eq!(memory(&cpu, 0x5005), 44);
    assert_eq!(memory(&cpu, 0x0007), 0);
    assert_eq!(cpu.cc(), ConditionCode::Z);
}

#[test]
fn str_wraps_around_memory() {
    let mut cpu = machine_at(0x3000, 0x7685);
    cpu.set_register_value(2, -2).unwrap();
    cpu.set_register_value(3, 44).unwrap();
    assert_eq!(step(&mut cpu), Ok(ConsoleRequest::Nothing));
    assert_eq!(memory(&cpu, 0x0003), 44);
}

#[test]
fn jmp_goes_to_the_register() {
    // JMP R3
    let mut cpu = machine_at(0x3000, 0xC0C0);
    cpu.set_register_value(3, 0x1234).unwrap();
    assert_eq!(step(&mut cpu), Ok(ConsoleRequest::Nothing));
    assert_eq!(cpu.pc(), 0x1234);
    let mut cpu = machine_at(0x3000, 0xC0C0);
    cpu.set_register_value(3, -1).unwrap();
    assert_eq!(step(&mut cpu), Ok(ConsoleRequest::Nothing));
    assert_eq!(cpu.pc(), 0xFFFF);
}

#[test]
fn jsrr_links_and_goes_to_the_register() {
    // JSRR R2
    let mut cpu = machine_at(0x3000, 0x4080);
    cpu.set_register_value(2, 0x5000).unwrap();
    assert_eq!(step(&mut cpu), Ok(ConsoleRequest::Nothing));
    assert_eq!(register(&cpu, 7), 0x3001);
    assert_eq!(cpu.pc(), 0x5000);
    assert_eq!(cpu.cc(), ConditionCode::Z);
}

#[test]
fn jsrr_through_register_seven_goes_to_the_link() {
    // JSRR R7: the link is written first
    let mut cpu = machine_at(0x3000, 0x41C0);
    cpu.set_register_value(7, 0x5000).unwrap();
    assert_eq!(step(&mut cpu), Ok(ConsoleRequest::Nothing));
    assert_eq!(register(&cpu, 7), 0x3001);
    assert_eq!(cpu.pc(), 0x3001);
}

#[test]
fn jsr_links_and_offsets() {
    // JSR with bits 10 to 0 = 111_1111_1110: bit 11, the mode, is the sign
    let mut cpu = machine_at(0x3000, 0x4FFE);
    assert_eq!(step(&mut cpu), Ok(ConsoleRequest::Nothing));
    assert_eq!(register(&cpu, 7), 0x3001);
    assert_eq!(cpu.pc(), 0x2FFF);
    // JSR with bits 10 to 0 = 4: read as 4 - 1024
    let mut cpu = machine_at(0x3000, 0x4804);
    assert_eq!(step(&mut cpu), Ok(ConsoleRequest::Nothing));
    assert_eq!(cpu.pc(), 0x3001 - 1020);
}

#[test]
fn trap_halt_stops_the_machine() {
    let mut cpu = machine_at(0x3000, 0xF025);
    cpu.set_register_value(0, 3).unwrap();
    assert_eq!(step(&mut cpu), Ok(ConsoleRequest::HaltNotice));
    assert!(!cpu.running());
    assert_eq!(register(&cpu, 0), 3);
    assert_eq!(cpu.pc(), 0x3001);
    assert_eq!(step(&mut cpu), Err(LC3Error::CpuNotRunning));
}

#[test]
fn trap_out_writes_the_low_byte() {
    let mut cpu = machine_at(0x3000, 0xF021);
    cpu.set_register_value(0, 0x1241).unwrap();
    assert_eq!(step(&mut cpu), Ok(ConsoleRequest::WriteChar(0x41)));
    assert!(cpu.running());
    let mut cpu = machine_at(0x3000, 0xF021);
    cpu.set_register_value(0, -1).unwrap();
    assert_eq!(step(&mut cpu), Ok(ConsoleRequest::WriteChar(0xFF)));
    assert_eq!(trap_out(&cpu), Ok(0xFF));
}

#[test]
fn trap_getchar_asks_for_a_byte_and_stores_it() {
    let mut cpu = machine_at(0x3000, 0xF020);
    cpu.set_dr(1, -1).unwrap();
    assert_eq!(step(&mut cpu), Ok(ConsoleRequest::ReadChar));
    assert_eq!(register(&cpu, 0), 0);
    assert_eq!(trap_getchar(&mut cpu, b'x'), Ok(()));
    assert_eq!(register(&cpu, 0), 0x78);
    assert_eq!(cpu.cc(), ConditionCode::N);
    assert_eq!(trap_getchar(&mut cpu, 0xFF), Ok(()));
    assert_eq!(register(&cpu, 0), 255);
}

#[test]
fn trap_in_prompts_and_stores_the_byte() {
    let mut cpu = machine_at(0x3000, 0xF023);
    assert_eq!(step(&mut cpu), Ok(ConsoleRequest::PromptAndReadChar));
    assert_eq!(trap_input(&mut cpu, b'7'), Ok(()));
    assert_eq!(register(&cpu, 0), 0x37);
    assert_eq!(INPUT_PROMPT, "Enter a character: ");
    assert_eq!(HALT_NOTICE, "Trap halt reached, halting CPU");
}

#[test]
fn trap_puts_writes_up_to_the_first_zero() {
    let mut cpu = machine_at(0x3000, 0xF022);
    cpu.set_register_value(0, 0x4000).unwrap();
    cpu.set_memory_address_value(0x4000, 0x48).unwrap();
    cpu.set_memory_address_value(0x4001, 0x0169).unwrap();
    cpu.set_memory_address_value(0x4002, -2).unwrap();
    cpu.set_memory_address_value(0x4004, 0x21).unwrap();
    assert_eq!(step(&mut cpu), Ok(ConsoleRequest::WriteString(vec![0x48, 0x0169, -2])));
    assert_eq!(register(&cpu, 0), 0x4000);
}

#[test]
fn trap_puts_of_an_empty_string() {
    let mut cpu = machine_at(0x3000, 0xF022);
    cpu.set_register_value(0, 0x4000).unwrap();
    assert_eq!(step(&mut cpu), Ok(ConsoleRequest::WriteString(vec![])));
    assert_eq!(trap_puts(&cpu), Ok(vec![]));
}

#[test]
fn trap_puts_wraps_past_the_last_address() {
    let mut cpu = machine_at(0x3000, 0xF022);
    cpu.set_register_value(0, -1).unwrap();
    cpu.set_memory_address_value(0xFFFF, 0x41).unwrap();
    cpu.set_memory_address_value(0x0000, 0x42).unwrap();
    assert_eq!(step(&mut cpu), Ok(ConsoleRequest::WriteString(vec![0x41, 0x42])));
}

#[test]
fn trap_puts_without_a_zero_writes_every_cell_once() {
    let mut cpu = CPU::new();
    let image: Vec<u16> = vec![0x41; 65536];
    cpu.load_program(&Program::new(0, image)).unwrap();
    cpu.set_register_value(0, 0x0100).unwrap();
    let written = trap_puts(&cpu).unwrap();
    assert_eq!(written.len(), 65536);
    assert!(written.iter().all(|&w| w == 0x41));
}

#[test]
fn unresolved_trap_code_changes_nothing() {
    let mut cpu = machine_at(0x3000, 0xF099);
    cpu.set_dr(2, -6).unwrap();
    let registers = cpu.reg().vals().clone();
    let cells = cpu.mem().vals().clone();
    assert_eq!(step(&mut cpu), Err(LC3Error::UnsupportedTrapCode(0x99)));
    assert_eq!(cpu.reg().vals(), &registers);
    assert_eq!(cpu.mem().vals(), &cells);
    assert_eq!(cpu.cc(), ConditionCode::N);
    assert!(cpu.running());
    assert_eq!(cpu.pc(), 0x3001);
}

#[test]
fn trap_code_x24_has_no_routine() {
    let mut cpu = machine_at(0x3000, 0xF024);
    assert_eq!(step(&mut cpu), Err(LC3Error::UnsupportedTrapCode(0x24)));
    let mut cpu = machine_at(0x3000, 0xF000);
    assert_eq!(step(&mut cpu), Err(LC3Error::UnsupportedTrapCode(0)));
}

#[test]
fn operations_execute_on_the_fetched_instruction() {
    let mut cpu = machine_at(0x3000, 0x1042);
    cpu.set_register_value(1, 5).unwrap();
    cpu.set_register_value(2, 3).unwrap();
    assert_eq!(step(&mut cpu), Ok(ConsoleRequest::Nothing));
    // the same instruction once more, by each way of running it
    assert_eq!(cpu.set_register_value(1, 8), Ok(()));
    assert_eq!(Operation::ADD.execute(&mut cpu), Ok(ConsoleRequest::Nothing));
    assert_eq!(register(&cpu, 0), 11);
    assert_eq!(cpu.set_register_value(1, 9), Ok(()));
    assert_eq!(cpu.run_operation(Operation::ADD), Ok(ConsoleRequest::Nothing));
    assert_eq!(register(&cpu, 0), 12);
    assert_eq!(cpu.set_register_value(1, 10), Ok(()));
    assert_eq!(instr_add(&mut cpu), Ok(()));
    assert_eq!(register(&cpu, 0), 13);
    assert_eq!(cpu.pc(), 0x3001);
    assert_eq!(Operation::RTI.execute(&mut cpu), Err(LC3Error::RTINotSupported));
    assert_eq!(Operation::ERR.execute(&mut cpu), Err(LC3Error::UnusedOpCode));
    assert_eq!(instr_rti(), Err(LC3Error::RTINotSupported));
    assert_eq!(instr_err(), Err(LC3Error::UnusedOpCode));
}

#[test]
fn handlers_read_the_instruction_register() {
    // with instruction register 0x1042 each handler reads its own fields
    let mut cpu = machine_at(0x3000, 0x1042);
    cpu.set_register_value(1, 0x0F0F).unwrap();
    cpu.set_register_value(2, 0x00FF).unwrap();
    assert_eq!(step(&mut cpu), Ok(ConsoleRequest::Nothing));
    assert_eq!(instr_and(&mut cpu), Ok(()));
    assert_eq!(register(&cpu, 0), 0x000F);
    assert_eq!(instr_not(&mut cpu), Ok(()));
    assert_eq!(register(&cpu, 0), !0x0F0Fi16);
    // offset 0x42 from 0x3001
    cpu.set_memory_address_value(0x3043, 17).unwrap();
    assert_eq!(instr_ld(&mut cpu), Ok(()));
    assert_eq!(register(&cpu, 0), 17);
    assert_eq!(instr_lea(&mut cpu), Ok(()));
    assert_eq!(register(&cpu, 0), 0x3043);
    assert_eq!(instr_st(&mut cpu), Ok(()));
    assert_eq!(memory(&cpu, 0x3043), 0x3043);
    assert_eq!(instr_ldi(&mut cpu), Ok(()));
    assert_eq!(register(&cpu, 0), 0x3043);
    cpu.set_register_value(0, 21).unwrap();
    assert_eq!(instr_sti(&mut cpu), Ok(()));
    assert_eq!(memory(&cpu, 0x3043), 21);
    // base R1 = 0x0F0F, bit 6 set: LDR offset 2 - 32, STR offset 2
    cpu.set_memory_address_value(0x0F0F - 30, 5).unwrap();
    assert_eq!(instr_ldr(&mut cpu), Ok(()));
    assert_eq!(register(&cpu, 0), 5);
    assert_eq!(instr_str(&mut cpu), Ok(()));
    assert_eq!(memory(&cpu, 0x0F11), 5);
    assert_eq!(instr_jmp(&mut cpu), Ok(()));
    assert_eq!(cpu.pc(), 0x0F0F);
    assert_eq!(instr_jsr(&mut cpu), Ok(()));
    assert_eq!(register(&cpu, 7), 0x0F0F);
    assert_eq!(cpu.pc(), 0x0F0F);
    // condition code P, flags 000: no branch
    assert_eq!(instr_br(&mut cpu), Ok(()));
    assert_eq!(cpu.pc(), 0x0F0F);
    assert_eq!(instr_trap(&mut cpu), Err(LC3Error::UnsupportedTrapCode(0x42)));
    trap_halt(&mut cpu);
    assert!(!cpu.running());
}

#[test]
fn words_are_written_as_the_characters_of_their_codes() {
    assert_eq!(character_of(0x41), 'A');
    assert_eq!(character_of(0x0A), '\n');
    assert_eq!(character_of(0), '\0');
    assert_eq!(character_of(0x0169), '\u{169}');
    assert_eq!(character_of(0x7FFF), '\u{7FFF}');
    assert_eq!(character_of(-1), '\u{FFFF}');
    assert_eq!(character_of(i16::MIN), '\u{8000}');
    assert_eq!(character_of(0xD7FFu16 as i16), '\u{D7FF}');
    assert_eq!(character_of(0xE000u16 as i16), '\u{E000}');
}

#[test]
fn words_without_a_character_are_written_as_the_replacement_character() {
    assert_eq!(character_of(0xD800u16 as i16), '\u{FFFD}');
    assert_eq!(character_of(0xDABCu16 as i16), '\u{FFFD}');
    assert_eq!(character_of(0xDFFFu16 as i16), '\u{FFFD}');
    assert_eq!(character_of(0xFFFDu16 as i16), '\u{FFFD}');
}
