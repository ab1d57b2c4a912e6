//! The failures that the simulator and its front end report.

use vstd::prelude::*;

verus! {

/// What can go wrong in the simulator and at its console.
#[derive(Debug, PartialEq, Eq)]
pub enum LC3Error {
    /// Reading or writing failed; the text is the system's message.
    Io(String),
    /// No program file was named.
    MissingProgramFile,
    /// The program text holds no start address.
    ProgramMissingHeader,
    /// The start address is no hexadecimal 16-bit number.
    BadProgramHeader,
    /// A line of the program is no hexadecimal 16-bit word.
    BadProgramInstructions,
    /// A command's argument is no number.
    BadArguement,
    /// A command lacks an argument.
    CommandMissingArguement,
    /// The console input is no known command.
    UnrecognizedConsoleCommand(String),
    /// A register number outside 0 to 7.
    InvalidRegister,
    /// A memory index outside 0 to 65535.
    AddressOutOfRange,
    /// A cycle was asked of a halted machine.
    CpuNotRunning,
    /// The return-from-interrupt opcode was executed; the machine has none.
    RTINotSupported,
    /// The reserved opcode was executed.
    UnusedOpCode,
    /// A trap with a code that has no routine.
    UnsupportedTrapCode(i32),
    /// An opcode number above 15.
    UnrecognizedOpCode(i32),
    /// A failure without a name.
    Unknown,
}

/// The result of an operation that can fail.
pub type Failable<T> = Result<T, LC3Error>;

} // verus!
