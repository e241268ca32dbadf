//! The console's processor: 16-bit words, 65535 words of memory of which the
//! first 300 are read-only, five registers (the fifth is the stack pointer)
//! and a program of three-word instructions read from the cartridge.
use vstd::prelude::*;
use crate::instruction::OpCode;
use crate::renderer::{has_bad_tile, picture, Renderer};
use crate::cartridge::{has_magic, rom_check, rom_words, words_of, RomError, VersionMatch};

verus! {

/// Words of memory.
pub const SRAM_SIZE: usize = 65535;

/// Addresses below this are read-only for programs.
pub const READ_ONLY_END: u16 = 300;

/// Cycles in one step: 2 MHz at 30 steps per second.
pub const CYCLES_PER_STEP: u32 = 66666;

/// Memory address of the cycle counter.
pub const CYCLE_COUNTER: usize = 6;

/// Memory address that mirrors the program counter.
pub const PROGRAM_COUNTER: usize = 7;

/// Memory address of the vblank flag.
pub const VBLANK_FLAG: usize = 8;

/// Memory address of the key that is held down, as ASCII.
pub const PRESSED_KEY: usize = 9;

/// How an argument is read and written.
#[derive(PartialEq, Eq, Structural, Debug, Clone, Copy)]
pub enum ArgumentType {
    Empty,
    /// holds its value
    Immediate,
    /// its value points into memory
    Address,
    /// the value of a register points into memory
    RegisterPointedAddress,
    /// one of the registers
    Register,
}

/// An argument of a decoded instruction: its kind and its word.
#[derive(PartialEq, Eq, Structural, Debug, Clone, Copy)]
pub struct Argument {
    pub arg_type: ArgumentType,
    pub value: u16,
}

impl Argument {
    pub fn new(arg_type: ArgumentType, value: u16) -> (r: Argument)
        ensures
            r == (Argument { arg_type, value }),
    {
        Argument { arg_type, value }
    }
}

/// A decoded instruction.
#[derive(PartialEq, Eq, Structural, Debug, Clone, Copy)]
pub struct Instruction {
    pub opcode: OpCode,
    pub arg1: Argument,
    pub arg2: Argument,
}

/// Why the console stops: each is a state in which it cannot go on. The
/// checks that the guardrails switch on (an unknown instruction or argument
/// kind, a write to read-only memory, a read or write through an empty or
/// immediate argument or an unknown register) halt the console; here each
/// such halt is a fault that the step returns, and the caller stops on it.
#[derive(PartialEq, Eq, Structural, Debug, Clone, Copy)]
pub enum Fault {
    UnknownOpCode(u8),
    UnknownArgumentType(u8),
    ReadFromEmpty,
    WriteToEmpty,
    WriteToImmediate,
    RegisterOutOfBounds(u16),
    ReadOnlyWrite(u16),
    AddressOutOfBounds(u16),
    StackOverflow,
    StackUnderflow,
    ShiftOverflow,
    ProgramCounterOutOfBounds(u16),
    ProgramCounterOverflow,
    TileIdOutOfBounds,
}

/// The state of the processor.
pub struct Machine {
    pub rom: Seq<u16>,
    pub sram: Seq<u16>,
    pub pc: u16,
    pub awaiting: Option<u16>,
    pub stall: u16,
    pub regs: Seq<u16>,
    pub guardrails: bool,
}

/// The instruction whose number is `b`, if any.
pub open spec fn opcode_of(b: int) -> Option<OpCode> {
    if b == 0 {
        Some(OpCode::NoOp)
    } else if b == 1 {
        Some(OpCode::Add)
    } else if b == 2 {
        Some(OpCode::Sub)
    } else if b == 3 {
        Some(OpCode::Mul)
    } else if b == 4 {
        Some(OpCode::Div)
    } else if b == 5 {
        Some(OpCode::Stall)
    } else if b == 6 {
        Some(OpCode::Mov)
    } else if b == 7 {
        Some(OpCode::Jmp)
    } else if b == 8 {
        Some(OpCode::Await)
    } else if b == 9 {
        Some(OpCode::Jeq)
    } else if b == 10 {
        Some(OpCode::Jne)
    } else if b == 11 {
        Some(OpCode::And)
    } else if b == 12 {
        Some(OpCode::Or)
    } else if b == 13 {
        Some(OpCode::Xor)
    } else if b == 14 {
        Some(OpCode::Shl)
    } else if b == 15 {
        Some(OpCode::Shr)
    } else if b == 16 {
        Some(OpCode::Push)
    } else if b == 17 {
        Some(OpCode::Pop)
    } else if b == 18 {
        Some(OpCode::Jsr)
    } else if b == 19 {
        Some(OpCode::Rtr)
    } else {
        None
    }
}

/// The argument kind whose number is `b`, if any.
pub open spec fn kind_of(b: int) -> Option<ArgumentType> {
    if b == 0 {
        Some(ArgumentType::Empty)
    } else if b == 1 {
        Some(ArgumentType::Immediate)
    } else if b == 2 {
        Some(ArgumentType::Address)
    } else if b == 3 {
        Some(ArgumentType::Register)
    } else if b == 4 {
        Some(ArgumentType::RegisterPointedAddress)
    } else {
        None
    }
}

pub open spec fn opcode_or_noop(b: int) -> OpCode {
    match opcode_of(b) {
        Some(o) => o,
        None => OpCode::NoOp,
    }
}

pub open spec fn kind_or_empty(b: int) -> ArgumentType {
    match kind_of(b) {
        Some(k) => k,
        None => ArgumentType::Empty,
    }
}

/// The instruction in the words `w0`, `w1`, `w2`: the high byte of `w0` is
/// the instruction's number, its next four bits the first argument's kind and
/// its low four bits the second's; `w1` and `w2` are the arguments' words.
/// An unknown number halts the console with the guardrails (a fault here),
/// and else reads as `noop` (an instruction) or as empty (an argument).
pub open spec fn decode(w0: u16, w1: u16, w2: u16, guardrails: bool) -> Result<Instruction, Fault> {
    let ob = (w0 >> 8u16) as int;
    let k1 = ((w0 & 0xff) >> 4u16) as int;
    let k2 = (w0 & 0xf) as int;
    if guardrails && opcode_of(ob) is None {
        Err(Fault::UnknownOpCode(ob as u8))
    } else if guardrails && kind_of(k1) is None {
        Err(Fault::UnknownArgumentType(k1 as u8))
    } else if guardrails && kind_of(k2) is None {
        Err(Fault::UnknownArgumentType(k2 as u8))
    } else {
        Ok(
            Instruction {
                opcode: opcode_or_noop(ob),
                arg1: Argument { arg_type: kind_or_empty(k1), value: w1 },
                arg2: Argument { arg_type: kind_or_empty(k2), value: w2 },
            },
        )
    }
}

pub open spec fn read_ram(m: Machine, addr: u16) -> Result<u16, Fault> {
    if addr < 65535 {
        Ok(m.sram[addr as int])
    } else {
        Err(Fault::AddressOutOfBounds(addr))
    }
}

/// A write to memory: a write to a read-only address halts the console with
/// the guardrails (a fault here) and is else ignored.
pub open spec fn write_ram(m: Machine, addr: u16, v: u16) -> Result<Machine, Fault> {
    if addr >= READ_ONLY_END {
        if addr < 65535 {
            Ok(Machine { sram: m.sram.update(addr as int, v), ..m })
        } else {
            Err(Fault::AddressOutOfBounds(addr))
        }
    } else if m.guardrails {
        Err(Fault::ReadOnlyWrite(addr))
    } else {
        Ok(m)
    }
}

/// The value an argument reads as. An empty argument and an unknown register
/// halt the console with the guardrails (a fault here) and else read as 0.
pub open spec fn read_arg(m: Machine, a: Argument) -> Result<u16, Fault> {
    match a.arg_type {
        ArgumentType::Empty => if m.guardrails {
            Err(Fault::ReadFromEmpty)
        } else {
            Ok(0)
        },
        ArgumentType::Immediate => Ok(a.value),
        ArgumentType::Address => read_ram(m, a.value),
        ArgumentType::Register => if a.value >= 5 {
            if m.guardrails {
                Err(Fault::RegisterOutOfBounds(a.value))
            } else {
                Ok(0)
            }
        } else {
            Ok(m.regs[a.value as int])
        },
        ArgumentType::RegisterPointedAddress => if a.value >= 5 {
            if m.guardrails {
                Err(Fault::RegisterOutOfBounds(a.value))
            } else {
                Ok(0)
            }
        } else {
            read_ram(m, m.regs[a.value as int])
        },
    }
}

/// A write through an argument. Writing to an empty or immediate argument or
/// to an unknown register halts the console with the guardrails (a fault
/// here) and else does nothing.
pub open spec fn write_arg(m: Machine, a: Argument, v: u16) -> Result<Machine, Fault> {
    match a.arg_type {
        ArgumentType::Empty => if m.guardrails {
            Err(Fault::WriteToEmpty)
        } else {
            Ok(m)
        },
        ArgumentType::Immediate => if m.guardrails {
            Err(Fault::WriteToImmediate)
        } else {
            Ok(m)
        },
        ArgumentType::Address => write_ram(m, a.value, v),
        ArgumentType::Register => if a.value >= 5 {
            if m.guardrails {
                Err(Fault::RegisterOutOfBounds(a.value))
            } else {
                Ok(m)
            }
        } else {
            Ok(Machine { regs: m.regs.update(a.value as int, v), ..m })
        },
        ArgumentType::RegisterPointedAddress => if a.value >= 5 {
            if m.guardrails {
                Err(Fault::RegisterOutOfBounds(a.value))
            } else {
                Ok(m)
            }
        } else {
            write_ram(m, m.regs[a.value as int], v)
        },
    }
}

/// Pushes `v`: the stack pointer grows by one and `v` is written at
/// `65535` minus it, so that the stack grows down from the top of memory.
/// With the guardrails the stack may not reach the read-only memory.
pub open spec fn push(m: Machine, v: u16) -> Result<Machine, Fault> {
    let sp = m.regs[4];
    if (m.guardrails && sp + 1 >= 65535 - 300) || sp == 65535 {
        Err(Fault::StackOverflow)
    } else {
        let m1 = Machine { regs: m.regs.update(4, (sp + 1) as u16), ..m };
        write_ram(m1, (65535 - (sp + 1)) as u16, v)
    }
}

/// Pops the top of the stack: the stack pointer shrinks by one and the word
/// at `65534` minus it is read.
pub open spec fn pop(m: Machine) -> Result<(Machine, u16), Fault> {
    let sp = m.regs[4];
    if sp == 0 {
        Err(Fault::StackUnderflow)
    } else {
        let m1 = Machine { regs: m.regs.update(4, (sp - 1) as u16), ..m };
        match read_ram(m1, (65534 - (sp - 1)) as u16) {
            Ok(v) => Ok((m1, v)),
            Err(f) => Err(f),
        }
    }
}

/// The arithmetic and logic instructions: `+`, `-` and `*` wrap around,
/// division by 0 wraps to 0 (the divisor 0 stands for 65536, which every word
/// is below) and shifts by 16 or more are refused.
pub open spec fn alu(op: OpCode, a: u16, b: u16) -> Result<u16, Fault> {
    match op {
        OpCode::Add => Ok(((a + b) % 65536) as u16),
        OpCode::Sub => Ok(((a - b + 65536) % 65536) as u16),
        OpCode::Mul => Ok(((a * b) % 65536) as u16),
        OpCode::Div => if b == 0 {
            Ok(0)
        } else {
            Ok((a / b) as u16)
        },
        OpCode::And => Ok(a & b),
        OpCode::Or => Ok(a | b),
        OpCode::Xor => Ok(a ^ b),
        OpCode::Shl => if b >= 16 {
            Err(Fault::ShiftOverflow)
        } else {
            Ok(a << b)
        },
        OpCode::Shr => if b >= 16 {
            Err(Fault::ShiftOverflow)
        } else {
            Ok(a >> b)
        },
        _ => Ok(0),
    }
}

pub open spec fn is_alu(op: OpCode) -> bool {
    ||| op == OpCode::Add
    ||| op == OpCode::Sub
    ||| op == OpCode::Mul
    ||| op == OpCode::Div
    ||| op == OpCode::And
    ||| op == OpCode::Or
    ||| op == OpCode::Xor
    ||| op == OpCode::Shl
    ||| op == OpCode::Shr
}

/// What an instruction does: the new state, and whether it set the program
/// counter (which then does not advance).
pub open spec fn execute(m: Machine, ins: Instruction) -> Result<(Machine, bool), Fault> {
    let a1 = ins.arg1;
    let a2 = ins.arg2;
    if is_alu(ins.opcode) {
        match read_arg(m, a1) {
            Err(f) => Err(f),
            Ok(v1) => match read_arg(m, a2) {
                Err(f) => Err(f),
                Ok(v2) => match alu(ins.opcode, v1, v2) {
                    Err(f) => Err(f),
                    Ok(r) => match write_arg(m, a1, r) {
                        Err(f) => Err(f),
                        Ok(m2) => Ok((m2, false)),
                    },
                },
            },
        }
    } else {
        match ins.opcode {
            OpCode::Await => match read_arg(m, a1) {
                Err(f) => Err(f),
                Ok(v) => Ok((Machine { awaiting: Some(v), ..m }, false)),
            },
            OpCode::Stall => match read_arg(m, a1) {
                Err(f) => Err(f),
                Ok(v) => Ok((Machine { stall: v, ..m }, false)),
            },
            OpCode::Jmp => match read_arg(m, a1) {
                Err(f) => Err(f),
                Ok(v) => Ok((Machine { pc: v, ..m }, true)),
            },
            OpCode::Mov => match read_arg(m, a2) {
                Err(f) => Err(f),
                Ok(v) => match write_arg(m, a1, v) {
                    Err(f) => Err(f),
                    Ok(m2) => Ok((m2, false)),
                },
            },
            OpCode::Jeq => match read_arg(m, a2) {
                Err(f) => Err(f),
                Ok(c) => if c == 0 {
                    match read_arg(m, a1) {
                        Err(f) => Err(f),
                        Ok(v) => Ok((Machine { pc: v, ..m }, true)),
                    }
                } else {
                    Ok((m, false))
                },
            },
            OpCode::Jne => match read_arg(m, a2) {
                Err(f) => Err(f),
                Ok(c) => if c != 0 {
                    match read_arg(m, a1) {
                        Err(f) => Err(f),
                        Ok(v) => Ok((Machine { pc: v, ..m }, true)),
                    }
                } else {
                    Ok((m, false))
                },
            },
            OpCode::Push => match read_arg(m, a1) {
                Err(f) => Err(f),
                Ok(v) => match push(m, v) {
                    Err(f) => Err(f),
                    Ok(m2) => Ok((m2, false)),
                },
            },
            OpCode::Pop => match pop(m) {
                Err(f) => Err(f),
                Ok((m1, v)) => match write_arg(m1, a1, v) {
                    Err(f) => Err(f),
                    Ok(m2) => Ok((m2, false)),
                },
            },
            OpCode::Jsr => match push(m, m.pc) {
                Err(f) => Err(f),
                Ok(m1) => match read_arg(m1, a1) {
                    Err(f) => Err(f),
                    Ok(v) => Ok((Machine { pc: v, ..m1 }, true)),
                },
            },
            OpCode::Rtr => match pop(m) {
                Err(f) => Err(f),
                Ok((m1, v)) => Ok((Machine { pc: v, ..m1 }, false)),
            },
            _ => Ok((m, false)),
        }
    }
}

/// The state an instruction runs in: the program counter is mirrored into
/// memory.
pub open spec fn fetched(m: Machine) -> Machine {
    Machine { sram: m.sram.update(PROGRAM_COUNTER as int, m.pc), ..m }
}

/// A cycle counted: the cycle counter advances, wrapping at 65536.
pub open spec fn counted(m: Machine) -> Machine {
    Machine {
        sram: m.sram.update(CYCLE_COUNTER as int, ((m.sram[CYCLE_COUNTER as int] + 1) % 65536) as u16),
        ..m
    }
}

/// The end of the `counter`-th executed cycle of a step, whose instruction
/// left `m`: the program counter goes to `next`, or to 0 where that lies past
/// the program's end, and after the step's first instruction the vblank flag
/// is set.
pub open spec fn finish_cycle(m: Machine, next: int, counter: int) -> Machine {
    let pc = if next >= m.rom.len() / 3 {
        0u16
    } else {
        next as u16
    };
    let m5 = Machine { pc, ..m };
    if counter == 0 {
        Machine { sram: m5.sram.update(VBLANK_FLAG as int, 1), ..m5 }
    } else {
        m5
    }
}

/// One executed cycle, the `counter`-th of the step: the program counter is
/// mirrored into memory, the instruction it points to is decoded and run, the
/// counter advances (unless the instruction set it) and wraps to 0 past the
/// program's end; after the step's first instruction the vblank flag is set.
#[verifier::opaque]
pub open spec fn run_instruction(m: Machine, counter: int) -> Result<Machine, Fault> {
    let pc = m.pc as int;
    if pc * 3 + 3 > m.rom.len() {
        Err(Fault::ProgramCounterOutOfBounds(m.pc))
    } else {
        match decode(m.rom[pc * 3], m.rom[pc * 3 + 1], m.rom[pc * 3 + 2], m.guardrails) {
            Err(f) => Err(f),
            Ok(ins) => match execute(fetched(m), ins) {
                Err(f) => Err(f),
                Ok((m4, jumped)) => if !jumped && m4.pc == 65535 {
                    Err(Fault::ProgramCounterOverflow)
                } else {
                    Ok(
                        finish_cycle(
                            m4,
                            if jumped {
                                m4.pc as int
                            } else {
                                m4.pc + 1
                            },
                            counter,
                        ),
                    )
                },
            },
        }
    }
}

/// The cycles of a step from the `counter`-th executed one on. Every cycle
/// counts in the cycle counter; a cycle waiting on an address whose word is
/// not 0 ends the step, and once the word is 0 the wait is over; a stalled
/// cycle only counts the stall down; any other runs an instruction.
pub open spec fn frame_loop(m: Machine, counter: int) -> Result<Machine, Fault>
    decreases CYCLES_PER_STEP - counter, m.stall,
{
    if counter >= CYCLES_PER_STEP || counter < 0 {
        Ok(m)
    } else {
        let m1 = counted(m);
        match m1.awaiting {
            Some(a) => if a >= 65535 {
                Err(Fault::AddressOutOfBounds(a))
            } else if m1.sram[a as int] != 0 {
                Ok(m1)
            } else {
                let m2 = Machine { awaiting: None, ..m1 };
                if m2.stall > 0 {
                    frame_loop(Machine { stall: (m2.stall - 1) as u16, ..m2 }, counter)
                } else {
                    match run_instruction(m2, counter) {
                        Err(f) => Err(f),
                        Ok(m3) => frame_loop(m3, counter + 1),
                    }
                }
            },
            None => if m1.stall > 0 {
                frame_loop(Machine { stall: (m1.stall - 1) as u16, ..m1 }, counter)
            } else {
                match run_instruction(m1, counter) {
                    Err(f) => Err(f),
                    Ok(m3) => frame_loop(m3, counter + 1),
                }
            },
        }
    }
}

/// The processor's part of a step: the vblank flag is cleared and the step's
/// cycles run.
pub open spec fn stepped(m: Machine) -> Result<Machine, Fault> {
    frame_loop(Machine { sram: m.sram.update(VBLANK_FLAG as int, 0), ..m }, 0)
}

/// The console knows the instructions numbered 0 to 19 and reads each such
/// number back as its instruction; every other number is unknown to it,
/// among them those of `fdump` and `rdump`, which the assembler writes.
pub proof fn lemma_opcode_numbers(op: OpCode)
    ensures
        op != OpCode::FDump && op != OpCode::RDump ==> op.spec_code() <= 19 && opcode_of(
            op.spec_code() as int,
        ) == Some(op),
        op == OpCode::FDump || op == OpCode::RDump ==> opcode_of(op.spec_code() as int) is None,
        forall|b: int| b > 19 ==> #[trigger] opcode_of(b) is None,
{
}

/// A pop right after a push gives back the pushed value and the stack
/// pointer of before, where the push lands in writable memory.
pub proof fn lemma_pop_undoes_push(m: Machine, v: u16)
    requires
        m.regs.len() == 5,
        m.sram.len() == SRAM_SIZE,
        m.regs[4] + 1 < 65535 - 300,
    ensures
        push(m, v) is Ok,
        pop(push(m, v)->Ok_0) == Ok::<(Machine, u16), Fault>(
            (Machine { regs: m.regs, ..push(m, v)->Ok_0 }, v),
        ),
{
    let m1 = push(m, v)->Ok_0;
    assert(m1.regs =~= m.regs.update(4, (m.regs[4] + 1) as u16));
    assert(m1.regs.update(4, m.regs[4]) =~= m.regs);
}

/// `rtr` right after `jsr` comes back to the position of the `jsr` (from
/// which the program counter then advances) with the stack pointer of
/// before, where the pushed position lands in writable memory.
pub proof fn lemma_rtr_returns_from_jsr(m: Machine, target: u16, other: Argument)
    requires
        m.regs.len() == 5,
        m.sram.len() == SRAM_SIZE,
        m.regs[4] + 1 < 65535 - 300,
    ensures
        ({
            let jsr = Instruction {
                opcode: OpCode::Jsr,
                arg1: Argument { arg_type: ArgumentType::Immediate, value: target },
                arg2: other,
            };
            let rtr = Instruction { opcode: OpCode::Rtr, arg1: other, arg2: other };
            &&& execute(m, jsr) is Ok
            &&& execute(m, jsr)->Ok_0 == (Machine { pc: target, ..push(m, m.pc)->Ok_0 }, true)
            &&& execute(execute(m, jsr)->Ok_0.0, rtr) is Ok
            &&& execute(execute(m, jsr)->Ok_0.0, rtr)->Ok_0.0.pc == m.pc
            &&& execute(execute(m, jsr)->Ok_0.0, rtr)->Ok_0.0.regs == m.regs
            &&& !execute(execute(m, jsr)->Ok_0.0, rtr)->Ok_0.1
        }),
{
    lemma_pop_undoes_push(m, m.pc);
    let m1 = push(m, m.pc)->Ok_0;
    let m2 = Machine { pc: target, ..m1 };
    assert(pop(m2) == Ok::<(Machine, u16), Fault>((Machine { regs: m.regs, ..m2 }, m.pc)));
}

/// The instructions whose result wraps around instead of faulting.
pub open spec fn is_wrapping(op: OpCode) -> bool {
    ||| op == OpCode::Add
    ||| op == OpCode::Sub
    ||| op == OpCode::Mul
    ||| op == OpCode::Div
    ||| op == OpCode::And
    ||| op == OpCode::Or
    ||| op == OpCode::Xor
}

/// The result of such an instruction on `x` and `y`: sums, differences and
/// products wrap at 65536, and a division by 0 gives 0.
pub open spec fn wrapped(op: OpCode, x: u16, y: u16) -> u16 {
    if op == OpCode::Add {
        ((x + y) % 65536) as u16
    } else if op == OpCode::Sub {
        ((x - y + 65536) % 65536) as u16
    } else if op == OpCode::Mul {
        ((x * y) % 65536) as u16
    } else if op == OpCode::Div {
        if y == 0 {
            0
        } else {
            (x / y) as u16
        }
    } else if op == OpCode::And {
        x & y
    } else if op == OpCode::Or {
        x | y
    } else {
        x ^ y
    }
}

/// `m` with `r` in the register or at the address that `d` names.
pub open spec fn with_dest(m: Machine, d: Argument, r: u16) -> Machine {
    if d.arg_type == ArgumentType::Register {
        Machine { regs: m.regs.update(d.value as int, r), ..m }
    } else {
        Machine { sram: m.sram.update(d.value as int, r), ..m }
    }
}

/// `add`, `sub`, `mul`, `div`, `and`, `or` and `xor` into a register or into
/// writable memory put the wrapped result there (a division by 0 gives 0)
/// and change nothing else.
pub proof fn lemma_arithmetic_wraps(m: Machine, op: OpCode, d: Argument, src: Argument)
    requires
        m.regs.len() == 5,
        m.sram.len() == SRAM_SIZE,
        is_wrapping(op),
        read_arg(m, src) is Ok,
        match d.arg_type {
            ArgumentType::Register => d.value < 5,
            ArgumentType::Address => READ_ONLY_END <= d.value < 65535,
            _ => false,
        },
    ensures
        ({
            let x = read_arg(m, d)->Ok_0;
            let y = read_arg(m, src)->Ok_0;
            let r = wrapped(op, x, y);
            let ins = Instruction { opcode: op, arg1: d, arg2: src };
            &&& read_arg(m, d) is Ok
            &&& execute(m, ins) == Ok::<(Machine, bool), Fault>(
                (
                    with_dest(m, d, r),
                    false,
                ),
            )
        }),
{
}

/// `shl` and `shr` by fewer than 16 bits into a register or into writable
/// memory put the destination's value shifted left (dropping the bits that
/// leave the word) or right by the source's value there and change nothing
/// else; a shift by 16 or more is refused.
pub proof fn lemma_shifts(m: Machine, op: OpCode, d: Argument, src: Argument)
    requires
        m.regs.len() == 5,
        m.sram.len() == SRAM_SIZE,
        op == OpCode::Shl || op == OpCode::Shr,
        read_arg(m, src) is Ok,
        match d.arg_type {
            ArgumentType::Register => d.value < 5,
            ArgumentType::Address => READ_ONLY_END <= d.value < 65535,
            _ => false,
        },
    ensures
        ({
            let x = read_arg(m, d)->Ok_0;
            let y = read_arg(m, src)->Ok_0;
            let ins = Instruction { opcode: op, arg1: d, arg2: src };
            &&& read_arg(m, d) is Ok
            &&& y < 16 && op == OpCode::Shl ==> execute(m, ins) == Ok::<(Machine, bool), Fault>(
                (with_dest(m, d, x << y), false),
            )
            &&& y < 16 && op == OpCode::Shr ==> execute(m, ins) == Ok::<(Machine, bool), Fault>(
                (with_dest(m, d, x >> y), false),
            )
            &&& y >= 16 ==> execute(m, ins) == Err::<(Machine, bool), Fault>(Fault::ShiftOverflow)
        }),
{
}

/// Shifting right by `b` bits divides by 2 to the `b`, rounding down;
/// shifting left multiplies by it where the product fits in a word.
pub proof fn lemma_shift_values(x: u16, b: u16)
    requires
        b < 16,
    ensures
        (x >> b) as int == x as int / vstd::arithmetic::power2::pow2(b as nat) as int,
        x * vstd::arithmetic::power2::pow2(b as nat) <= 65535 ==> (x << b) as int == x as int
            * vstd::arithmetic::power2::pow2(b as nat) as int,
{
    vstd::bits::lemma_u16_shr_is_div(x, b);
    if x * vstd::arithmetic::power2::pow2(b as nat) <= 65535 {
        vstd::bits::lemma_u16_shl_is_mul(x, b);
    }
}

/// `mov d s` into a register or writable memory puts the value of `s` there
/// and changes nothing else; `jmp t` sets the program counter to the value of
/// `t`; `stall n` makes the console wait the value of `n` cycles.
pub proof fn lemma_moves_and_jumps(m: Machine, d: Argument, src: Argument)
    requires
        m.regs.len() == 5,
        m.sram.len() == SRAM_SIZE,
        read_arg(m, src) is Ok,
    ensures
        ({
            let y = read_arg(m, src)->Ok_0;
            let t = read_arg(m, d)->Ok_0;
            &&& (match d.arg_type {
                ArgumentType::Register => d.value < 5,
                ArgumentType::Address => READ_ONLY_END <= d.value < 65535,
                _ => false,
            }) ==> execute(m, Instruction { opcode: OpCode::Mov, arg1: d, arg2: src }) == Ok::<
                (Machine, bool),
                Fault,
            >((with_dest(m, d, y), false))
            &&& read_arg(m, d) is Ok ==> execute(m, Instruction { opcode: OpCode::Jmp, arg1: d, arg2: src })
                == Ok::<(Machine, bool), Fault>((Machine { pc: t, ..m }, true))
            &&& read_arg(m, d) is Ok ==> execute(m, Instruction { opcode: OpCode::Stall, arg1: d, arg2: src })
                == Ok::<(Machine, bool), Fault>((Machine { stall: t, ..m }, false))
        }),
{
}

/// `push s` grows the stack pointer by one and puts the value of `s` at
/// 65535 minus the new stack pointer, where that lies in writable memory;
/// `pop d` then reads it back into a register.
pub proof fn lemma_push_and_pop(m: Machine, src: Argument, d: Argument, other: Argument)
    requires
        m.regs.len() == 5,
        m.sram.len() == SRAM_SIZE,
        m.regs[4] + 1 < 65535 - 300,
        read_arg(m, src) is Ok,
        d.arg_type == ArgumentType::Register,
        d.value < 4,
    ensures
        ({
            let y = read_arg(m, src)->Ok_0;
            let p = pushed(m, y);
            &&& execute(m, Instruction { opcode: OpCode::Push, arg1: src, arg2: other }) == Ok::<
                (Machine, bool),
                Fault,
            >((p, false))
            &&& execute(p, Instruction { opcode: OpCode::Pop, arg1: d, arg2: other }) == Ok::<
                (Machine, bool),
                Fault,
            >((Machine { regs: m.regs.update(d.value as int, y), ..p }, false))
        }),
{
    let y = read_arg(m, src)->Ok_0;
    let sp = (m.regs[4] + 1) as u16;
    let m1 = Machine { regs: m.regs.update(4, sp), ..m };
    assert(push(m, y) == Ok::<Machine, Fault>(Machine { sram: m1.sram.update(65535 - sp, y), ..m1 }));
    let p = pushed(m, y);
    let p1 = Machine { regs: p.regs.update(4, m.regs[4]), ..p };
    assert(p.regs.update(4, m.regs[4]) =~= m.regs);
    assert(pop(p) == Ok::<(Machine, u16), Fault>((p1, y)));
    assert(p1.regs.update(d.value as int, y) =~= m.regs.update(d.value as int, y));
}

/// `jeq t c` jumps to the value of `t` when `c` reads 0, `jne t c` when it
/// does not, and otherwise neither changes anything.
pub proof fn lemma_conditional_jumps(m: Machine, t: Argument, c: Argument)
    requires
        read_arg(m, t) is Ok,
        read_arg(m, c) is Ok,
    ensures
        ({
            let v = read_arg(m, c)->Ok_0;
            let target = read_arg(m, t)->Ok_0;
            let jeq = Instruction { opcode: OpCode::Jeq, arg1: t, arg2: c };
            let jne = Instruction { opcode: OpCode::Jne, arg1: t, arg2: c };
            &&& execute(m, jeq) == Ok::<(Machine, bool), Fault>(
                if v == 0 {
                    (Machine { pc: target, ..m }, true)
                } else {
                    (m, false)
                },
            )
            &&& execute(m, jne) == Ok::<(Machine, bool), Fault>(
                if v != 0 {
                    (Machine { pc: target, ..m }, true)
                } else {
                    (m, false)
                },
            )
        }),
{
}

/// `jsr t` pushes the position of the `jsr` (the stack pointer grows by one
/// and the word at 65535 minus it holds the position) and jumps to the value
/// of `t`, where the pushed word lands in writable memory.
pub proof fn lemma_jsr_pushes_and_jumps(m: Machine, t: Argument, other: Argument)
    requires
        m.regs.len() == 5,
        m.sram.len() == SRAM_SIZE,
        m.regs[4] + 1 < 65535 - 300,
        read_arg(
            Machine {
                regs: m.regs.update(4, (m.regs[4] + 1) as u16),
                sram: m.sram.update(65535 - (m.regs[4] + 1), m.pc),
                ..m
            },
            t,
        ) is Ok,
    ensures
        ({
            let sp = (m.regs[4] + 1) as u16;
            let pushed = Machine {
                regs: m.regs.update(4, sp),
                sram: m.sram.update(65535 - sp, m.pc),
                ..m
            };
            let jsr = Instruction { opcode: OpCode::Jsr, arg1: t, arg2: other };
            execute(m, jsr) == Ok::<(Machine, bool), Fault>(
                (Machine { pc: read_arg(pushed, t)->Ok_0, ..pushed }, true),
            )
        }),
{
    let sp = (m.regs[4] + 1) as u16;
    let m1 = Machine { regs: m.regs.update(4, sp), ..m };
    assert(push(m, m.pc) == Ok::<Machine, Fault>(Machine { sram: m1.sram.update(65535 - sp, m.pc), ..m1 }));
}

/// While the word that `await` waits on is not 0, a step runs no
/// instruction: only the cycle counter advances (and the vblank flag is
/// cleared), so the wait goes on into the next step.
pub proof fn lemma_await_holds(m: Machine, a: u16)
    requires
        m.sram.len() == SRAM_SIZE,
        m.awaiting == Some(a),
        a < 65535,
        a != CYCLE_COUNTER,
        a != VBLANK_FLAG,
        m.sram[a as int] != 0,
    ensures
        stepped(m) == Ok::<Machine, Fault>(
            Machine {
                sram: m.sram.update(VBLANK_FLAG as int, 0).update(
                    CYCLE_COUNTER as int,
                    ((m.sram[CYCLE_COUNTER as int] + 1) % 65536) as u16,
                ),
                ..m
            },
        ),
{
}

/// Once the word that `await` waits on is 0, the wait ends and the
/// instruction after the `await` runs in the same cycle.
pub proof fn lemma_await_resumes(m: Machine, a: u16, counter: int)
    requires
        m.sram.len() == SRAM_SIZE,
        m.awaiting == Some(a),
        a < 65535,
        0 <= counter < CYCLES_PER_STEP,
        m.stall == 0,
        m.sram.update(
            CYCLE_COUNTER as int,
            ((m.sram[CYCLE_COUNTER as int] + 1) % 65536) as u16,
        )[a as int] == 0,
    ensures
        ({
            let m2 = Machine {
                sram: m.sram.update(
                    CYCLE_COUNTER as int,
                    ((m.sram[CYCLE_COUNTER as int] + 1) % 65536) as u16,
                ),
                awaiting: None,
                ..m
            };
            frame_loop(m, counter) == match run_instruction(m2, counter) {
                Err(f) => Err(f),
                Ok(m3) => frame_loop(m3, counter + 1),
            }
        }),
{
}

/// The instruction at the program counter, where the program holds one
/// there.
pub open spec fn current(m: Machine) -> Result<Instruction, Fault> {
    let pc = m.pc as int;
    decode(m.rom[pc * 3], m.rom[pc * 3 + 1], m.rom[pc * 3 + 2], m.guardrails)
}

/// A cycle of a step that neither waits nor is stalled runs the instruction
/// the program counter points to: it is executed in the state where the
/// cycle is counted and the program counter mirrored, the cycle ends as
/// `finish_cycle` says, and the step goes on with the next cycle.
pub proof fn lemma_cycle_executes(m: Machine, counter: int)
    requires
        0 <= counter < CYCLES_PER_STEP,
        m.awaiting is None,
        m.stall == 0,
    ensures
        frame_loop(m, counter) == (if m.pc * 3 + 3 > m.rom.len() {
            Err::<Machine, Fault>(Fault::ProgramCounterOutOfBounds(m.pc))
        } else {
            match current(m) {
                Err(f) => Err(f),
                Ok(ins) => match execute(fetched(counted(m)), ins) {
                    Err(f) => Err(f),
                    Ok((m4, jumped)) => if !jumped && m4.pc == 65535 {
                        Err(Fault::ProgramCounterOverflow)
                    } else {
                        frame_loop(
                            finish_cycle(
                                m4,
                                if jumped {
                                    m4.pc as int
                                } else {
                                    m4.pc + 1
                                },
                                counter,
                            ),
                            counter + 1,
                        )
                    },
                },
            }
        }),
{
    reveal(run_instruction);
}

/// One cycle of a step that runs `add`, `sub`, `mul`, `div`, `and`, `or` or
/// `xor` into a register or into writable memory: the destination gets the
/// wrapped result (0 for a division by 0), the program counter moves on to
/// the next instruction, and nothing else changes but the cycle counter, the
/// mirrored program counter and, in a step's first cycle, the vblank flag.
pub proof fn lemma_cycle_arithmetic(m: Machine, counter: int, op: OpCode, d: Argument, src: Argument)
    requires
        m.regs.len() == 5,
        m.sram.len() == SRAM_SIZE,
        0 <= counter < CYCLES_PER_STEP,
        m.awaiting is None,
        m.stall == 0,
        m.pc < 65535,
        m.pc * 3 + 3 <= m.rom.len(),
        current(m) == Ok::<Instruction, Fault>(Instruction { opcode: op, arg1: d, arg2: src }),
        is_wrapping(op),
        read_arg(fetched(counted(m)), src) is Ok,
        match d.arg_type {
            ArgumentType::Register => d.value < 5,
            ArgumentType::Address => READ_ONLY_END <= d.value < 65535,
            _ => false,
        },
    ensures
        ({
            let m1 = fetched(counted(m));
            let x = read_arg(m1, d)->Ok_0;
            let y = read_arg(m1, src)->Ok_0;
            &&& read_arg(m1, d) is Ok
            &&& frame_loop(m, counter) == frame_loop(
                finish_cycle(with_dest(m1, d, wrapped(op, x, y)), m.pc + 1, counter),
                counter + 1,
            )
        }),
{
    lemma_cycle_executes(m, counter);
    lemma_arithmetic_wraps(fetched(counted(m)), op, d, src);
}

/// One cycle of a step that runs `jeq t c` or `jne t c`: the program counter
/// goes to the value of `t` when the jump is taken (`c` reads 0 for `jeq`, not
/// 0 for `jne`) and else to the next instruction; nothing else changes but
/// the cycle counter, the mirrored program counter and, in a step's first
/// cycle, the vblank flag.
pub proof fn lemma_cycle_conditional_jump(m: Machine, counter: int, op: OpCode, t: Argument, c: Argument)
    requires
        0 <= counter < CYCLES_PER_STEP,
        m.awaiting is None,
        m.stall == 0,
        m.pc < 65535,
        m.pc * 3 + 3 <= m.rom.len(),
        op == OpCode::Jeq || op == OpCode::Jne,
        current(m) == Ok::<Instruction, Fault>(Instruction { opcode: op, arg1: t, arg2: c }),
        read_arg(fetched(counted(m)), t) is Ok,
        read_arg(fetched(counted(m)), c) is Ok,
    ensures
        ({
            let m1 = fetched(counted(m));
            let v = read_arg(m1, c)->Ok_0;
            let target = read_arg(m1, t)->Ok_0;
            let taken = (op == OpCode::Jeq && v == 0) || (op == OpCode::Jne && v != 0);
            frame_loop(m, counter) == frame_loop(
                finish_cycle(
                    m1,
                    if taken {
                        target as int
                    } else {
                        m.pc + 1
                    },
                    counter,
                ),
                counter + 1,
            )
        }),
{
    let m1 = fetched(counted(m));
    lemma_cycle_executes(m, counter);
    lemma_conditional_jumps(m1, t, c);
    let target = read_arg(m1, t)->Ok_0;
    assert(finish_cycle(Machine { pc: target, ..m1 }, target as int, counter) == finish_cycle(
        m1,
        target as int,
        counter,
    ));
}

/// `m` after pushing `v`: the stack pointer grows by one and the word at
/// 65535 minus it holds `v`.
pub open spec fn pushed(m: Machine, v: u16) -> Machine {
    let sp = (m.regs[4] + 1) as u16;
    Machine { regs: m.regs.update(4, sp), sram: m.sram.update(65535 - sp, v), ..m }
}

/// One cycle of a step that runs `jsr t`: the position of the `jsr` is
/// pushed and the program counter goes to the value of `t`, so that the
/// instruction there runs next, where the pushed word lands in writable
/// memory.
pub proof fn lemma_cycle_jsr(m: Machine, counter: int, t: Argument, other: Argument)
    requires
        m.regs.len() == 5,
        m.sram.len() == SRAM_SIZE,
        0 <= counter < CYCLES_PER_STEP,
        m.awaiting is None,
        m.stall == 0,
        m.pc * 3 + 3 <= m.rom.len(),
        m.regs[4] + 1 < 65535 - 300,
        current(m) == Ok::<Instruction, Fault>(Instruction { opcode: OpCode::Jsr, arg1: t, arg2: other }),
        read_arg(pushed(fetched(counted(m)), m.pc), t) is Ok,
    ensures
        ({
            let p = pushed(fetched(counted(m)), m.pc);
            frame_loop(m, counter) == frame_loop(
                finish_cycle(p, read_arg(p, t)->Ok_0 as int, counter),
                counter + 1,
            )
        }),
{
    let m1 = fetched(counted(m));
    let p = pushed(m1, m.pc);
    lemma_cycle_executes(m, counter);
    lemma_jsr_pushes_and_jumps(m1, t, other);
    let target = read_arg(p, t)->Ok_0;
    assert(finish_cycle(Machine { pc: target, ..p }, target as int, counter) == finish_cycle(
        p,
        target as int,
        counter,
    ));
}

/// One cycle of a step that runs `await a`: the console waits on the word at
/// the value of `a` and the program counter moves on to the next instruction.
pub proof fn lemma_cycle_await(m: Machine, counter: int, a: Argument, other: Argument)
    requires
        0 <= counter < CYCLES_PER_STEP,
        m.awaiting is None,
        m.stall == 0,
        m.pc < 65535,
        m.pc * 3 + 3 <= m.rom.len(),
        current(m) == Ok::<Instruction, Fault>(Instruction { opcode: OpCode::Await, arg1: a, arg2: other }),
        read_arg(fetched(counted(m)), a) is Ok,
    ensures
        ({
            let m1 = fetched(counted(m));
            frame_loop(m, counter) == frame_loop(
                finish_cycle(Machine { awaiting: Some(read_arg(m1, a)->Ok_0), ..m1 }, m.pc + 1, counter),
                counter + 1,
            )
        }),
{
    lemma_cycle_executes(m, counter);
}

/// A cycle that waits on a word that is not 0 runs no instruction: it is
/// counted, and the step ends there.
pub proof fn lemma_wait_ends_step(m: Machine, counter: int, a: u16)
    requires
        m.sram.len() == SRAM_SIZE,
        0 <= counter < CYCLES_PER_STEP,
        m.awaiting == Some(a),
        a < 65535,
        counted(m).sram[a as int] != 0,
    ensures
        frame_loop(m, counter) == Ok::<Machine, Fault>(counted(m)),
{
}

/// After an instruction runs, the program counter points into the program:
/// a jump or a step past the last instruction wraps to 0.
pub proof fn lemma_pc_stays_in_rom(m: Machine, counter: int)
    requires
        m.rom.len() >= 3,
        run_instruction(m, counter) is Ok,
    ensures
        run_instruction(m, counter)->Ok_0.pc < m.rom.len() / 3,
        run_instruction(m, counter)->Ok_0.rom == m.rom,
{
    reveal(run_instruction);
    let m3 = fetched(m);
    let pc = m.pc as int;
    let ins = decode(m.rom[pc * 3], m.rom[pc * 3 + 1], m.rom[pc * 3 + 2], m.guardrails)->Ok_0;
    lemma_execute_keeps_rom(m3, ins);
}

/// No instruction changes the program.
pub proof fn lemma_execute_keeps_rom(m: Machine, ins: Instruction)
    ensures
        execute(m, ins) matches Ok((m2, _)) ==> m2.rom == m.rom,
{
    match read_arg(m, ins.arg1) {
        Ok(v1) => {
            match read_arg(m, ins.arg2) {
                Ok(v2) => match alu(ins.opcode, v1, v2) {
                    Ok(r) => lemma_write_keeps_rom(m, ins.arg1, r),
                    Err(_) => {},
                },
                Err(_) => {},
            }
            lemma_write_keeps_rom(m, ins.arg1, v1);
        },
        Err(_) => {},
    }
    match read_arg(m, ins.arg2) {
        Ok(v2) => lemma_write_keeps_rom(m, ins.arg1, v2),
        Err(_) => {},
    }
    match pop(m) {
        Ok((m1, v)) => lemma_write_keeps_rom(m1, ins.arg1, v),
        Err(_) => {},
    }
}

proof fn lemma_write_keeps_rom(m: Machine, a: Argument, v: u16)
    ensures
        write_arg(m, a, v) matches Ok(m2) ==> m2.rom == m.rom,
        push(m, v) matches Ok(m2) ==> m2.rom == m.rom,
        pop(m) matches Ok((m2, _)) ==> m2.rom == m.rom,
{
}

/// Through a whole step the program counter stays inside the program,
/// which does not change.
pub proof fn lemma_step_keeps_pc_in_rom(m: Machine)
    requires
        m.rom.len() >= 3,
        m.pc < m.rom.len() / 3,
    ensures
        stepped(m) matches Ok(m2) ==> m2.pc < m2.rom.len() / 3 && m2.rom == m.rom,
{
    lemma_frame_keeps_pc_in_rom(Machine { sram: m.sram.update(VBLANK_FLAG as int, 0), ..m }, 0);
}

proof fn lemma_frame_keeps_pc_in_rom(m: Machine, counter: int)
    requires
        m.rom.len() >= 3,
        m.pc < m.rom.len() / 3,
    ensures
        frame_loop(m, counter) matches Ok(m2) ==> m2.pc < m2.rom.len() / 3 && m2.rom == m.rom,
    decreases CYCLES_PER_STEP - counter, m.stall,
{
    if counter >= CYCLES_PER_STEP || counter < 0 {
    } else {
        let m1 = Machine {
            sram: m.sram.update(CYCLE_COUNTER as int, ((m.sram[CYCLE_COUNTER as int] + 1) % 65536) as u16),
            ..m
        };
        let m2 = match m1.awaiting {
            Some(a) => Machine { awaiting: None, ..m1 },
            None => m1,
        };
        if m2.stall > 0 {
            lemma_frame_keeps_pc_in_rom(Machine { stall: (m2.stall - 1) as u16, ..m2 }, counter);
        } else {
            if run_instruction(m2, counter) is Ok {
                lemma_pc_stays_in_rom(m2, counter);
                lemma_frame_keeps_pc_in_rom(run_instruction(m2, counter)->Ok_0, counter + 1);
            }
        }
    }
}

/// Reading an argument right after a write through it gives the value
/// written, wherever the write lands: a register, or memory from address 300
/// on.
pub proof fn lemma_read_after_write(m: Machine, a: Argument, v: u16)
    requires
        m.regs.len() == 5,
        m.sram.len() == SRAM_SIZE,
        write_arg(m, a, v) is Ok,
        match a.arg_type {
            ArgumentType::Address => a.value >= READ_ONLY_END,
            ArgumentType::Register => a.value < 5,
            ArgumentType::RegisterPointedAddress => a.value < 5 && m.regs[a.value as int] >= READ_ONLY_END,
            _ => false,
        },
    ensures
        read_arg(write_arg(m, a, v)->Ok_0, a) == Ok::<u16, Fault>(v),
{
}

/// Without the guardrails, reading and writing through arguments fail only
/// on address 65535, which lies past the end of memory.
pub proof fn lemma_unguarded_arguments(m: Machine, a: Argument, v: u16)
    requires
        !m.guardrails,
        m.regs.len() == 5,
        m.sram.len() == SRAM_SIZE,
    ensures
        read_arg(m, a) is Err ==> read_arg(m, a) == Err::<u16, Fault>(Fault::AddressOutOfBounds(65535)),
        write_arg(m, a, v) is Err ==> write_arg(m, a, v) == Err::<Machine, Fault>(
            Fault::AddressOutOfBounds(65535),
        ),
{
}

/// No write through an argument, and no push, changes the read-only memory
/// below address 300.
pub proof fn lemma_read_only_kept(m: Machine, a: Argument, v: u16)
    requires
        m.regs.len() == 5,
        m.sram.len() == SRAM_SIZE,
    ensures
        write_arg(m, a, v) matches Ok(m2) ==> forall|i: int| 0 <= i < 300 ==> #[trigger] m2.sram[i] == m.sram[i],
        push(m, v) matches Ok(m2) ==> forall|i: int| 0 <= i < 300 ==> #[trigger] m2.sram[i] == m.sram[i],
{
}

/// No instruction changes the read-only memory below address 300.
pub proof fn lemma_execute_keeps_read_only(m: Machine, ins: Instruction)
    requires
        m.regs.len() == 5,
        m.sram.len() == SRAM_SIZE,
    ensures
        execute(m, ins) matches Ok((m2, _)) ==> forall|i: int| 0 <= i < 300 ==> #[trigger] m2.sram[i] == m.sram[i],
{
    lemma_read_only_kept(m, ins.arg1, 0);
    match read_arg(m, ins.arg1) {
        Ok(v1) => {
            match read_arg(m, ins.arg2) {
                Ok(v2) => match alu(ins.opcode, v1, v2) {
                    Ok(r) => lemma_read_only_kept(m, ins.arg1, r),
                    Err(_) => {},
                },
                Err(_) => {},
            }
            lemma_read_only_kept(m, ins.arg1, v1);
        },
        Err(_) => {},
    }
    match read_arg(m, ins.arg2) {
        Ok(v2) => lemma_read_only_kept(m, ins.arg1, v2),
        Err(_) => {},
    }
    match pop(m) {
        Ok((m1, v)) => {
            lemma_read_only_kept(m1, ins.arg1, v);
        },
        Err(_) => {},
    }
    lemma_read_only_kept(m, ins.arg1, m.pc);
}

/// The instruction with number `b`, if any; see `opcode_of`.
pub fn opcode_from_u8(b: u8) -> (r: Option<OpCode>)
    ensures
        r == opcode_of(b as int),
{
    match b {
        0 => Some(OpCode::NoOp),
        1 => Some(OpCode::Add),
        2 => Some(OpCode::Sub),
        3 => Some(OpCode::Mul),
        4 => Some(OpCode::Div),
        5 => Some(OpCode::Stall),
        6 => Some(OpCode::Mov),
        7 => Some(OpCode::Jmp),
        8 => Some(OpCode::Await),
        9 => Some(OpCode::Jeq),
        10 => Some(OpCode::Jne),
        11 => Some(OpCode::And),
        12 => Some(OpCode::Or),
        13 => Some(OpCode::Xor),
        14 => Some(OpCode::Shl),
        15 => Some(OpCode::Shr),
        16 => Some(OpCode::Push),
        17 => Some(OpCode::Pop),
        18 => Some(OpCode::Jsr),
        19 => Some(OpCode::Rtr),
        _ => None,
    }
}

/// The argument kind with number `b`, if any; see `kind_of`.
pub fn kind_from_u8(b: u8) -> (r: Option<ArgumentType>)
    ensures
        r == kind_of(b as int),
{
    match b {
        0 => Some(ArgumentType::Empty),
        1 => Some(ArgumentType::Immediate),
        2 => Some(ArgumentType::Address),
        3 => Some(ArgumentType::Register),
        4 => Some(ArgumentType::RegisterPointedAddress),
        _ => None,
    }
}

impl Instruction {
    /// Decodes three words; see `decode`.
    pub fn from_u16(source: &[u16; 3], guardrails: bool) -> (r: Result<Instruction, Fault>)
        ensures
            r == decode(source@[0], source@[1], source@[2], guardrails),
    {
        let w0 = source[0];
        let ob = (w0 >> 8u16) as u8;
        let k1 = ((w0 & 0xff) >> 4u16) as u8;
        let k2 = (w0 & 0xf) as u8;
        proof {
            assert(w0 >> 8u16 <= 255) by (bit_vector);
            assert((w0 & 0xff) >> 4u16 <= 15) by (bit_vector);
            assert(w0 & 0xf <= 15) by (bit_vector);
        }
        let op = match opcode_from_u8(ob) {
            Some(o) => o,
            None => {
                if guardrails {
                    return Err(Fault::UnknownOpCode(ob));
                }
                OpCode::NoOp
            },
        };
        let t1 = match kind_from_u8(k1) {
            Some(k) => k,
            None => {
                if guardrails {
                    return Err(Fault::UnknownArgumentType(k1));
                }
                ArgumentType::Empty
            },
        };
        let t2 = match kind_from_u8(k2) {
            Some(k) => k,
            None => {
                if guardrails {
                    return Err(Fault::UnknownArgumentType(k2));
                }
                ArgumentType::Empty
            },
        };
        Ok(
            Instruction {
                opcode: op,
                arg1: Argument::new(t1, source[1]),
                arg2: Argument::new(t2, source[2]),
            },
        )
    }
}

/// The result of an arithmetic or logic instruction; see `alu`.
pub fn apply_alu(op: OpCode, a: u16, b: u16) -> (r: Result<u16, Fault>)
    ensures
        r == alu(op, a, b),
{
    match op {
        OpCode::Add => Ok(((a as u32 + b as u32) % 65536) as u16),
        OpCode::Sub => Ok(((a as u32 + 65536 - b as u32) % 65536) as u16),
        OpCode::Mul => {
            proof {
                assert(a * b <= 65535 * 65535) by (nonlinear_arith)
                    requires
                        a <= 65535,
                        b <= 65535,
                ;
            }
            Ok(((a as u32 * b as u32) % 65536) as u16)
        },
        OpCode::Div => if b == 0 {
            Ok(0)
        } else {
            Ok(a / b)
        },
        OpCode::And => Ok(a & b),
        OpCode::Or => Ok(a | b),
        OpCode::Xor => Ok(a ^ b),
        OpCode::Shl => if b >= 16 {
            Err(Fault::ShiftOverflow)
        } else {
            Ok(a << b)
        },
        OpCode::Shr => if b >= 16 {
            Err(Fault::ShiftOverflow)
        } else {
            Ok(a >> b)
        },
        _ => Ok(0),
    }
}

/// The default palette, colors 1 to 15, in RGB565.
pub open spec fn default_palette() -> Seq<u16> {
    seq![
        0x18E5u16, 0xF7BF, 0x424A, 0xA535, 0xFA50, 0x347F, 0x3EBE, 0x8787, 0xBAFD, 0x6ADE,
        0xECAF, 0xFB4B, 0xFDC6, 0xF747, 0x2EF1,
    ]
}

/// Memory once a cartridge is loaded: the console's version at 0 to 2, the
/// cartridge's at 3 to 5, the default palette at 301 to 315, and 0 everywhere
/// else, since loading clears memory.
pub open spec fn loaded_sram(sram: Seq<u16>, bytes: Seq<u8>, version: Seq<u8>) -> Seq<u16> {
    Seq::new(
        sram.len(),
        |a: int|
            if a < 3 {
                version[a] as u16
            } else if a < 6 {
                bytes[14 + a] as u16
            } else if 301 <= a <= 315 {
                default_palette()[a - 301]
            } else {
                0
            },
    )
}

/// The console: processor, memory, cartridge and canvas.
pub struct Console {
    renderer: Renderer,
    rom: Vec<u16>,
    sram: Vec<u16>,
    program_counter: u16,
    currently_awaiting: Option<u16>,
    stall_timer: u16,
    registers: Vec<u16>,
    last_pressed_key: Option<Vec<char>>,
    guardrails: bool,
}

impl Console {
    pub closed spec fn wf(&self) -> bool {
        &&& self.sram@.len() == SRAM_SIZE
        &&& self.registers@.len() == 5
        &&& self.renderer.wf()
        &&& self.renderer.guarded() == self.guardrails
    }

    /// A console holds 65535 words of memory and five registers.
    pub proof fn lemma_sizes(&self)
        requires
            self.wf(),
        ensures
            self.machine().sram.len() == SRAM_SIZE,
            self.machine().regs.len() == 5,
    {
    }

    pub closed spec fn machine(&self) -> Machine {
        Machine {
            rom: self.rom@,
            sram: self.sram@,
            pc: self.program_counter,
            awaiting: self.currently_awaiting,
            stall: self.stall_timer,
            regs: self.registers@,
            guardrails: self.guardrails,
        }
    }

    /// The canvas, row by row from the top left.
    pub closed spec fn canvas(&self) -> Seq<(u8, u8, u8)> {
        self.renderer.canvas()
    }

    pub closed spec fn visible(&self) -> bool {
        self.renderer.visible()
    }

    /// The text of the key held down, if one is.
    pub closed spec fn held_key(&self) -> Option<Seq<char>> {
        match self.last_pressed_key {
            Some(k) => Some(k@),
            None => None,
        }
    }

    /// A console with no cartridge, zeroed memory and registers; with
    /// `guardrails`, programs that misbehave are stopped with a fault.
    pub fn new(guardrails: bool) -> (r: Console)
        ensures
            r.wf(),
            r.machine() == (Machine {
                rom: Seq::empty(),
                sram: Seq::new(SRAM_SIZE as nat, |i: int| 0u16),
                pc: 0,
                awaiting: None,
                stall: 0,
                regs: seq![0u16, 0, 0, 0, 0],
                guardrails,
            }),
            r.held_key() is None,
            r.visible(),
    {
        let mut sram: Vec<u16> = Vec::new();
        let mut i: usize = 0;
        while i < SRAM_SIZE
            invariant
                0 <= i <= SRAM_SIZE,
                sram@ == Seq::new(i as nat, |k: int| 0u16),
            decreases SRAM_SIZE - i,
        {
            sram.push(0);
            i = i + 1;
            proof {
                assert(sram@ =~= Seq::new(i as nat, |k: int| 0u16));
            }
        }
        let mut registers: Vec<u16> = Vec::new();
        registers.push(0);
        registers.push(0);
        registers.push(0);
        registers.push(0);
        registers.push(0);
        let r = Console {
            renderer: Renderer::new(guardrails),
            rom: Vec::new(),
            sram,
            program_counter: 0,
            currently_awaiting: None,
            stall_timer: 0,
            registers,
            last_pressed_key: None,
            guardrails,
        };
        proof {
            assert(r.registers@ =~= seq![0u16, 0, 0, 0, 0]);
        }
        r
    }

    pub fn is_rom_loaded(&self) -> (r: bool)
        ensures
            r == (self.machine().rom.len() > 0),
    {
        self.rom.len() > 0
    }

    /// The surface is shown only while it has an area; returns whether the
    /// outside pixel buffer is to be resized.
    pub fn resize_renderer(&mut self, width: u32, height: u32) -> (resize: bool)
        requires
            old(self).wf(),
        ensures
            final(self).wf(),
            final(self).machine() == old(self).machine(),
            final(self).canvas() == old(self).canvas(),
            final(self).held_key() == old(self).held_key(),
            final(self).visible() == (width != 0 && height != 0),
            resize == (width != 0 && height != 0),
    {
        self.renderer.resize_surface(width, height)
    }

    /// Whether the canvas is to be shown.
    pub fn is_visible(&self) -> (r: bool)
        ensures
            r == self.visible(),
    {
        self.renderer.is_visible()
    }

    /// The color of pixel `p` of the canvas.
    pub fn pixel(&self, p: usize) -> (r: (u8, u8, u8))
        requires
            self.wf(),
            p < crate::renderer::CANVAS_PIXELS,
        ensures
            r == self.canvas()[p as int],
    {
        self.renderer.pixel(p)
    }

    /// The word at `addr` of memory.
    pub fn memory(&self, addr: usize) -> (r: u16)
        requires
            self.wf(),
            addr < SRAM_SIZE,
        ensures
            r == self.machine().sram[addr as int],
    {
        self.sram[addr]
    }

    /// The value of register `i` (0 to 3 are A to D, 4 is the stack pointer).
    pub fn register(&self, i: usize) -> (r: u16)
        requires
            self.wf(),
            i < 5,
        ensures
            r == self.machine().regs[i as int],
    {
        self.registers[i]
    }

    /// The program counter.
    pub fn program_counter(&self) -> (r: u16)
        ensures
            r == self.machine().pc,
    {
        self.program_counter
    }

    /// A key with the text `text` went down: an ASCII key's first byte is put
    /// in memory and the key is remembered; other keys are ignored.
    pub fn key_pressed(&mut self, text: &str)
        requires
            old(self).wf(),
            text@.len() > 0,
        ensures
            final(self).wf(),
            final(self).canvas() == old(self).canvas(),
            final(self).visible() == old(self).visible(),
            (forall|i: int| 0 <= i < text@.len() ==> (text@[i] as u32) < 0x80) ==> {
                &&& final(self).machine() == (Machine {
                    sram: old(self).machine().sram.update(PRESSED_KEY as int, (text@[0] as u32) as u16),
                    ..old(self).machine()
                })
                &&& final(self).held_key() == Some(text@)
                &&& final(self).machine().sram[PRESSED_KEY as int] == (text@[0] as u32) as u16
            },
            !(forall|i: int| 0 <= i < text@.len() ==> (text@[i] as u32) < 0x80) ==> {
                &&& final(self).machine() == old(self).machine()
                &&& final(self).held_key() == old(self).held_key()
            },
    {
        let chars = crate::text::chars_of(text);
        let mut i: usize = 0;
        while i < chars.len()
            invariant
                *self == *old(self),
                self.wf(),
                chars@ == text@,
                0 <= i <= chars@.len(),
                forall|k: int| 0 <= k < i ==> (chars@[k] as u32) < 0x80,
            decreases chars@.len() - i,
        {
            if !((chars[i] as u32) < 0x80) {
                return;
            }
            i = i + 1;
        }
        let first = chars[0] as u32;
        self.sram.set(PRESSED_KEY, first as u16);
        self.last_pressed_key = Some(chars);
    }

    /// A key with the text `text` went up: if it is the key remembered, the
    /// key in memory is cleared.
    pub fn key_released(&mut self, text: &str)
        requires
            old(self).wf(),
        ensures
            final(self).wf(),
            final(self).canvas() == old(self).canvas(),
            final(self).visible() == old(self).visible(),
            final(self).held_key() == old(self).held_key(),
            old(self).held_key() == Some(text@) ==> final(self).machine() == (Machine {
                sram: old(self).machine().sram.update(PRESSED_KEY as int, 0),
                ..old(self).machine()
            }),
            old(self).held_key() == Some(text@) ==> final(self).machine().sram[PRESSED_KEY as int] == 0,
            old(self).held_key() != Some(text@) ==> final(self).machine() == old(self).machine(),
    {
        let same = match &self.last_pressed_key {
            Some(k) => {
                let t = crate::text::chars_of(text);
                crate::labels::chars_eq(k, &t)
            },
            None => false,
        };
        if same {
            self.sram.set(PRESSED_KEY, 0);
        }
    }

    fn read_ram(&self, addr: u16) -> (r: Result<u16, Fault>)
        requires
            self.wf(),
        ensures
            r == read_ram(self.machine(), addr),
    {
        if (addr as usize) < SRAM_SIZE {
            Ok(self.sram[addr as usize])
        } else {
            Err(Fault::AddressOutOfBounds(addr))
        }
    }

    fn write_ram(&mut self, addr: u16, v: u16) -> (r: Result<(), Fault>)
        requires
            old(self).wf(),
        ensures
            final(self).wf(),
            final(self).canvas() == old(self).canvas(),
            final(self).visible() == old(self).visible(),
            final(self).held_key() == old(self).held_key(),
            match write_ram(old(self).machine(), addr, v) {
                Ok(m) => r is Ok && final(self).machine() == m,
                Err(f) => r == Err::<(), Fault>(f),
            },
    {
        if addr >= READ_ONLY_END {
            if (addr as usize) < SRAM_SIZE {
                self.sram.set(addr as usize, v);
                Ok(())
            } else {
                Err(Fault::AddressOutOfBounds(addr))
            }
        } else if self.guardrails {
            Err(Fault::ReadOnlyWrite(addr))
        } else {
            Ok(())
        }
    }

    fn read_arg(&self, arg: &Argument) -> (r: Result<u16, Fault>)
        requires
            self.wf(),
        ensures
            r == read_arg(self.machine(), *arg),
    {
        match arg.arg_type {
            ArgumentType::Empty => if self.guardrails {
                Err(Fault::ReadFromEmpty)
            } else {
                Ok(0)
            },
            ArgumentType::Immediate => Ok(arg.value),
            ArgumentType::Address => self.read_ram(arg.value),
            ArgumentType::Register => if arg.value >= 5 {
                if self.guardrails {
                    Err(Fault::RegisterOutOfBounds(arg.value))
                } else {
                    Ok(0)
                }
            } else {
                Ok(self.registers[arg.value as usize])
            },
            ArgumentType::RegisterPointedAddress => if arg.value >= 5 {
                if self.guardrails {
                    Err(Fault::RegisterOutOfBounds(arg.value))
                } else {
                    Ok(0)
                }
            } else {
                let reg = self.registers[arg.value as usize];
                self.read_ram(reg)
            },
        }
    }

    fn write_arg(&mut self, arg: &Argument, v: u16) -> (r: Result<(), Fault>)
        requires
            old(self).wf(),
        ensures
            final(self).wf(),
            final(self).canvas() == old(self).canvas(),
            final(self).visible() == old(self).visible(),
            final(self).held_key() == old(self).held_key(),
            match write_arg(old(self).machine(), *arg, v) {
                Ok(m) => r is Ok && final(self).machine() == m,
                Err(f) => r == Err::<(), Fault>(f),
            },
    {
        match arg.arg_type {
            ArgumentType::Empty => if self.guardrails {
                Err(Fault::WriteToEmpty)
            } else {
                Ok(())
            },
            ArgumentType::Immediate => if self.guardrails {
                Err(Fault::WriteToImmediate)
            } else {
                Ok(())
            },
            ArgumentType::Address => self.write_ram(arg.value, v),
            ArgumentType::Register => if arg.value >= 5 {
                if self.guardrails {
                    Err(Fault::RegisterOutOfBounds(arg.value))
                } else {
                    Ok(())
                }
            } else {
                self.registers.set(arg.value as usize, v);
                Ok(())
            },
            ArgumentType::RegisterPointedAddress => if arg.value >= 5 {
                if self.guardrails {
                    Err(Fault::RegisterOutOfBounds(arg.value))
                } else {
                    Ok(())
                }
            } else {
                let reg = self.registers[arg.value as usize];
                self.write_ram(reg, v)
            },
        }
    }

    /// Pushes `v`; see `push`.
    pub fn push_stack(&mut self, v: u16) -> (r: Result<(), Fault>)
        requires
            old(self).wf(),
        ensures
            final(self).wf(),
            final(self).canvas() == old(self).canvas(),
            final(self).visible() == old(self).visible(),
            final(self).held_key() == old(self).held_key(),
            match push(old(self).machine(), v) {
                Ok(m) => r is Ok && final(self).machine() == m,
                Err(f) => r == Err::<(), Fault>(f),
            },
    {
        let sp = self.registers[4];
        if (self.guardrails && sp as u32 + 1 >= 65535 - 300) || sp == 65535 {
            return Err(Fault::StackOverflow);
        }
        self.registers.set(4, sp + 1);
        self.write_ram(65535 - (sp + 1), v)
    }

    /// Pops the top of the stack; see `pop`.
    pub fn pop_stack(&mut self) -> (r: Result<u16, Fault>)
        requires
            old(self).wf(),
        ensures
            final(self).wf(),
            final(self).canvas() == old(self).canvas(),
            final(self).visible() == old(self).visible(),
            final(self).held_key() == old(self).held_key(),
            match pop(old(self).machine()) {
                Ok((m, v)) => r == Ok::<u16, Fault>(v) && final(self).machine() == m,
                Err(f) => r == Err::<u16, Fault>(f),
            },
    {
        let sp = self.registers[4];
        if sp == 0 {
            return Err(Fault::StackUnderflow);
        }
        self.registers.set(4, sp - 1);
        self.read_ram(65534 - (sp - 1))
    }

    fn execute(&mut self, ins: &Instruction) -> (r: Result<bool, Fault>)
        requires
            old(self).wf(),
        ensures
            final(self).wf(),
            final(self).canvas() == old(self).canvas(),
            final(self).visible() == old(self).visible(),
            final(self).held_key() == old(self).held_key(),
            match execute(old(self).machine(), *ins) {
                Ok((m, jumped)) => r == Ok::<bool, Fault>(jumped) && final(self).machine() == m,
                Err(f) => r == Err::<bool, Fault>(f),
            },
    {
        let a1 = &ins.arg1;
        let a2 = &ins.arg2;
        match ins.opcode {
            OpCode::Add | OpCode::Sub | OpCode::Mul | OpCode::Div | OpCode::And | OpCode::Or
            | OpCode::Xor | OpCode::Shl | OpCode::Shr => {
                let v1 = match self.read_arg(a1) {
                    Ok(v) => v,
                    Err(f) => return Err(f),
                };
                let v2 = match self.read_arg(a2) {
                    Ok(v) => v,
                    Err(f) => return Err(f),
                };
                let res = match apply_alu(ins.opcode, v1, v2) {
                    Ok(v) => v,
                    Err(f) => return Err(f),
                };
                match self.write_arg(a1, res) {
                    Ok(()) => Ok(false),
                    Err(f) => Err(f),
                }
            },
            OpCode::Await => match self.read_arg(a1) {
                Ok(v) => {
                    self.currently_awaiting = Some(v);
                    Ok(false)
                },
                Err(f) => Err(f),
            },
            OpCode::Stall => match self.read_arg(a1) {
                Ok(v) => {
                    self.stall_timer = v;
                    Ok(false)
                },
                Err(f) => Err(f),
            },
            OpCode::Jmp => match self.read_arg(a1) {
                Ok(v) => {
                    self.program_counter = v;
                    Ok(true)
                },
                Err(f) => Err(f),
            },
            OpCode::Mov => {
                let v2 = match self.read_arg(a2) {
                    Ok(v) => v,
                    Err(f) => return Err(f),
                };
                match self.write_arg(a1, v2) {
                    Ok(()) => Ok(false),
                    Err(f) => Err(f),
                }
            },
            OpCode::Jeq | OpCode::Jne => {
                let c = match self.read_arg(a2) {
                    Ok(v) => v,
                    Err(f) => return Err(f),
                };
                let taken = if ins.opcode == OpCode::Jeq {
                    c == 0
                } else {
                    c != 0
                };
                if taken {
                    match self.read_arg(a1) {
                        Ok(v) => {
                            self.program_counter = v;
                            Ok(true)
                        },
                        Err(f) => Err(f),
                    }
                } else {
                    Ok(false)
                }
            },
            OpCode::Push => {
                let v = match self.read_arg(a1) {
                    Ok(v) => v,
                    Err(f) => return Err(f),
                };
                match self.push_stack(v) {
                    Ok(()) => Ok(false),
                    Err(f) => Err(f),
                }
            },
            OpCode::Pop => {
                let v = match self.pop_stack() {
                    Ok(v) => v,
                    Err(f) => return Err(f),
                };
                match self.write_arg(a1, v) {
                    Ok(()) => Ok(false),
                    Err(f) => Err(f),
                }
            },
            OpCode::Jsr => {
                let pc = self.program_counter;
                match self.push_stack(pc) {
                    Ok(()) => {},
                    Err(f) => return Err(f),
                }
                match self.read_arg(a1) {
                    Ok(v) => {
                        self.program_counter = v;
                        Ok(true)
                    },
                    Err(f) => Err(f),
                }
            },
            OpCode::Rtr => match self.pop_stack() {
                Ok(v) => {
                    self.program_counter = v;
                    Ok(false)
                },
                Err(f) => Err(f),
            },
            OpCode::NoOp | OpCode::FDump | OpCode::RDump => Ok(false),
        }
    }

    /// Runs the instruction the program counter points to; see
    /// `run_instruction`.
    fn run_instruction(&mut self, counter: u32) -> (r: Result<(), Fault>)
        requires
            old(self).wf(),
        ensures
            final(self).wf(),
            final(self).canvas() == old(self).canvas(),
            final(self).visible() == old(self).visible(),
            final(self).held_key() == old(self).held_key(),
            match run_instruction(old(self).machine(), counter as int) {
                Ok(m) => r is Ok && final(self).machine() == m,
                Err(f) => r == Err::<(), Fault>(f),
            },
    {
        reveal(run_instruction);
        let pc = self.program_counter;
        let at = pc as usize * 3;
        if at + 3 > self.rom.len() {
            return Err(Fault::ProgramCounterOutOfBounds(pc));
        }
        self.sram.set(PROGRAM_COUNTER, pc);
        let words = [self.rom[at], self.rom[at + 1], self.rom[at + 2]];
        let ins = match Instruction::from_u16(&words, self.guardrails) {
            Ok(i) => i,
            Err(f) => return Err(f),
        };
        let jumped = match self.execute(&ins) {
            Ok(j) => j,
            Err(f) => return Err(f),
        };
        if !jumped && self.program_counter == 65535 {
            return Err(Fault::ProgramCounterOverflow);
        }
        let pc1 = if jumped {
            self.program_counter
        } else {
            self.program_counter + 1
        };
        self.program_counter = if pc1 as usize >= self.rom.len() / 3 {
            0
        } else {
            pc1
        };
        if counter == 0 {
            self.sram.set(VBLANK_FLAG, 1);
        }
        Ok(())
    }

    /// One step of the console: the processor runs the step's cycles (see
    /// `stepped`) and the canvas is drawn from memory (see `picture`). A fault
    /// stops the step; with the guardrails a drawn tile with the id 255 is one.
    pub fn step(&mut self) -> (r: Result<(), Fault>)
        requires
            old(self).wf(),
        ensures
            final(self).wf(),
            final(self).visible() == old(self).visible(),
            final(self).held_key() == old(self).held_key(),
            match stepped(old(self).machine()) {
                Err(f) => r == Err::<(), Fault>(f),
                Ok(m) => {
                    &&& final(self).machine() == m
                    &&& if m.guardrails && has_bad_tile(m.sram) {
                        r == Err::<(), Fault>(Fault::TileIdOutOfBounds)
                    } else {
                        r is Ok && final(self).canvas() == picture(m.sram)
                    }
                },
            },
    {
        self.sram.set(VBLANK_FLAG, 0);
        let ghost target = frame_loop(self.machine(), 0);
        let mut counter: u32 = 0;
        loop
            invariant_except_break
                frame_loop(self.machine(), counter as int) == target,
            invariant
                self.wf(),
                self.renderer.visible() == old(self).renderer.visible(),
                self.held_key() == old(self).held_key(),
                counter <= CYCLES_PER_STEP,
                target == stepped(old(self).machine()),
            ensures
                target == Ok::<Machine, Fault>(self.machine()),
            decreases CYCLES_PER_STEP - counter, self.stall_timer,
        {
            if counter >= CYCLES_PER_STEP {
                break;
            }
            let c = self.sram[CYCLE_COUNTER];
            let next = if c == 65535 {
                0
            } else {
                c + 1
            };
            self.sram.set(CYCLE_COUNTER, next);
            if let Some(a) = self.currently_awaiting {
                if a as usize >= SRAM_SIZE {
                    return Err(Fault::AddressOutOfBounds(a));
                }
                if self.sram[a as usize] != 0 {
                    break;
                }
                self.currently_awaiting = None;
            }
            if self.stall_timer > 0 {
                self.stall_timer = self.stall_timer - 1;
                continue;
            }
            match self.run_instruction(counter) {
                Ok(()) => {},
                Err(f) => return Err(f),
            }
            counter = counter + 1;
        }
        let ok = self.renderer.draw(&self.sram);
        if !ok {
            return Err(Fault::TileIdOutOfBounds);
        }
        Ok(())
    }

    /// Loads a cartridge into a console of version `version`; see
    /// `rom_check`. A refused cartridge changes nothing; an accepted one
    /// becomes the program, and memory is cleared but for the versions and
    /// the default palette (see `loaded_sram`).
    pub fn load_rom_from_bytes(&mut self, bytes: &Vec<u8>, version: &[u8; 3]) -> (r: Result<VersionMatch, RomError>)
        requires
            old(self).wf(),
            bytes@.len() >= 20,
        ensures
            final(self).wf(),
            final(self).canvas() == old(self).canvas(),
            final(self).visible() == old(self).visible(),
            final(self).held_key() == old(self).held_key(),
            r == rom_check(bytes@, version@),
            r is Err ==> final(self).machine() == old(self).machine(),
            r is Ok ==> final(self).machine() == (Machine {
                rom: rom_words(bytes@),
                sram: loaded_sram(old(self).machine().sram, bytes@, version@),
                ..old(self).machine()
            }),
    {
        if bytes[17] != version[0] || bytes[18] != version[1] {
            return Err(RomError::Incompatible);
        }
        if !has_magic(bytes) {
            return Err(RomError::CorruptHeader);
        }
        let matched = if bytes[19] != version[2] {
            VersionMatch::Partial
        } else {
            VersionMatch::Full
        };
        self.rom = words_of(bytes);
        let mut c: usize = 0;
        while c < SRAM_SIZE
            invariant
                self.wf(),
                self.renderer == old(self).renderer,
                self.last_pressed_key == old(self).last_pressed_key,
                self.rom@ == rom_words(bytes@),
                self.program_counter == old(self).program_counter,
                self.currently_awaiting == old(self).currently_awaiting,
                self.stall_timer == old(self).stall_timer,
                self.registers == old(self).registers,
                self.guardrails == old(self).guardrails,
                0 <= c <= SRAM_SIZE,
                forall|a: int| 0 <= a < c ==> #[trigger] self.sram@[a] == 0,
            decreases SRAM_SIZE - c,
        {
            self.sram.set(c, 0);
            c = c + 1;
        }
        self.sram.set(0, version[0] as u16);
        self.sram.set(1, version[1] as u16);
        self.sram.set(2, version[2] as u16);
        self.sram.set(3, bytes[17] as u16);
        self.sram.set(4, bytes[18] as u16);
        self.sram.set(5, bytes[19] as u16);
        let palette: [u16; 15] = [
            0x18E5, 0xF7BF, 0x424A, 0xA535, 0xFA50, 0x347F, 0x3EBE, 0x8787, 0xBAFD, 0x6ADE, 0xECAF,
            0xFB4B, 0xFDC6, 0xF747, 0x2EF1,
        ];
        let ghost before = self.sram@;
        let mut k: usize = 0;
        while k < 15
            invariant
                self.wf(),
                self.renderer == old(self).renderer,
                self.last_pressed_key == old(self).last_pressed_key,
                self.rom@ == rom_words(bytes@),
                self.program_counter == old(self).program_counter,
                self.currently_awaiting == old(self).currently_awaiting,
                self.stall_timer == old(self).stall_timer,
                self.registers == old(self).registers,
                self.guardrails == old(self).guardrails,
                before.len() == SRAM_SIZE,
                palette@ == default_palette(),
                0 <= k <= 15,
                self.sram@.len() == SRAM_SIZE,
                forall|a: int| 0 <= a < SRAM_SIZE && !(301 <= a < 301 + k) ==> #[trigger] self.sram@[a] == before[a],
                forall|a: int| 301 <= a < 301 + k ==> #[trigger] self.sram@[a] == default_palette()[a - 301],
            decreases 15 - k,
        {
            self.sram.set(301 + k, palette[k]);
            k = k + 1;
        }
        proof {
            assert(self.sram@ =~= loaded_sram(old(self).machine().sram, bytes@, version@));
        }
        Ok(matched)
    }
}

} // verus!
