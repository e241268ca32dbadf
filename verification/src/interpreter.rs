//! The first interpreter of the console's bytecode: eight instructions,
//! four registers and a memory that grows where it is written.
use vstd::prelude::*;

verus! {

/// The interpreter's instructions, in the order of their numbers.
#[derive(PartialEq, Eq, Structural, Debug, Clone, Copy)]
pub enum OpCode {
    Add,
    Sub,
    Mul,
    Div,
    Exit,
    Stall,
    Mov,
    Jmp,
}

/// How an argument is read and written.
#[derive(PartialEq, Eq, Structural, Debug, Clone, Copy)]
pub enum ArgumentType {
    Empty,
    /// holds its value
    DirectValue,
    /// its value points into memory
    Address,
    /// the value of a register points into memory
    RegisterPointedAddress,
    /// one of the registers
    Register,
    /// holds a position in the program
    Label,
}

#[derive(PartialEq, Eq, Structural, Debug, Clone, Copy)]
pub struct Argument {
    pub arg_type: ArgumentType,
    pub value: u16,
}

impl Argument {
    pub fn new(arg_type: ArgumentType, value: u16) -> (r: Argument)
        ensures
            r == (Argument { arg_type, value }),
    {
        Argument { arg_type, value }
    }
}

#[derive(PartialEq, Eq, Structural, Debug, Clone, Copy)]
pub struct Instruction {
    pub opcode: OpCode,
    pub arg1: Argument,
    pub arg2: Argument,
}

/// Why the interpreter stops. Each is a state in which the interpreter halts
/// (a fetch past the program, an unknown instruction or argument kind, a read
/// or write it cannot make, an arithmetic overflow); here each halt is a
/// fault that is returned, and the caller stops on it.
#[derive(PartialEq, Eq, Structural, Debug, Clone, Copy)]
pub enum Fault {
    UnknownOpCode(u8),
    UnknownArgumentType(u8),
    InstructionOutOfBounds(u32),
    ReadFromEmpty,
    WriteToEmpty,
    WriteToDirectValue,
    WriteToLabel,
    RegisterOutOfBounds(u16),
    /// a write that lands past the end of memory
    AddressOutOfBounds(u16),
    Overflow,
    DivisionByZero,
}

pub open spec fn opcode_of(b: int) -> Option<OpCode> {
    if b == 0 {
        Some(OpCode::Add)
    } else if b == 1 {
        Some(OpCode::Sub)
    } else if b == 2 {
        Some(OpCode::Mul)
    } else if b == 3 {
        Some(OpCode::Div)
    } else if b == 4 {
        Some(OpCode::Exit)
    } else if b == 5 {
        Some(OpCode::Stall)
    } else if b == 6 {
        Some(OpCode::Mov)
    } else if b == 7 {
        Some(OpCode::Jmp)
    } else {
        None
    }
}

pub open spec fn kind_of(b: int) -> Option<ArgumentType> {
    if b == 0 {
        Some(ArgumentType::Empty)
    } else if b == 1 {
        Some(ArgumentType::DirectValue)
    } else if b == 2 {
        Some(ArgumentType::Address)
    } else if b == 3 {
        Some(ArgumentType::Register)
    } else if b == 4 {
        Some(ArgumentType::RegisterPointedAddress)
    } else if b == 5 {
        Some(ArgumentType::Label)
    } else {
        None
    }
}

/// The instruction in three words: the high byte of the first is the
/// instruction's number, the next four bits and the low four bits the
/// arguments' kinds, the other two words the arguments' values.
pub open spec fn decode(w0: u16, w1: u16, w2: u16) -> Result<Instruction, Fault> {
    let ob = (w0 >> 8u16) as int;
    let k1 = ((w0 & 0xff) >> 4u16) as int;
    let k2 = (w0 & 0xf) as int;
    match opcode_of(ob) {
        None => Err(Fault::UnknownOpCode(ob as u8)),
        Some(op) => match kind_of(k1) {
            None => Err(Fault::UnknownArgumentType(k1 as u8)),
            Some(t1) => match kind_of(k2) {
                None => Err(Fault::UnknownArgumentType(k2 as u8)),
                Some(t2) => Ok(
                    Instruction {
                        opcode: op,
                        arg1: Argument { arg_type: t1, value: w1 },
                        arg2: Argument { arg_type: t2, value: w2 },
                    },
                ),
            },
        },
    }
}

fn opcode_from_u8(b: u8) -> (r: Option<OpCode>)
    ensures
        r == opcode_of(b as int),
{
    match b {
        0 => Some(OpCode::Add),
        1 => Some(OpCode::Sub),
        2 => Some(OpCode::Mul),
        3 => Some(OpCode::Div),
        4 => Some(OpCode::Exit),
        5 => Some(OpCode::Stall),
        6 => Some(OpCode::Mov),
        7 => Some(OpCode::Jmp),
        _ => None,
    }
}

fn kind_from_u8(b: u8) -> (r: Option<ArgumentType>)
    ensures
        r == kind_of(b as int),
{
    match b {
        0 => Some(ArgumentType::Empty),
        1 => Some(ArgumentType::DirectValue),
        2 => Some(ArgumentType::Address),
        3 => Some(ArgumentType::Register),
        4 => Some(ArgumentType::RegisterPointedAddress),
        5 => Some(ArgumentType::Label),
        _ => None,
    }
}

impl Instruction {
    /// Decodes three words; see `decode`.
    pub fn from_u16(source: &[u16; 3]) -> (r: Result<Instruction, Fault>)
        ensures
            r == decode(source@[0], source@[1], source@[2]),
    {
        let w0 = source[0];
        let ob = (w0 >> 8u16) as u8;
        let k1 = ((w0 & 0xff) >> 4u16) as u8;
        let k2 = (w0 & 0xf) as u8;
        proof {
            assert(w0 >> 8u16 <= 255) by (bit_vector);
            assert((w0 & 0xff) >> 4u16 <= 15) by (bit_vector);
            assert(w0 & 0xf <= 15) by (bit_vector);
        }
        let op = match opcode_from_u8(ob) {
            Some(o) => o,
            None => return Err(Fault::UnknownOpCode(ob)),
        };
        let t1 = match kind_from_u8(k1) {
            Some(k) => k,
            None => return Err(Fault::UnknownArgumentType(k1)),
        };
        let t2 = match kind_from_u8(k2) {
            Some(k) => k,
            None => return Err(Fault::UnknownArgumentType(k2)),
        };
        Ok(
            Instruction {
                opcode: op,
                arg1: Argument::new(t1, source[1]),
                arg2: Argument::new(t2, source[2]),
            },
        )
    }
}

/// The interpreter's state.
pub struct InterpreterState {
    pub rom: Seq<u16>,
    pub sram: Seq<u16>,
    pub pp: u32,
    pub stall: u16,
    pub exit_code: u16,
    pub regs: Seq<u16>,
}

/// The value an argument reads as; memory beyond its end reads as 0.
pub open spec fn read_arg(st: InterpreterState, a: Argument) -> Result<u16, Fault> {
    match a.arg_type {
        ArgumentType::Empty => Err(Fault::ReadFromEmpty),
        ArgumentType::DirectValue => Ok(a.value),
        ArgumentType::Label => Ok(a.value),
        ArgumentType::Address => Ok(
            if (a.value as int) < st.sram.len() {
                st.sram[a.value as int]
            } else {
                0
            },
        ),
        ArgumentType::Register => if a.value >= 4 {
            Err(Fault::RegisterOutOfBounds(a.value))
        } else {
            Ok(st.regs[a.value as int])
        },
        ArgumentType::RegisterPointedAddress => if a.value >= 4 {
            Err(Fault::RegisterOutOfBounds(a.value))
        } else {
            let r = st.regs[a.value as int];
            Ok(
                if (r as int) < st.sram.len() {
                    st.sram[r as int]
                } else {
                    0
                },
            )
        },
    }
}

/// Memory with `v` put in at `addr`: the words from `addr` on move up by one,
/// so that memory grows by one word.
pub open spec fn insert_word(st: InterpreterState, addr: u16, v: u16) -> Result<InterpreterState, Fault> {
    if (addr as int) <= st.sram.len() {
        Ok(InterpreterState { sram: st.sram.insert(addr as int, v), ..st })
    } else {
        Err(Fault::AddressOutOfBounds(addr))
    }
}

/// A write through an argument.
pub open spec fn write_arg(st: InterpreterState, a: Argument, v: u16) -> Result<InterpreterState, Fault> {
    match a.arg_type {
        ArgumentType::Empty => Err(Fault::WriteToEmpty),
        ArgumentType::DirectValue => Err(Fault::WriteToDirectValue),
        ArgumentType::Label => Err(Fault::WriteToLabel),
        ArgumentType::Address => insert_word(st, a.value, v),
        ArgumentType::Register => if a.value >= 4 {
            Err(Fault::RegisterOutOfBounds(a.value))
        } else {
            Ok(InterpreterState { regs: st.regs.update(a.value as int, v), ..st })
        },
        ArgumentType::RegisterPointedAddress => if a.value >= 4 {
            Err(Fault::RegisterOutOfBounds(a.value))
        } else {
            insert_word(st, st.regs[a.value as int], v)
        },
    }
}

/// The arithmetic instructions; a result that does not fit in a word is
/// refused, as is division by 0.
pub open spec fn arith(op: OpCode, a: u16, b: u16) -> Result<u16, Fault> {
    match op {
        OpCode::Add => if a + b > 65535 {
            Err(Fault::Overflow)
        } else {
            Ok((a + b) as u16)
        },
        OpCode::Sub => if a < b {
            Err(Fault::Overflow)
        } else {
            Ok((a - b) as u16)
        },
        OpCode::Mul => if a * b > 65535 {
            Err(Fault::Overflow)
        } else {
            Ok((a * b) as u16)
        },
        OpCode::Div => if b == 0 {
            Err(Fault::DivisionByZero)
        } else {
            Ok((a / b) as u16)
        },
        _ => Ok(0),
    }
}

/// What an instruction does, then the step to the next one: the new state
/// and, when the program ends, its exit code. `exit` ends it with the value
/// of its argument, and so does running past the program's end, with 0. A
/// jump sets the position, which then advances like any other.
pub open spec fn execute(st: InterpreterState, ins: Instruction) -> Result<(InterpreterState, Option<u16>), Fault> {
    let a1 = ins.arg1;
    let a2 = ins.arg2;
    let done: Result<InterpreterState, Fault> = match ins.opcode {
        OpCode::Add | OpCode::Sub | OpCode::Mul | OpCode::Div => match read_arg(st, a1) {
            Err(f) => Err(f),
            Ok(v1) => match read_arg(st, a2) {
                Err(f) => Err(f),
                Ok(v2) => match arith(ins.opcode, v1, v2) {
                    Err(f) => Err(f),
                    Ok(r) => write_arg(st, a1, r),
                },
            },
        },
        OpCode::Stall => match read_arg(st, a1) {
            Err(f) => Err(f),
            Ok(v) => Ok(InterpreterState { stall: v, ..st }),
        },
        OpCode::Exit => match read_arg(st, a1) {
            Err(f) => Err(f),
            Ok(v) => Ok(InterpreterState { exit_code: v, ..st }),
        },
        OpCode::Jmp => match read_arg(st, a1) {
            Err(f) => Err(f),
            Ok(v) => Ok(InterpreterState { pp: v as u32, ..st }),
        },
        OpCode::Mov => match read_arg(st, a2) {
            Err(f) => Err(f),
            Ok(v) => write_arg(st, a1, v),
        },
    };
    match done {
        Err(f) => Err(f),
        Ok(s1) => if ins.opcode == OpCode::Exit {
            Ok((s1, Some(s1.exit_code)))
        } else if s1.pp == u32::MAX {
            Err(Fault::Overflow)
        } else {
            let s2 = InterpreterState { pp: (s1.pp + 1) as u32, ..s1 };
            if s2.pp as int >= s2.rom.len() / 3 {
                Ok((InterpreterState { exit_code: 0, ..s2 }, Some(0u16)))
            } else {
                Ok((s2, None))
            }
        },
    }
}

/// Reading an argument right after a write through it gives the value
/// written.
pub proof fn lemma_read_after_write(st: InterpreterState, a: Argument, v: u16)
    requires
        st.regs.len() == 4,
        write_arg(st, a, v) is Ok,
    ensures
        read_arg(write_arg(st, a, v)->Ok_0, a) == Ok::<u16, Fault>(v),
{
}

/// The interpreter's arithmetic: a sum, difference or product is the exact
/// one where it fits in a word and is refused otherwise; a division by a
/// divisor other than 0 gives the integer quotient, and one by 0 is refused.
pub proof fn lemma_arith_exact(op: OpCode, a: u16, b: u16)
    ensures
        op == OpCode::Add ==> (arith(op, a, b) is Ok <==> a + b <= 65535),
        op == OpCode::Add ==> (arith(op, a, b) matches Ok(r) ==> r == a + b),
        op == OpCode::Sub ==> (arith(op, a, b) is Ok <==> a >= b),
        op == OpCode::Sub ==> (arith(op, a, b) matches Ok(r) ==> r + b == a),
        op == OpCode::Mul ==> (arith(op, a, b) is Ok <==> a * b <= 65535),
        op == OpCode::Mul ==> (arith(op, a, b) matches Ok(r) ==> r == a * b),
        op == OpCode::Div ==> (arith(op, a, b) is Ok <==> b != 0),
        op == OpCode::Div ==> (arith(op, a, b) matches Ok(q) ==> q * b <= a < (q + 1) * b),
{
    if op == OpCode::Div && b != 0 {
        let q = a / b;
        vstd::arithmetic::div_mod::lemma_fundamental_div_mod(a as int, b as int);
        assert(q * b <= a < (q + 1) * b) by (nonlinear_arith)
            requires
                a == b * q + a % b,
                0 <= a % b < b,
        ;
    }
}

/// An arithmetic instruction into a register: where the result fits (see
/// `lemma_arith_exact`) the register gets it, with every other register and
/// memory left as they were; otherwise the instruction is refused.
pub proof fn lemma_arithmetic_into_register(st: InterpreterState, op: OpCode, r: u16, src: Argument)
    requires
        st.regs.len() == 4,
        r < 4,
        st.pp < u32::MAX,
        op == OpCode::Add || op == OpCode::Sub || op == OpCode::Mul || op == OpCode::Div,
        read_arg(st, src) is Ok,
    ensures
        ({
            let x = st.regs[r as int];
            let y = read_arg(st, src)->Ok_0;
            let ins = Instruction { opcode: op, arg1: Argument { arg_type: ArgumentType::Register, value: r }, arg2: src };
            let fits = if op == OpCode::Add {
                x + y <= 65535
            } else if op == OpCode::Sub {
                x >= y
            } else if op == OpCode::Mul {
                x * y <= 65535
            } else {
                y != 0
            };
            &&& fits <==> execute(st, ins) is Ok
            &&& execute(st, ins) matches Ok((s, _)) ==> {
                let q = s.regs[r as int];
                &&& op == OpCode::Add ==> q == x + y
                &&& op == OpCode::Sub ==> q + y == x
                &&& op == OpCode::Mul ==> q == x * y
                &&& op == OpCode::Div ==> q * y <= x < (q + 1) * y
                &&& s.regs == st.regs.update(r as int, q)
                &&& s.sram == st.sram
            }
        }),
{
    lemma_arith_exact(op, st.regs[r as int], read_arg(st, src)->Ok_0);
}

/// `mov` into a register puts the source's value there; `exit` ends the
/// program with the value of its argument as the exit code; `jmp` goes on at
/// the position its argument names.
pub proof fn lemma_mov_exit_jmp(st: InterpreterState, r: u16, src: Argument)
    requires
        st.regs.len() == 4,
        r < 4,
        st.pp < u32::MAX,
        read_arg(st, src) is Ok,
    ensures
        ({
            let y = read_arg(st, src)->Ok_0;
            let reg = Argument { arg_type: ArgumentType::Register, value: r };
            &&& execute(st, Instruction { opcode: OpCode::Mov, arg1: reg, arg2: src }) matches Ok((s, _))
                && s.regs == st.regs.update(r as int, y) && s.sram == st.sram
            &&& execute(st, Instruction { opcode: OpCode::Exit, arg1: src, arg2: reg }) matches Ok((_, code))
                && code == Some(y)
            &&& (y as int + 1) < st.rom.len() / 3 ==> (execute(
                st,
                Instruction { opcode: OpCode::Jmp, arg1: src, arg2: reg },
            ) matches Ok((s, None)) && s.pp == y + 1)
        }),
{
}

pub struct Interpreter {
    rom: Vec<u16>,
    sram: Vec<u16>,
    sram_size: usize,
    program_ptr: u32,
    stall_timer: u16,
    exit_code: u16,
    registers: Vec<u16>,
}

impl Interpreter {
    pub closed spec fn wf(&self) -> bool {
        self.registers@.len() == 4
    }

    pub closed spec fn state(&self) -> InterpreterState {
        InterpreterState {
            rom: self.rom@,
            sram: self.sram@,
            pp: self.program_ptr,
            stall: self.stall_timer,
            exit_code: self.exit_code,
            regs: self.registers@,
        }
    }

    /// An interpreter with `sram_size` words of zeroed memory and no
    /// program; the stack size is not used.
    pub fn new(sram_size: usize, stack_size: usize) -> (r: Interpreter)
        ensures
            r.wf(),
            r.state() == (InterpreterState {
                rom: Seq::empty(),
                sram: Seq::new(sram_size as nat, |i: int| 0u16),
                pp: 0,
                stall: 0,
                exit_code: 0,
                regs: seq![0u16, 0, 0, 0],
            }),
    {
        let mut sram: Vec<u16> = Vec::new();
        let mut i: usize = 0;
        while i < sram_size
            invariant
                0 <= i <= sram_size,
                sram@ == Seq::new(i as nat, |k: int| 0u16),
            decreases sram_size - i,
        {
            sram.push(0);
            i = i + 1;
            proof {
                assert(sram@ =~= Seq::new(i as nat, |k: int| 0u16));
            }
        }
        let mut registers: Vec<u16> = Vec::new();
        registers.push(0);
        registers.push(0);
        registers.push(0);
        registers.push(0);
        let r = Interpreter {
            rom: Vec::new(),
            sram,
            sram_size,
            program_ptr: 0,
            stall_timer: 0,
            exit_code: 0,
            registers,
        };
        proof {
            assert(r.registers@ =~= seq![0u16, 0, 0, 0]);
        }
        r
    }

    /// An interpreter with 128000 words of memory.
    pub fn default() -> (r: Interpreter)
        ensures
            r.wf(),
            r.state() == (InterpreterState {
                rom: Seq::empty(),
                sram: Seq::new(128000, |i: int| 0u16),
                pp: 0,
                stall: 0,
                exit_code: 0,
                regs: seq![0u16, 0, 0, 0],
            }),
    {
        Self::new(128 * 1000, 100)
    }

    /// Sets the program.
    pub fn load_rom(&mut self, rom: Vec<u16>)
        ensures
            final(self).wf() == old(self).wf(),
            final(self).state() == (InterpreterState { rom: rom@, ..old(self).state() }),
    {
        self.rom = rom;
    }

    /// The exit code the program ended with.
    pub fn exit_code(&self) -> (r: u16)
        ensures
            r == self.state().exit_code,
    {
        self.exit_code
    }

    /// Counts a stalled cycle down: returns whether the cycle was stalled.
    pub fn stalled(&mut self) -> (r: bool)
        ensures
            final(self).wf() == old(self).wf(),
            r == (old(self).state().stall > 0),
            r ==> final(self).state() == (InterpreterState {
                stall: (old(self).state().stall - 1) as u16,
                ..old(self).state()
            }),
            !r ==> final(self).state() == old(self).state(),
    {
        if self.stall_timer > 0 {
            self.stall_timer = self.stall_timer - 1;
            true
        } else {
            false
        }
    }

    /// The instruction at the current position. A position past the program
    /// and an unknown number halt the interpreter; here they are faults.
    pub fn parse_next_instruction(&self) -> (r: Result<Instruction, Fault>)
        ensures
            ({
                let st = self.state();
                if st.pp as int * 3 + 3 > st.rom.len() {
                    r == Err::<Instruction, Fault>(Fault::InstructionOutOfBounds(st.pp))
                } else {
                    r == decode(
                        st.rom[st.pp as int * 3],
                        st.rom[st.pp as int * 3 + 1],
                        st.rom[st.pp as int * 3 + 2],
                    )
                }
            }),
    {
        let at = self.program_ptr as usize;
        if at >= self.rom.len() / 3 {
            return Err(Fault::InstructionOutOfBounds(self.program_ptr));
        }
        let words = [self.rom[at * 3], self.rom[at * 3 + 1], self.rom[at * 3 + 2]];
        Instruction::from_u16(&words)
    }

    fn read_arg(&self, arg: &Argument) -> (r: Result<u16, Fault>)
        requires
            self.wf(),
        ensures
            r == read_arg(self.state(), *arg),
    {
        match arg.arg_type {
            ArgumentType::Empty => Err(Fault::ReadFromEmpty),
            ArgumentType::DirectValue => Ok(arg.value),
            ArgumentType::Label => Ok(arg.value),
            ArgumentType::Address => Ok(
                if (arg.value as usize) < self.sram.len() {
                    self.sram[arg.value as usize]
                } else {
                    0
                },
            ),
            ArgumentType::Register => if arg.value >= 4 {
                Err(Fault::RegisterOutOfBounds(arg.value))
            } else {
                Ok(self.registers[arg.value as usize])
            },
            ArgumentType::RegisterPointedAddress => if arg.value >= 4 {
                Err(Fault::RegisterOutOfBounds(arg.value))
            } else {
                let r = self.registers[arg.value as usize];
                Ok(
                    if (r as usize) < self.sram.len() {
                        self.sram[r as usize]
                    } else {
                        0
                    },
                )
            },
        }
    }

    fn insert_word(&mut self, addr: u16, v: u16) -> (r: Result<(), Fault>)
        requires
            old(self).wf(),
        ensures
            final(self).wf(),
            match insert_word(old(self).state(), addr, v) {
                Ok(s) => r is Ok && final(self).state() == s,
                Err(f) => r == Err::<(), Fault>(f),
            },
    {
        if (addr as usize) <= self.sram.len() {
            self.sram.insert(addr as usize, v);
            Ok(())
        } else {
            Err(Fault::AddressOutOfBounds(addr))
        }
    }

    fn write_arg(&mut self, arg: &Argument, v: u16) -> (r: Result<(), Fault>)
        requires
            old(self).wf(),
        ensures
            final(self).wf(),
            match write_arg(old(self).state(), *arg, v) {
                Ok(s) => r is Ok && final(self).state() == s,
                Err(f) => r == Err::<(), Fault>(f),
            },
    {
        match arg.arg_type {
            ArgumentType::Empty => Err(Fault::WriteToEmpty),
            ArgumentType::DirectValue => Err(Fault::WriteToDirectValue),
            ArgumentType::Label => Err(Fault::WriteToLabel),
            ArgumentType::Address => self.insert_word(arg.value, v),
            ArgumentType::Register => if arg.value >= 4 {
                Err(Fault::RegisterOutOfBounds(arg.value))
            } else {
                self.registers.set(arg.value as usize, v);
                Ok(())
            },
            ArgumentType::RegisterPointedAddress => if arg.value >= 4 {
                Err(Fault::RegisterOutOfBounds(arg.value))
            } else {
                let r = self.registers[arg.value as usize];
                self.insert_word(r, v)
            },
        }
    }

    /// Runs one instruction and steps to the next; see `execute`. Returns the
    /// exit code when the program ends.
    pub fn execute(&mut self, ins: &Instruction) -> (r: Result<Option<u16>, Fault>)
        requires
            old(self).wf(),
        ensures
            final(self).wf(),
            match execute(old(self).state(), *ins) {
                Ok((s, code)) => r == Ok::<Option<u16>, Fault>(code) && final(self).state() == s,
                Err(f) => r == Err::<Option<u16>, Fault>(f),
            },
    {
        let a1 = &ins.arg1;
        let a2 = &ins.arg2;
        match ins.opcode {
            OpCode::Add | OpCode::Sub | OpCode::Mul | OpCode::Div => {
                let v1 = match self.read_arg(a1) {
                    Ok(v) => v,
                    Err(f) => return Err(f),
                };
                let v2 = match self.read_arg(a2) {
                    Ok(v) => v,
                    Err(f) => return Err(f),
                };
                let res: u16 = match ins.opcode {
                    OpCode::Add => {
                        if v1 as u32 + v2 as u32 > 65535 {
                            return Err(Fault::Overflow);
                        }
                        v1 + v2
                    },
                    OpCode::Sub => {
                        if v1 < v2 {
                            return Err(Fault::Overflow);
                        }
                        v1 - v2
                    },
                    OpCode::Mul => {
                        proof {
                            assert(v1 * v2 <= 65535 * 65535) by (nonlinear_arith)
                                requires
                                    v1 <= 65535,
                                    v2 <= 65535,
                            ;
                        }
                        if v1 as u32 * v2 as u32 > 65535 {
                            return Err(Fault::Overflow);
                        }
                        v1 * v2
                    },
                    _ => {
                        if v2 == 0 {
                            return Err(Fault::DivisionByZero);
                        }
                        v1 / v2
                    },
                };
                match self.write_arg(a1, res) {
                    Ok(()) => {},
                    Err(f) => return Err(f),
                }
            },
            OpCode::Stall => match self.read_arg(a1) {
                Ok(v) => {
                    self.stall_timer = v;
                },
                Err(f) => return Err(f),
            },
            OpCode::Exit => match self.read_arg(a1) {
                Ok(v) => {
                    self.exit_code = v;
                    return Ok(Some(v));
                },
                Err(f) => return Err(f),
            },
            OpCode::Jmp => match self.read_arg(a1) {
                Ok(v) => {
                    self.program_ptr = v as u32;
                },
                Err(f) => return Err(f),
            },
            OpCode::Mov => {
                let v = match self.read_arg(a2) {
                    Ok(v) => v,
                    Err(f) => return Err(f),
                };
                match self.write_arg(a1, v) {
                    Ok(()) => {},
                    Err(f) => return Err(f),
                }
            },
        }
        if self.program_ptr == u32::MAX {
            return Err(Fault::Overflow);
        }
        self.program_ptr = self.program_ptr + 1;
        if self.program_ptr as usize >= self.rom.len() / 3 {
            self.exit_code = 0;
            return Ok(Some(0));
        }
        Ok(None)
    }
}

/// How a cartridge's version compares with the interpreter's.
#[derive(PartialEq, Eq, Structural, Debug, Clone, Copy)]
pub enum VersionMatchType {
    /// the versions are equal
    Full,
    /// only the patch numbers differ
    Partial,
    /// the major or minor numbers differ
    Incompatible,
}

/// Compares a cartridge's version with `own`.
pub fn compare_version(version_bytes: &[u8; 3], own: &[u8; 3]) -> (r: VersionMatchType)
    ensures
        r == (if own@[0] != version_bytes@[0] || own@[1] != version_bytes@[1] {
            VersionMatchType::Incompatible
        } else if own@[2] != version_bytes@[2] {
            VersionMatchType::Partial
        } else {
            VersionMatchType::Full
        }),
{
    if own[0] != version_bytes[0] || own[1] != version_bytes[1] {
        return VersionMatchType::Incompatible;
    }
    if own[2] != version_bytes[2] {
        return VersionMatchType::Partial;
    }
    VersionMatchType::Full
}

} // verus!
