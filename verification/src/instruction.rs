//! Turning one line of assembly into its three bytecode words.
use vstd::prelude::*;
use crate::argument::{
    a_view, argument_panics, is_byte_table, kind_code, parse_argument_in, spec_parse_argument,
    spec_value, Argument, ArgumentType, ArgumentTypeView, ArgumentView,
};
use crate::asm_error::{errors_view, span, AssemblerError, ErrorView, Span};
use crate::labels::LabelTable;
use crate::numbers::{lowered, to_lowercase};
use crate::text::{
    byte_len, byte_pos, chars_of, first_of, has_char, is_white_space, lemma_encode_len,
    lemma_first_token, ranges_view, string_of, string_of_range, token_ranges, tokens, tokens_wf,
    trim, trim_range, ranges_within,
};

verus! {

/// The instructions of the console, in the order of their numbers.
#[derive(PartialEq, Eq, Structural, Debug, Clone, Copy)]
pub enum OpCode {
    NoOp,
    Add,
    Sub,
    Mul,
    Div,
    Stall,
    Mov,
    Jmp,
    Await,
    Jeq,
    Jne,
    And,
    Or,
    Xor,
    Shl,
    Shr,
    Push,
    Pop,
    Jsr,
    Rtr,
    FDump,
    RDump,
}

impl OpCode {
    /// The instruction's number, which bytecode holds in the high byte of an
    /// instruction's first word.
    pub open spec fn spec_code(self) -> u16 {
        match self {
            OpCode::NoOp => 0,
            OpCode::Add => 1,
            OpCode::Sub => 2,
            OpCode::Mul => 3,
            OpCode::Div => 4,
            OpCode::Stall => 5,
            OpCode::Mov => 6,
            OpCode::Jmp => 7,
            OpCode::Jeq => 9,
            OpCode::Jne => 10,
            OpCode::And => 11,
            OpCode::Or => 12,
            OpCode::Xor => 13,
            OpCode::Shl => 14,
            OpCode::Shr => 15,
            OpCode::Push => 16,
            OpCode::Pop => 17,
            OpCode::Jsr => 18,
            OpCode::Rtr => 19,
            OpCode::FDump => 20,
            OpCode::RDump => 21,
            OpCode::Await => 8,
        }
    }

    pub fn code(&self) -> (r: u16)
        ensures
            r == self.spec_code(),
    {
        match self {
            OpCode::NoOp => 0,
            OpCode::Add => 1,
            OpCode::Sub => 2,
            OpCode::Mul => 3,
            OpCode::Div => 4,
            OpCode::Stall => 5,
            OpCode::Mov => 6,
            OpCode::Jmp => 7,
            OpCode::Jeq => 9,
            OpCode::Jne => 10,
            OpCode::And => 11,
            OpCode::Or => 12,
            OpCode::Xor => 13,
            OpCode::Shl => 14,
            OpCode::Shr => 15,
            OpCode::Push => 16,
            OpCode::Pop => 17,
            OpCode::Jsr => 18,
            OpCode::Rtr => 19,
            OpCode::FDump => 20,
            OpCode::RDump => 21,
            OpCode::Await => 8,
        }
    }

    /// Reads an instruction name (already in lowercase) that begins at byte
    /// `file_byte_index` of the source.
    pub fn from_str(string: &str, file_byte_index: usize) -> (r: Result<OpCode, AssemblerError>)
        ensures
            o_view(r) == spec_from_str(string@, file_byte_index as int),
    {
        opcode_from_chars(string, file_byte_index)
    }
}

pub open spec fn o_view(r: Result<OpCode, AssemblerError>) -> Result<OpCode, ErrorView> {
    match r {
        Ok(v) => Ok(v),
        Err(e) => Err(e@),
    }
}

/// The instruction that a name stands for.
pub open spec fn opcode_named(n: Seq<char>) -> Option<OpCode> {
    if n == "noop"@ {
        Some(OpCode::NoOp)
    } else if n == "add"@ {
        Some(OpCode::Add)
    } else if n == "sub"@ {
        Some(OpCode::Sub)
    } else if n == "mul"@ {
        Some(OpCode::Mul)
    } else if n == "div"@ {
        Some(OpCode::Div)
    } else if n == "stall"@ {
        Some(OpCode::Stall)
    } else if n == "await"@ {
        Some(OpCode::Await)
    } else if n == "mov"@ {
        Some(OpCode::Mov)
    } else if n == "jmp"@ {
        Some(OpCode::Jmp)
    } else if n == "jeq"@ {
        Some(OpCode::Jeq)
    } else if n == "jne"@ {
        Some(OpCode::Jne)
    } else if n == "and"@ {
        Some(OpCode::And)
    } else if n == "or"@ {
        Some(OpCode::Or)
    } else if n == "xor"@ {
        Some(OpCode::Xor)
    } else if n == "shl"@ {
        Some(OpCode::Shl)
    } else if n == "shr"@ {
        Some(OpCode::Shr)
    } else if n == "push"@ {
        Some(OpCode::Push)
    } else if n == "pop"@ {
        Some(OpCode::Pop)
    } else if n == "jsr"@ {
        Some(OpCode::Jsr)
    } else if n == "rtr"@ {
        Some(OpCode::Rtr)
    } else if n == "fdump"@ {
        Some(OpCode::FDump)
    } else if n == "rdump"@ {
        Some(OpCode::RDump)
    } else {
        None
    }
}

/// The name of each instruction in the assembly language.
pub open spec fn mnemonic(op: OpCode) -> Seq<char> {
    match op {
        OpCode::NoOp => "noop"@,
        OpCode::Add => "add"@,
        OpCode::Sub => "sub"@,
        OpCode::Mul => "mul"@,
        OpCode::Div => "div"@,
        OpCode::Stall => "stall"@,
        OpCode::Mov => "mov"@,
        OpCode::Jmp => "jmp"@,
        OpCode::Await => "await"@,
        OpCode::Jeq => "jeq"@,
        OpCode::Jne => "jne"@,
        OpCode::And => "and"@,
        OpCode::Or => "or"@,
        OpCode::Xor => "xor"@,
        OpCode::Shl => "shl"@,
        OpCode::Shr => "shr"@,
        OpCode::Push => "push"@,
        OpCode::Pop => "pop"@,
        OpCode::Jsr => "jsr"@,
        OpCode::Rtr => "rtr"@,
        OpCode::FDump => "fdump"@,
        OpCode::RDump => "rdump"@,
    }
}

/// Each instruction is read from its own name and from no other: a name
/// reads as an instruction exactly when it is that instruction's name, and
/// any other text is an unknown name.
pub proof fn lemma_names(op: OpCode, n: Seq<char>, idx: int)
    ensures
        spec_from_str(mnemonic(op), idx) == Ok::<OpCode, ErrorView>(op),
        spec_from_str(n, idx) == Ok::<OpCode, ErrorView>(op) ==> n == mnemonic(op),
        (forall|o: OpCode| n != #[trigger] mnemonic(o)) ==> spec_from_str(n, idx) is Err,
{
    reveal_strlit("noop");
    reveal_strlit("add");
    reveal_strlit("sub");
    reveal_strlit("mul");
    reveal_strlit("div");
    reveal_strlit("stall");
    reveal_strlit("mov");
    reveal_strlit("jmp");
    reveal_strlit("await");
    reveal_strlit("jeq");
    reveal_strlit("jne");
    reveal_strlit("and");
    reveal_strlit("or");
    reveal_strlit("xor");
    reveal_strlit("shl");
    reveal_strlit("shr");
    reveal_strlit("push");
    reveal_strlit("pop");
    reveal_strlit("jsr");
    reveal_strlit("rtr");
    reveal_strlit("fdump");
    reveal_strlit("rdump");
    match op {
        OpCode::NoOp => {

        },
        OpCode::Add => {
            assert("add"@.len() != "noop"@.len());
        },
        OpCode::Sub => {
            assert("sub"@.len() != "noop"@.len());
            assert("sub"@[0] != "add"@[0]);
        },
        OpCode::Mul => {
            assert("mul"@.len() != "noop"@.len());
            assert("mul"@[0] != "add"@[0]);
            assert("mul"@[0] != "sub"@[0]);
        },
        OpCode::Div => {
            assert("div"@.len() != "noop"@.len());
            assert("div"@[0] != "add"@[0]);
            assert("div"@[0] != "sub"@[0]);
            assert("div"@[0] != "mul"@[0]);
        },
        OpCode::Stall => {
            assert("stall"@.len() != "noop"@.len());
            assert("stall"@.len() != "add"@.len());
            assert("stall"@.len() != "sub"@.len());
            assert("stall"@.len() != "mul"@.len());
            assert("stall"@.len() != "div"@.len());
        },
        OpCode::Await => {
            assert("await"@.len() != "noop"@.len());
            assert("await"@.len() != "add"@.len());
            assert("await"@.len() != "sub"@.len());
            assert("await"@.len() != "mul"@.len());
            assert("await"@.len() != "div"@.len());
            assert("await"@[0] != "stall"@[0]);
        },
        OpCode::Mov => {
            assert("mov"@.len() != "noop"@.len());
            assert("mov"@[0] != "add"@[0]);
            assert("mov"@[0] != "sub"@[0]);
            assert("mov"@[1] != "mul"@[1]);
            assert("mov"@[0] != "div"@[0]);
            assert("mov"@.len() != "stall"@.len());
            assert("mov"@.len() != "await"@.len());
        },
        OpCode::Jmp => {
            assert("jmp"@.len() != "noop"@.len());
            assert("jmp"@[0] != "add"@[0]);
            assert("jmp"@[0] != "sub"@[0]);
            assert("jmp"@[0] != "mul"@[0]);
            assert("jmp"@[0] != "div"@[0]);
            assert("jmp"@.len() != "stall"@.len());
            assert("jmp"@.len() != "await"@.len());
            assert("jmp"@[0] != "mov"@[0]);
        },
        OpCode::Jeq => {
            assert("jeq"@.len() != "noop"@.len());
            assert("jeq"@[0] != "add"@[0]);
            assert("jeq"@[0] != "sub"@[0]);
            assert("jeq"@[0] != "mul"@[0]);
            assert("jeq"@[0] != "div"@[0]);
            assert("jeq"@.len() != "stall"@.len());
            assert("jeq"@.len() != "await"@.len());
            assert("jeq"@[0] != "mov"@[0]);
            assert("jeq"@[1] != "jmp"@[1]);
        },
        OpCode::Jne => {
            assert("jne"@.len() != "noop"@.len());
            assert("jne"@[0] != "add"@[0]);
            assert("jne"@[0] != "sub"@[0]);
            assert("jne"@[0] != "mul"@[0]);
            assert("jne"@[0] != "div"@[0]);
            assert("jne"@.len() != "stall"@.len());
            assert("jne"@.len() != "await"@.len());
            assert("jne"@[0] != "mov"@[0]);
            assert("jne"@[1] != "jmp"@[1]);
            assert("jne"@[1] != "jeq"@[1]);
        },
        OpCode::And => {
            assert("and"@.len() != "noop"@.len());
            assert("and"@[1] != "add"@[1]);
            assert("and"@[0] != "sub"@[0]);
            assert("and"@[0] != "mul"@[0]);
            assert("and"@[0] != "div"@[0]);
            assert("and"@.len() != "stall"@.len());
            assert("and"@.len() != "await"@.len());
            assert("and"@[0] != "mov"@[0]);
            assert("and"@[0] != "jmp"@[0]);
            assert("and"@[0] != "jeq"@[0]);
            assert("and"@[0] != "jne"@[0]);
        },
        OpCode::Or => {
            assert("or"@.len() != "noop"@.len());
            assert("or"@.len() != "add"@.len());
            assert("or"@.len() != "sub"@.len());
            assert("or"@.len() != "mul"@.len());
            assert("or"@.len() != "div"@.len());
            assert("or"@.len() != "stall"@.len());
            assert("or"@.len() != "await"@.len());
            assert("or"@.len() != "mov"@.len());
            assert("or"@.len() != "jmp"@.len());
            assert("or"@.len() != "jeq"@.len());
            assert("or"@.len() != "jne"@.len());
            assert("or"@.len() != "and"@.len());
        },
        OpCode::Xor => {
            assert("xor"@.len() != "noop"@.len());
            assert("xor"@[0] != "add"@[0]);
            assert("xor"@[0] != "sub"@[0]);
            assert("xor"@[0] != "mul"@[0]);
            assert("xor"@[0] != "div"@[0]);
            assert("xor"@.len() != "stall"@.len());
            assert("xor"@.len() != "await"@.len());
            assert("xor"@[0] != "mov"@[0]);
            assert("xor"@[0] != "jmp"@[0]);
            assert("xor"@[0] != "jeq"@[0]);
            assert("xor"@[0] != "jne"@[0]);
            assert("xor"@[0] != "and"@[0]);
            assert("xor"@.len() != "or"@.len());
        },
        OpCode::Shl => {
            assert("shl"@.len() != "noop"@.len());
            assert("shl"@[0] != "add"@[0]);
            assert("shl"@[1] != "sub"@[1]);
            assert("shl"@[0] != "mul"@[0]);
            assert("shl"@[0] != "div"@[0]);
            assert("shl"@.len() != "stall"@.len());
            assert("shl"@.len() != "await"@.len());
            assert("shl"@[0] != "mov"@[0]);
            assert("shl"@[0] != "jmp"@[0]);
            assert("shl"@[0] != "jeq"@[0]);
            assert("shl"@[0] != "jne"@[0]);
            assert("shl"@[0] != "and"@[0]);
            assert("shl"@.len() != "or"@.len());
            assert("shl"@[0] != "xor"@[0]);
        },
        OpCode::Shr => {
            assert("shr"@.len() != "noop"@.len());
            assert("shr"@[0] != "add"@[0]);
            assert("shr"@[1] != "sub"@[1]);
            assert("shr"@[0] != "mul"@[0]);
            assert("shr"@[0] != "div"@[0]);
            assert("shr"@.len() != "stall"@.len());
            assert("shr"@.len() != "await"@.len());
            assert("shr"@[0] != "mov"@[0]);
            assert("shr"@[0] != "jmp"@[0]);
            assert("shr"@[0] != "jeq"@[0]);
            assert("shr"@[0] != "jne"@[0]);
            assert("shr"@[0] != "and"@[0]);
            assert("shr"@.len() != "or"@.len());
            assert("shr"@[0] != "xor"@[0]);
            assert("shr"@[2] != "shl"@[2]);
        },
        OpCode::Push => {
            assert("push"@[0] != "noop"@[0]);
            assert("push"@.len() != "add"@.len());
            assert("push"@.len() != "sub"@.len());
            assert("push"@.len() != "mul"@.len());
            assert("push"@.len() != "div"@.len());
            assert("push"@.len() != "stall"@.len());
            assert("push"@.len() != "await"@.len());
            assert("push"@.len() != "mov"@.len());
            assert("push"@.len() != "jmp"@.len());
            assert("push"@.len() != "jeq"@.len());
            assert("push"@.len() != "jne"@.len());
            assert("push"@.len() != "and"@.len());
            assert("push"@.len() != "or"@.len());
            assert("push"@.len() != "xor"@.len());
            assert("push"@.len() != "shl"@.len());
            assert("push"@.len() != "shr"@.len());
        },
        OpCode::Pop => {
            assert("pop"@.len() != "noop"@.len());
            assert("pop"@[0] != "add"@[0]);
            assert("pop"@[0] != "sub"@[0]);
            assert("pop"@[0] != "mul"@[0]);
            assert("pop"@[0] != "div"@[0]);
            assert("pop"@.len() != "stall"@.len());
            assert("pop"@.len() != "await"@.len());
            assert("pop"@[0] != "mov"@[0]);
            assert("pop"@[0] != "jmp"@[0]);
            assert("pop"@[0] != "jeq"@[0]);
            assert("pop"@[0] != "jne"@[0]);
            assert("pop"@[0] != "and"@[0]);
            assert("pop"@.len() != "or"@.len());
            assert("pop"@[0] != "xor"@[0]);
            assert("pop"@[0] != "shl"@[0]);
            assert("pop"@[0] != "shr"@[0]);
            assert("pop"@.len() != "push"@.len());
        },
        OpCode::Jsr => {
            assert("jsr"@.len() != "noop"@.len());
            assert("jsr"@[0] != "add"@[0]);
            assert("jsr"@[0] != "sub"@[0]);
            assert("jsr"@[0] != "mul"@[0]);
            assert("jsr"@[0] != "div"@[0]);
            assert("jsr"@.len() != "stall"@.len());
            assert("jsr"@.len() != "await"@.len());
            assert("jsr"@[0] != "mov"@[0]);
            assert("jsr"@[1] != "jmp"@[1]);
            assert("jsr"@[1] != "jeq"@[1]);
            assert("jsr"@[1] != "jne"@[1]);
            assert("jsr"@[0] != "and"@[0]);
            assert("jsr"@.len() != "or"@.len());
            assert("jsr"@[0] != "xor"@[0]);
            assert("jsr"@[0] != "shl"@[0]);
            assert("jsr"@[0] != "shr"@[0]);
            assert("jsr"@.len() != "push"@.len());
            assert("jsr"@[0] != "pop"@[0]);
        },
        OpCode::Rtr => {
            assert("rtr"@.len() != "noop"@.len());
            assert("rtr"@[0] != "add"@[0]);
            assert("rtr"@[0] != "sub"@[0]);
            assert("rtr"@[0] != "mul"@[0]);
            assert("rtr"@[0] != "div"@[0]);
            assert("rtr"@.len() != "stall"@.len());
            assert("rtr"@.len() != "await"@.len());
            assert("rtr"@[0] != "mov"@[0]);
            assert("rtr"@[0] != "jmp"@[0]);
            assert("rtr"@[0] != "jeq"@[0]);
            assert("rtr"@[0] != "jne"@[0]);
            assert("rtr"@[0] != "and"@[0]);
            assert("rtr"@.len() != "or"@.len());
            assert("rtr"@[0] != "xor"@[0]);
            assert("rtr"@[0] != "shl"@[0]);
            assert("rtr"@[0] != "shr"@[0]);
            assert("rtr"@.len() != "push"@.len());
            assert("rtr"@[0] != "pop"@[0]);
            assert("rtr"@[0] != "jsr"@[0]);
        },
        OpCode::FDump => {
            assert("fdump"@.len() != "noop"@.len());
            assert("fdump"@.len() != "add"@.len());
            assert("fdump"@.len() != "sub"@.len());
            assert("fdump"@.len() != "mul"@.len());
            assert("fdump"@.len() != "div"@.len());
            assert("fdump"@[0] != "stall"@[0]);
            assert("fdump"@[0] != "await"@[0]);
            assert("fdump"@.len() != "mov"@.len());
            assert("fdump"@.len() != "jmp"@.len());
            assert("fdump"@.len() != "jeq"@.len());
            assert("fdump"@.len() != "jne"@.len());
            assert("fdump"@.len() != "and"@.len());
            assert("fdump"@.len() != "or"@.len());
            assert("fdump"@.len() != "xor"@.len());
            assert("fdump"@.len() != "shl"@.len());
            assert("fdump"@.len() != "shr"@.len());
            assert("fdump"@.len() != "push"@.len());
            assert("fdump"@.len() != "pop"@.len());
            assert("fdump"@.len() != "jsr"@.len());
            assert("fdump"@.len() != "rtr"@.len());
        },
        OpCode::RDump => {
            assert("rdump"@.len() != "noop"@.len());
            assert("rdump"@.len() != "add"@.len());
            assert("rdump"@.len() != "sub"@.len());
            assert("rdump"@.len() != "mul"@.len());
            assert("rdump"@.len() != "div"@.len());
            assert("rdump"@[0] != "stall"@[0]);
            assert("rdump"@[0] != "await"@[0]);
            assert("rdump"@.len() != "mov"@.len());
            assert("rdump"@.len() != "jmp"@.len());
            assert("rdump"@.len() != "jeq"@.len());
            assert("rdump"@.len() != "jne"@.len());
            assert("rdump"@.len() != "and"@.len());
            assert("rdump"@.len() != "or"@.len());
            assert("rdump"@.len() != "xor"@.len());
            assert("rdump"@.len() != "shl"@.len());
            assert("rdump"@.len() != "shr"@.len());
            assert("rdump"@.len() != "push"@.len());
            assert("rdump"@.len() != "pop"@.len());
            assert("rdump"@.len() != "jsr"@.len());
            assert("rdump"@.len() != "rtr"@.len());
            assert("rdump"@[0] != "fdump"@[0]);
        },
    }
    if (forall|o: OpCode| n != #[trigger] mnemonic(o)) {
        assert(n != mnemonic(OpCode::NoOp));
        assert(n != mnemonic(OpCode::Add));
        assert(n != mnemonic(OpCode::Sub));
        assert(n != mnemonic(OpCode::Mul));
        assert(n != mnemonic(OpCode::Div));
        assert(n != mnemonic(OpCode::Stall));
        assert(n != mnemonic(OpCode::Mov));
        assert(n != mnemonic(OpCode::Jmp));
        assert(n != mnemonic(OpCode::Await));
        assert(n != mnemonic(OpCode::Jeq));
        assert(n != mnemonic(OpCode::Jne));
        assert(n != mnemonic(OpCode::And));
        assert(n != mnemonic(OpCode::Or));
        assert(n != mnemonic(OpCode::Xor));
        assert(n != mnemonic(OpCode::Shl));
        assert(n != mnemonic(OpCode::Shr));
        assert(n != mnemonic(OpCode::Push));
        assert(n != mnemonic(OpCode::Pop));
        assert(n != mnemonic(OpCode::Jsr));
        assert(n != mnemonic(OpCode::Rtr));
        assert(n != mnemonic(OpCode::FDump));
        assert(n != mnemonic(OpCode::RDump));
    }
}

/// The instruction that a name stands for, or an `UnknownOpCode` error that
/// spans the name.
pub open spec fn spec_from_str(n: Seq<char>, idx: int) -> Result<OpCode, ErrorView> {
    match opcode_named(n) {
        Some(op) => Ok(op),
        None => Err(ErrorView::UnknownOpCode { opcode: n, span: span(idx, byte_len(n)) }),
    }
}

fn is_name(v: &Vec<char>, lit: &str) -> (r: bool)
    ensures
        r == (v@ == lit@),
{
    let l = chars_of(lit);
    crate::labels::chars_eq(v, &l)
}

fn opcode_from_chars(name: &str, idx: usize) -> (r: Result<OpCode, AssemblerError>)
    ensures
        o_view(r) == spec_from_str(name@, idx as int),
{
    let vv = chars_of(name);
    let v = &vv;
    let op = if is_name(v, "noop") {
        Some(OpCode::NoOp)
    } else if is_name(v, "add") {
        Some(OpCode::Add)
    } else if is_name(v, "sub") {
        Some(OpCode::Sub)
    } else if is_name(v, "mul") {
        Some(OpCode::Mul)
    } else if is_name(v, "div") {
        Some(OpCode::Div)
    } else if is_name(v, "stall") {
        Some(OpCode::Stall)
    } else if is_name(v, "await") {
        Some(OpCode::Await)
    } else if is_name(v, "mov") {
        Some(OpCode::Mov)
    } else if is_name(v, "jmp") {
        Some(OpCode::Jmp)
    } else if is_name(v, "jeq") {
        Some(OpCode::Jeq)
    } else if is_name(v, "jne") {
        Some(OpCode::Jne)
    } else if is_name(v, "and") {
        Some(OpCode::And)
    } else if is_name(v, "or") {
        Some(OpCode::Or)
    } else if is_name(v, "xor") {
        Some(OpCode::Xor)
    } else if is_name(v, "shl") {
        Some(OpCode::Shl)
    } else if is_name(v, "shr") {
        Some(OpCode::Shr)
    } else if is_name(v, "push") {
        Some(OpCode::Push)
    } else if is_name(v, "pop") {
        Some(OpCode::Pop)
    } else if is_name(v, "jsr") {
        Some(OpCode::Jsr)
    } else if is_name(v, "rtr") {
        Some(OpCode::Rtr)
    } else if is_name(v, "fdump") {
        Some(OpCode::FDump)
    } else if is_name(v, "rdump") {
        Some(OpCode::RDump)
    } else {
        None
    };
    match op {
        Some(o) => Ok(o),
        None => {
            proof {
                lemma_encode_len(name@);
            }
            let len = name.len();
            let opcode = string_of(v.as_slice());
            Err(AssemblerError::UnknownOpCode { opcode, span: Span { offset: idx, len } })
        },
    }
}

/// What an instruction asks of one of its arguments.
pub enum Check {
    /// nothing
    Nothing,
    /// that it can be written to: an address or a register
    Writable,
    /// that it can be read: anything but an empty argument
    Readable,
}

pub open spec fn checks(op: OpCode) -> (Check, Check) {
    match op {
        OpCode::NoOp => (Check::Nothing, Check::Nothing),
        OpCode::Add | OpCode::Sub | OpCode::Mul | OpCode::Div | OpCode::Mov | OpCode::And
        | OpCode::Or | OpCode::Xor | OpCode::Shl | OpCode::Shr => (Check::Writable, Check::Readable),
        OpCode::Stall | OpCode::Jmp | OpCode::Await | OpCode::Push | OpCode::Jsr => (
            Check::Readable,
            Check::Nothing,
        ),
        OpCode::Rtr | OpCode::FDump | OpCode::RDump => (Check::Nothing, Check::Nothing),
        OpCode::Pop => (Check::Writable, Check::Nothing),
        OpCode::Jeq | OpCode::Jne => (Check::Readable, Check::Readable),
    }
}

pub open spec fn passes(c: Check, t: ArgumentTypeView) -> bool {
    match c {
        Check::Nothing => true,
        Check::Writable => t is Address || t is RegisterPointedAddress || t is Register,
        Check::Readable => !(t is Empty),
    }
}

/// The error, if any, of an argument that fails what its instruction asks.
pub open spec fn check_errors(c: Check, a: ArgumentView, number: usize) -> Seq<ErrorView> {
    if passes(c, a.arg_type) {
        seq![]
    } else if !(a.arg_type is Empty) {
        seq![
            ErrorView::InvalidArgumentType {
                arg: a.arg_type,
                span: Span { offset: a.file_byte_index, len: a.len_bytes },
            },
        ]
    } else {
        seq![
            ErrorView::MissingRequiredArgument {
                argument_number: number,
                span: Span { offset: a.file_byte_index, len: a.len_bytes },
            },
        ]
    }
}

pub open spec fn value_errors(r: Result<u16, ErrorView>) -> Seq<ErrorView> {
    match r {
        Ok(_) => seq![],
        Err(e) => seq![e],
    }
}

pub open spec fn value_or_zero(r: Result<u16, ErrorView>) -> u16 {
    match r {
        Ok(v) => v,
        Err(_) => 0,
    }
}

/// The three words of an instruction: its number in the high byte of the
/// first word, the kinds of its two arguments in the two nibbles of the low
/// byte, then the two values (0 where a label is unknown); and the errors of
/// arguments that fail their checks, then of unknown labels.
pub open spec fn spec_convert(
    op: OpCode,
    a1: ArgumentView,
    a2: ArgumentView,
    labels: Map<Seq<char>, u16>,
) -> (Seq<u16>, Seq<ErrorView>) {
    let v1 = spec_value(a1, labels);
    let v2 = spec_value(a2, labels);
    (
        seq![
            (op.spec_code() * 256 + kind_code(a1.arg_type) * 16 + kind_code(a2.arg_type)) as u16,
            value_or_zero(v1),
            value_or_zero(v2),
        ],
        check_errors(checks(op).0, a1, 1) + check_errors(checks(op).1, a2, 2) + value_errors(v1)
            + value_errors(v2),
    )
}

fn check_argument(c: &Check, a: &Argument, number: usize, errors: &mut Vec<AssemblerError>)
    ensures
        errors_view(final(errors)@) == errors_view(old(errors)@) + check_errors(*c, a@, number),
{
    let ok = match c {
        Check::Nothing => true,
        Check::Writable => a.is_writable(),
        Check::Readable => a.is_readable(),
    };
    if !ok {
        let span = Span { offset: a.file_byte_index, len: a.len_bytes };
        if !a.is_empty() {
            errors.push(AssemblerError::InvalidArgumentType { arg: a.arg_type.clone(), span });
        } else {
            errors.push(AssemblerError::MissingRequiredArgument { argument_number: number, span });
        }
        proof {
            assert(errors_view(errors@) =~= errors_view(old(errors)@) + check_errors(*c, a@, number));
        }
    } else {
        proof {
            assert(errors_view(errors@) =~= errors_view(old(errors)@) + check_errors(*c, a@, number));
        }
    }
}

fn value_word(a: &Argument, labels: &LabelTable, errors: &mut Vec<AssemblerError>) -> (w: u16)
    requires
        !(a.arg_type@ is Broken),
        labels.wf(),
    ensures
        w == value_or_zero(spec_value(a@, labels@)),
        errors_view(final(errors)@) == errors_view(old(errors)@) + value_errors(
            spec_value(a@, labels@),
        ),
{
    match a.value_as_bytecode(labels) {
        Ok(v) => {
            proof {
                assert(errors_view(errors@) =~= errors_view(old(errors)@) + value_errors(
                    spec_value(a@, labels@),
                ));
            }
            v
        },
        Err(e) => {
            errors.push(e);
            proof {
                assert(errors_view(errors@) =~= errors_view(old(errors)@) + value_errors(
                    spec_value(a@, labels@),
                ));
            }
            0
        },
    }
}

/// Checks the arguments against what the instruction asks and encodes it.
pub fn convert_to_bytecode(
    op: OpCode,
    arg1: Argument,
    arg2: Argument,
    labels: &LabelTable,
    errors: &mut Vec<AssemblerError>,
) -> (r: [u16; 3])
    requires
        !(arg1.arg_type@ is Broken),
        !(arg2.arg_type@ is Broken),
        labels.wf(),
    ensures
        r@ == spec_convert(op, arg1@, arg2@, labels@).0,
        errors_view(final(errors)@) == errors_view(old(errors)@) + spec_convert(
            op,
            arg1@,
            arg2@,
            labels@,
        ).1,
{
    let (c1, c2) = match op {
        OpCode::NoOp => (Check::Nothing, Check::Nothing),
        OpCode::Add | OpCode::Sub | OpCode::Mul | OpCode::Div | OpCode::Mov | OpCode::And
        | OpCode::Or | OpCode::Xor | OpCode::Shl | OpCode::Shr => (Check::Writable, Check::Readable),
        OpCode::Stall | OpCode::Jmp | OpCode::Await | OpCode::Push | OpCode::Jsr => (
            Check::Readable,
            Check::Nothing,
        ),
        OpCode::Rtr | OpCode::FDump | OpCode::RDump => (Check::Nothing, Check::Nothing),
        OpCode::Pop => (Check::Writable, Check::Nothing),
        OpCode::Jeq | OpCode::Jne => (Check::Readable, Check::Readable),
    };
    let ghost e0 = errors_view(errors@);
    check_argument(&c1, &arg1, 1, errors);
    check_argument(&c2, &arg2, 2, errors);
    let k1 = arg1.as_bytecode();
    let k2 = arg2.as_bytecode();
    let w0 = op.code() * 256 + k1 * 16 + k2;
    let w1 = value_word(&arg1, labels, errors);
    let w2 = value_word(&arg2, labels, errors);
    proof {
        let sc = spec_convert(op, arg1@, arg2@, labels@);
        assert(errors_view(errors@) =~= e0 + sc.1);
    }
    let r = [w0, w1, w2];
    proof {
        assert(r@ =~= spec_convert(op, arg1@, arg2@, labels@).0);
    }
    r
}

/// The texts of a line on which encoding it does not finish: a line of one
/// word that holds a `:` but does not end with it, a line of nothing but
/// commas, and an argument on which reading does not finish.
pub open spec fn instruction_panics(s: Seq<char>, a: int, c: int) -> bool {
    if has_char(s, a, c, ':') {
        s[c - 1] != ':' && tokens(s, a, c, false)[0].1 == c
    } else if has_char(s, a, c, '.') {
        false
    } else {
        let toks = tokens(s, a, c, true);
        ||| toks.len() == 0
        ||| (toks.len() > 1 && argument_panics(s.subrange(toks[1].0, toks[1].1)))
        ||| (toks.len() > 2 && argument_panics(s.subrange(toks[2].0, toks[2].1)))
    }
}

/// An argument as read from the source: what it reads as, or the argument
/// that stands for a failed one and the error.
pub open spec fn read_argument(s: Seq<char>, toks: Seq<(int, int)>, k: int, c: int) -> (
    ArgumentView,
    Seq<ErrorView>,
) {
    if toks.len() > k {
        match spec_parse_argument(s.subrange(toks[k].0, toks[k].1), byte_pos(s, toks[k].0)) {
            Ok(a) => (a, seq![]),
            Err(e) => (
                ArgumentView {
                    arg_type: ArgumentTypeView::Broken,
                    file_byte_index: 0,
                    len_bytes: 0,
                },
                seq![e],
            ),
        }
    } else {
        (
            ArgumentView {
                arg_type: ArgumentTypeView::Empty,
                file_byte_index: byte_pos(s, c) as usize,
                len_bytes: 1,
            },
            seq![],
        )
    }
}

/// Whether the trimmed text begins with a comma, which hides the name.
pub open spec fn leading_comma(s: Seq<char>, a: int, c: int) -> bool {
    let tr = trim(s, a, c);
    tr.0 < tr.1 && s[tr.0] == ','
}

/// Whether the trimmed text ends with a comma.
pub open spec fn trailing_comma(s: Seq<char>, a: int, c: int) -> bool {
    let tr = trim(s, a, c);
    tr.0 < tr.1 && s[tr.1 - 1] == ','
}

/// The errors of a comma at the start or at the end of the text.
pub open spec fn comma_errors(s: Seq<char>, a: int, c: int) -> Seq<ErrorView> {
    let tr = trim(s, a, c);
    let e1 = if leading_comma(s, a, c) {
        seq![ErrorView::MisplacedComma { span: span(byte_pos(s, tr.0), 1) }]
    } else {
        seq![]
    };
    let e2 = if trailing_comma(s, a, c) {
        seq![ErrorView::MisplacedComma { span: span(byte_pos(s, tr.1) - 1, 1) }]
    } else {
        seq![]
    };
    e1 + e2
}

/// The instruction that the name `s[oa..ob]` stands for once in lowercase,
/// and its error; a leading comma makes it `noop` with no error.
pub open spec fn op_part(s: Seq<char>, oa: int, ob: int, leading: bool) -> (OpCode, Seq<ErrorView>) {
    if leading {
        (OpCode::NoOp, seq![])
    } else {
        match spec_from_str(lowered(s.subrange(oa, ob)), byte_pos(s, oa)) {
            Ok(op) => (op, seq![]),
            Err(e) => (OpCode::NoOp, seq![e]),
        }
    }
}

/// The error of a name followed by more than two arguments.
pub open spec fn too_many(s: Seq<char>, toks: Seq<(int, int)>, a: int, c: int) -> Seq<ErrorView> {
    if toks.len() - 1 > 2 {
        seq![
            ErrorView::TooManyArguments {
                span: span(byte_pos(s, toks[0].0), byte_pos(s, c) - byte_pos(s, a)),
            },
        ]
    } else {
        seq![]
    }
}

/// The words and errors of the text once it is split at white space and
/// commas into a name and at most two arguments.
pub open spec fn spec_encode(
    s: Seq<char>,
    a: int,
    c: int,
    leading: bool,
    labels: Map<Seq<char>, u16>,
) -> (Seq<u16>, Seq<ErrorView>) {
    let toks = tokens(s, a, c, true);
    let (op, e3) = op_part(s, toks[0].0, toks[0].1, leading);
    let e4 = too_many(s, toks, a, c);
    let (a1, ea1) = read_argument(s, toks, 1, c);
    let (a2, ea2) = read_argument(s, toks, 2, c);
    let before = e3 + e4 + ea1 + ea2;
    if a1.arg_type is Broken || a2.arg_type is Broken {
        (seq![0u16, 0u16, 0u16], before)
    } else {
        let (words, ec) = spec_convert(op, a1, a2, labels);
        (words, before + ec)
    }
}

/// What the instruction text `s[a..c]` encodes to, if it encodes to words,
/// and the errors found in it. `a` is the first character of the line that
/// is not white space and `c` is where its comment begins, or its end.
///
/// A text with a `:` is a label when it ends with one, and else an error;
/// a text with a `.` is a data definition, which the first pass handles; any
/// other is split at white space and commas into a name, which is read in
/// lowercase, and at most two arguments.
pub open spec fn spec_instruction(
    s: Seq<char>,
    a: int,
    c: int,
    labels: Map<Seq<char>, u16>,
) -> (Option<Seq<u16>>, Seq<ErrorView>) {
    if has_char(s, a, c, ':') {
        if s[c - 1] == ':' {
            (None, seq![])
        } else {
            let lt = tokens(s, a, c, false)[0];
            (
                None,
                seq![
                    ErrorView::ExpectedNewline {
                        span: span(byte_pos(s, lt.1) + 1, byte_pos(s, c) - byte_pos(s, lt.1) - 1),
                    },
                ],
            )
        }
    } else if has_char(s, a, c, '.') {
        (None, comma_errors(s, a, c))
    } else {
        let r = spec_encode(s, a, c, leading_comma(s, a, c), labels);
        (Some(r.0), comma_errors(s, a, c) + r.1)
    }
}

/// The source and what the assembler keeps of it to read it: its characters
/// and the byte offset of each.
pub open spec fn source_wf(s: Seq<char>, t: Seq<usize>) -> bool {
    &&& is_byte_table(s, t)
    &&& 4 * s.len() + 8 <= usize::MAX
}

fn read_arg(
    s: &Vec<char>,
    t: &Vec<usize>,
    toks: &Vec<(usize, usize)>,
    k: usize,
    c: usize,
    errors: &mut Vec<AssemblerError>,
) -> (r: Argument)
    requires
        source_wf(s@, t@),
        c <= s@.len(),
        ranges_within(ranges_view(toks@), 0, c as int),
        toks@.len() > k ==> !argument_panics(s@.subrange(toks@[k as int].0 as int, toks@[k as int].1 as int)),
    ensures
        r@ == read_argument(s@, ranges_view(toks@), k as int, c as int).0,
        errors_view(final(errors)@) == errors_view(old(errors)@) + read_argument(
            s@,
            ranges_view(toks@),
            k as int,
            c as int,
        ).1,
{
    let ghost tv = ranges_view(toks@);
    if toks.len() > k {
        let (ta, tb) = toks[k];
        proof {
            assert(tv[k as int] == (ta as int, tb as int));
            crate::text::lemma_byte_pos_mono(s@, 0, ta as int);
        }
        match parse_argument_in(s, t, ta, tb, t[ta]) {
            Ok(a) => {
                proof {
                    assert(errors_view(errors@) =~= errors_view(old(errors)@) + seq![]);
                }
                a
            },
            Err(e) => {
                errors.push(e);
                proof {
                    assert(errors_view(errors@) =~= errors_view(old(errors)@) + read_argument(
                        s@,
                        tv,
                        k as int,
                        c as int,
                    ).1);
                }
                Argument { arg_type: ArgumentType::Broken, file_byte_index: 0, len_bytes: 0 }
            },
        }
    } else {
        proof {
            assert(errors_view(errors@) =~= errors_view(old(errors)@) + seq![]);
        }
        Argument::empty(t[c])
    }
}

/// The case of a text with a `:`.
fn colon_line(
    s: &Vec<char>,
    t: &Vec<usize>,
    a: usize,
    c: usize,
    errors: &mut Vec<AssemblerError>,
)
    requires
        source_wf(s@, t@),
        a < c <= s@.len(),
        !is_white_space(s@[a as int]),
        has_char(s@, a as int, c as int, ':'),
        !instruction_panics(s@, a as int, c as int),
    ensures
        errors_view(final(errors)@) == errors_view(old(errors)@) + spec_instruction(
            s@,
            a as int,
            c as int,
            Map::empty(),
        ).1,
{
    let ghost e0 = errors_view(errors@);
    if s[c - 1] == ':' {
        proof {
            assert(errors_view(errors@) =~= e0 + seq![]);
        }
        return;
    }
    let lt = token_ranges(s, a, c, false);
    proof {
        lemma_first_token(s@, a as int, c as int, false);
        assert(ranges_view(lt@)[0] == (lt@[0].0 as int, lt@[0].1 as int));
        crate::text::lemma_byte_pos_mono(s@, lt@[0].1 as int, c as int);
    }
    let (_, le) = lt[0];
    errors.push(
        AssemblerError::ExpectedNewline { span: Span { offset: t[le] + 1, len: t[c] - t[le] - 1 } },
    );
    proof {
        crate::text::lemma_byte_pos_mono(s@, 0, le as int);
        assert(errors_view(errors@) =~= e0 + spec_instruction(s@, a as int, c as int, Map::empty()).1);
    }
}

/// The name of the instruction, read in lowercase, unless a leading comma
/// hides it.
fn read_opcode(
    s: &Vec<char>,
    t: &Vec<usize>,
    oa: usize,
    ob: usize,
    leading: bool,
    errors: &mut Vec<AssemblerError>,
) -> (op: OpCode)
    requires
        source_wf(s@, t@),
        oa <= ob <= s@.len(),
    ensures
        op == op_part(s@, oa as int, ob as int, leading).0,
        errors_view(final(errors)@) == errors_view(old(errors)@) + op_part(
            s@,
            oa as int,
            ob as int,
            leading,
        ).1,
{
    if leading {
        proof {
            assert(errors_view(errors@) =~= errors_view(old(errors)@) + seq![]);
        }
        return OpCode::NoOp;
    }
    let word = string_of_range(s, oa, ob);
    let lowered = to_lowercase(word.as_str());
    match opcode_from_chars(lowered.as_str(), t[oa]) {
        Ok(op) => {
            proof {
                assert(errors_view(errors@) =~= errors_view(old(errors)@) + seq![]);
            }
            op
        },
        Err(e) => {
            errors.push(e);
            proof {
                assert(errors_view(errors@) =~= errors_view(old(errors)@) + seq![e@]);
            }
            OpCode::NoOp
        },
    }
}

/// Checks for a comma at either end; returns whether one leads.
fn comma_checks(
    s: &Vec<char>,
    t: &Vec<usize>,
    a: usize,
    c: usize,
    errors: &mut Vec<AssemblerError>,
) -> (leading: bool)
    requires
        source_wf(s@, t@),
        a < c <= s@.len(),
    ensures
        leading == leading_comma(s@, a as int, c as int),
        errors_view(final(errors)@) == errors_view(old(errors)@) + comma_errors(
            s@,
            a as int,
            c as int,
        ),
{
    let (ta, te) = trim_range(s, a, c);
    proof {
        crate::text::lemma_byte_pos_mono(s@, 0, te as int);
        crate::text::lemma_byte_pos_mono(s@, 0, ta as int);
        if ta < te {
            crate::text::lemma_byte_pos_mono(s@, (te - 1) as int, te as int);
        }
    }
    let leading = ta < te && s[ta] == ',';
    if leading {
        errors.push(AssemblerError::MisplacedComma { span: Span { offset: t[ta], len: 1 } });
    }
    if ta < te && s[te - 1] == ',' {
        errors.push(AssemblerError::MisplacedComma { span: Span { offset: t[te] - 1, len: 1 } });
    }
    proof {
        assert(errors_view(errors@) =~= errors_view(old(errors)@) + comma_errors(
            s@,
            a as int,
            c as int,
        ));
    }
    leading
}

/// Splits the text into a name and arguments and encodes it; see
/// `spec_encode`.
#[verifier::rlimit(30)]
fn encode(
    s: &Vec<char>,
    t: &Vec<usize>,
    a: usize,
    c: usize,
    leading: bool,
    labels: &LabelTable,
    errors: &mut Vec<AssemblerError>,
) -> (r: [u16; 3])
    requires
        source_wf(s@, t@),
        a < c <= s@.len(),
        tokens(s@, a as int, c as int, true).len() > 0,
        ({
            let toks = tokens(s@, a as int, c as int, true);
            &&& toks.len() > 1 ==> !argument_panics(s@.subrange(toks[1].0, toks[1].1))
            &&& toks.len() > 2 ==> !argument_panics(s@.subrange(toks[2].0, toks[2].1))
        }),
        labels.wf(),
    ensures
        r@ == spec_encode(s@, a as int, c as int, leading, labels@).0,
        errors_view(final(errors)@) == errors_view(old(errors)@) + spec_encode(
            s@,
            a as int,
            c as int,
            leading,
            labels@,
        ).1,
{
    let ghost e0 = errors_view(errors@);
    let toks = token_ranges(s, a, c, true);
    let ghost tv = ranges_view(toks@);
    proof {
        assert(tv.len() == toks@.len());
        assert(tv[0] == (toks@[0].0 as int, toks@[0].1 as int));
        assert(tokens_wf(s@, tv, a as int, c as int, true));
        assert forall|k: int| 0 <= k < tv.len() implies 0 <= #[trigger] tv[k].0 <= tv[k].1
            <= c by {
            assert(a <= tv[k].0);
        }
        assert(ranges_within(tv, 0, c as int));
        crate::text::lemma_byte_pos_mono(s@, 0, c as int);
        crate::text::lemma_byte_pos_mono(s@, a as int, c as int);
        crate::text::lemma_byte_pos_mono(s@, 0, toks@[0].0 as int);
    }
    let (oa, ob) = toks[0];
    let op = read_opcode(s, t, oa, ob, leading, errors);
    if toks.len() - 1 > 2 {
        errors.push(
            AssemblerError::TooManyArguments { span: Span { offset: t[oa], len: t[c] - t[a] } },
        );
    }
    proof {
        assert(errors_view(errors@) =~= e0 + op_part(s@, tv[0].0, tv[0].1, leading).1 + too_many(
            s@,
            tv,
            a as int,
            c as int,
        ));
    }
    let arg1 = read_arg(s, t, &toks, 1, c, errors);
    let arg2 = read_arg(s, t, &toks, 2, c, errors);
    if matches!(arg1.arg_type, ArgumentType::Broken) || matches!(arg2.arg_type, ArgumentType::Broken) {
        proof {
            assert(errors_view(errors@) =~= e0 + spec_encode(s@, a as int, c as int, leading, labels@).1);
            assert(seq![0u16, 0u16, 0u16] =~= [0u16, 0u16, 0u16]@);
        }
        return [0, 0, 0];
    }
    let r = convert_to_bytecode(op, arg1, arg2, labels, errors);
    proof {
        assert(errors_view(errors@) =~= e0 + spec_encode(s@, a as int, c as int, leading, labels@).1);
    }
    r
}

/// Encodes the instruction text `s[a..c]`; see `spec_instruction`.
pub fn assemble_instruction(
    s: &Vec<char>,
    t: &Vec<usize>,
    a: usize,
    c: usize,
    labels: &LabelTable,
    errors: &mut Vec<AssemblerError>,
) -> (r: Option<[u16; 3]>)
    requires
        source_wf(s@, t@),
        a < c <= s@.len(),
        !is_white_space(s@[a as int]),
        !instruction_panics(s@, a as int, c as int),
        labels.wf(),
    ensures
        match r {
            Some(w) => spec_instruction(s@, a as int, c as int, labels@).0 == Some(w@),
            None => spec_instruction(s@, a as int, c as int, labels@).0 is None,
        },
        errors_view(final(errors)@) == errors_view(old(errors)@) + spec_instruction(
            s@,
            a as int,
            c as int,
            labels@,
        ).1,
{
    let ghost e0 = errors_view(errors@);
    proof {
        crate::text::lemma_find_char(s@, a as int, c as int, ':');
        crate::text::lemma_find_char(s@, a as int, c as int, '.');
    }
    if first_of(s, a, c, ':') < c {
        colon_line(s, t, a, c, errors);
        return None;
    }
    let leading = comma_checks(s, t, a, c, errors);
    if first_of(s, a, c, '.') < c {
        return None;
    }
    let r = encode(s, t, a, c, leading, labels, errors);
    proof {
        assert(errors_view(errors@) =~= e0 + spec_instruction(s@, a as int, c as int, labels@).1);
    }
    Some(r)
}

/// The texts of the words of `s[a..c]`, split at white space and commas.
pub open spec fn word_texts(s: Seq<char>, a: int, c: int) -> Seq<Seq<char>> {
    tokens(s, a, c, true).map_values(|r: (int, int)| s.subrange(r.0, r.1))
}

/// What an argument reads as does not depend on where it stands, only
/// whether it reads and, if so, its kind.
proof fn lemma_argument_kind_free(t: Seq<char>, i: int, j: int)
    requires
        t.len() > 0,
    ensures
        spec_parse_argument(t, i) is Ok <==> spec_parse_argument(t, j) is Ok,
        spec_parse_argument(t, i) is Ok ==> spec_parse_argument(t, i)->Ok_0.arg_type
            == spec_parse_argument(t, j)->Ok_0.arg_type,
{
}

/// The value word of an argument depends only on its kind.
proof fn lemma_value_by_kind(a: ArgumentView, b: ArgumentView, labels: Map<Seq<char>, u16>)
    requires
        a.arg_type == b.arg_type,
    ensures
        value_or_zero(spec_value(a, labels)) == value_or_zero(spec_value(b, labels)),
{
}

/// Commas and white space separate the parts of an instruction alike: two
/// instruction texts (with no `:` or `.`) that split into the same words,
/// and that both or neither begin with a comma, encode to the same three
/// words.
pub proof fn lemma_same_words_same_code(
    s1: Seq<char>,
    a1: int,
    c1: int,
    s2: Seq<char>,
    a2: int,
    c2: int,
    labels: Map<Seq<char>, u16>,
)
    requires
        !has_char(s1, a1, c1, ':'),
        !has_char(s1, a1, c1, '.'),
        !has_char(s2, a2, c2, ':'),
        !has_char(s2, a2, c2, '.'),
        word_texts(s1, a1, c1) == word_texts(s2, a2, c2),
        word_texts(s1, a1, c1).len() > 0,
        leading_comma(s1, a1, c1) == leading_comma(s2, a2, c2),
        0 <= a1 <= c1 <= s1.len(),
        0 <= a2 <= c2 <= s2.len(),
    ensures
        spec_instruction(s1, a1, c1, labels).0 is Some,
        spec_instruction(s1, a1, c1, labels).0 == spec_instruction(s2, a2, c2, labels).0,
{
    let t1 = tokens(s1, a1, c1, true);
    let t2 = tokens(s2, a2, c2, true);
    let w = word_texts(s1, a1, c1);
    crate::text::lemma_tokens_wf(s1, a1, c1, true);
    crate::text::lemma_tokens_wf(s2, a2, c2, true);
    assert(t1.len() == t2.len());
    assert forall|k: int| 0 <= k < t1.len() implies #[trigger] s1.subrange(t1[k].0, t1[k].1) == s2.subrange(
        t2[k].0,
        t2[k].1,
    ) by {
        assert(w[k] == s1.subrange(t1[k].0, t1[k].1));
        assert(word_texts(s2, a2, c2)[k] == s2.subrange(t2[k].0, t2[k].1));
    }
    let o1 = op_part(s1, t1[0].0, t1[0].1, leading_comma(s1, a1, c1));
    let o2 = op_part(s2, t2[0].0, t2[0].1, leading_comma(s2, a2, c2));
    assert(o1.0 == o2.0);
    let r1 = read_argument(s1, t1, 1, c1);
    let r2 = read_argument(s2, t2, 1, c2);
    let q1 = read_argument(s1, t1, 2, c1);
    let q2 = read_argument(s2, t2, 2, c2);
    if t1.len() > 1 {
        let x = s1.subrange(t1[1].0, t1[1].1);
        assert(x.len() > 0);
        lemma_argument_kind_free(x, crate::text::byte_pos(s1, t1[1].0), crate::text::byte_pos(s2, t2[1].0));
    }
    if t1.len() > 2 {
        let x = s1.subrange(t1[2].0, t1[2].1);
        assert(x.len() > 0);
        lemma_argument_kind_free(x, crate::text::byte_pos(s1, t1[2].0), crate::text::byte_pos(s2, t2[2].0));
    }
    assert(r1.0.arg_type == r2.0.arg_type);
    assert(q1.0.arg_type == q2.0.arg_type);
    lemma_value_by_kind(r1.0, r2.0, labels);
    lemma_value_by_kind(q1.0, q2.0, labels);
}

/// Commas and white space separate the parts of an instruction alike, also
/// for the errors: two instruction texts (with no `:` or `.`) that split into
/// the same words, and that both or neither begin and both or neither end
/// with a comma, have as many errors, and encode to the same words.
pub proof fn lemma_same_words_same_errors(
    s1: Seq<char>,
    a1: int,
    c1: int,
    s2: Seq<char>,
    a2: int,
    c2: int,
    labels: Map<Seq<char>, u16>,
)
    requires
        !has_char(s1, a1, c1, ':'),
        !has_char(s1, a1, c1, '.'),
        !has_char(s2, a2, c2, ':'),
        !has_char(s2, a2, c2, '.'),
        word_texts(s1, a1, c1) == word_texts(s2, a2, c2),
        word_texts(s1, a1, c1).len() > 0,
        leading_comma(s1, a1, c1) == leading_comma(s2, a2, c2),
        trailing_comma(s1, a1, c1) == trailing_comma(s2, a2, c2),
        0 <= a1 <= c1 <= s1.len(),
        0 <= a2 <= c2 <= s2.len(),
    ensures
        spec_instruction(s1, a1, c1, labels).0 is Some,
        spec_instruction(s1, a1, c1, labels).0 == spec_instruction(s2, a2, c2, labels).0,
        spec_instruction(s1, a1, c1, labels).1.len() == spec_instruction(s2, a2, c2, labels).1.len(),
{
    lemma_same_words_same_code(s1, a1, c1, s2, a2, c2, labels);
    let t1 = tokens(s1, a1, c1, true);
    let t2 = tokens(s2, a2, c2, true);
    let w = word_texts(s1, a1, c1);
    crate::text::lemma_tokens_wf(s1, a1, c1, true);
    crate::text::lemma_tokens_wf(s2, a2, c2, true);
    assert(t1.len() == t2.len());
    assert forall|k: int| 0 <= k < t1.len() implies #[trigger] s1.subrange(t1[k].0, t1[k].1) == s2.subrange(
        t2[k].0,
        t2[k].1,
    ) by {
        assert(w[k] == s1.subrange(t1[k].0, t1[k].1));
        assert(word_texts(s2, a2, c2)[k] == s2.subrange(t2[k].0, t2[k].1));
    }
    let lead = leading_comma(s1, a1, c1);
    let o1 = op_part(s1, t1[0].0, t1[0].1, lead);
    let o2 = op_part(s2, t2[0].0, t2[0].1, lead);
    assert(o1.1.len() == o2.1.len());
    let r1 = read_argument(s1, t1, 1, c1);
    let r2 = read_argument(s2, t2, 1, c2);
    let q1 = read_argument(s1, t1, 2, c1);
    let q2 = read_argument(s2, t2, 2, c2);
    if t1.len() > 1 {
        let x = s1.subrange(t1[1].0, t1[1].1);
        assert(x.len() > 0);
        lemma_argument_kind_free(x, crate::text::byte_pos(s1, t1[1].0), crate::text::byte_pos(s2, t2[1].0));
    }
    if t1.len() > 2 {
        let x = s1.subrange(t1[2].0, t1[2].1);
        assert(x.len() > 0);
        lemma_argument_kind_free(x, crate::text::byte_pos(s1, t1[2].0), crate::text::byte_pos(s2, t2[2].0));
    }
    assert(r1.0.arg_type == r2.0.arg_type);
    assert(q1.0.arg_type == q2.0.arg_type);
    assert(r1.1.len() == r2.1.len());
    assert(q1.1.len() == q2.1.len());
    assert(too_many(s1, t1, a1, c1).len() == too_many(s2, t2, a2, c2).len());
    assert(comma_errors(s1, a1, c1).len() == comma_errors(s2, a2, c2).len());
    let e1 = spec_encode(s1, a1, c1, lead, labels);
    let e2 = spec_encode(s2, a2, c2, lead, labels);
    if !(r1.0.arg_type is Broken || q1.0.arg_type is Broken) {
        let op = o1.0;
        let v1 = spec_value(r1.0, labels);
        let u1 = spec_value(r2.0, labels);
        let v2 = spec_value(q1.0, labels);
        let u2 = spec_value(q2.0, labels);
        assert(value_errors(v1).len() == value_errors(u1).len());
        assert(value_errors(v2).len() == value_errors(u2).len());
        assert(spec_convert(op, r1.0, q1.0, labels).1.len() == spec_convert(op, r2.0, q2.0, labels).1.len());
    }
    assert(e1.1.len() == e2.1.len());
}

} // verus!
