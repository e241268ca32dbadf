//! Registers and instruction arguments of the assembly language, and how
//! their source text is read.
use vstd::prelude::*;
use crate::asm_error::{span, AssemblerError, ErrorView};
use crate::numbers::{leading_minus, parsed_number, parse_prefixed_u16};
use crate::text::{byte_len, byte_table, chars_of, lemma_byte_len_subrange, string_of_range};

verus! {

#[derive(PartialEq, Eq, Structural, Debug, Clone, Copy)]
pub enum Register {
    A,
    B,
    C,
    D,
    SP,
}

impl Register {
    /// The register's number in bytecode.
    pub open spec fn spec_index(self) -> u16 {
        match self {
            Register::A => 0,
            Register::B => 1,
            Register::C => 2,
            Register::D => 3,
            Register::SP => 4,
        }
    }

    pub fn index(&self) -> (r: u16)
        ensures
            r == self.spec_index(),
    {
        match self {
            Register::A => 0,
            Register::B => 1,
            Register::C => 2,
            Register::D => 3,
            Register::SP => 4,
        }
    }

    /// Reads a register name; `file_byte_index` is where the name begins in
    /// the source.
    pub fn parse_register(string: &str, file_byte_index: usize) -> (r: Result<Self, AssemblerError>)
        requires
            4 * string@.len() <= usize::MAX,
        ensures
            r_view(r) == spec_parse_register(string@, file_byte_index as int),
    {
        let s = chars_of(string);
        let t = byte_table(&s);
        proof {
            assert(s@.subrange(0, s@.len() as int) =~= s@);
        }
        parse_register_in(&s, &t, 0, s.len(), file_byte_index)
    }
}

pub open spec fn r_view(r: Result<Register, AssemblerError>) -> Result<Register, ErrorView> {
    match r {
        Ok(v) => Ok(v),
        Err(e) => Err(e@),
    }
}

/// What a register name reads as: `A`, `B`, `C`, `D` or `SP`, or else an
/// `UnknownRegister` error that spans the name.
pub open spec fn spec_parse_register(r: Seq<char>, idx: int) -> Result<Register, ErrorView> {
    if r == seq!['A'] {
        Ok(Register::A)
    } else if r == seq!['B'] {
        Ok(Register::B)
    } else if r == seq!['C'] {
        Ok(Register::C)
    } else if r == seq!['D'] {
        Ok(Register::D)
    } else if r == seq!['S', 'P'] {
        Ok(Register::SP)
    } else {
        Err(ErrorView::UnknownRegister { register: r, span: span(idx, byte_len(r)) })
    }
}

/// `t` is the byte table of `s`: the byte offset of every character index.
pub open spec fn is_byte_table(s: Seq<char>, t: Seq<usize>) -> bool {
    &&& t.len() == s.len() + 1
    &&& forall|i: int| 0 <= i <= s.len() ==> t[i] == crate::text::byte_pos(s, i)
}

pub fn parse_register_in(s: &Vec<char>, t: &Vec<usize>, a: usize, b: usize, idx: usize) -> (r:
    Result<Register, AssemblerError>)
    requires
        a <= b <= s@.len(),
        is_byte_table(s@, t@),
    ensures
        r_view(r) == spec_parse_register(s@.subrange(a as int, b as int), idx as int),
{
    let ghost r = s@.subrange(a as int, b as int);
    if b - a == 1 {
        let c = s[a];
        proof {
            assert(r =~= seq![c]);
        }
        if c == 'A' {
            return Ok(Register::A);
        } else if c == 'B' {
            return Ok(Register::B);
        } else if c == 'C' {
            return Ok(Register::C);
        } else if c == 'D' {
            return Ok(Register::D);
        }
    } else if b - a == 2 && s[a] == 'S' && s[a + 1] == 'P' {
        proof {
            assert(r =~= seq!['S', 'P']);
        }
        return Ok(Register::SP);
    }
    proof {
        if b - a == 2 {
            assert(r[0] == s@[a as int] && r[1] == s@[a + 1]);
        }
        lemma_byte_len_subrange(s@, a as int, b as int);
        crate::text::lemma_byte_pos_mono(s@, a as int, b as int);
    }
    let register = string_of_range(s, a, b);
    Err(AssemblerError::UnknownRegister { register, span: crate::asm_error::Span { offset: idx, len: t[b] - t[a] } })
}

#[derive(PartialEq, Debug)]
pub enum ArgumentType {
    Empty,
    /// `#` a value held in the bytecode
    Immediate(u16),
    /// `$#` a value that points into memory
    Address(u16),
    /// `$*` a register whose value points into memory
    RegisterPointedAddress(Register),
    /// `*` a register
    Register(Register),
    /// a name that stands for an instruction's position
    Label(String),
    /// what stands for an argument that failed to parse
    Broken,
}

pub enum ArgumentTypeView {
    Empty,
    Immediate(u16),
    Address(u16),
    RegisterPointedAddress(Register),
    Register(Register),
    Label(Seq<char>),
    Broken,
}

impl View for ArgumentType {
    type V = ArgumentTypeView;

    open spec fn view(&self) -> ArgumentTypeView {
        match self {
            ArgumentType::Empty => ArgumentTypeView::Empty,
            ArgumentType::Immediate(v) => ArgumentTypeView::Immediate(*v),
            ArgumentType::Address(v) => ArgumentTypeView::Address(*v),
            ArgumentType::RegisterPointedAddress(r) => ArgumentTypeView::RegisterPointedAddress(*r),
            ArgumentType::Register(r) => ArgumentTypeView::Register(*r),
            ArgumentType::Label(l) => ArgumentTypeView::Label(l@),
            ArgumentType::Broken => ArgumentTypeView::Broken,
        }
    }
}

impl Clone for ArgumentType {
    fn clone(&self) -> (r: Self)
        ensures
            r@ == self@,
    {
        match self {
            ArgumentType::Empty => ArgumentType::Empty,
            ArgumentType::Immediate(v) => ArgumentType::Immediate(*v),
            ArgumentType::Address(v) => ArgumentType::Address(*v),
            ArgumentType::RegisterPointedAddress(r) => ArgumentType::RegisterPointedAddress(*r),
            ArgumentType::Register(r) => ArgumentType::Register(*r),
            ArgumentType::Label(l) => ArgumentType::Label(l.clone()),
            ArgumentType::Broken => ArgumentType::Broken,
        }
    }
}

impl Default for ArgumentType {
    fn default() -> (r: Self)
        ensures
            r@ == ArgumentTypeView::Empty,
    {
        ArgumentType::Empty
    }
}

#[derive(PartialEq, Debug)]
pub struct Argument {
    pub arg_type: ArgumentType,
    pub file_byte_index: usize,
    pub len_bytes: usize,
}

pub struct ArgumentView {
    pub arg_type: ArgumentTypeView,
    pub file_byte_index: usize,
    pub len_bytes: usize,
}

impl View for Argument {
    type V = ArgumentView;

    open spec fn view(&self) -> ArgumentView {
        ArgumentView {
            arg_type: self.arg_type@,
            file_byte_index: self.file_byte_index,
            len_bytes: self.len_bytes,
        }
    }
}

impl Clone for Argument {
    fn clone(&self) -> (r: Self)
        ensures
            r@ == self@,
    {
        Argument {
            arg_type: self.arg_type.clone(),
            file_byte_index: self.file_byte_index,
            len_bytes: self.len_bytes,
        }
    }
}

pub open spec fn a_view(r: Result<Argument, AssemblerError>) -> Result<ArgumentView, ErrorView> {
    match r {
        Ok(v) => Ok(v@),
        Err(e) => Err(e@),
    }
}

pub open spec fn is_ascii_char(c: char) -> bool {
    (c as u32) < 0x80
}

pub open spec fn is_ascii_alpha(c: char) -> bool {
    ('a' <= c <= 'z') || ('A' <= c <= 'Z')
}

/// The texts on which reading an argument does not finish: an empty text, a
/// first character that is not ASCII (the text is split after its first
/// byte), a `$` followed by a character that is not ASCII, and a number with a
/// leading `-` (see `parse_prefixed_u16`).
pub open spec fn argument_panics(t: Seq<char>) -> bool {
    ||| t.len() == 0
    ||| !is_ascii_char(t[0])
    ||| (t[0] == '$' && t.len() >= 2 && !is_ascii_char(t[1]))
    ||| (t[0] == '#' && t.len() >= 2 && leading_minus(t.drop_first()))
    ||| (t[0] == '$' && t.len() >= 3 && t[1] == '#' && leading_minus(t.subrange(2, t.len() as int)))
}

pub open spec fn parsed(arg_type: ArgumentTypeView, t: Seq<char>, idx: int) -> ArgumentView {
    ArgumentView { arg_type, file_byte_index: idx as usize, len_bytes: byte_len(t) as usize }
}

/// What the text `t` of an argument that begins at byte `idx` reads as. The
/// first character picks the kind: `#` an immediate number, `$#` an address,
/// `$*` a register that points into memory, `*` a register, a letter a
/// label; numbers are read by `parse_int::parse`.
pub open spec fn spec_parse_argument(t: Seq<char>, idx: int) -> Result<ArgumentView, ErrorView> {
    let id = t[0];
    let value = t.drop_first();
    if value.len() == 0 && !is_ascii_alpha(id) {
        Err(ErrorView::ArgumentMissingValue { span: span(idx + 1, 1) })
    } else if id == '#' {
        match parsed_number(value) {
            Ok(v) => Ok(parsed(ArgumentTypeView::Immediate(v), t, idx)),
            Err(k) => Err(
                ErrorView::FailedToParseNumber {
                    number: value,
                    parseerror: k,
                    span: span(idx + 2, byte_len(value)),
                },
            ),
        }
    } else if id == '$' {
        let at = value[0];
        let v2 = value.drop_first();
        if at == '#' {
            match parsed_number(v2) {
                Ok(v) => Ok(parsed(ArgumentTypeView::Address(v), t, idx)),
                Err(k) => Err(
                    ErrorView::FailedToParseNumber {
                        number: v2,
                        parseerror: k,
                        span: span(idx + 2, byte_len(v2)),
                    },
                ),
            }
        } else if at == '*' {
            match spec_parse_register(v2, idx + 2) {
                Ok(r) => Ok(parsed(ArgumentTypeView::RegisterPointedAddress(r), t, idx)),
                Err(e) => Err(e),
            }
        } else {
            Err(ErrorView::UnknownAddressType { address: seq![at], span: span(idx, 1) })
        }
    } else if id == '*' {
        match spec_parse_register(value, idx + 1) {
            Ok(r) => Ok(parsed(ArgumentTypeView::Register(r), t, idx)),
            Err(e) => Err(e),
        }
    } else if is_ascii_alpha(id) {
        Ok(parsed(ArgumentTypeView::Label(t), t, idx))
    } else {
        Err(ErrorView::UnknownArgumentPrefix { argument_prefix: seq![id], span: span(idx, 1) })
    }
}

/// Reads the argument `s[a..b]`, which begins at byte `idx` of the source.
pub fn parse_argument_in(s: &Vec<char>, t: &Vec<usize>, a: usize, b: usize, idx: usize) -> (r:
    Result<Argument, AssemblerError>)
    requires
        a <= b <= s@.len(),
        is_byte_table(s@, t@),
        !argument_panics(s@.subrange(a as int, b as int)),
        idx + 4 * (b - a) + 2 <= usize::MAX,
    ensures
        a_view(r) == spec_parse_argument(s@.subrange(a as int, b as int), idx as int),
{
    let ghost whole = s@.subrange(a as int, b as int);
    proof {
        lemma_byte_len_subrange(s@, a as int, b as int);
        lemma_byte_len_subrange(s@, a + 1, b as int);
        crate::text::lemma_byte_pos_mono(s@, a as int, b as int);
        assert(whole.drop_first() =~= s@.subrange(a + 1, b as int));
    }
    let id = s[a];
    let len_bytes = t[b] - t[a];
    if b - a == 1 && !(('a' <= id && id <= 'z') || ('A' <= id && id <= 'Z')) {
        return Err(AssemblerError::ArgumentMissingValue { span: crate::asm_error::Span { offset: idx + 1, len: 1 } });
    }
    if id == '#' {
        let value = string_of_range(s, a + 1, b);
        proof {
            assert(leading_minus(value@) == leading_minus(whole.drop_first()));
        }
        match parse_prefixed_u16(value.as_str()) {
            Ok(v) => {
                return Ok(Argument { arg_type: ArgumentType::Immediate(v), file_byte_index: idx, len_bytes });
            },
            Err(k) => {
                return Err(
                    AssemblerError::FailedToParseNumber {
                        number: value,
                        parseerror: k,
                        span: crate::asm_error::Span { offset: idx + 2, len: t[b] - t[a + 1] },
                    },
                );
            },
        }
    } else if id == '$' {
        let at = s[a + 1];
        proof {
            lemma_byte_len_subrange(s@, a + 2, b as int);
            crate::text::lemma_byte_pos_mono(s@, a + 2, b as int);
            assert(whole.drop_first().drop_first() =~= s@.subrange(a + 2, b as int));
        }
        if at == '#' {
            let v2 = string_of_range(s, a + 2, b);
            proof {
                assert(whole.subrange(2, whole.len() as int) =~= v2@);
            }
            match parse_prefixed_u16(v2.as_str()) {
                Ok(v) => {
                    return Ok(Argument { arg_type: ArgumentType::Address(v), file_byte_index: idx, len_bytes });
                },
                Err(k) => {
                    return Err(
                        AssemblerError::FailedToParseNumber {
                            number: v2,
                            parseerror: k,
                            span: crate::asm_error::Span { offset: idx + 2, len: t[b] - t[a + 2] },
                        },
                    );
                },
            }
        } else if at == '*' {
            match parse_register_in(s, t, a + 2, b, idx + 2) {
                Ok(r) => {
                    return Ok(
                        Argument {
                            arg_type: ArgumentType::RegisterPointedAddress(r),
                            file_byte_index: idx,
                            len_bytes,
                        },
                    );
                },
                Err(e) => {
                    return Err(e);
                },
            }
        } else {
            let address = string_of_range(s, a + 1, a + 2);
            proof {
                assert(address@ =~= seq![at]);
            }
            return Err(AssemblerError::UnknownAddressType { address, span: crate::asm_error::Span { offset: idx, len: 1 } });
        }
    } else if id == '*' {
        match parse_register_in(s, t, a + 1, b, idx + 1) {
            Ok(r) => {
                return Ok(Argument { arg_type: ArgumentType::Register(r), file_byte_index: idx, len_bytes });
            },
            Err(e) => {
                return Err(e);
            },
        }
    } else if ('a' <= id && id <= 'z') || ('A' <= id && id <= 'Z') {
        let label = string_of_range(s, a, b);
        return Ok(Argument { arg_type: ArgumentType::Label(label), file_byte_index: idx, len_bytes });
    } else {
        let argument_prefix = string_of_range(s, a, a + 1);
        proof {
            assert(argument_prefix@ =~= seq![id]);
        }
        return Err(
            AssemblerError::UnknownArgumentPrefix { argument_prefix, span: crate::asm_error::Span { offset: idx, len: 1 } },
        );
    }
}

impl Argument {
    /// An argument that was left out; `file_byte_index` is where it would be.
    pub fn empty(file_byte_index: usize) -> (r: Argument)
        ensures
            r@ == (ArgumentView { arg_type: ArgumentTypeView::Empty, file_byte_index, len_bytes: 1 }),
    {
        Argument { arg_type: ArgumentType::default(), file_byte_index, len_bytes: 1 }
    }

    /// Reads the text of one argument that begins at byte `file_byte_index`
    /// of the source.
    pub fn parse_argument(string: &str, file_byte_index: usize) -> (r: Result<Argument, AssemblerError>)
        requires
            !argument_panics(string@),
            file_byte_index + 4 * string@.len() + 2 <= usize::MAX,
        ensures
            a_view(r) == spec_parse_argument(string@, file_byte_index as int),
    {
        let s = chars_of(string);
        let t = byte_table(&s);
        proof {
            assert(s@.subrange(0, s@.len() as int) =~= s@);
        }
        parse_argument_in(&s, &t, 0, s.len(), file_byte_index)
    }

    /// The argument kind's number in bytecode.
    pub fn as_bytecode(&self) -> (r: u16)
        requires
            !(self.arg_type@ is Broken),
        ensures
            r == kind_code(self.arg_type@),
    {
        match &self.arg_type {
            ArgumentType::Empty => 0,
            ArgumentType::Immediate(_) | ArgumentType::Label(_) => 1,
            ArgumentType::Address(_) => 2,
            ArgumentType::Register(_) => 3,
            ArgumentType::RegisterPointedAddress(_) => 4,
            ArgumentType::Broken => 0,
        }
    }

    /// The argument's value in bytecode: the number, the register's number,
    /// or the position that the label stands for; an unknown label is an
    /// error.
    pub fn value_as_bytecode(&self, labels: &crate::labels::LabelTable) -> (r: Result<u16, AssemblerError>)
        requires
            !(self.arg_type@ is Broken),
            labels.wf(),
        ensures
            r_u16_view(r) == spec_value(self@, labels@),
    {
        match &self.arg_type {
            ArgumentType::Empty => Ok(0),
            ArgumentType::Immediate(value) => Ok(*value),
            ArgumentType::Address(value) => Ok(*value),
            ArgumentType::Register(value) => Ok(value.index()),
            ArgumentType::RegisterPointedAddress(value) => Ok(value.index()),
            ArgumentType::Label(value) => {
                match labels.get(value) {
                    Some(v) => Ok(v),
                    None => Err(
                        AssemblerError::UnknownLabel {
                            label: value.clone(),
                            span: crate::asm_error::Span { offset: self.file_byte_index, len: self.len_bytes },
                        },
                    ),
                }
            },
            ArgumentType::Broken => Ok(0),
        }
    }

    pub fn is_empty(&self) -> (r: bool)
        ensures
            r == (self.arg_type@ is Empty),
    {
        matches!(self.arg_type, ArgumentType::Empty)
    }

    pub fn is_readable(&self) -> (r: bool)
        ensures
            r == !(self.arg_type@ is Empty),
    {
        !self.is_empty()
    }

    pub fn is_writable(&self) -> (r: bool)
        ensures
            r == (self.arg_type@ is Address || self.arg_type@ is RegisterPointedAddress
                || self.arg_type@ is Register),
    {
        self.is_address() || self.is_register()
    }

    pub fn is_immediate(&self) -> (r: bool)
        ensures
            r == (self.arg_type@ is Immediate),
    {
        matches!(self.arg_type, ArgumentType::Immediate(_))
    }

    pub fn is_immediate_address(&self) -> (r: bool)
        ensures
            r == (self.arg_type@ is Address),
    {
        matches!(self.arg_type, ArgumentType::Address(_))
    }

    pub fn is_register(&self) -> (r: bool)
        ensures
            r == (self.arg_type@ is Register),
    {
        matches!(self.arg_type, ArgumentType::Register(_))
    }

    pub fn is_label(&self) -> (r: bool)
        ensures
            r == (self.arg_type@ is Label),
    {
        matches!(self.arg_type, ArgumentType::Label(_))
    }

    pub fn is_register_pointed(&self) -> (r: bool)
        ensures
            r == (self.arg_type@ is RegisterPointedAddress),
    {
        matches!(self.arg_type, ArgumentType::RegisterPointedAddress(_))
    }

    pub fn is_address(&self) -> (r: bool)
        ensures
            r == (self.arg_type@ is Address || self.arg_type@ is RegisterPointedAddress),
    {
        self.is_immediate_address() || self.is_register_pointed()
    }
}

/// The number that stands for an argument's kind in bytecode.
pub open spec fn kind_code(t: ArgumentTypeView) -> u16 {
    match t {
        ArgumentTypeView::Empty => 0,
        ArgumentTypeView::Immediate(_) => 1,
        ArgumentTypeView::Label(_) => 1,
        ArgumentTypeView::Address(_) => 2,
        ArgumentTypeView::Register(_) => 3,
        ArgumentTypeView::RegisterPointedAddress(_) => 4,
        ArgumentTypeView::Broken => 0,
    }
}

pub open spec fn r_u16_view(r: Result<u16, AssemblerError>) -> Result<u16, ErrorView> {
    match r {
        Ok(v) => Ok(v),
        Err(e) => Err(e@),
    }
}

/// The value that an argument contributes to bytecode.
pub open spec fn spec_value(a: ArgumentView, labels: Map<Seq<char>, u16>) -> Result<u16, ErrorView> {
    match a.arg_type {
        ArgumentTypeView::Immediate(v) => Ok(v),
        ArgumentTypeView::Address(v) => Ok(v),
        ArgumentTypeView::Register(r) => Ok(r.spec_index()),
        ArgumentTypeView::RegisterPointedAddress(r) => Ok(r.spec_index()),
        ArgumentTypeView::Label(l) => if labels.contains_key(l) {
            Ok(labels[l])
        } else {
            Err(
                ErrorView::UnknownLabel {
                    label: l,
                    span: crate::asm_error::Span { offset: a.file_byte_index, len: a.len_bytes },
                },
            )
        },
        _ => Ok(0),
    }
}

} // verus!
