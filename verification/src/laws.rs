//! Laws that tie the assembler, the cartridge format and the console
//! together.
use vstd::prelude::*;
use crate::argument::{kind_code, spec_value, ArgumentTypeView, ArgumentView};
use crate::cartridge::{image, magic, rom_check, rom_words, VersionMatch};
use crate::console::{decode, lemma_opcode_numbers, Argument, ArgumentType, Instruction};
use crate::instruction::{spec_convert, value_or_zero, OpCode};

verus! {

/// The console's reading of an argument kind that the assembler writes.
pub open spec fn console_kind(t: ArgumentTypeView) -> ArgumentType {
    match t {
        ArgumentTypeView::Immediate(_) => ArgumentType::Immediate,
        ArgumentTypeView::Label(_) => ArgumentType::Immediate,
        ArgumentTypeView::Address(_) => ArgumentType::Address,
        ArgumentTypeView::Register(_) => ArgumentType::Register,
        ArgumentTypeView::RegisterPointedAddress(_) => ArgumentType::RegisterPointedAddress,
        _ => ArgumentType::Empty,
    }
}

/// What the console decodes from the three words the assembler writes for an
/// instruction is that instruction, with each argument's kind and value,
/// with or without the guardrails. The exceptions are `fdump` and `rdump`,
/// which the console does not know: with the guardrails they are refused,
/// and without them they read as `noop`.
pub proof fn lemma_console_decodes_assembled(
    op: OpCode,
    a1: ArgumentView,
    a2: ArgumentView,
    labels: Map<Seq<char>, u16>,
    guardrails: bool,
)
    ensures
        ({
            let w = spec_convert(op, a1, a2, labels).0;
            let unknown = op == OpCode::FDump || op == OpCode::RDump;
            let decoded = Instruction {
                opcode: if unknown {
                    OpCode::NoOp
                } else {
                    op
                },
                arg1: Argument {
                    arg_type: console_kind(a1.arg_type),
                    value: value_or_zero(spec_value(a1, labels)),
                },
                arg2: Argument {
                    arg_type: console_kind(a2.arg_type),
                    value: value_or_zero(spec_value(a2, labels)),
                },
            };
            decode(w[0], w[1], w[2], guardrails) == if unknown && guardrails {
                Err::<Instruction, crate::console::Fault>(
                    crate::console::Fault::UnknownOpCode(op.spec_code() as u8),
                )
            } else {
                Ok::<Instruction, crate::console::Fault>(decoded)
            }
        }),
{
    lemma_opcode_numbers(op);
    let x = op.spec_code();
    let k1 = kind_code(a1.arg_type);
    let k2 = kind_code(a2.arg_type);
    let w0 = (x * 256 + k1 * 16 + k2) as u16;
    assert(x * 256 + k1 * 16 + k2 < 65536);
    assert(w0 >> 8u16 == x && (w0 & 0xff) >> 4u16 == k1 && w0 & 0xf == k2) by (bit_vector)
        requires
            x <= 21,
            k1 <= 4,
            k2 <= 4,
            w0 == x * 256 + k1 * 16 + k2,
    ;
}

/// A cartridge made from a program loads back, in a console of the same
/// version, as that program and with a full version match.
pub proof fn lemma_cartridge_roundtrip(code: Seq<u16>, version: Seq<u8>)
    requires
        version.len() == 3,
    ensures
        rom_words(image(code, version)) == code,
        rom_check(image(code, version), version) == Ok::<VersionMatch, crate::cartridge::RomError>(
            VersionMatch::Full,
        ),
{
    let b = image(code, version);
    assert(b.len() == 20 + 2 * code.len());
    assert forall|i: int| 0 <= i < code.len() implies #[trigger] rom_words(b)[i] == code[i] by {
        assert(b[20 + 2 * i] == (code[i] % 256) as u8);
        assert(b[21 + 2 * i] == (code[i] / 256) as u8);
        vstd::arithmetic::div_mod::lemma_fundamental_div_mod(code[i] as int, 256);
    }
    assert(rom_words(b) =~= code);
    assert(b.subrange(0, 17) =~= magic());
}

} // verus!
