use pine16::assembler::Assembler;
use pine16::cartridge::{rom_image, RomError, VersionMatch};
use pine16::console::{Argument, ArgumentType, Console, Fault, Instruction};
use pine16::instruction::OpCode;

const VERSION: [u8; 3] = [0, 1, 0];

fn cartridge(source: &str) -> Vec<u8> {
    let mut assembler = Assembler::new(source);
    let code = assembler.assemble().unwrap();
    rom_image(&code, &VERSION)
}

fn console_with(source: &str, guardrails: bool) -> Console {
    let mut console = Console::new(guardrails);
    let bytes = cartridge(source);
    assert_eq!(console.load_rom_from_bytes(&bytes, &VERSION), Ok(VersionMatch::Full));
    console
}

#[test]
fn step_runs_arithmetic_and_stores() {
    let mut console = console_with("mov *A #5\nadd *A #3\nmov $#400 *A", false);
    assert_eq!(console.step(), Ok(()));
    assert_eq!(console.memory(400), 8);
    assert_eq!(console.register(0), 8);
    // the step runs 66666 cycles; the counter wraps at 65536
    assert_eq!(console.memory(6), (66666u32 % 65536) as u16);
    // the last instruction run was the third of the program
    assert_eq!(console.memory(7), 2);
    // vblank is set after the first instruction of the step
    assert_eq!(console.memory(8), 1);
}

#[test]
fn division_by_zero_wraps_to_zero() {
    let mut console = console_with("mov *A #7\ndiv *A #0\nmov $#400 *A", false);
    assert_eq!(console.step(), Ok(()));
    assert_eq!(console.memory(400), 0);
    assert_eq!(console.register(0), 0);
}

#[test]
fn shift_by_sixteen_is_a_fault() {
    let mut console = console_with("mov *A #1\nshl *A #16", false);
    assert_eq!(console.step(), Err(Fault::ShiftOverflow));
}

#[test]
fn read_only_memory_with_and_without_guardrails() {
    let mut guarded = console_with("mov $#10 #1", true);
    assert_eq!(guarded.step(), Err(Fault::ReadOnlyWrite(10)));
    let mut free = console_with("mov $#10 #1", false);
    assert_eq!(free.step(), Ok(()));
    assert_eq!(free.memory(10), 0);
}

#[test]
fn push_then_pop_gives_the_value_back() {
    let mut console = console_with("push #7\npop *B\nmov $#500 *B", false);
    assert_eq!(console.step(), Ok(()));
    assert_eq!(console.memory(500), 7);
    assert_eq!(console.register(4), 0);
    assert_eq!(console.memory(65534), 7);
}

#[test]
fn pop_on_empty_stack_is_a_fault() {
    let mut console = console_with("pop *A", false);
    assert_eq!(console.step(), Err(Fault::StackUnderflow));
}

#[test]
fn await_pauses_while_the_word_is_not_zero() {
    let mut console = console_with("mov $#700 #1\nawait #700\nmov $#701 #9", false);
    assert_eq!(console.step(), Ok(()));
    assert_eq!(console.memory(701), 0);
    assert_eq!(console.memory(6), 3);
}

#[test]
fn await_goes_on_once_the_word_is_zero() {
    let mut console = console_with("await #700\nmov $#701 #9", false);
    assert_eq!(console.step(), Ok(()));
    assert_eq!(console.memory(701), 9);
}

#[test]
fn jsr_jumps_to_its_target_and_rtr_returns_after_it() {
    let source = "jmp main\nsub:\nmov $#800 #4\nrtr\nmain:\njsr sub\nmov $#801 #5\njmp main";
    let mut console = console_with(source, false);
    assert_eq!(console.step(), Ok(()));
    assert_eq!(console.memory(800), 4);
    assert_eq!(console.memory(801), 5);
}

#[test]
fn stall_counts_cycles_without_running() {
    let mut console = console_with("stall #5\nmov $#900 #1", false);
    assert_eq!(console.step(), Ok(()));
    assert_eq!(console.memory(900), 1);
}

#[test]
fn empty_rom_is_a_fault() {
    let mut console = Console::new(false);
    assert!(!console.is_rom_loaded());
    assert_eq!(console.step(), Err(Fault::ProgramCounterOutOfBounds(0)));
}

#[test]
fn loading_sets_versions_and_palette() {
    let mut console = Console::new(false);
    let bytes = cartridge("noop");
    assert_eq!(console.load_rom_from_bytes(&bytes, &VERSION), Ok(VersionMatch::Full));
    assert!(console.is_rom_loaded());
    assert_eq!(console.memory(1), 1);
    assert_eq!(console.memory(4), 1);
    assert_eq!(console.memory(301), 0x18E5);
    assert_eq!(console.memory(315), 0x2EF1);
}

#[test]
fn loading_refuses_bad_cartridges() {
    let mut console = Console::new(false);
    let bytes = cartridge("noop");
    assert_eq!(console.load_rom_from_bytes(&bytes, &[1, 0, 0]), Err(RomError::Incompatible));
    assert_eq!(console.load_rom_from_bytes(&bytes, &[0, 1, 3]), Ok(VersionMatch::Partial));
    let mut corrupt = bytes.clone();
    corrupt[0] = b'X';
    assert_eq!(console.load_rom_from_bytes(&corrupt, &VERSION), Err(RomError::CorruptHeader));
}

#[test]
fn rom_image_layout() {
    let bytes = rom_image(&vec![1585, 0, 10], &VERSION);
    assert_eq!(&bytes[..17], b"PINE16ASSEMBLY :D");
    assert_eq!(&bytes[17..20], &VERSION);
    assert_eq!(&bytes[20..], &[0x31, 0x06, 0, 0, 10, 0]);
}

#[test]
fn key_press_and_release() {
    let mut console = Console::new(false);
    console.key_pressed("a");
    assert_eq!(console.memory(9), b'a' as u16);
    console.key_released("b");
    assert_eq!(console.memory(9), b'a' as u16);
    console.key_released("a");
    assert_eq!(console.memory(9), 0);
    console.key_pressed("é");
    assert_eq!(console.memory(9), 0);
}

#[test]
fn decode_unknown_numbers() {
    let words = [0x1600u16, 0, 0];
    assert_eq!(Instruction::from_u16(&words, true), Err(Fault::UnknownOpCode(0x16)));
    let noop = Instruction::from_u16(&words, false).unwrap();
    assert_eq!(noop.opcode, OpCode::NoOp);
    let words = [0x0650u16, 1, 2];
    assert_eq!(Instruction::from_u16(&words, true), Err(Fault::UnknownArgumentType(5)));
    let words = [0x0631u16, 0, 10];
    assert_eq!(
        Instruction::from_u16(&words, true),
        Ok(Instruction {
            opcode: OpCode::Mov,
            arg1: Argument::new(ArgumentType::Register, 0),
            arg2: Argument::new(ArgumentType::Immediate, 10),
        })
    );
}

#[test]
fn dump_instructions_are_unknown_to_the_console() {
    // `fdump` and `rdump` are written by the assembler as 20 and 21, which
    // the console does not know: without guardrails they do nothing
    let mut free = console_with("mov *A #3\nfdump\nrdump\nmov $#400 *A", false);
    assert_eq!(free.step(), Ok(()));
    assert_eq!(free.memory(400), 3);
    // with guardrails they stop the console
    let mut guarded = console_with("fdump", true);
    assert_eq!(guarded.step(), Err(Fault::UnknownOpCode(20)));
    let mut guarded = console_with("rdump", true);
    assert_eq!(guarded.step(), Err(Fault::UnknownOpCode(21)));
}

fn console_with_words(words: Vec<u16>, guardrails: bool) -> Console {
    let mut console = Console::new(guardrails);
    let bytes = rom_image(&words, &VERSION);
    assert_eq!(console.load_rom_from_bytes(&bytes, &VERSION), Ok(VersionMatch::Full));
    console
}

#[test]
fn argument_faults_with_guardrails() {
    // push with an empty argument
    let mut c = console_with_words(vec![0x1000, 0, 0], true);
    assert_eq!(c.step(), Err(Fault::ReadFromEmpty));
    // push #1, then pop into an empty argument
    let mut c = console_with_words(vec![0x1010, 1, 0, 0x1100, 0, 0], true);
    assert_eq!(c.step(), Err(Fault::WriteToEmpty));
    // mov #1 #2
    let mut c = console_with_words(vec![0x0611, 1, 2], true);
    assert_eq!(c.step(), Err(Fault::WriteToImmediate));
    // mov into register 7
    let mut c = console_with_words(vec![0x0631, 7, 1], true);
    assert_eq!(c.step(), Err(Fault::RegisterOutOfBounds(7)));
    // without guardrails the same writes do nothing
    let mut c = console_with_words(vec![0x0631, 7, 1], false);
    assert_eq!(c.step(), Ok(()));
}

#[test]
fn address_past_memory_is_a_fault() {
    let mut c = console_with_words(vec![0x0621, 65535, 1], false);
    assert_eq!(c.step(), Err(Fault::AddressOutOfBounds(65535)));
}

#[test]
fn stack_overflow_with_guardrails() {
    let mut c = console_with("loop:\npush #1\njmp loop", true);
    assert_eq!(c.step(), Ok(()));
    assert_eq!(c.register(4), 33333);
    assert_eq!(c.step(), Err(Fault::StackOverflow));
}

#[test]
fn program_counter_overflow() {
    let mut words = vec![0u16; 65536 * 3];
    words[0] = 0x0710;
    words[1] = 65535;
    let mut c = console_with_words(words, false);
    assert_eq!(c.step(), Err(Fault::ProgramCounterOverflow));
}

#[test]
fn tile_255_stops_a_guarded_step() {
    let mut c = console_with("mov $#3544 #255", true);
    assert_eq!(c.step(), Err(Fault::TileIdOutOfBounds));
    let mut free = console_with("mov $#3544 #255", false);
    assert_eq!(free.step(), Ok(()));
}

#[test]
fn canvas_follows_memory() {
    let mut c = console_with("mov $#300 #0xF800", false);
    assert_eq!(c.step(), Ok(()));
    assert_eq!(c.pixel(0), (255, 0, 0));
    assert!(c.is_visible());
    assert!(!c.resize_renderer(0, 0));
    assert!(!c.is_visible());
}

#[test]
fn loading_clears_memory() {
    let mut console = console_with("mov $#400 #9", false);
    assert_eq!(console.step(), Ok(()));
    assert_eq!(console.memory(400), 9);
    let bytes = cartridge("noop");
    assert_eq!(console.load_rom_from_bytes(&bytes, &VERSION), Ok(VersionMatch::Full));
    assert_eq!(console.memory(400), 0);
    assert_eq!(console.memory(6), 0);
    assert_eq!(console.memory(302), 0xF7BF);
}

#[test]
fn push_stack_then_pop_stack() {
    let mut console = Console::new(true);
    assert_eq!(console.push_stack(7), Ok(()));
    assert_eq!(console.register(4), 1);
    assert_eq!(console.memory(65534), 7);
    assert_eq!(console.pop_stack(), Ok(7));
    assert_eq!(console.register(4), 0);
    assert_eq!(console.pop_stack(), Err(Fault::StackUnderflow));
}

#[test]
fn await_has_its_own_number() {
    let mut assembler = Assembler::new("await #700\njeq #0 *A\nrdump");
    assert_eq!(
        assembler.assemble(),
        Ok(vec![0x0810, 700, 0, 0x0913, 0, 0, 0x1500, 0, 0])
    );
}

#[test]
fn conditional_jumps_take_their_branch() {
    let source = "mov *A #0\njeq skip *A\nmov $#400 #1\nskip:\nmov $#401 #2\njne other *A\nmov $#402 #3\nother:\nnoop";
    let mut console = console_with(source, false);
    assert_eq!(console.step(), Ok(()));
    // jeq jumps over the write to 400, jne does not jump over the one to 402
    assert_eq!(console.memory(400), 0);
    assert_eq!(console.memory(401), 2);
    assert_eq!(console.memory(402), 3);
}
