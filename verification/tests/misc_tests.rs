use pine16::audio::{channel_config, noise_step};
use pine16::cartridge::words_of;
use pine16::interpreter::{compare_version, Fault, Interpreter, VersionMatchType};
use pine16::tokenizer::{Token, TokenError, Tokenizer, Value};

#[test]
fn interpreter_runs_to_exit() {
    let mut interp = Interpreter::new(16, 0);
    // mov *A $5 ; exit *A
    interp.load_rom(vec![0x0631, 0, 5, 0x0430, 0, 0]);
    let ins = interp.parse_next_instruction().unwrap();
    assert_eq!(interp.execute(&ins), Ok(None));
    let ins = interp.parse_next_instruction().unwrap();
    assert_eq!(interp.execute(&ins), Ok(Some(5)));
    assert_eq!(interp.exit_code(), 5);
}

#[test]
fn interpreter_faults() {
    let mut interp = Interpreter::default();
    // add *A $1, with A at 0, then sub *A $2
    interp.load_rom(vec![0x0031, 0, 1, 0x0131, 0, 2, 0x0410, 0, 0]);
    let ins = interp.parse_next_instruction().unwrap();
    assert_eq!(interp.execute(&ins), Ok(None));
    let ins = interp.parse_next_instruction().unwrap();
    assert_eq!(interp.execute(&ins), Err(Fault::Overflow));
    let mut bad = Interpreter::new(4, 0);
    bad.load_rom(vec![0x0900, 0, 0]);
    assert_eq!(bad.parse_next_instruction().unwrap_err(), Fault::UnknownOpCode(9));
}

#[test]
fn interpreter_stall_and_end() {
    let mut interp = Interpreter::new(4, 0);
    // stall $2 ; the program then runs past its end
    interp.load_rom(vec![0x0510, 2, 0]);
    let ins = interp.parse_next_instruction().unwrap();
    assert_eq!(interp.execute(&ins), Ok(Some(0)));
    assert!(interp.stalled());
    assert!(interp.stalled());
    assert!(!interp.stalled());
}

#[test]
fn version_comparison() {
    assert_eq!(compare_version(&[0, 1, 0], &[0, 1, 0]), VersionMatchType::Full);
    assert_eq!(compare_version(&[0, 1, 2], &[0, 1, 0]), VersionMatchType::Partial);
    assert_eq!(compare_version(&[1, 1, 0], &[0, 1, 0]), VersionMatchType::Incompatible);
}

#[test]
fn cartridge_words() {
    let mut bytes = b"PINE16ASSEMBLY :D".to_vec();
    bytes.extend_from_slice(&[0, 1, 0, 0x31, 0x06, 10, 0, 7]);
    assert_eq!(words_of(&bytes), vec![0x0631, 10]);
}

#[test]
fn tokenizer_reads_words() {
    let mut t = Tokenizer::new("mov $5 @10 flag ; comment $x");
    assert_eq!(t.parse_next_token().unwrap(), Some(Token::OpCode("mov".to_string())));
    assert_eq!(t.parse_next_token().unwrap(), Some(Token::Value(Value::DirectValue(5))));
    assert_eq!(t.parse_next_token().unwrap(), Some(Token::Value(Value::Address(10))));
    assert_eq!(t.parse_next_token().unwrap(), Some(Token::Flag("flag".to_string())));
    assert_eq!(t.parse_next_token().unwrap(), None);
}

#[test]
fn tokenizer_errors() {
    let mut t = Tokenizer::new("jmp $x é # rest");
    assert!(matches!(t.parse_next_token(), Ok(Some(Token::OpCode(_)))));
    assert!(matches!(t.parse_next_token(), Err(TokenError::BadNumber { index: 1, .. })));
    assert!(matches!(t.parse_next_token(), Err(TokenError::Malformed { index: 2, .. })));
    assert!(matches!(t.parse_next_token(), Ok(None)));
}

#[test]
fn noise_register_steps() {
    let mut lfsr: u16 = 0xFFFF;
    assert!(noise_step(&mut lfsr, 0));
    assert_eq!(lfsr, 0x7FFF);
    assert!(noise_step(&mut lfsr, 0));
    assert_eq!(lfsr, 0x3FFF);
    let mut other: u16 = 0x0041;
    // tap 6: bit 0 is 1, bit 6 is 1, feedback 0
    assert!(!noise_step(&mut other, 3));
    assert_eq!(other, 0x0020);
}

#[test]
fn channel_settings() {
    let mut ram = vec![0u16; 65535];
    ram[6543] = 440;
    ram[6544] = 0x4080;
    assert_eq!(channel_config(&ram, 0), Some((440, 0x80, 0x40)));
    assert_eq!(channel_config(&ram, 1), None);
    ram[6545] = 100;
    assert_eq!(channel_config(&ram, 1), None);
}

#[test]
fn cartridge_roundtrip() {
    let code = vec![0x0631u16, 0, 10, 0xFFFF, 0x1234, 1];
    let bytes = pine16::cartridge::rom_image(&code, &[0, 1, 0]);
    assert_eq!(bytes.len(), 20 + 2 * code.len());
    assert_eq!(words_of(&bytes), code);
    assert!(pine16::cartridge::has_magic(&bytes));
}

#[test]
fn interpreter_argument_faults() {
    fn first_fault(words: Vec<u16>) -> Fault {
        let mut interp = Interpreter::new(4, 0);
        interp.load_rom(words);
        loop {
            let ins = match interp.parse_next_instruction() {
                Ok(i) => i,
                Err(f) => return f,
            };
            match interp.execute(&ins) {
                Ok(None) => {}
                Ok(Some(_)) => panic!("the program ended"),
                Err(f) => return f,
            }
        }
    }
    // exit with an empty argument
    assert_eq!(first_fault(vec![0x0400, 0, 0]), Fault::ReadFromEmpty);
    // mov into an empty argument
    assert_eq!(first_fault(vec![0x0601, 0, 1]), Fault::WriteToEmpty);
    // mov into a direct value
    assert_eq!(first_fault(vec![0x0611, 0, 1]), Fault::WriteToDirectValue);
    // mov into a label
    assert_eq!(first_fault(vec![0x0651, 0, 1]), Fault::WriteToLabel);
    // mov into register 4
    assert_eq!(first_fault(vec![0x0631, 4, 1]), Fault::RegisterOutOfBounds(4));
    // mov to address 9, past the end of the four words of memory
    assert_eq!(first_fault(vec![0x0621, 9, 1]), Fault::AddressOutOfBounds(9));
    // div *A $0
    assert_eq!(first_fault(vec![0x0331, 0, 0]), Fault::DivisionByZero);
    // unknown argument kind 6
    assert_eq!(first_fault(vec![0x0660, 0, 0]), Fault::UnknownArgumentType(6));
    // no program at all
    assert_eq!(first_fault(vec![]), Fault::InstructionOutOfBounds(0));
}

#[test]
fn interpreter_memory_grows_where_written() {
    let mut interp = Interpreter::new(2, 0);
    // mov $@1 $7 inserts 7 at address 1; then mov *A @1 ; exit *A
    interp.load_rom(vec![0x0621, 1, 7, 0x0632, 0, 1, 0x0430, 0, 0]);
    let mut code = None;
    while code.is_none() {
        let ins = interp.parse_next_instruction().unwrap();
        code = interp.execute(&ins).unwrap();
    }
    assert_eq!(code, Some(7));
}
