use pine16::assembler::{data_tokens, Assembler};

fn errors_of(source: &str) -> String {
    let mut assembler = Assembler::new(source);
    assembler.assemble().unwrap_err()
}

#[test]
fn report_format() {
    assert_eq!(
        errors_of("jmp nowhere"),
        "assembler::unknown_label: Unknown Label\nCould not assemble input due to 1 error(s)"
    );
}

#[test]
fn named_source_in_report() {
    let mut assembler = Assembler::with_numbers("foo *A", "game.pineasm", Vec::new());
    let err = assembler.assemble().unwrap_err();
    assert!(err.contains("assembler::unknown_opcode"));
    assert!(err.ends_with("Could not assemble game.pineasm due to 1 error(s)"));
}

#[test]
fn each_error_kind() {
    let cases = [
        ("foo *A", "assembler::unknown_opcode"),
        ("mov *X #1", "assembler::unknown_register"),
        (",mov *A #1", "assembler::misplaced_comma"),
        ("mov *A #1,", "assembler::misplaced_comma"),
        ("start: mov", "assembler::expected_newline"),
        ("mov *A #1 #2 #3", "assembler::too_many_arguments"),
        ("mov *A #1 #2", "assembler::too_many_arguments"),
        ("mov", "assembler::missing_required_argument"),
        ("mov *A #", "assembler::argument_missing_value"),
        ("mov $x #1", "assembler::unknown_address_type"),
        ("mov %A #1", "assembler::unknown_argument_type"),
        ("mov #1 #2", "assembler::argument_has_wrong_type"),
        ("mov *A #abc", "assembler::failed_to_parse_number"),
        ("a:\na:", "assembler::label_defined_multiple_times"),
        (".dw at 0 repeat 1 0", "assembler::useless_data_definition"),
        (".dw at 400 repeat 1", "assembler::wrong_argument_amount"),
        (".dsprrow at 400 repeat 1 16 0 0 0 0 0 0 0", "assembler::palette_index_out_of_bounds"),
        (".dw at 65535 repeat 2 1", "assembler::data_initialized_beyond_ram_bounds"),
        (".dw foo bar 1", "assembler::unknown_data_operator"),
    ];
    for (source, code) in cases {
        let err = errors_of(source);
        assert!(err.contains(code), "{source:?} gave {err:?}");
    }
}

#[test]
fn number_in_front_of_an_operator() {
    let mut assembler =
        Assembler::with_numbers(".dw 5 at 400 9", "input", vec!["5".to_string(), "9".to_string()]);
    let err = assembler.assemble().unwrap_err();
    assert!(err.contains("assembler::number_infront_of_operator"));
}

#[test]
fn data_section() {
    let mut assembler = Assembler::new(".dw at 400 repeat 2 42\nmov *A #1");
    assert_eq!(assembler.assemble(), Ok(vec![1585, 0, 1]));
    assert_eq!(assembler.data_section(), vec![2, 400, 42, 401, 42]);
}

#[test]
fn sprite_row_data() {
    let mut assembler = Assembler::new(".dsprrow at 1000 repeat 1 1 2 3 4 5 6 7 8");
    assert_eq!(assembler.assemble(), Ok(vec![]));
    assert_eq!(assembler.data_section(), vec![2, 1000, 0x1234, 1001, 0x5678]);
}

#[test]
fn labels_count_instructions_only() {
    let source = "start:\n.dw at 400 repeat 1 7\nnoop\nmid:\njmp mid\njmp start";
    let mut assembler = Assembler::new(source);
    assert_eq!(assembler.assemble(), Ok(vec![0, 0, 0, 1808, 1, 0, 1808, 0, 0]));
}

#[test]
fn case_of_names_and_commas() {
    let mut assembler = Assembler::new("MOV *A, #10\nAdd *A,*B");
    assert_eq!(assembler.assemble(), Ok(vec![1585, 0, 10, 307, 0, 1]));
}

#[test]
fn unfinished_inputs_give_none() {
    let mut negative = Assembler::new("mov *A #-1");
    assert!(!negative.finishes());
    assert_eq!(negative.try_assemble(), None);
    let mut unknown_definition = Assembler::new(".foo at 1 repeat 1 2");
    assert_eq!(unknown_definition.try_assemble(), None);
    let mut fine = Assembler::new("noop");
    assert_eq!(fine.try_assemble(), Some(Ok(vec![0, 0, 0])));
}

#[test]
fn hex_numbers() {
    let mut assembler = Assembler::new("mov $#0x190 #0b101");
    assert_eq!(assembler.assemble(), Ok(vec![0x0621, 400, 5]));
}

#[test]
fn data_tokens_of_definitions() {
    let tokens = data_tokens("noop\n.dw at 400, repeat 2 7 ; comment\nlabel:");
    assert_eq!(tokens, vec![".dw", "at", "400", "repeat", "2", "7"]);
}

#[test]
fn data_end_bound() {
    let mut last = Assembler::new(".dw at 65534 repeat 1 7");
    assert_eq!(last.assemble(), Ok(vec![]));
    assert_eq!(last.data_section(), vec![1, 65534, 7]);
    let mut past = Assembler::new(".dsprrow at 65534 repeat 1 1 1 1 1 1 1 1 1");
    assert!(past.assemble().unwrap_err().contains("data_initialized_beyond_ram_bounds"));
    let mut far = Assembler::new(".dsprrow at 40000 repeat 1 1 0 0 0 0 0 0 2");
    assert_eq!(far.assemble(), Ok(vec![]));
    assert_eq!(far.data_section(), vec![2, 40000, 0x1000, 40001, 0x0002]);
}

#[test]
fn commas_and_spaces_alike() {
    for source in ["mov *A,#10", "mov *A, #10", "mov *A ,#10", "mov *A , , #10"] {
        let mut assembler = Assembler::new(source);
        assert_eq!(assembler.assemble(), Ok(vec![1585, 0, 10]), "{source:?}");
    }
}

#[test]
fn decimal_numbers_and_overflow() {
    let mut fine = Assembler::new("mov *A #65535");
    assert_eq!(fine.assemble(), Ok(vec![1585, 0, 65535]));
    let mut over = Assembler::new("mov *A #65536");
    assert!(over.assemble().unwrap_err().contains("failed_to_parse_number"));
}

#[test]
fn hex_values_and_overflow() {
    let mut fine = Assembler::new("mov *A #0xFFFF\nmov *B #0X1f");
    assert_eq!(fine.assemble(), Ok(vec![1585, 0, 65535, 1585, 1, 31]));
    let mut over = Assembler::new("mov *A #0x10000");
    assert!(over.assemble().unwrap_err().contains("failed_to_parse_number"));
}
