//! The assembler's diagnostics. Each carries the byte span (or spans) of the
//! source text that it is about, as an offset and a length in bytes.
use vstd::prelude::*;
use crate::argument::{ArgumentType, ArgumentTypeView};
use crate::numbers::IntErrorKind;

verus! {

/// A piece of the source text: its first byte and its length in bytes.
#[derive(Debug, Clone, Copy, PartialEq, Eq, Structural)]
pub struct Span {
    pub offset: usize,
    pub len: usize,
}

pub open spec fn span(offset: int, len: int) -> Span {
    Span { offset: offset as usize, len: len as usize }
}

#[allow(inconsistent_fields)]
#[derive(Debug)]
pub enum AssemblerError {
    ExpectedNewline { span: Span },
    UnknownOpCode { opcode: String, span: Span },
    UnknownArgumentPrefix { argument_prefix: String, span: Span },
    UnknownRegister { register: String, span: Span },
    UnknownAddressType { address: String, span: Span },
    FailedToParseNumber { number: String, parseerror: IntErrorKind, span: Span },
    InvalidArgumentType { arg: ArgumentType, span: Span },
    UnknownLabel { label: String, span: Span },
    TooManyArguments { span: Span },
    MissingRequiredArgument { argument_number: usize, span: Span },
    ArgumentMissingValue { span: Span },
    LabelDefinedMultipleTimes { span: Span, span1: Span },
    MisplacedComma { span: Span },
    UselessDataDefinition { span: Span },
    WrongArgumentAmount { expected_amount: usize, amount: usize, span: Span },
    PaletteIndexOutOfBounds { number: u16, span: Span },
    DataInitializedBeyondRAMBounds { address: usize, span: Span },
    UnknownDataOperator { span: Span },
    NumberInfrontOperation { span: Span },
}

/// An `AssemblerError` with its strings taken as character sequences.
#[allow(inconsistent_fields)]
pub enum ErrorView {
    ExpectedNewline { span: Span },
    UnknownOpCode { opcode: Seq<char>, span: Span },
    UnknownArgumentPrefix { argument_prefix: Seq<char>, span: Span },
    UnknownRegister { register: Seq<char>, span: Span },
    UnknownAddressType { address: Seq<char>, span: Span },
    FailedToParseNumber { number: Seq<char>, parseerror: IntErrorKind, span: Span },
    InvalidArgumentType { arg: ArgumentTypeView, span: Span },
    UnknownLabel { label: Seq<char>, span: Span },
    TooManyArguments { span: Span },
    MissingRequiredArgument { argument_number: usize, span: Span },
    ArgumentMissingValue { span: Span },
    LabelDefinedMultipleTimes { span: Span, span1: Span },
    MisplacedComma { span: Span },
    UselessDataDefinition { span: Span },
    WrongArgumentAmount { expected_amount: usize, amount: usize, span: Span },
    PaletteIndexOutOfBounds { number: u16, span: Span },
    DataInitializedBeyondRAMBounds { address: usize, span: Span },
    UnknownDataOperator { span: Span },
    NumberInfrontOperation { span: Span },
}

impl View for AssemblerError {
    type V = ErrorView;

    open spec fn view(&self) -> ErrorView {
        match self {
            AssemblerError::ExpectedNewline { span } => ErrorView::ExpectedNewline { span: *span },
            AssemblerError::UnknownOpCode { opcode, span } => ErrorView::UnknownOpCode {
                opcode: opcode@,
                span: *span,
            },
            AssemblerError::UnknownArgumentPrefix { argument_prefix, span } =>
                ErrorView::UnknownArgumentPrefix { argument_prefix: argument_prefix@, span: *span },
            AssemblerError::UnknownRegister { register, span } => ErrorView::UnknownRegister {
                register: register@,
                span: *span,
            },
            AssemblerError::UnknownAddressType { address, span } =>
                ErrorView::UnknownAddressType { address: address@, span: *span },
            AssemblerError::FailedToParseNumber { number, parseerror, span } =>
                ErrorView::FailedToParseNumber {
                number: number@,
                parseerror: *parseerror,
                span: *span,
            },
            AssemblerError::InvalidArgumentType { arg, span } => ErrorView::InvalidArgumentType {
                arg: arg@,
                span: *span,
            },
            AssemblerError::UnknownLabel { label, span } => ErrorView::UnknownLabel {
                label: label@,
                span: *span,
            },
            AssemblerError::TooManyArguments { span } => ErrorView::TooManyArguments { span: *span },
            AssemblerError::MissingRequiredArgument { argument_number, span } =>
                ErrorView::MissingRequiredArgument {
                argument_number: *argument_number,
                span: *span,
            },
            AssemblerError::ArgumentMissingValue { span } => ErrorView::ArgumentMissingValue {
                span: *span,
            },
            AssemblerError::LabelDefinedMultipleTimes { span, span1 } =>
                ErrorView::LabelDefinedMultipleTimes { span: *span, span1: *span1 },
            AssemblerError::MisplacedComma { span } => ErrorView::MisplacedComma { span: *span },
            AssemblerError::UselessDataDefinition { span } => ErrorView::UselessDataDefinition {
                span: *span,
            },
            AssemblerError::WrongArgumentAmount { expected_amount, amount, span } =>
                ErrorView::WrongArgumentAmount {
                expected_amount: *expected_amount,
                amount: *amount,
                span: *span,
            },
            AssemblerError::PaletteIndexOutOfBounds { number, span } =>
                ErrorView::PaletteIndexOutOfBounds { number: *number, span: *span },
            AssemblerError::DataInitializedBeyondRAMBounds { address, span } =>
                ErrorView::DataInitializedBeyondRAMBounds { address: *address, span: *span },
            AssemblerError::UnknownDataOperator { span } => ErrorView::UnknownDataOperator {
                span: *span,
            },
            AssemblerError::NumberInfrontOperation { span } => ErrorView::NumberInfrontOperation {
                span: *span,
            },
        }
    }
}

pub open spec fn errors_view(v: Seq<AssemblerError>) -> Seq<ErrorView> {
    v.map_values(|e: AssemblerError| e@)
}

impl ErrorView {
    /// The diagnostic code of the error.
    pub open spec fn code(self) -> Seq<char> {
        match self {
            ErrorView::ExpectedNewline { .. } => "assembler::expected_newline"@,
            ErrorView::UnknownOpCode { .. } => "assembler::unknown_opcode"@,
            ErrorView::UnknownArgumentPrefix { .. } => "assembler::unknown_argument_type"@,
            ErrorView::UnknownRegister { .. } => "assembler::unknown_register"@,
            ErrorView::UnknownAddressType { .. } => "assembler::unknown_address_type"@,
            ErrorView::FailedToParseNumber { .. } => "assembler::failed_to_parse_number"@,
            ErrorView::InvalidArgumentType { .. } => "assembler::argument_has_wrong_type"@,
            ErrorView::UnknownLabel { .. } => "assembler::unknown_label"@,
            ErrorView::TooManyArguments { .. } => "assembler::too_many_arguments"@,
            ErrorView::MissingRequiredArgument { .. } => "assembler::missing_required_argument"@,
            ErrorView::ArgumentMissingValue { .. } => "assembler::argument_missing_value"@,
            ErrorView::LabelDefinedMultipleTimes { .. } =>
                "assembler::label_defined_multiple_times"@,
            ErrorView::MisplacedComma { .. } => "assembler::misplaced_comma"@,
            ErrorView::UselessDataDefinition { .. } => "assembler::useless_data_definition"@,
            ErrorView::WrongArgumentAmount { .. } => "assembler::wrong_argument_amount"@,
            ErrorView::PaletteIndexOutOfBounds { .. } => "assembler::palette_index_out_of_bounds"@,
            ErrorView::DataInitializedBeyondRAMBounds { .. } =>
                "assembler::data_initialized_beyond_ram_bounds"@,
            ErrorView::UnknownDataOperator { .. } => "assembler::unknown_data_operator"@,
            ErrorView::NumberInfrontOperation { .. } => "assembler::number_infront_of_operator"@,
        }
    }

    /// The title of the error.
    pub open spec fn title(self) -> Seq<char> {
        match self {
            ErrorView::ExpectedNewline { .. } => "Expected New Line"@,
            ErrorView::UnknownOpCode { .. } => "Unknown OpCode"@,
            ErrorView::UnknownArgumentPrefix { .. } => "Unknown Argument Prefix"@,
            ErrorView::UnknownRegister { .. } => "Unknown Register"@,
            ErrorView::UnknownAddressType { .. } => "Unknown Address Type"@,
            ErrorView::FailedToParseNumber { .. } => "Failed To Parse Number"@,
            ErrorView::InvalidArgumentType { .. } => "Invalid Argument Type"@,
            ErrorView::UnknownLabel { .. } => "Unknown Label"@,
            ErrorView::TooManyArguments { .. } => "Too Many Arguments"@,
            ErrorView::MissingRequiredArgument { .. } => "Missing Required Argument"@,
            ErrorView::ArgumentMissingValue { .. } => "Argument Missing Value"@,
            ErrorView::LabelDefinedMultipleTimes { .. } => "Label defined twice"@,
            ErrorView::MisplacedComma { .. } => "Misplaced comma"@,
            ErrorView::UselessDataDefinition { .. } => "Useless Data Definition"@,
            ErrorView::WrongArgumentAmount { .. } => "Wrong Amount Of Arguments"@,
            ErrorView::PaletteIndexOutOfBounds { .. } => "Palette Index Out Of Bounds"@,
            ErrorView::DataInitializedBeyondRAMBounds { .. } =>
                "Data is initialized beyond RAM boundaries"@,
            ErrorView::UnknownDataOperator { .. } => "Unknown Data Operator"@,
            ErrorView::NumberInfrontOperation { .. } => "Number Infront Of Operation"@,
        }
    }
}

impl AssemblerError {
    /// The diagnostic code, such as `assembler::unknown_label`.
    pub fn code(&self) -> (r: &'static str)
        ensures
            r@ == self@.code(),
    {
        match self {
            AssemblerError::ExpectedNewline { .. } => "assembler::expected_newline",
            AssemblerError::UnknownOpCode { .. } => "assembler::unknown_opcode",
            AssemblerError::UnknownArgumentPrefix { .. } => "assembler::unknown_argument_type",
            AssemblerError::UnknownRegister { .. } => "assembler::unknown_register",
            AssemblerError::UnknownAddressType { .. } => "assembler::unknown_address_type",
            AssemblerError::FailedToParseNumber { .. } => "assembler::failed_to_parse_number",
            AssemblerError::InvalidArgumentType { .. } => "assembler::argument_has_wrong_type",
            AssemblerError::UnknownLabel { .. } => "assembler::unknown_label",
            AssemblerError::TooManyArguments { .. } => "assembler::too_many_arguments",
            AssemblerError::MissingRequiredArgument { .. } =>
                "assembler::missing_required_argument",
            AssemblerError::ArgumentMissingValue { .. } => "assembler::argument_missing_value",
            AssemblerError::LabelDefinedMultipleTimes { .. } =>
                "assembler::label_defined_multiple_times",
            AssemblerError::MisplacedComma { .. } => "assembler::misplaced_comma",
            AssemblerError::UselessDataDefinition { .. } => "assembler::useless_data_definition",
            AssemblerError::WrongArgumentAmount { .. } => "assembler::wrong_argument_amount",
            AssemblerError::PaletteIndexOutOfBounds { .. } =>
                "assembler::palette_index_out_of_bounds",
            AssemblerError::DataInitializedBeyondRAMBounds { .. } =>
                "assembler::data_initialized_beyond_ram_bounds",
            AssemblerError::UnknownDataOperator { .. } => "assembler::unknown_data_operator",
            AssemblerError::NumberInfrontOperation { .. } => "assembler::number_infront_of_operator",
        }
    }

    /// The title, such as `Unknown Label`.
    pub fn title(&self) -> (r: &'static str)
        ensures
            r@ == self@.title(),
    {
        match self {
            AssemblerError::ExpectedNewline { .. } => "Expected New Line",
            AssemblerError::UnknownOpCode { .. } => "Unknown OpCode",
            AssemblerError::UnknownArgumentPrefix { .. } => "Unknown Argument Prefix",
            AssemblerError::UnknownRegister { .. } => "Unknown Register",
            AssemblerError::UnknownAddressType { .. } => "Unknown Address Type",
            AssemblerError::FailedToParseNumber { .. } => "Failed To Parse Number",
            AssemblerError::InvalidArgumentType { .. } => "Invalid Argument Type",
            AssemblerError::UnknownLabel { .. } => "Unknown Label",
            AssemblerError::TooManyArguments { .. } => "Too Many Arguments",
            AssemblerError::MissingRequiredArgument { .. } => "Missing Required Argument",
            AssemblerError::ArgumentMissingValue { .. } => "Argument Missing Value",
            AssemblerError::LabelDefinedMultipleTimes { .. } => "Label defined twice",
            AssemblerError::MisplacedComma { .. } => "Misplaced comma",
            AssemblerError::UselessDataDefinition { .. } => "Useless Data Definition",
            AssemblerError::WrongArgumentAmount { .. } => "Wrong Amount Of Arguments",
            AssemblerError::PaletteIndexOutOfBounds { .. } => "Palette Index Out Of Bounds",
            AssemblerError::DataInitializedBeyondRAMBounds { .. } =>
                "Data is initialized beyond RAM boundaries",
            AssemblerError::UnknownDataOperator { .. } => "Unknown Data Operator",
            AssemblerError::NumberInfrontOperation { .. } => "Number Infront Of Operation",
        }
    }
}

} // verus!
