//! The PINE16 fantasy console: its assembler, cartridge format, processor,
//! renderer and the integer side of its sound, with a simple interpreter and
//! tokenizer.
pub mod text;
pub mod numbers;
pub mod asm_error;
pub mod argument;
pub mod labels;
pub mod instruction;
pub mod data_table;
pub mod prepass;
pub mod assembler;
pub mod renderer;
pub mod console;
pub mod cartridge;
pub mod interpreter;
pub mod tokenizer;
pub mod audio;
pub mod laws;
