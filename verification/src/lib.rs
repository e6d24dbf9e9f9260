pub mod binary_reader;
pub mod error;
pub mod constants;
pub mod addressed_container;
pub mod opcodes;
pub mod sorted_table;
pub mod sections;
pub mod parser;
pub mod text;
pub mod traits;
pub mod disassembler;
pub mod ssa;
pub mod ssa_text;
pub mod debug_text;
pub mod sourcedata;
pub mod analysis;
pub mod arrows;
pub mod navigation;
pub mod listing;
pub mod viewer;
pub mod sdk;
pub mod ordered_set;
