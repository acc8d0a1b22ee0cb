//! Architecture-independent kernel of a symbolic execution engine for
//! Cortex-M firmware: symbolic expressions, byte-addressable memory, hook
//! tables, per-path state and the path-exploration driver.

pub mod arch;
pub mod arm;
pub mod arm_attributes;
pub mod array_memory;
pub mod collections;
pub mod debug_data;
pub mod dwarf_helper;
pub mod error;
pub mod executor;
pub mod expr;
pub mod general;
pub mod hooks;
pub mod initiation;
pub mod instruction;
pub mod logging;
pub mod manager;
pub mod memory;
pub mod pattern;
pub mod project;
pub mod stack_builder;
pub mod stack_format;
pub mod state;
pub mod string_mapping;
pub mod text;
pub mod vm;
