//! A back end that lowers a typed three-address intermediate representation
//! to textual x86-64 assembly in Intel syntax.
//!
//! The IR is built programmatically by a caller; `ir::IRModule::compile`
//! turns it into a `.rodata`/`.text` program text.  Every emission step is
//! mirrored by a specification function, so the text produced for a given
//! module is pinned down exactly.

pub mod assembly;
pub mod compiler;
pub mod function_manager;
pub mod scope;
pub mod variables;
pub mod ir;
pub mod laws;
pub mod lowering;
pub mod operand;
pub mod optimisation;
pub mod registers;
pub mod render;
pub mod util;
pub mod value;
