//! Execution substrate for a Bitcoin-Script-compatible stack machine: the
//! script integer codec, the value stack, the condition stack and the weight
//! profiler, each with a machine-checked contract.

pub mod condition_stack;
pub mod histogram;
pub mod profiler;
pub mod script;
pub mod scriptint;
pub mod stack;

pub use condition_stack::ConditionStack;
pub use stack::{read_scriptint, ExecError, Stack, StackEntry};
pub use profiler::{Instruction, LabelStats, Profiler, ProfilerError, Stage};
pub use script::{profiler_end, profiler_start};
pub use scriptint::{read_scriptint_size, scriptint_parse, scriptint_vec, ScriptIntError};
