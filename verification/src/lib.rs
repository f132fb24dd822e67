//! Kernel tools for an LLM agent: text editing, listing, shell output
//! shaping, notes and history access, and a task registry.

pub mod background_shell;
pub mod clock;
pub mod context_rotation;
pub mod file;
pub mod local_shell;
pub mod multi_agent;
pub mod skill;
pub mod task_registry;
pub mod text;
