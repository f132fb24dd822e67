//! Skill tools: listing the registered skills (optionally by category) and
//! showing one skill's detailed instructions.

pub mod detail;
pub mod list;
