//! Chat messages as the context-rotation tools read them.

use vstd::prelude::*;

verus! {

/// A tool call made by the assistant: the tool's name and its arguments as
/// JSON text.
pub struct ToolCall {
    pub id: String,
    pub name: String,
    pub arguments: String,
}

/// A chat message.
#[allow(inconsistent_fields)]
pub enum Message {
    System { content: String },
    User { content: String },
    Assistant { content: Option<String>, tool_calls: Option<Vec<ToolCall>> },
    Tool { content: String, name: Option<String> },
    /// A message of another role; `data` is its payload as JSON text.
    Custom { role: String, data: String },
}

} // verus!
