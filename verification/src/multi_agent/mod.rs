//! Multi-agent tools: the decisions and replies around a sub-agent runtime
//! (spawning, messaging, listing, closing). The runtime itself is the
//! caller's part.

pub mod close_agent;
pub mod followup_task;
pub mod list_agents;
pub mod send_message;
pub mod spawn_agent;
pub mod wait_agent;

pub use close_agent::{CloseAgentArgs, CloseAgentOutput};
pub use followup_task::{FollowupTaskArgs, FollowupTaskOutput};
pub use list_agents::{ListAgentItem, ListAgentsArgs};
pub use send_message::{SendMessageArgs, SendMessageOutput};
pub use spawn_agent::{SpawnAgentArgs, SpawnAgentOutput};
pub use wait_agent::{WaitAgentArgs, WaitAgentOutput};
