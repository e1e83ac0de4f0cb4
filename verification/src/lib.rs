//! Devcontainer status and agent sessions for herdr panes.
//!
//! Three things are decided here: which devcontainer project a pane's directory belongs
//! to and what state its container is in; how a command is run in that container as the
//! pane's agent; and how the two forwarders that carry agent state between the container
//! and the host are set up. Reading the environment and the disk, running commands and
//! moving bytes is left to the program around this library, which hands in plain values
//! and performs the steps that it is told.

pub mod agent_laws;
pub mod agents;
pub mod cli;
pub mod discover;
pub mod docker;
pub mod forward;
pub mod json;
pub mod order;
pub mod path;
pub mod process;
pub mod push;
pub mod relay;
pub mod report;
pub mod session;
pub mod settings;
pub mod status;
pub mod std_text;
pub mod supervise;
pub mod text;
pub mod text_laws;
