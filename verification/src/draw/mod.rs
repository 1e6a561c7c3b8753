//! What the screen shows, as lines of styled text.

pub mod header;
pub mod input;
pub mod markdown;
pub mod picker;
pub mod plan;
pub mod status;
pub mod subagents;
pub mod transcript;
pub mod turn_status;
