//! The `/support` and `/ticket` slash commands.
pub mod support;
pub mod ticket;

pub use support::SupportCommand;
pub use ticket::TicketCommand;
