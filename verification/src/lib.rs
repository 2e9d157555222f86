//! Verified core of a calendar chat bot.
//!
//! The library holds everything with design content: the command grammar,
//! the calendar store, the interpreter that turns room timelines into
//! replies and store mutations, and the synchronization-loop decisions
//! (login classification, cursor management, phase transitions). The
//! surrounding binary supplies transport and persistence.

pub mod grammar;
pub mod matrix;
pub mod replies;
pub mod store;
pub mod sync;
pub mod task;
pub mod text;
