//! An authority-gated, append-only contribution log kept in one
//! persistently addressed storage slot.
//!
//! The slot's address is derived deterministically from a fixed label
//! (`address`), the log is persisted in a fixed binary layout (`codec`),
//! the slot's capacity is grown to an exact byte count before every
//! append (`account`), and the two entry points — `initialize` and
//! `log_contribution` — run each change as one all-or-nothing step
//! (`protocol`).

pub mod account;
pub mod address;
pub mod codec;
pub mod protocol;
pub mod errors;
pub mod model;
pub mod state;
