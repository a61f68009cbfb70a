//! A global-hotkey bridge: parse a textual shortcut descriptor, decide the
//! registration of a host-level listener, and turn key transitions into
//! zero-payload activation events.
//!
//! The host shell (which owns the OS-level shortcut table and the event bus)
//! is an external collaborator; this crate holds the decisions the bridge
//! makes and proves them against a model of that collaboration.

pub mod bridge;
pub mod descriptor;
pub mod transition;
