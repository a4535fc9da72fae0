//! A relay between a physical keyboard and a USB HID gadget endpoint.
//!
//! Key transitions are recorded in a ledger, an ordered chain of filters
//! decides which keys count as pressed, and the result is encoded as a
//! boot-keyboard report of one modifier byte and six key slots.

pub mod error;
pub mod filters;
pub mod keycode;
pub mod ledger;
pub mod relay;
pub mod report;
