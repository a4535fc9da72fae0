//! The faults that the relay reports instead of stopping.

use vstd::prelude::*;

verus! {

/// A condition under which an input cannot be honoured.
#[derive(Clone, Copy, Debug, PartialEq, Eq, Structural)]
pub enum Fault {
    /// A key came up that the ledger does not know as held.
    LedgerDesync,
    /// A key was offered as a modifier that is none.
    UnrecognizedModifier,
    /// A report was asked to carry a seventh ordinary key.
    SixKeyOverflow,
    /// A transition came with a time before the epoch, or beyond what the
    /// ledger can count.
    BadTimestamp,
}

impl Fault {
    /// A short description for a diagnostic.
    pub fn message(&self) -> (text: &'static str)
        ensures
            text@ == match *self {
                Fault::LedgerDesync => "Key released without a matching press"@,
                Fault::UnrecognizedModifier => "Unrecognized modifier"@,
                Fault::SixKeyOverflow => "Exceeded 6KRO"@,
                Fault::BadTimestamp => "Timestamp out of range"@,
            },
    {
        match self {
            Fault::LedgerDesync => "Key released without a matching press",
            Fault::UnrecognizedModifier => "Unrecognized modifier",
            Fault::SixKeyOverflow => "Exceeded 6KRO",
            Fault::BadTimestamp => "Timestamp out of range",
        }
    }
}

} // verus!
