//! The ways a call can fail. Every failure ends the call and leaves the
//! store as it was.

use vstd::prelude::*;
use vstd::string::StringExecFns;

verus! {

#[derive(Clone, Copy, Debug, PartialEq, Eq, Structural)]
pub enum LedgerError {
    /// The input list ran out before a required token was read.
    MissingOperand,
    /// The opcode token is not the decimal form of a number from 0 to 255.
    InvalidOpcodeFormat,
    /// The opcode is a number that names no operation.
    UnrecognizedOpcode,
    /// A counter would have left the 128-bit range.
    BalanceOverflow,
    /// An exchange found no OOGA to take.
    InsufficientBalance,
}

impl LedgerError {
    /// The text that describes this failure.
    pub open spec fn spec_message(self) -> Seq<char> {
        match self {
            LedgerError::MissingOperand => "expected value in list but list is exhausted"@,
            LedgerError::InvalidOpcodeFormat => "invalid opcode format"@,
            LedgerError::UnrecognizedOpcode => "unrecognized opcode"@,
            LedgerError::BalanceOverflow => "balance overflow"@,
            LedgerError::InsufficientBalance => "insufficient OOGA balance"@,
        }
    }

    /// The text that describes this failure.
    pub fn message(&self) -> (text: String)
        ensures
            text@ == self.spec_message(),
    {
        match self {
            LedgerError::MissingOperand => String::from_str(
                "expected value in list but list is exhausted",
            ),
            LedgerError::InvalidOpcodeFormat => String::from_str("invalid opcode format"),
            LedgerError::UnrecognizedOpcode => String::from_str("unrecognized opcode"),
            LedgerError::BalanceOverflow => String::from_str("balance overflow"),
            LedgerError::InsufficientBalance => String::from_str("insufficient OOGA balance"),
        }
    }
}

} // verus!
