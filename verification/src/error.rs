//! Why a lookup, a preview or an import is refused.

use crate::text::{numeral, to_numeral};
use vstd::prelude::*;
use vstd::string::StringExecFns;

verus! {

/// What a request to OpenChain, or the handling of its answer, can fail with.
#[derive(Debug, PartialEq, Eq)]
pub enum SelectorError {
    /// Too many requests timed out: no more are made.
    SpuriousConnection,
    /// A selector does not have the length that its type calls for.
    InvalidSelector {
        /// The selector, in lower case and with its `0x` prefix.
        selector: String,
        /// The number of bytes that it should have.
        expected_len: usize,
    },
    /// The answer is not what the service documents.
    UndecodableResponse {
        /// The answer.
        response: String,
        /// What is wrong with it.
        cause: String,
    },
    /// The service reports a failure.
    LookupFailed {
        /// The answer.
        response: String,
    },
    /// The service knows no signature for the selector.
    NoSignatureFound,
    /// Calldata too short to hold a selector.
    CalldataTooShort {
        /// The number of its bytes, without the `0x` prefix.
        len: usize,
    },
    /// Calldata to be shown that does not begin with a selector.
    MissingSelector,
    /// Calldata to be shown whose arguments do not fill whole words.
    InvalidCalldataSize,
}

impl SelectorError {
    /// The text of [`SelectorError::message`].
    pub open spec fn spec_message(&self) -> Seq<char> {
        match self {
            SelectorError::SpuriousConnection => "Spurious connection detected"@,
            SelectorError::InvalidSelector { selector, expected_len } => {
                "Invalid selector "@ + selector@ + ": expected "@ + numeral(
                    *expected_len as int,
                    10,
                ) + " characters (including 0x prefix)."@
            },
            SelectorError::UndecodableResponse { response, cause } => {
                "Could not decode response:\n "@ + response@ + ".\nError: "@ + cause@
            },
            SelectorError::LookupFailed { response } => "Failed to decode:\n "@ + response@,
            SelectorError::NoSignatureFound => "No signature found"@,
            SelectorError::CalldataTooShort { len } => {
                "Calldata too short: expected at least 8 characters (excluding 0x prefix), got "@
                    + numeral(*len as int, 10) + "."@
            },
            SelectorError::MissingSelector => "calldata cannot be less that 4 bytes"@,
            SelectorError::InvalidCalldataSize => "\nInvalid calldata size"@,
        }
    }

    /// What to tell the user.
    pub fn message(&self) -> (res: String)
        ensures
            res@ == self.spec_message(),
    {
        match self {
            SelectorError::SpuriousConnection => "Spurious connection detected".to_owned(),
            SelectorError::InvalidSelector { selector, expected_len } => {
                let mut res = "Invalid selector ".to_owned();
                res.append(selector.as_str());
                res.append(": expected ");
                res.append(to_numeral(*expected_len, 10).as_str());
                res.append(" characters (including 0x prefix).");
                res
            },
            SelectorError::UndecodableResponse { response, cause } => {
                let mut res = "Could not decode response:\n ".to_owned();
                res.append(response.as_str());
                res.append(".\nError: ");
                res.append(cause.as_str());
                res
            },
            SelectorError::LookupFailed { response } => {
                let mut res = "Failed to decode:\n ".to_owned();
                res.append(response.as_str());
                res
            },
            SelectorError::NoSignatureFound => "No signature found".to_owned(),
            SelectorError::CalldataTooShort { len } => {
                let mut res = "Calldata too short: expected at least 8 characters (excluding 0x prefix), got ".to_owned();
                res.append(to_numeral(*len, 10).as_str());
                res.append(".");
                res
            },
            SelectorError::MissingSelector => "calldata cannot be less that 4 bytes".to_owned(),
            SelectorError::InvalidCalldataSize => "\nInvalid calldata size".to_owned(),
        }
    }
}

/// Each error is told in its own words, with the texts that it carries as they
/// are and its numbers in decimal.
pub proof fn law_messages(err: SelectorError, res: String)
    requires
        call_ensures(SelectorError::message, (&err,), res),
    ensures
        err is SpuriousConnection ==> res@ == "Spurious connection detected"@,
        err is NoSignatureFound ==> res@ == "No signature found"@,
        err is MissingSelector ==> res@ == "calldata cannot be less that 4 bytes"@,
        err is InvalidCalldataSize ==> res@ == "\nInvalid calldata size"@,
        err matches SelectorError::InvalidSelector { selector, expected_len } ==> res@
            == "Invalid selector "@ + selector@ + ": expected "@ + numeral(expected_len as int, 10)
            + " characters (including 0x prefix)."@,
        err matches SelectorError::UndecodableResponse { response, cause } ==> res@
            == "Could not decode response:\n "@ + response@ + ".\nError: "@ + cause@,
        err matches SelectorError::LookupFailed { response } ==> res@ == "Failed to decode:\n "@
            + response@,
        err matches SelectorError::CalldataTooShort { len } ==> res@
            == "Calldata too short: expected at least 8 characters (excluding 0x prefix), got "@
            + numeral(len as int, 10) + "."@,
{
}

} // verus!
