//! Handling and identifying function, event and error selectors with the
//! OpenChain signature database.
//!
//! The library decides and computes; it makes no requests. What it asks of the
//! caller is a value, such as a [`Lookup`] whose address is to be fetched, and
//! what the caller got goes back into it.

pub mod calldata;
pub mod client;
pub mod error;
pub mod import;
pub mod lookup;
pub mod outside;
pub mod signatures;
pub mod text;

pub use calldata::{
    decode_calldata, keep_decodable, pretty_calldata, CalldataLookup, CalldataPreview,
    PossibleSigs, SelectorOrSig,
};
pub use client::{OpenChainClient, RequestFailure};
pub use error::SelectorError;
pub use import::{
    import_selectors, report_lines, RawSelectorImportData, SelectorImportData,
    SelectorImportEffect, SelectorImportRequest, SelectorImportResponse, SelectorImportResult,
    SELECTOR_IMPORT_URL,
};
pub use lookup::{
    decode_event_topic, decode_function_selector, decode_selector, decode_selectors, entry_names,
    normalize, sole_signatures, ApiResponse, ApiResult, Decoded, Lookup, LookupStep, SelectorType,
    SELECTOR_LOOKUP_URL,
};
pub use signatures::{artifact_files, parse_signatures, ParsedSignatures};
