use openchain_selectors::{
    OpenChainClient, RawSelectorImportData, RequestFailure, SelectorError, SelectorImportData,
    SelectorType,
};

const TIMEOUT: RequestFailure = RequestFailure { timeout: true, connect: false, status: None };
const CONNECT: RequestFailure = RequestFailure { timeout: false, connect: true, status: None };
const OTHER: RequestFailure = RequestFailure { timeout: false, connect: false, status: None };

fn status(code: u16) -> RequestFailure {
    RequestFailure { timeout: false, connect: false, status: Some(code) }
}

#[test]
fn connectivity_errors() {
    assert!(TIMEOUT.is_connectivity_err());
    assert!(CONNECT.is_connectivity_err());
    assert!(!OTHER.is_connectivity_err());
    assert!(!status(499).is_connectivity_err());
    assert!(status(500).is_connectivity_err());
    assert!(status(599).is_connectivity_err());
    assert!(!status(600).is_connectivity_err());
    assert!(!status(404).is_connectivity_err());
}

#[test]
fn the_fifth_connectivity_failure_makes_the_connection_spurious() {
    let mut client = OpenChainClient::new();
    for failure in [TIMEOUT, CONNECT, status(503), TIMEOUT] {
        client.on_reqwest_err(&failure);
        client.on_reqwest_err(&OTHER);
        assert!(!client.is_spurious());
        assert_eq!(client.ensure_not_spurious(), Ok(()));
    }
    client.on_reqwest_err(&CONNECT);
    assert!(client.is_spurious());
    assert_eq!(client.ensure_not_spurious(), Err(SelectorError::SpuriousConnection));
}

#[test]
fn a_spurious_connection_stays_so() {
    let mut client = OpenChainClient::new();
    client.on_reqwest_err(&TIMEOUT);
    client.set_spurious();
    assert!(client.decode_function_selector("a9059cbb").is_err());
    client.on_reqwest_err(&OTHER);
    client.on_reqwest_err(&TIMEOUT);
    assert!(client.is_spurious());
}

#[test]
fn a_spurious_connection_refuses_requests() {
    let mut client = OpenChainClient::new();
    client.set_spurious();
    assert_eq!(
        client.decode_selectors(SelectorType::Function, vec!["x".to_string()]),
        Err(SelectorError::SpuriousConnection)
    );
    assert_eq!(
        client.decode_event_topic("0xa9059cbb"),
        Err(SelectorError::SpuriousConnection)
    );
    assert_eq!(
        client.import_selectors(SelectorImportData::Raw(RawSelectorImportData::default())),
        Err(SelectorError::SpuriousConnection)
    );
}

#[test]
fn messages() {
    let cases = vec![
        (SelectorError::SpuriousConnection, "Spurious connection detected"),
        (
            SelectorError::InvalidSelector { selector: "0xab".to_string(), expected_len: 66 },
            "Invalid selector 0xab: expected 66 characters (including 0x prefix).",
        ),
        (
            SelectorError::UndecodableResponse {
                response: "<html>".to_string(),
                cause: "expected value".to_string(),
            },
            "Could not decode response:\n <html>.\nError: expected value",
        ),
        (
            SelectorError::LookupFailed { response: "{}".to_string() },
            "Failed to decode:\n {}",
        ),
        (SelectorError::NoSignatureFound, "No signature found"),
        (
            SelectorError::CalldataTooShort { len: 7 },
            "Calldata too short: expected at least 8 characters (excluding 0x prefix), got 7.",
        ),
        (SelectorError::MissingSelector, "calldata cannot be less that 4 bytes"),
        (SelectorError::InvalidCalldataSize, "\nInvalid calldata size"),
    ];
    for (err, message) in cases {
        assert_eq!(err.message(), message);
    }
}
