use alloy_json_abi::JsonAbi;
use alloy_primitives::map::HashMap;
use openchain_selectors::{
    import_selectors, report_lines, RawSelectorImportData, SelectorImportData,
    SelectorImportEffect, SelectorImportRequest, SelectorImportResponse, SelectorImportResult,
};

fn texts(items: &[&str]) -> Vec<String> {
    items.iter().map(|item| item.to_string()).collect()
}

fn map(entries: &[(&str, &str)]) -> HashMap<String, String> {
    entries.iter().map(|(key, value)| (key.to_string(), value.to_string())).collect()
}

fn token_abi() -> JsonAbi {
    JsonAbi::parse([
        "function transfer(address to, uint256 amount)",
        "event Transfer(address indexed from, address indexed to, uint256 amount)",
        "error Broke(address owner)",
        "function approve(address spender, uint256 amount)",
        "function add(tuple(string, uint16)[] people)",
        "error Asleep()",
    ])
    .unwrap()
}

#[test]
fn raw_data_is_empty_without_signatures() {
    assert!(RawSelectorImportData::default().is_empty());
    let function = RawSelectorImportData { function: texts(&["f()"]), ..Default::default() };
    let event = RawSelectorImportData { event: texts(&["E()"]), ..Default::default() };
    let error = RawSelectorImportData { error: texts(&["E()"]), ..Default::default() };
    assert!(!function.is_empty());
    assert!(!event.is_empty());
    assert!(!error.is_empty());
}

#[test]
fn raw_errors_are_uploaded_as_functions() {
    let raw = RawSelectorImportData {
        function: texts(&["f()", "g()"]),
        event: texts(&["E()"]),
        error: texts(&["X()"]),
    };
    assert_eq!(
        import_selectors(SelectorImportData::Raw(raw)),
        Ok(SelectorImportRequest {
            function: texts(&["f()", "g()", "X()"]),
            event: texts(&["E()"]),
        })
    );
}

#[test]
fn abis_are_uploaded_by_signature() {
    let other = JsonAbi::parse(["function a()", "event B(bool)"]).unwrap();
    assert_eq!(
        import_selectors(SelectorImportData::Abi(vec![token_abi(), other])),
        Ok(SelectorImportRequest {
            function: texts(&[
                "add((string,uint16)[])",
                "approve(address,uint256)",
                "transfer(address,uint256)",
                "Asleep()",
                "Broke(address)",
                "a()",
            ]),
            event: texts(&["Transfer(address,address,uint256)", "B(bool)"]),
        })
    );
}

#[test]
fn one_abi_is_uploaded_like_its_signatures() {
    let raw = RawSelectorImportData {
        function: texts(&[
            "add((string,uint16)[])",
            "approve(address,uint256)",
            "transfer(address,uint256)",
        ]),
        event: texts(&["Transfer(address,address,uint256)"]),
        error: texts(&["Asleep()", "Broke(address)"]),
    };
    assert_eq!(
        import_selectors(SelectorImportData::Abi(vec![token_abi()])),
        import_selectors(SelectorImportData::Raw(raw))
    );
}

#[test]
fn nothing_is_uploaded_without_signatures() {
    let empty = SelectorImportRequest { function: vec![], event: vec![] };
    assert_eq!(
        import_selectors(SelectorImportData::Raw(RawSelectorImportData::default())),
        Ok(SelectorImportRequest { function: vec![], event: vec![] })
    );
    assert_eq!(import_selectors(SelectorImportData::Abi(vec![])), Ok(empty));
}

#[test]
fn a_report_names_every_signature() {
    let response = SelectorImportResponse {
        result: SelectorImportResult {
            function: SelectorImportEffect {
                imported: map(&[("f()", "0x26121ff0"), ("g()", "0xe2179b8e")]),
                duplicated: map(&[("h()", "0xb8c9d365")]),
            },
            event: SelectorImportEffect {
                imported: map(&[("E()", "0x92bbf6e8")]),
                duplicated: map(&[("D()", "0x2e7b0b8f")]),
            },
        },
    };
    let lines = response.describe();
    let mut imported = lines[..2].to_vec();
    imported.sort();
    assert_eq!(
        imported,
        texts(&["Imported: Function f(): 0x26121ff0", "Imported: Function g(): 0xe2179b8e"])
    );
    assert_eq!(
        lines[2..],
        texts(&[
            "Imported: Event E(): 0x92bbf6e8",
            "Duplicated: Function h(): 0xb8c9d365",
            "Duplicated: Event D(): 0x2e7b0b8f",
            "Selectors successfully uploaded to OpenChain",
        ])
    );
}

#[test]
fn a_report_on_nothing_has_one_line() {
    let none: Vec<(String, String)> = vec![];
    assert_eq!(
        report_lines(&none, &none, &none, &none),
        texts(&["Selectors successfully uploaded to OpenChain"])
    );
}
