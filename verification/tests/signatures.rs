use alloy_json_abi::JsonAbi;
use openchain_selectors::{
    artifact_files, parse_signatures, ParsedSignatures, RawSelectorImportData,
};

fn texts(items: &[&str]) -> Vec<String> {
    items.iter().map(|item| item.to_string()).collect()
}

#[test]
fn test_parse_signatures() {
    let result = parse_signatures(vec!["transfer(address,uint256)".to_string()], vec![]);
    assert_eq!(
        result,
        ParsedSignatures {
            signatures: RawSelectorImportData {
                function: vec!["transfer(address,uint256)".to_string()],
                ..Default::default()
            },
            ..Default::default()
        }
    );

    let result = parse_signatures(
        vec![
            "transfer(address,uint256)".to_string(),
            "function approve(address,uint256)".to_string(),
        ],
        vec![],
    );
    assert_eq!(
        result,
        ParsedSignatures {
            signatures: RawSelectorImportData {
                function: vec![
                    "transfer(address,uint256)".to_string(),
                    "approve(address,uint256)".to_string()
                ],
                ..Default::default()
            },
            ..Default::default()
        }
    );

    let result = parse_signatures(
        vec![
            "transfer(address,uint256)".to_string(),
            "event Approval(address,address,uint256)".to_string(),
            "error ERC20InsufficientBalance(address,uint256,uint256)".to_string(),
        ],
        vec![],
    );
    assert_eq!(
        result,
        ParsedSignatures {
            signatures: RawSelectorImportData {
                function: vec!["transfer(address,uint256)".to_string()],
                event: vec!["Approval(address,address,uint256)".to_string()],
                error: vec!["ERC20InsufficientBalance(address,uint256,uint256)".to_string()]
            },
            ..Default::default()
        }
    );

    // skips invalid
    let result = parse_signatures(vec!["event".to_string()], vec![]);
    assert_eq!(
        result,
        ParsedSignatures { signatures: Default::default(), ..Default::default() }
    );
}

#[test]
fn bare_type_words_are_skipped_anywhere() {
    let with = parse_signatures(texts(&["function", "f()", "error", "event E()", "event"]), vec![]);
    let without = parse_signatures(texts(&["f()", "event E()"]), vec![]);
    assert_eq!(with, without);
}

#[test]
fn words_behind_the_signature_are_dropped() {
    let result = parse_signatures(texts(&["function f() view", "g() returns", "event E() x"]), vec![]);
    assert_eq!(result.signatures.function, texts(&["f()", "g()"]));
    assert_eq!(result.signatures.event, texts(&["E()"]));
    assert!(result.signatures.error.is_empty());
}

#[test]
fn empty_words_are_no_signatures() {
    let tokens = ["", " ", " f()", "event ", "function ", "error  E()", "function  f()"];
    for token in tokens {
        assert_eq!(parse_signatures(texts(&[token]), vec![]), ParsedSignatures::default());
    }
    assert_eq!(parse_signatures(texts(&tokens), vec![]), ParsedSignatures::default());
}

#[test]
fn artifact_tokens_are_files_and_hold_no_signature() {
    let tokens = texts(&["a.json", "f()", "event b.json", ".json", "c.JSON"]);
    assert_eq!(artifact_files(&tokens), texts(&["a.json", "event b.json", ".json"]));
    let result = parse_signatures(tokens, vec![]);
    assert_eq!(result.signatures.function, texts(&["f()", "c.JSON"]));
    assert!(result.signatures.event.is_empty());
}

#[test]
fn unreadable_artifacts_are_left_out() {
    let first = JsonAbi::parse(["function f()"]).unwrap();
    let second = JsonAbi::parse(["event E()"]).unwrap();
    let result = parse_signatures(
        texts(&["a.json", "b.json", "c.json"]),
        vec![Some(first.clone()), None, Some(second.clone())],
    );
    assert!(result.signatures.is_empty());
    assert_eq!(result.abis, vec![first, second]);
}

#[test]
fn two_lists_of_tokens_are_read_one_after_the_other() {
    let first = parse_signatures(texts(&["f()", "error A()"]), vec![]).signatures;
    let second = parse_signatures(texts(&["error B()", "g()"]), vec![]).signatures;
    let both =
        parse_signatures(texts(&["f()", "error A()", "error B()", "g()"]), vec![]).signatures;
    assert_eq!(both.function, [first.function, second.function].concat());
    assert_eq!(both.error, [first.error, second.error].concat());
}

#[test]
fn functions_are_the_default_type() {
    assert_eq!(
        parse_signatures(texts(&["f(uint256)"]), vec![]),
        parse_signatures(texts(&["function f(uint256)"]), vec![])
    );
}
