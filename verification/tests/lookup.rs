use alloy_primitives::map::HashMap;
use openchain_selectors::{
    decode_event_topic, decode_function_selector, decode_selector, decode_selectors, entry_names,
    normalize, sole_signatures, ApiResponse, ApiResult, Decoded, Lookup, LookupStep,
    OpenChainClient, SelectorError, SelectorType,
};

fn texts(items: &[&str]) -> Vec<String> {
    items.iter().map(|item| item.to_string()).collect()
}

fn table(entries: &[(&str, Option<&[&str]>)]) -> HashMap<String, Option<Vec<Decoded>>> {
    let mut table = HashMap::default();
    for (selector, names) in entries {
        let names = names
            .map(|names| names.iter().map(|name| Decoded { name: name.to_string() }).collect());
        table.insert(selector.to_string(), names);
    }
    table
}

fn answer(ok: bool) -> ApiResponse {
    ApiResponse {
        ok,
        result: ApiResult {
            event: table(&[("0xa9059cbb", Some(&["Wrong()"]))]),
            function: table(&[
                ("0xa9059cbb", Some(&["transfer(address,uint256)", "many_msg_babbage(bytes1)"])),
                ("0x00000000", None),
                ("0x11111111", Some(&[])),
            ]),
        },
    }
}

fn fetch(step: Result<LookupStep, SelectorError>) -> Lookup {
    match step {
        Ok(LookupStep::Fetch(lookup)) => lookup,
        other => panic!("no request: {other:?}"),
    }
}

#[test]
fn selectors_are_normalized() {
    assert_eq!(normalize("A9059CBB"), "0xa9059cbb");
    assert_eq!(normalize("0xA9059cbb"), "0xa9059cbb");
    assert_eq!(normalize("0XA9059cbb"), "0xa9059cbb");
    assert_eq!(normalize("0xa9059cbb"), "0xa9059cbb");
    assert_eq!(normalize(""), "0x");
    assert_eq!(normalize("ÀÉ"), "0xàé");
}

#[test]
fn nothing_to_decode() {
    let mut client = OpenChainClient::new();
    assert_eq!(
        client.decode_selectors(SelectorType::Function, vec![]),
        Ok(LookupStep::Done(vec![]))
    );
    client.set_spurious();
    assert_eq!(
        client.decode_selectors(SelectorType::Event, vec![]),
        Ok(LookupStep::Done(vec![]))
    );
    assert_eq!(decode_selectors(SelectorType::Error, vec![]), Ok(LookupStep::Done(vec![])));
}

#[test]
fn a_lookup_asks_for_all_selectors() {
    let lookup = fetch(decode_selectors(
        SelectorType::Function,
        texts(&["a9059cbb", "0x70A08231", "0x095ea7b3"]),
    ));
    assert_eq!(lookup.selectors, texts(&["0xa9059cbb", "0x70a08231", "0x095ea7b3"]));
    assert_eq!(
        lookup.url,
        "https://api.openchain.xyz/signature-database/v1/lookup?function=0xa9059cbb,0x70a08231,0x095ea7b3"
    );
}

#[test]
fn events_have_longer_selectors() {
    let topic = "ddf252ad1be2c89b69c2b068fc378daa952ba7f163c4a11628f55a4df523b3ef";
    let lookup = decode_event_topic(topic).unwrap();
    assert_eq!(
        lookup.url,
        format!("https://api.openchain.xyz/signature-database/v1/lookup?event=0x{topic}")
    );
    assert_eq!(
        decode_function_selector(topic),
        Err(SelectorError::InvalidSelector { selector: format!("0x{topic}"), expected_len: 10 })
    );
    assert_eq!(
        decode_event_topic("A9059CBB"),
        Err(SelectorError::InvalidSelector {
            selector: "0xa9059cbb".to_string(),
            expected_len: 66
        })
    );
}

#[test]
fn the_first_selector_of_a_wrong_length_is_named() {
    assert_eq!(
        decode_selectors(SelectorType::Error, texts(&["a9059cbb", "0xAB", "0xcd"])),
        Err(SelectorError::InvalidSelector { selector: "0xab".to_string(), expected_len: 10 })
    );
    // `İ` takes two bytes and its lower case three
    assert_eq!(
        decode_selector(SelectorType::Function, "İ000000"),
        Err(SelectorError::InvalidSelector {
            selector: "0xi\u{307}000000".to_string(),
            expected_len: 10
        })
    );
}

#[test]
fn errors_are_looked_up_like_functions() {
    let function = decode_selector(SelectorType::Function, "0xa9059cbb").unwrap();
    let error = decode_selector(SelectorType::Error, "0xa9059cbb").unwrap();
    assert_eq!(function.url, error.url);
    assert_eq!(
        function.decode_single("", Ok(answer(true))),
        error.decode_single("", Ok(answer(true)))
    );
}

#[test]
fn the_outcome_has_an_item_for_each_selector() {
    let lookup = fetch(decode_selectors(
        SelectorType::Function,
        texts(&["00000000", "A9059CBB", "22222222", "11111111", "a9059cbb"]),
    ));
    let transfer = Some(texts(&["transfer(address,uint256)", "many_msg_babbage(bytes1)"]));
    assert_eq!(
        lookup.decode("{}", Ok(answer(true))),
        Ok(vec![None, transfer.clone(), None, Some(vec![]), transfer])
    );
}

#[test]
fn answers_that_fail() {
    let lookup = decode_function_selector("a9059cbb").unwrap();
    assert_eq!(
        lookup.decode("body", Err("reason".to_string())),
        Err(SelectorError::UndecodableResponse {
            response: "body".to_string(),
            cause: "reason".to_string()
        })
    );
    assert_eq!(
        lookup.decode_single("body", Ok(answer(false))),
        Err(SelectorError::LookupFailed { response: "body".to_string() })
    );
}

#[test]
fn a_single_selector() {
    let known = decode_function_selector("a9059cbb").unwrap();
    assert_eq!(
        known.decode_single("", Ok(answer(true))),
        Ok(texts(&["transfer(address,uint256)", "many_msg_babbage(bytes1)"]))
    );
    for selector in ["00000000", "22222222"] {
        let unknown = decode_function_selector(selector).unwrap();
        assert_eq!(
            unknown.decode_single("", Ok(answer(true))),
            Err(SelectorError::NoSignatureFound)
        );
    }
    let empty = decode_function_selector("11111111").unwrap();
    assert_eq!(empty.decode_single("", Ok(answer(true))), Ok(vec![]));
}

#[test]
fn entries_of_an_answer() {
    assert_eq!(entry_names(None), None);
    assert_eq!(entry_names(Some(&None)), None);
    let names = Some(vec![Decoded { name: "f()".to_string() }]);
    assert_eq!(entry_names(Some(&names)), Some(texts(&["f()"])));
    assert_eq!(
        sole_signatures(vec![None, Some(texts(&["f()"]))]),
        Ok(texts(&["f()"]))
    );
    assert_eq!(sole_signatures(vec![None]), Err(SelectorError::NoSignatureFound));
}

#[test]
fn different_selectors_have_different_addresses() {
    let first = fetch(decode_selectors(SelectorType::Function, texts(&["a9059cbb", "70a08231"])));
    let second = fetch(decode_selectors(SelectorType::Function, texts(&["70a08231", "a9059cbb"])));
    assert_ne!(first.url, second.url);
}

#[test]
fn spelling_makes_no_difference() {
    let plain = decode_selectors(SelectorType::Function, texts(&["a9059cbb", "0x70a08231"]));
    let fancy = decode_selectors(SelectorType::Function, texts(&["0XA9059cBB", "0X70A08231"]));
    assert_eq!(plain, fancy);
    assert_eq!(
        decode_selector(SelectorType::Function, "abc"),
        decode_selector(SelectorType::Function, "0XABC")
    );
}
