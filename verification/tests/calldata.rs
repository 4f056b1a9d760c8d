use openchain_selectors::{
    decode_calldata, keep_decodable, pretty_calldata, OpenChainClient, PossibleSigs, SelectorError,
};

const WORD: &str = "000000000000000000000000d0074f4e6490ae3f888d1d4f7e3e43326bd3f0f5";

fn texts(items: &[&str]) -> Vec<String> {
    items.iter().map(|item| item.to_string()).collect()
}

#[test]
fn nothing_is_known_of_new_calldata() {
    assert_eq!(PossibleSigs::new().render(), "\n Method: 0x00000000\n ------------\n");
}

#[test]
fn calldata_offline() {
    let preview = pretty_calldata(&format!("0x70a08231{WORD}"), true).unwrap();
    assert_eq!(preview.lookup, None);
    let shown = preview.finish(None).unwrap();
    assert_eq!(
        shown.render(),
        format!("\n Method: 70a08231\n ------------\n [000]: {WORD}\n")
    );
}

#[test]
fn calldata_with_signatures() {
    let preview = pretty_calldata(&format!("0x70a08231{WORD}{WORD}"), false).unwrap();
    let lookup = preview.lookup.as_ref().unwrap();
    assert_eq!(
        lookup.url,
        "https://api.openchain.xyz/signature-database/v1/lookup?function=0x70a08231"
    );
    let shown = preview
        .finish(Some(texts(&["passphrase_calculate_transfer(uint64,address)", "balanceOf(address)"])))
        .unwrap();
    assert_eq!(
        shown.render(),
        format!(
            "\n Possible methods:\n - passphrase_calculate_transfer(uint64,address)\n - balanceOf(address)\n ------------\n [000]: {WORD}\n [020]: {WORD}\n"
        )
    );
}

#[test]
fn no_signatures_show_the_selector() {
    let preview = pretty_calldata("70a08231", false).unwrap();
    let shown = preview.finish(Some(vec![])).unwrap();
    assert_eq!(shown.render(), "\n Method: 70a08231\n ------------\n");
}

#[test]
fn labels_grow_beyond_three_digits() {
    let preview = pretty_calldata(&format!("70a08231{}", WORD.repeat(130)), true).unwrap();
    let text = preview.finish(None).unwrap().render();
    let labels: Vec<&str> = text.lines().skip(3).map(|line| &line[..8]).collect();
    assert_eq!(labels[1], " [020]: ");
    assert_eq!(labels[10], " [140]: ");
    assert_eq!(labels[127], " [fe0]: ");
    assert_eq!(labels[128], " [1000]:");
    assert_eq!(labels.len(), 130);
}

#[test]
fn rows_put_together_are_the_calldata() {
    let data = "0123456789abcdef".repeat(12);
    let preview = pretty_calldata(&format!("0x0x70a08231{data}"), true).unwrap();
    assert_eq!(preview.selector, "70a08231");
    assert_eq!(preview.data, data);
    let text = preview.finish(None).unwrap().render();
    let rows: String = text.lines().skip(3).map(|line| &line[8..]).collect();
    assert_eq!(rows, data);
}

#[test]
fn prefixes_make_no_difference_to_a_preview() {
    let calldata = format!("70a08231{WORD}");
    let bare = pretty_calldata(&calldata, false);
    assert_eq!(pretty_calldata(&format!("0x{calldata}"), false), bare);
    assert_eq!(pretty_calldata(&format!("0x0x{calldata}"), false), bare);
}

#[test]
fn calldata_that_cannot_be_shown() {
    for calldata in ["", "0x", "0x70a0823", "0x70a0823é"] {
        assert_eq!(pretty_calldata(calldata, true), Err(SelectorError::MissingSelector));
    }
    let preview = pretty_calldata("0x70a0823100", true).unwrap();
    assert_eq!(preview.finish(None), Err(SelectorError::InvalidCalldataSize));
}

#[test]
fn a_preview_goes_without_a_refused_lookup() {
    let mut client = OpenChainClient::new();
    client.set_spurious();
    let preview = client.pretty_calldata("0x70a08231", false).unwrap();
    assert_eq!(preview.lookup, None);
}

#[test]
fn the_function_of_calldata() {
    let found = decode_calldata(&format!("0x70A08231{WORD}")).unwrap();
    assert_eq!(found.calldata, format!("70A08231{WORD}"));
    assert_eq!(found.lookup.selectors, texts(&["0x70a08231"]));
    assert_eq!(decode_calldata("70a08231").unwrap().lookup, found.lookup);
}

#[test]
fn calldata_without_a_selector() {
    assert_eq!(
        decode_calldata("0x70a0823"),
        Err(SelectorError::CalldataTooShort { len: 7 })
    );
    assert_eq!(decode_calldata(""), Err(SelectorError::CalldataTooShort { len: 0 }));
    // only one prefix is taken off
    assert_eq!(
        decode_calldata("0x0x70a08231"),
        Err(SelectorError::InvalidSelector { selector: "0x70a082".to_string(), expected_len: 10 })
    );
}

#[test]
fn signatures_that_decode_are_kept() {
    let signatures = texts(&["a()", "b()", "c()"]);
    assert_eq!(keep_decodable(&signatures, &vec![true, false, true]), texts(&["a()", "c()"]));
    assert_eq!(keep_decodable(&signatures, &vec![false; 3]), Vec::<String>::new());
    assert_eq!(keep_decodable(&signatures, &vec![true; 3]), signatures);
}
