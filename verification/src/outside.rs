//! What the crate takes on trust: types of other crates, and the calls into
//! them and into the standard library that it makes, each with the contract
//! that its callers rely on.

use crate::lookup::Decoded;
use alloy_json_abi::JsonAbi;
use alloy_primitives::map::HashMap;
use vstd::prelude::*;
use vstd::utf8::is_ascii_chars;

verus! {

/// `alloy_json_abi::JsonAbi`, the ABI of a contract.
///
/// It is opaque here but for the signatures of its functions, errors and
/// events: see [`abi_functions`], [`abi_errors`] and [`abi_events`].
#[verifier::external_type_specification]
#[verifier::external_body]
pub struct ExJsonAbi(JsonAbi);

/// `alloy_primitives::map::DefaultHashBuilder`, the hasher of the maps of
/// `alloy_primitives`. Nothing is known of it.
#[verifier::external_type_specification]
#[verifier::external_body]
pub struct ExDefaultHashBuilder(alloy_primitives::map::DefaultHashBuilder);

/// The signatures of the functions that `abi` holds, in the order in which
/// `JsonAbi::functions` goes through them: by the name that they are filed
/// under, those of one name in the order of its list.
pub uninterp spec fn abi_functions(abi: JsonAbi) -> Seq<Seq<char>>;

/// The signatures of the errors that `abi` holds, in the order in which
/// `JsonAbi::errors` goes through them.
pub uninterp spec fn abi_errors(abi: JsonAbi) -> Seq<Seq<char>>;

/// The signatures of the events that `abi` holds, in the order in which
/// `JsonAbi::events` goes through them.
pub uninterp spec fn abi_events(abi: JsonAbi) -> Seq<Seq<char>>;

/// Calls `JsonAbi::functions` and takes `Function::signature` of each item.
///
/// The iterator walks a `BTreeMap` of vectors and a signature is made of the
/// name and the parameters of its function alone, so the outcome is a function
/// of the ABI: [`abi_functions`]. How a signature is spelled is not stated.
#[verifier::external_body]
pub(crate) fn function_signatures(abi: &JsonAbi) -> (res: Vec<String>)
    ensures
        res.deep_view() == abi_functions(*abi),
{
    abi.functions().map(|function| function.signature()).collect()
}

/// Calls `JsonAbi::errors` and takes `Error::signature` of each item.
///
/// As with [`function_signatures`], the outcome is a function of the ABI.
#[verifier::external_body]
pub(crate) fn error_signatures(abi: &JsonAbi) -> (res: Vec<String>)
    ensures
        res.deep_view() == abi_errors(*abi),
{
    abi.errors().map(|error| error.signature()).collect()
}

/// Calls `JsonAbi::events` and takes `Event::signature` of each item.
///
/// As with [`function_signatures`], the outcome is a function of the ABI.
#[verifier::external_body]
pub(crate) fn event_signatures(abi: &JsonAbi) -> (res: Vec<String>)
    ensures
        res.deep_view() == abi_events(*abi),
{
    abi.events().map(|event| event.signature()).collect()
}

/// Calls `HashMap::get` of `alloy_primitives::map` on a table of signatures.
///
/// It returns the entry under the key with the given text, if there is one.
/// Keys that are `String`s are equal if their texts are.
#[verifier::external_body]
pub(crate) fn table_get<'a>(
    table: &'a HashMap<String, Option<Vec<Decoded>>>,
    key: &str,
) -> (res: Option<&'a Option<Vec<Decoded>>>)
    ensures
        match res {
            Some(entry) => {
                &&& table.deep_view().contains_key(key@)
                &&& table.deep_view()[key@] == entry.deep_view()
            },
            None => !table.deep_view().contains_key(key@),
        },
{
    table.get(key)
}

/// Whether `entries` holds what `map` holds, each key once, in whatever order.
pub open spec fn lists(
    entries: Seq<(Seq<char>, Seq<char>)>,
    map: Map<Seq<char>, Seq<char>>,
) -> bool {
    &&& forall|i: int|
        0 <= i < entries.len() ==> {
            &&& map.contains_key((#[trigger] entries[i]).0)
            &&& map[entries[i].0] == entries[i].1
        }
    &&& forall|i: int, j: int|
        0 <= i < j < entries.len() ==> (#[trigger] entries[i]).0 != (#[trigger] entries[j]).0
    &&& forall|key: Seq<char>| #[trigger]
        map.contains_key(key) ==> exists|i: int|
            0 <= i < entries.len() && (#[trigger] entries[i]).0 == key
}

/// Calls `HashMap::iter` of `alloy_primitives::map` and copies each entry out.
///
/// The iterator visits every entry once. Nothing is said of the order.
#[verifier::external_body]
pub(crate) fn map_entries(map: &HashMap<String, String>) -> (res: Vec<(String, String)>)
    ensures
        lists(res.deep_view(), map.deep_view()),
{
    map.iter().map(|(key, value)| (key.clone(), value.clone())).collect()
}

/// `text` in lower case as `str::to_lowercase` has it, for a text that is not
/// all ASCII: by the case mapping of Unicode, which can change its length.
pub uninterp spec fn unicode_lowercase(text: Seq<char>) -> Seq<char>;

/// `text` with the letters `A` to `Z` replaced by `a` to `z`.
pub open spec fn ascii_lowercase(text: Seq<char>) -> Seq<char> {
    text.map_values(
        |c: char|
            if 'A' <= c && c <= 'Z' {
                (c as int - 'A' as int + 'a' as int) as char
            } else {
                c
            },
    )
}

/// `text` in lower case.
pub open spec fn lowercase(text: Seq<char>) -> Seq<char> {
    if is_ascii_chars(text) {
        ascii_lowercase(text)
    } else {
        unicode_lowercase(text)
    }
}

/// Calls `str::to_lowercase`.
///
/// On ASCII text it maps the letters `A` to `Z` to `a` to `z` and keeps every
/// other character. On other text the outcome is only named.
#[verifier::external_body]
pub(crate) fn to_lowercase(text: &str) -> (res: String)
    ensures
        is_ascii_chars(text@) ==> res@ == ascii_lowercase(text@),
        !is_ascii_chars(text@) ==> res@ == unicode_lowercase(text@),
{
    text.to_lowercase()
}

/// Lowercasing ASCII text goes character by character: the twenty-six letters
/// `A` to `Z` become those thirty-two places on, and every other character is
/// kept.
pub proof fn law_lowercase_by_characters(text: Seq<char>)
    requires
        is_ascii_chars(text),
    ensures
        lowercase(text).len() == text.len(),
        forall|i: int|
            0 <= i < text.len() ==> if 65 <= (#[trigger] text[i]) as int <= 90 {
                lowercase(text)[i] as int == text[i] as int + 32
            } else {
                lowercase(text)[i] == text[i]
            },
{
}

/// Any two lists of what a map holds have the same entries, and each entry once.
pub proof fn law_lists_have_the_same_entries(
    first: Seq<(Seq<char>, Seq<char>)>,
    second: Seq<(Seq<char>, Seq<char>)>,
    map: Map<Seq<char>, Seq<char>>,
)
    requires
        lists(first, map),
        lists(second, map),
    ensures
        first.no_duplicates(),
        forall|entry: (Seq<char>, Seq<char>)| #[trigger]
            first.contains(entry) <==> map.contains_key(entry.0) && map[entry.0] == entry.1,
        forall|entry: (Seq<char>, Seq<char>)|
            first.contains(entry) <==> #[trigger] second.contains(entry),
{
    assert forall|entry: (Seq<char>, Seq<char>)| #[trigger] first.contains(entry)
        <==> map.contains_key(entry.0) && map[entry.0] == entry.1 by {
        if map.contains_key(entry.0) && map[entry.0] == entry.1 {
            let i = choose|i: int| 0 <= i < first.len() && (#[trigger] first[i]).0 == entry.0;
            assert(first[i] == entry);
        }
    }
    assert forall|entry: (Seq<char>, Seq<char>)| #[trigger] second.contains(entry)
        <==> map.contains_key(entry.0) && map[entry.0] == entry.1 by {
        if map.contains_key(entry.0) && map[entry.0] == entry.1 {
            let i = choose|i: int| 0 <= i < second.len() && (#[trigger] second[i]).0 == entry.0;
            assert(second[i] == entry);
        }
    }
}

} // verus!
