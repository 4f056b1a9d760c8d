//! Looking up the signatures behind selectors.
//!
//! A lookup takes one request. [`OpenChainClient::decode_selectors`] decides
//! what to ask for, the caller fetches [`Lookup::url`], and [`Lookup::decode`]
//! reads the answer.

use crate::client::{Connection, OpenChainClient};
use crate::error::SelectorError;
use crate::outside::{ascii_lowercase, lowercase, table_get, to_lowercase, unicode_lowercase};
use crate::text::{
    byte_count, byte_len, join, joined, lemma_encode_concat, lemma_encode_injective, starts_with,
};
use alloy_primitives::map::HashMap;
use vstd::prelude::*;
use vstd::string::StringExecFns;
use vstd::utf8::*;

verus! {

/// Where signatures are looked up.
pub const SELECTOR_LOOKUP_URL: &'static str = "https://api.openchain.xyz/signature-database/v1/lookup";

/// The type of selector fetched from OpenChain.
#[derive(Clone, Copy, Debug, PartialEq, Eq)]
pub enum SelectorType {
    /// A function selector.
    Function,
    /// An event selector.
    Event,
    /// A custom error selector.
    Error,
}

impl SelectorType {
    /// How long a selector of this type is, in bytes, with its `0x` prefix: that
    /// and four bytes in hexadecimal, or thirty-two for an event.
    pub open spec fn spec_expected_len(self) -> usize {
        match self {
            SelectorType::Function | SelectorType::Error => 10,
            SelectorType::Event => 66,
        }
    }

    /// What the service calls selectors of this type. It does not tell errors
    /// from functions.
    pub open spec fn spec_query(self) -> Seq<char> {
        match self {
            SelectorType::Function | SelectorType::Error => "function"@,
            SelectorType::Event => "event"@,
        }
    }

    fn expected_len(self) -> (res: usize)
        ensures
            res == self.spec_expected_len(),
    {
        match self {
            SelectorType::Function | SelectorType::Error => 10,
            SelectorType::Event => 66,
        }
    }

    fn query(self) -> (res: &'static str)
        ensures
            res@ == self.spec_query(),
    {
        match self {
            SelectorType::Function | SelectorType::Error => "function",
            SelectorType::Event => "event",
        }
    }
}

/// `selector` in the form in which the service knows it: in lower case and with
/// a `0x` prefix.
pub open spec fn normalized(selector: Seq<char>) -> Seq<char> {
    let lower = lowercase(selector);
    if "0x"@.is_prefix_of(lower) {
        lower
    } else {
        "0x"@ + lower
    }
}

/// Each of `selectors` in the form in which the service knows it.
pub open spec fn normalized_all(selectors: Seq<Seq<char>>) -> Seq<Seq<char>> {
    selectors.map_values(|selector: Seq<char>| normalized(selector))
}

/// Whether `selector` is as long as a selector of the given type.
pub open spec fn fits(selector_type: SelectorType, selector: Seq<char>) -> bool {
    byte_len(selector) == selector_type.spec_expected_len()
}

/// The address of a lookup of `selectors`.
pub open spec fn lookup_url(selector_type: SelectorType, selectors: Seq<Seq<char>>) -> Seq<char> {
    SELECTOR_LOOKUP_URL@ + "?"@ + selector_type.spec_query() + "="@ + joined(selectors, ","@)
}

/// What `table` has under `selector`: nothing where it has no entry, and where
/// the entry is empty.
pub open spec fn known(
    table: Map<Seq<char>, Option<Seq<Seq<char>>>>,
    selector: Seq<char>,
) -> Option<Seq<Seq<char>>> {
    if table.contains_key(selector) {
        table[selector]
    } else {
        None
    }
}

/// One signature in an answer of the service.
#[derive(Debug, PartialEq, Eq)]
pub struct Decoded {
    /// The signature.
    pub name: String,
}

impl DeepView for Decoded {
    type V = Seq<char>;

    open spec fn deep_view(&self) -> Seq<char> {
        self.name@
    }
}

/// The signatures in an answer of the service, by selector.
#[derive(Debug)]
pub struct ApiResult {
    /// Signatures of events.
    pub event: HashMap<String, Option<Vec<Decoded>>>,
    /// Signatures of functions and errors.
    pub function: HashMap<String, Option<Vec<Decoded>>>,
}

impl ApiResult {
    /// The signatures among which those of the given type are found.
    pub open spec fn table(&self, selector_type: SelectorType) -> Map<
        Seq<char>,
        Option<Seq<Seq<char>>>,
    > {
        match selector_type {
            SelectorType::Function | SelectorType::Error => self.function.deep_view(),
            SelectorType::Event => self.event.deep_view(),
        }
    }
}

/// An answer of the service.
#[derive(Debug)]
pub struct ApiResponse {
    /// Whether the lookup succeeded.
    pub ok: bool,
    /// What was found.
    pub result: ApiResult,
}

/// A lookup that is ready to be sent.
#[derive(Debug, PartialEq, Eq)]
pub struct Lookup {
    /// The address to fetch.
    pub url: String,
    /// The type of the selectors.
    pub selector_type: SelectorType,
    /// The selectors, in lower case and with their `0x` prefix.
    pub selectors: Vec<String>,
}

impl Lookup {
    /// Whether this is the lookup of `selectors`, which are normalized.
    pub open spec fn asks_for(
        &self,
        selector_type: SelectorType,
        selectors: Seq<Seq<char>>,
    ) -> bool {
        &&& self.selector_type == selector_type
        &&& self.selectors.deep_view() == selectors
        &&& self.url@ == lookup_url(selector_type, selectors)
    }
}

impl Lookup {
    /// What this lookup gives if `answer` is what the service has found: one
    /// item for each selector, in the same order.
    pub open spec fn outcome(&self, answer: ApiResult) -> Seq<Option<Seq<Seq<char>>>> {
        self.selectors.deep_view().map_values(
            |selector: Seq<char>| known(answer.table(self.selector_type), selector),
        )
    }
}

/// How a lookup goes on.
#[derive(Debug, PartialEq, Eq)]
pub enum LookupStep {
    /// There is nothing to ask for: this is the outcome.
    Done(Vec<Option<Vec<String>>>),
    /// The service has to be asked.
    Fetch(Lookup),
}

/// Whether a lookup of `selectors`, at least one, that a client with the given
/// state is asked for goes on as `res` says.
///
/// It is refused on a spurious connection, and else for the first selector
/// that, once normalized, does not have the length of its type.
pub open spec fn lookup_begins(
    state: Connection,
    selector_type: SelectorType,
    selectors: Seq<Seq<char>>,
    res: Result<Lookup, SelectorError>,
) -> bool {
    let all = normalized_all(selectors);
    match res {
        Ok(lookup) => {
            &&& !state.spurious
            &&& forall|i: int| 0 <= i < all.len() ==> fits(selector_type, #[trigger] all[i])
            &&& lookup.asks_for(selector_type, all)
        },
        Err(SelectorError::SpuriousConnection) => state.spurious,
        Err(SelectorError::InvalidSelector { selector, expected_len }) => {
            &&& !state.spurious
            &&& expected_len == selector_type.spec_expected_len()
            &&& exists|i: int|
                {
                    &&& 0 <= i < all.len()
                    &&& #[trigger] all[i] == selector@
                    &&& !fits(selector_type, all[i])
                    &&& forall|j: int| 0 <= j < i ==> fits(selector_type, #[trigger] all[j])
                }
        },
        Err(_) => false,
    }
}

/// Whether a lookup of `selectors` that a client with the given state is asked
/// for goes on as `res` says. A lookup of no selectors is done at once, even on
/// a spurious connection.
pub open spec fn lookup_steps(
    state: Connection,
    selector_type: SelectorType,
    selectors: Seq<Seq<char>>,
    res: Result<LookupStep, SelectorError>,
) -> bool {
    if selectors.len() == 0 {
        res matches Ok(LookupStep::Done(decoded)) && decoded.len() == 0
    } else {
        match res {
            Ok(LookupStep::Done(_)) => false,
            Ok(LookupStep::Fetch(lookup)) => lookup_begins(
                state,
                selector_type,
                selectors,
                Ok(lookup),
            ),
            Err(err) => lookup_begins(state, selector_type, selectors, Err(err)),
        }
    }
}

/// Brings `selector` into the form in which the service knows it: in lower case
/// and with a `0x` prefix.
pub fn normalize(selector: &str) -> (res: String)
    ensures
        res@ == normalized(selector@),
{
    let lower = to_lowercase(selector);
    if starts_with(lower.as_str(), "0x") {
        lower
    } else {
        let mut res = "0x".to_owned();
        res.append(lower.as_str());
        res
    }
}

/// The signatures in an entry of an answer: none where the answer has no entry
/// for a selector, and where the entry is empty.
pub fn entry_names(entry: Option<&Option<Vec<Decoded>>>) -> (res: Option<Vec<String>>)
    ensures
        res.deep_view() == (match entry {
            Some(names) => names.deep_view(),
            None => None,
        }),
{
    match entry {
        Some(Some(decoded)) => {
            let mut names: Vec<String> = Vec::new();
            for i in 0..decoded.len()
                invariant
                    names.len() == i,
                    forall|j: int| 0 <= j < i ==> names[j]@ == decoded[j].name@,
            {
                names.push(decoded[i].name.clone());
            }
            proof {
                assert(names.deep_view() =~= decoded.deep_view());
            }
            Some(names)
        },
        _ => None,
    }
}

impl OpenChainClient {
    /// Begins to decode the given function, error or event selectors.
    pub fn decode_selectors(&self, selector_type: SelectorType, selectors: Vec<String>) -> (res:
        Result<LookupStep, SelectorError>)
        ensures
            lookup_steps(self@, selector_type, selectors.deep_view(), res),
    {
        let ghost all = normalized_all(selectors.deep_view());
        let mut normal: Vec<String> = Vec::new();
        for i in 0..selectors.len()
            invariant
                all == normalized_all(selectors.deep_view()),
                normal.len() == i,
                forall|j: int| 0 <= j < i ==> normal[j]@ == all[j],
        {
            normal.push(normalize(selectors[i].as_str()));
        }
        proof {
            assert(normal.deep_view() =~= all);
        }
        if normal.len() == 0 {
            return Ok(LookupStep::Done(Vec::new()));
        }
        if let Err(err) = self.ensure_not_spurious() {
            return Err(err);
        }
        let expected_len = selector_type.expected_len();
        for i in 0..normal.len()
            invariant
                all == normalized_all(selectors.deep_view()),
                normal.deep_view() == all,
                normal.len() == all.len(),
                !self@.spurious,
                selectors.len() > 0,
                expected_len == selector_type.spec_expected_len(),
                forall|j: int| 0 <= j < i ==> fits(selector_type, #[trigger] all[j]),
        {
            if byte_count(normal[i].as_str()) != expected_len {
                let selector = normal[i].clone();
                proof {
                    assert(all[i as int] == selector@);
                }
                return Err(SelectorError::InvalidSelector { selector, expected_len });
            }
            proof {
                assert(all[i as int] == normal[i as int]@);
            }
        }
        let mut url = SELECTOR_LOOKUP_URL.to_owned();
        url.append("?");
        url.append(selector_type.query());
        url.append("=");
        url.append(join(&normal, ",").as_str());
        Ok(LookupStep::Fetch(Lookup { url, selector_type, selectors: normal }))
    }

    /// Begins to decode the given function or event selector.
    pub fn decode_selector(&self, selector: &str, selector_type: SelectorType) -> (res: Result<
        Lookup,
        SelectorError,
    >)
        ensures
            lookup_begins(self@, selector_type, seq![selector@], res),
    {
        let mut selectors: Vec<String> = Vec::new();
        selectors.push(selector.to_owned());
        proof {
            assert(selectors.deep_view() =~= seq![selector@]);
        }
        match self.decode_selectors(selector_type, selectors) {
            Ok(LookupStep::Fetch(lookup)) => Ok(lookup),
            Ok(LookupStep::Done(_)) => {
                proof {
                    assert(false);
                }
                Err(SelectorError::NoSignatureFound)
            },
            Err(err) => Err(err),
        }
    }

    /// Begins to fetch a function signature given the selector.
    pub fn decode_function_selector(&self, selector: &str) -> (res: Result<Lookup, SelectorError>)
        ensures
            lookup_begins(self@, SelectorType::Function, seq![selector@], res),
    {
        self.decode_selector(selector, SelectorType::Function)
    }

    /// Begins to fetch an event signature given the 32 byte topic.
    pub fn decode_event_topic(&self, topic: &str) -> (res: Result<Lookup, SelectorError>)
        ensures
            lookup_begins(self@, SelectorType::Event, seq![topic@], res),
    {
        self.decode_selector(topic, SelectorType::Event)
    }
}

impl Lookup {
    /// Reads the answer to this lookup, which is `response`. What that says is
    /// `parsed`, or the reason why it says nothing.
    ///
    /// The outcome has one item for each selector, in the same order.
    pub fn decode(&self, response: &str, parsed: Result<ApiResponse, String>) -> (res: Result<
        Vec<Option<Vec<String>>>,
        SelectorError,
    >)
        ensures
            match parsed {
                Err(reason) => {
                    &&& res matches Err(SelectorError::UndecodableResponse { response: text, cause })
                    &&& text@ == response@
                    &&& cause@ == reason@
                },
                Ok(answer) => if !answer.ok {
                    res matches Err(SelectorError::LookupFailed { response: text }) && text@
                        == response@
                } else {
                    &&& res matches Ok(decoded)
                    &&& decoded.deep_view() == self.outcome(answer.result)
                },
            },
    {
        let answer = match parsed {
            Ok(answer) => answer,
            Err(cause) => {
                return Err(
                    SelectorError::UndecodableResponse { response: response.to_owned(), cause },
                );
            },
        };
        if !answer.ok {
            return Err(SelectorError::LookupFailed { response: response.to_owned() });
        }
        let table = match self.selector_type {
            SelectorType::Function | SelectorType::Error => &answer.result.function,
            SelectorType::Event => &answer.result.event,
        };
        let ghost expected = self.outcome(answer.result);
        let mut decoded: Vec<Option<Vec<String>>> = Vec::new();
        for i in 0..self.selectors.len()
            invariant
                table.deep_view() == answer.result.table(self.selector_type),
                expected == self.outcome(answer.result),
                decoded.len() == i,
                forall|j: int| 0 <= j < i ==> (#[trigger] decoded[j]).deep_view() == expected[j],
        {
            decoded.push(entry_names(table_get(table, self.selectors[i].as_str())));
        }
        proof {
            assert(decoded.deep_view() =~= expected);
        }
        Ok(decoded)
    }

    /// Reads the answer to the lookup of a single selector: of the last one, if
    /// there are more.
    pub fn decode_single(&self, response: &str, parsed: Result<ApiResponse, String>) -> (res:
        Result<Vec<String>, SelectorError>)
        requires
            self.selectors.len() > 0,
        ensures
            match parsed {
                Err(reason) => {
                    &&& res matches Err(SelectorError::UndecodableResponse { response: text, cause })
                    &&& text@ == response@
                    &&& cause@ == reason@
                },
                Ok(answer) => if !answer.ok {
                    res matches Err(SelectorError::LookupFailed { response: text }) && text@
                        == response@
                } else {
                    match known(
                        answer.result.table(self.selector_type),
                        self.selectors.deep_view().last(),
                    ) {
                        Some(names) => res matches Ok(found) && found.deep_view() == names,
                        None => res matches Err(SelectorError::NoSignatureFound),
                    }
                },
            },
    {
        match self.decode(response, parsed) {
            Ok(decoded) => {
                proof {
                    assert(decoded.deep_view().len() == self.selectors.deep_view().len());
                    assert(decoded.deep_view().last() == decoded@.last().deep_view());
                }
                sole_signatures(decoded)
            },
            Err(err) => Err(err),
        }
    }
}

/// The signatures of a selector that was looked up alone: those of the last
/// one, if there are more.
pub fn sole_signatures(decoded: Vec<Option<Vec<String>>>) -> (res: Result<
    Vec<String>,
    SelectorError,
>)
    requires
        decoded.len() > 0,
    ensures
        match decoded@.last() {
            Some(names) => res == Ok::<Vec<String>, SelectorError>(names),
            None => res == Err::<Vec<String>, SelectorError>(SelectorError::NoSignatureFound),
        },
{
    let mut decoded = decoded;
    match decoded.pop() {
        Some(Some(names)) => Ok(names),
        _ => Err(SelectorError::NoSignatureFound),
    }
}

/// Begins to decode the given function or event selector with a new client.
pub fn decode_selector(selector_type: SelectorType, selector: &str) -> (res: Result<
    Lookup,
    SelectorError,
>)
    ensures
        lookup_begins(Connection::fresh(), selector_type, seq![selector@], res),
{
    OpenChainClient::new().decode_selector(selector, selector_type)
}

/// Begins to decode the given function or event selectors with a new client.
pub fn decode_selectors(selector_type: SelectorType, selectors: Vec<String>) -> (res: Result<
    LookupStep,
    SelectorError,
>)
    ensures
        lookup_steps(Connection::fresh(), selector_type, selectors.deep_view(), res),
{
    OpenChainClient::new().decode_selectors(selector_type, selectors)
}

/// Begins to fetch a function signature given the selector with a new client.
pub fn decode_function_selector(selector: &str) -> (res: Result<Lookup, SelectorError>)
    ensures
        lookup_begins(Connection::fresh(), SelectorType::Function, seq![selector@], res),
{
    OpenChainClient::new().decode_function_selector(selector)
}

/// Begins to fetch an event signature given the 32 byte topic with a new client.
pub fn decode_event_topic(topic: &str) -> (res: Result<Lookup, SelectorError>)
    ensures
        lookup_begins(Connection::fresh(), SelectorType::Event, seq![topic@], res),
{
    OpenChainClient::new().decode_event_topic(topic)
}

/// Lowercasing ASCII text keeps its length and its being ASCII, and doing it
/// twice is doing it once.
proof fn lemma_ascii_lowercase(text: Seq<char>)
    requires
        is_ascii_chars(text),
    ensures
        lowercase(text) == ascii_lowercase(text),
        lowercase(text).len() == text.len(),
        is_ascii_chars(lowercase(text)),
        lowercase(lowercase(text)) == lowercase(text),
{
    let lower = ascii_lowercase(text);
    assert forall|i: int| 0 <= i < lower.len() implies '\0' <= #[trigger] lower[i] <= '\u{7f}' by {
        assert('\0' <= text[i] <= '\u{7f}');
    }
    assert(ascii_lowercase(lower) =~= lower);
}

/// A `0x` before ASCII text stays there when the text is lowercased.
proof fn lemma_lowercase_keeps_prefix(text: Seq<char>)
    requires
        is_ascii_chars(text),
    ensures
        is_ascii_chars("0x"@ + text),
        lowercase("0x"@ + text) == "0x"@ + lowercase(text),
{
    reveal_strlit("0x");
    let prefixed = "0x"@ + text;
    assert forall|i: int| 0 <= i < prefixed.len() implies '\0' <= #[trigger] prefixed[i]
        <= '\u{7f}' by {
        if i >= 2 {
            assert(prefixed[i] == text[i - 2]);
        }
    }
    assert(ascii_lowercase(prefixed) =~= "0x"@ + ascii_lowercase(text));
}

/// Every selector that is asked for carries the `0x` prefix.
pub proof fn law_normalized_has_prefix(selector: Seq<char>)
    ensures
        "0x"@.is_prefix_of(normalized(selector)),
{
    let lower = lowercase(selector);
    assert(("0x"@ + lower).subrange(0, "0x"@.len() as int) =~= "0x"@);
}

/// A selector in ASCII that is in the form in which the service knows it stays
/// as it is.
pub proof fn law_normalized_twice(selector: Seq<char>)
    requires
        is_ascii_chars(selector),
    ensures
        normalized(normalized(selector)) == normalized(selector),
{
    lemma_ascii_lowercase(selector);
    law_normalized_has_prefix(selector);
    if !"0x"@.is_prefix_of(lowercase(selector)) {
        lemma_lowercase_keeps_prefix(lowercase(selector));
    }
}

/// The case of a selector in ASCII makes no difference.
pub proof fn law_case_makes_no_difference(selector: Seq<char>)
    requires
        is_ascii_chars(selector),
    ensures
        normalized(ascii_lowercase(selector)) == normalized(selector),
{
    lemma_ascii_lowercase(selector);
}

/// A selector in ASCII that lacks the `0x` prefix is looked up as if it had it.
pub proof fn law_prefix_is_optional(selector: Seq<char>)
    requires
        is_ascii_chars(selector),
        !"0x"@.is_prefix_of(lowercase(selector)),
    ensures
        normalized("0x"@ + selector) == normalized(selector),
{
    lemma_lowercase_keeps_prefix(selector);
    law_normalized_has_prefix(selector);
}

/// Whether `first` and `second` are the same in lower case, but for a `0x`
/// prefix that `second` may have where `first` has none.
pub open spec fn respelled(first: Seq<char>, second: Seq<char>) -> bool {
    ||| lowercase(second) == lowercase(first)
    ||| {
        &&& !"0x"@.is_prefix_of(lowercase(first))
        &&& lowercase(second) == "0x"@ + lowercase(first)
    }
}

/// A selector in ASCII may be respelled by changing letters in case and, if it
/// begins with neither `0x` nor `0X`, by putting one of these in front.
pub proof fn law_ascii_respellings(first: Seq<char>, prefix: Seq<char>, rest: Seq<char>)
    requires
        is_ascii_chars(first),
        is_ascii_chars(rest),
        ascii_lowercase(rest) == ascii_lowercase(first),
        ({
            ||| prefix == ""@
            ||| {
                &&& prefix == "0x"@ || prefix == "0X"@
                &&& !"0x"@.is_prefix_of(first)
                &&& !"0X"@.is_prefix_of(first)
            }
        }),
    ensures
        respelled(first, prefix + rest),
{
    reveal_strlit("");
    reveal_strlit("0x");
    reveal_strlit("0X");
    let second = prefix + rest;
    if prefix == ""@ {
        assert(second =~= rest);
    } else {
        assert forall|i: int| 0 <= i < second.len() implies '\0' <= #[trigger] second[i]
            <= '\u{7f}' by {
            if i >= 2 {
                assert(second[i] == rest[i - 2]);
            }
        }
        assert(ascii_lowercase(second) =~= "0x"@ + ascii_lowercase(rest));
        if "0x"@.is_prefix_of(lowercase(first)) {
            let start = lowercase(first).subrange(0, 2);
            assert(start[0] == '0' && start[1] == 'x');
            assert(first[0] == '0');
            assert(first[1] == 'x' || first[1] == 'X');
            if first[1] == 'x' {
                assert("0x"@ =~= first.subrange(0, 2));
            } else {
                assert("0X"@ =~= first.subrange(0, 2));
            }
        }
    }
}

proof fn lemma_respelled_normalized(first: Seq<Seq<char>>, second: Seq<Seq<char>>)
    requires
        first.len() == second.len(),
        forall|i: int| 0 <= i < first.len() ==> respelled(#[trigger] first[i], second[i]),
    ensures
        normalized_all(first) == normalized_all(second),
{
    assert forall|i: int| 0 <= i < first.len() implies #[trigger] normalized_all(first)[i]
        == normalized_all(second)[i] by {
        assert(respelled(first[i], second[i]));
        law_normalized_has_prefix(first[i]);
        law_normalized_has_prefix(second[i]);
    }
    assert(normalized_all(first) =~= normalized_all(second));
}

/// How selectors are spelled makes no difference to a lookup: if they are the
/// same in lower case, but for `0x` prefixes that are missing, it makes the same
/// request, or none, and whatever the answer is, it gives the same outcome, or
/// fails with the same message.
pub proof fn law_spelling_makes_no_difference(
    state: Connection,
    selector_type: SelectorType,
    first: Seq<Seq<char>>,
    second: Seq<Seq<char>>,
    first_res: Result<LookupStep, SelectorError>,
    second_res: Result<LookupStep, SelectorError>,
)
    requires
        first.len() == second.len(),
        forall|i: int| 0 <= i < first.len() ==> respelled(#[trigger] first[i], second[i]),
        lookup_steps(state, selector_type, first, first_res),
        lookup_steps(state, selector_type, second, second_res),
    ensures
        match first_res {
            Ok(LookupStep::Done(decoded)) => {
                &&& second_res matches Ok(LookupStep::Done(other))
                &&& other.deep_view() == decoded.deep_view()
            },
            Ok(LookupStep::Fetch(lookup)) => {
                &&& second_res matches Ok(LookupStep::Fetch(other))
                &&& other.url@ == lookup.url@
                &&& other.selector_type == lookup.selector_type
                &&& other.selectors.deep_view() == lookup.selectors.deep_view()
                &&& forall|answer: ApiResult| #[trigger]
                    other.outcome(answer) == lookup.outcome(answer)
            },
            Err(err) => {
                &&& second_res matches Err(other)
                &&& other.spec_message() == err.spec_message()
            },
        },
{
    lemma_respelled_normalized(first, second);
    if let (Ok(LookupStep::Done(decoded)), Ok(LookupStep::Done(other))) = (first_res, second_res) {
        assert(other.deep_view() =~= decoded.deep_view());
    }
    let all = normalized_all(first);
    if let Err(SelectorError::InvalidSelector { selector, expected_len }) = first_res {
        let i = choose|i: int|
            {
                &&& 0 <= i < all.len()
                &&& #[trigger] all[i] == selector@
                &&& !fits(selector_type, all[i])
                &&& forall|j: int| 0 <= j < i ==> fits(selector_type, #[trigger] all[j])
            };
        assert(!fits(selector_type, all[i]));
    }
}

/// A selector is accepted exactly if, in lower case, it has the length of its
/// type, where a `0x` prefix that is missing counts as present. In ASCII that is
/// the number of its characters.
pub proof fn law_accepted_length(selector_type: SelectorType, selector: Seq<char>)
    ensures
        fits(selector_type, normalized(selector)) <==> byte_len(lowercase(selector)) + (
        if "0x"@.is_prefix_of(lowercase(selector)) {
            0int
        } else {
            2int
        }) == selector_type.spec_expected_len(),
        is_ascii_chars(selector) ==> byte_len(lowercase(selector)) == selector.len(),
{
    reveal_strlit("0x");
    is_ascii_chars_encode_utf8("0x"@);
    lemma_encode_concat("0x"@, lowercase(selector));
    if is_ascii_chars(selector) {
        lemma_ascii_lowercase(selector);
        is_ascii_chars_encode_utf8(lowercase(selector));
    }
}

/// A spurious connection refuses every lookup of at least one selector, before
/// it looks at the selectors; any other connection refuses none on that ground.
pub proof fn law_spurious_connection_refuses_lookups(
    state: Connection,
    selector_type: SelectorType,
    selectors: Seq<Seq<char>>,
    res: Result<LookupStep, SelectorError>,
)
    requires
        selectors.len() > 0,
        lookup_steps(state, selector_type, selectors, res),
    ensures
        state.spurious <==> res == Err::<LookupStep, SelectorError>(
            SelectorError::SpuriousConnection,
        ),
{
}

/// An error is looked up like a function: by the same request, with the same
/// outcome.
pub proof fn law_errors_are_looked_up_like_functions(selectors: Seq<Seq<char>>, answer: ApiResult)
    ensures
        SelectorType::Error.spec_expected_len() == SelectorType::Function.spec_expected_len(),
        lookup_url(SelectorType::Error, selectors) == lookup_url(SelectorType::Function, selectors),
        answer.table(SelectorType::Error) == answer.table(SelectorType::Function),
{
}

proof fn lemma_joined_len(parts: Seq<Seq<char>>, separator: Seq<char>, len: nat)
    requires
        forall|i: int| 0 <= i < parts.len() ==> byte_len(#[trigger] parts[i]) == len,
        parts.len() > 0,
    ensures
        byte_len(joined(parts, separator)) >= len,
        parts.len() == 1 ==> byte_len(joined(parts, separator)) == len,
        parts.len() > 1 ==> {
            &&& encode_utf8(joined(parts, separator)) == encode_utf8(
                joined(parts.drop_last(), separator) + separator,
            ) + encode_utf8(parts.last())
            &&& encode_utf8(joined(parts.drop_last(), separator) + separator) == encode_utf8(
                joined(parts.drop_last(), separator),
            ) + encode_utf8(separator)
            &&& byte_len(joined(parts, separator)) >= len + byte_len(separator) + len
        },
    decreases parts.len(),
{
    if parts.len() > 1 {
        lemma_joined_len(parts.drop_last(), separator, len);
        assert(byte_len(parts.last()) == len);
        lemma_encode_concat(joined(parts.drop_last(), separator), separator);
        lemma_encode_concat(joined(parts.drop_last(), separator) + separator, parts.last());
    }
}

proof fn lemma_joined_injective(
    first: Seq<Seq<char>>,
    second: Seq<Seq<char>>,
    separator: Seq<char>,
    len: nat,
)
    requires
        forall|i: int| 0 <= i < first.len() ==> byte_len(#[trigger] first[i]) == len,
        forall|i: int| 0 <= i < second.len() ==> byte_len(#[trigger] second[i]) == len,
        first.len() > 0,
        second.len() > 0,
        len > 0,
        joined(first, separator) == joined(second, separator),
    ensures
        first == second,
    decreases first.len(),
{
    lemma_joined_len(first, separator, len);
    lemma_joined_len(second, separator, len);
    if first.len() == 1 {
        assert(first =~= second);
    } else {
        let a = encode_utf8(joined(first.drop_last(), separator));
        let b = encode_utf8(joined(second.drop_last(), separator));
        let whole = encode_utf8(joined(first, separator));
        let rest = whole.len() - len;
        assert(byte_len(first.last()) == len && byte_len(second.last()) == len);
        assert(a =~= whole.subrange(0, rest - byte_len(separator)));
        assert(b =~= whole.subrange(0, rest - byte_len(separator)));
        assert(encode_utf8(first.last()) =~= whole.subrange(rest, whole.len() as int));
        assert(encode_utf8(second.last()) =~= whole.subrange(rest, whole.len() as int));
        lemma_encode_injective(
            joined(first.drop_last(), separator),
            joined(second.drop_last(), separator),
        );
        lemma_encode_injective(first.last(), second.last());
        lemma_joined_injective(first.drop_last(), second.drop_last(), separator, len);
        assert(first =~= first.drop_last().push(first.last()));
        assert(second =~= second.drop_last().push(second.last()));
    }
}

/// A request asks for its selectors and no others: lookups of different
/// selectors of one type have different addresses.
pub proof fn law_url_tells_selectors_apart(
    selector_type: SelectorType,
    first: Seq<Seq<char>>,
    second: Seq<Seq<char>>,
)
    requires
        first.len() > 0,
        second.len() > 0,
        forall|i: int| 0 <= i < first.len() ==> fits(selector_type, #[trigger] first[i]),
        forall|i: int| 0 <= i < second.len() ==> fits(selector_type, #[trigger] second[i]),
        lookup_url(selector_type, first) == lookup_url(selector_type, second),
    ensures
        first == second,
{
    let head = SELECTOR_LOOKUP_URL@ + "?"@ + selector_type.spec_query() + "="@;
    let url = lookup_url(selector_type, first);
    assert(joined(first, ","@) =~= url.subrange(head.len() as int, url.len() as int));
    assert(joined(second, ","@) =~= url.subrange(head.len() as int, url.len() as int));
    lemma_joined_injective(first, second, ","@, selector_type.spec_expected_len() as nat);
}

/// The address of a lookup names the type of its selectors, and then these one
/// by one, with a comma between any two.
pub proof fn law_address_lists_selectors(
    selector_type: SelectorType,
    selectors: Seq<Seq<char>>,
    selector: Seq<char>,
)
    ensures
        selector_type is Event ==> lookup_url(selector_type, seq![selector])
            == "https://api.openchain.xyz/signature-database/v1/lookup?event="@ + selector,
        selector_type !is Event ==> lookup_url(selector_type, seq![selector])
            == "https://api.openchain.xyz/signature-database/v1/lookup?function="@ + selector,
        selectors.len() > 0 ==> lookup_url(selector_type, selectors.push(selector)) == lookup_url(
            selector_type,
            selectors,
        ) + ","@ + selector,
{
    reveal_strlit("https://api.openchain.xyz/signature-database/v1/lookup");
    reveal_strlit("?");
    reveal_strlit("function");
    reveal_strlit("event");
    reveal_strlit("=");
    reveal_strlit("https://api.openchain.xyz/signature-database/v1/lookup?function=");
    reveal_strlit("https://api.openchain.xyz/signature-database/v1/lookup?event=");
    assert(joined(seq![selector], ","@) =~= selector);
    let head = SELECTOR_LOOKUP_URL@ + "?"@ + selector_type.spec_query() + "="@;
    if selector_type is Event {
        assert(head =~= "https://api.openchain.xyz/signature-database/v1/lookup?event="@);
    } else {
        assert(head =~= "https://api.openchain.xyz/signature-database/v1/lookup?function="@);
    }
    if selectors.len() > 0 {
        assert(selectors.push(selector).drop_last() =~= selectors);
        assert(lookup_url(selector_type, selectors.push(selector)) =~= lookup_url(
            selector_type,
            selectors,
        ) + ","@ + selector);
    }
}

/// In ASCII, a selector is brought into form character by character: the letters
/// `A` to `Z` become `a` to `z`, all else is kept, and where neither `0x` nor
/// `0X` stands in front, `0x` is put there.
pub proof fn law_normalizing_goes_by_characters(selector: &str, res: String)
    requires
        call_ensures(normalize, (selector,), res),
        is_ascii_chars(selector@),
    ensures
        ({
            let added: int = if selector@.len() >= 2 && selector@[0] == '0' && (selector@[1] == 'x'
                || selector@[1] == 'X') {
                0
            } else {
                2
            };
            &&& res@.len() == selector@.len() + added
            &&& res@[0] == '0'
            &&& res@[1] == 'x'
            &&& forall|i: int|
                0 <= i < selector@.len() ==> if 'A' <= #[trigger] selector@[i] <= 'Z' {
                    res@[i + added] as int == selector@[i] as int + 32
                } else {
                    res@[i + added] == selector@[i]
                }
        }),
{
    reveal_strlit("0x");
    let lower = ascii_lowercase(selector@);
    assert(lowercase(selector@) == lower);
    if selector@.len() >= 2 && selector@[0] == '0' && (selector@[1] == 'x' || selector@[1] == 'X') {
        assert("0x"@ =~= lower.subrange(0, 2));
    } else if "0x"@.is_prefix_of(lower) {
        let start = lower.subrange(0, 2);
        assert(start[0] == '0' && start[1] == 'x');
        assert(lower[0] == '0' && lower[1] == 'x');
    }
}

/// A selector is brought into form by lowercasing it and, unless it then begins
/// with `0x`, putting that in front.
pub proof fn law_normalizing_lowercases(selector: &str, res: String, lower: Seq<char>)
    requires
        call_ensures(normalize, (selector,), res),
        is_ascii_chars(selector@) ==> lower == ascii_lowercase(selector@),
        !is_ascii_chars(selector@) ==> lower == unicode_lowercase(selector@),
    ensures
        lower.len() >= 2 && lower[0] == '0' && lower[1] == 'x' ==> res@ == lower,
        !(lower.len() >= 2 && lower[0] == '0' && lower[1] == 'x') ==> res@ == seq!['0', 'x']
            + lower,
{
    reveal_strlit("0x");
    assert("0x"@ =~= seq!['0', 'x']);
    if lower.len() >= 2 && lower[0] == '0' && lower[1] == 'x' {
        assert("0x"@ =~= lower.subrange(0, 2));
    } else if "0x"@.is_prefix_of(lower) {
        let start = lower.subrange(0, 2);
        assert(start[0] == '0' && start[1] == 'x');
    }
}

/// The names in an entry are those of its signatures, one for each and in their
/// order. Nothing is found where there is no entry or an empty one.
pub proof fn law_entries_are_read_in_full(
    entry: Option<&Option<Vec<Decoded>>>,
    res: Option<Vec<String>>,
)
    requires
        call_ensures(entry_names, (entry,), res),
    ensures
        match entry {
            Some(Some(decoded)) => {
                &&& res matches Some(names)
                &&& names.len() == decoded.len()
                &&& forall|i: int|
                    0 <= i < decoded.len() ==> (#[trigger] names[i])@ == decoded[i].name@
            },
            _ => res is None,
        },
{
    if let Some(Some(decoded)) = entry {
        if let Some(names) = res {
            assert(names.deep_view() == decoded.deep_view());
            assert forall|i: int| 0 <= i < decoded.len() implies (#[trigger] names[i])@
                == decoded[i].name@ by {
                assert(names.deep_view()[i] == decoded.deep_view()[i]);
            }
        }
    }
}

proof fn lemma_normalized_items(selectors: Vec<String>)
    ensures
        normalized_all(selectors.deep_view()).len() == selectors.len(),
        forall|i: int|
            0 <= i < selectors.len() ==> #[trigger] normalized_all(selectors.deep_view())[i]
                == normalized(selectors[i]@),
{
    assert forall|i: int| 0 <= i < selectors.len() implies #[trigger] normalized_all(
        selectors.deep_view(),
    )[i] == normalized(selectors[i]@) by {
        assert(selectors.deep_view()[i] == selectors[i]@);
    }
}

/// A lookup of no selectors is done at once. Any other is refused on a spurious
/// connection, and else for the first selector that does not have ten bytes, or
/// sixty-six for an event, once it has been brought into form. If there is none,
/// the lookup asks for each selector in that form, in order.
pub proof fn law_lookup_asks_for_its_selectors(
    client: OpenChainClient,
    selector_type: SelectorType,
    selectors: Vec<String>,
    res: Result<LookupStep, SelectorError>,
    len: int,
)
    requires
        selector_type is Event ==> len == 66,
        selector_type !is Event ==> len == 10,
        call_ensures(OpenChainClient::decode_selectors, (&client, selector_type, selectors), res),
    ensures
        selectors.len() == 0 ==> (res matches Ok(LookupStep::Done(decoded)) && decoded.len() == 0),
        selectors.len() > 0 && client@.spurious ==> res == Err::<LookupStep, SelectorError>(
            SelectorError::SpuriousConnection,
        ),
        selectors.len() > 0 && !client@.spurious && (forall|i: int|
            0 <= i < selectors.len() ==> encode_utf8(#[trigger] normalized(selectors[i]@)).len()
                == len) ==> {
            &&& res matches Ok(LookupStep::Fetch(lookup))
            &&& lookup.selector_type == selector_type
            &&& lookup.selectors.len() == selectors.len()
            &&& forall|i: int|
                0 <= i < selectors.len() ==> (#[trigger] lookup.selectors[i])@ == normalized(
                    selectors[i]@,
                )
            &&& lookup.url@ == lookup_url(selector_type, lookup.selectors.deep_view())
        },
        forall|i: int|
            {
                &&& 0 <= i < selectors.len()
                &&& !client@.spurious
                &&& encode_utf8(#[trigger] normalized(selectors[i]@)).len() != len
                &&& forall|j: int|
                    0 <= j < i ==> encode_utf8(#[trigger] normalized(selectors[j]@)).len() == len
            } ==> {
                &&& res matches Err(SelectorError::InvalidSelector { selector, expected_len })
                &&& selector@ == normalized(selectors[i]@)
                &&& expected_len == len
            },
{
    lemma_normalized_items(selectors);
    let all = normalized_all(selectors.deep_view());
    if let Ok(LookupStep::Fetch(lookup)) = res {
        assert forall|i: int| 0 <= i < selectors.len() implies (#[trigger] lookup.selectors[i])@
            == normalized(selectors[i]@) by {
            assert(lookup.selectors.deep_view()[i] == all[i]);
        }
        assert(lookup.selectors.deep_view().len() == lookup.selectors.len());
    }
    if let Err(SelectorError::InvalidSelector { selector, expected_len }) = res {
        let at = choose|at: int|
            {
                &&& 0 <= at < all.len()
                &&& #[trigger] all[at] == selector@
                &&& !fits(selector_type, all[at])
                &&& forall|j: int| 0 <= j < at ==> fits(selector_type, #[trigger] all[j])
            };
        assert(all[at] == normalized(selectors[at]@));
        assert forall|i: int|
            {
                &&& 0 <= i < selectors.len()
                &&& !client@.spurious
                &&& encode_utf8(#[trigger] normalized(selectors[i]@)).len() != len
                &&& forall|j: int|
                    0 <= j < i ==> encode_utf8(#[trigger] normalized(selectors[j]@)).len() == len
            } implies {
            &&& selector@ == normalized(selectors[i]@)
            &&& expected_len == len
        } by {
            assert(all[i] == normalized(selectors[i]@));
            if at < i {
                assert(encode_utf8(normalized(selectors[at]@)).len() == len);
            }
            if i < at {
                assert(fits(selector_type, all[i]));
            }
        }
    }
    if let Ok(LookupStep::Fetch(_)) = res {
        assert forall|i: int| 0 <= i < selectors.len() implies encode_utf8(
            #[trigger] normalized(selectors[i]@),
        ).len() == len by {
            assert(fits(selector_type, all[i]));
        }
    }
}

/// With a new client a lookup goes as on a connection that is not spurious.
pub proof fn law_lookup_with_a_new_client(
    selector_type: SelectorType,
    selectors: Vec<String>,
    res: Result<LookupStep, SelectorError>,
    len: int,
)
    requires
        selector_type is Event ==> len == 66,
        selector_type !is Event ==> len == 10,
        call_ensures(decode_selectors, (selector_type, selectors), res),
    ensures
        selectors.len() == 0 ==> (res matches Ok(LookupStep::Done(decoded)) && decoded.len() == 0),
        selectors.len() > 0 && (forall|i: int|
            0 <= i < selectors.len() ==> encode_utf8(#[trigger] normalized(selectors[i]@)).len()
                == len) ==> {
            &&& res matches Ok(LookupStep::Fetch(lookup))
            &&& lookup.selector_type == selector_type
            &&& lookup.selectors.len() == selectors.len()
            &&& forall|i: int|
                0 <= i < selectors.len() ==> (#[trigger] lookup.selectors[i])@ == normalized(
                    selectors[i]@,
                )
            &&& lookup.url@ == lookup_url(selector_type, lookup.selectors.deep_view())
        },
        forall|i: int|
            {
                &&& 0 <= i < selectors.len()
                &&& encode_utf8(#[trigger] normalized(selectors[i]@)).len() != len
                &&& forall|j: int|
                    0 <= j < i ==> encode_utf8(#[trigger] normalized(selectors[j]@)).len() == len
            } ==> {
                &&& res matches Err(SelectorError::InvalidSelector { selector, expected_len })
                &&& selector@ == normalized(selectors[i]@)
                &&& expected_len == len
            },
{
    lemma_normalized_items(selectors);
    let all = normalized_all(selectors.deep_view());
    if let Ok(LookupStep::Fetch(lookup)) = res {
        assert forall|i: int| 0 <= i < selectors.len() implies (#[trigger] lookup.selectors[i])@
            == normalized(selectors[i]@) by {
            assert(lookup.selectors.deep_view()[i] == all[i]);
        }
        assert(lookup.selectors.deep_view().len() == lookup.selectors.len());
    }
    if let Err(SelectorError::InvalidSelector { selector, expected_len }) = res {
        let at = choose|at: int|
            {
                &&& 0 <= at < all.len()
                &&& #[trigger] all[at] == selector@
                &&& !fits(selector_type, all[at])
                &&& forall|j: int| 0 <= j < at ==> fits(selector_type, #[trigger] all[j])
            };
        assert(all[at] == normalized(selectors[at]@));
        assert forall|i: int|
            {
                &&& 0 <= i < selectors.len()
                &&& encode_utf8(#[trigger] normalized(selectors[i]@)).len() != len
                &&& forall|j: int|
                    0 <= j < i ==> encode_utf8(#[trigger] normalized(selectors[j]@)).len() == len
            } implies {
            &&& selector@ == normalized(selectors[i]@)
            &&& expected_len == len
        } by {
            assert(all[i] == normalized(selectors[i]@));
            if at < i {
                assert(encode_utf8(normalized(selectors[at]@)).len() == len);
            }
            if i < at {
                assert(fits(selector_type, all[i]));
            }
        }
    }
    if let Ok(LookupStep::Fetch(_)) = res {
        assert forall|i: int| 0 <= i < selectors.len() implies encode_utf8(
            #[trigger] normalized(selectors[i]@),
        ).len() == len by {
            assert(fits(selector_type, all[i]));
        }
    }
}

proof fn lemma_single_item(selector_type: SelectorType, selector: Seq<char>)
    ensures
        normalized_all(seq![selector]) == seq![normalized(selector)],
        normalized_all(seq![selector])[0] == normalized(selector),
        selector_type is Event ==> lookup_url(selector_type, seq![normalized(selector)])
            == "https://api.openchain.xyz/signature-database/v1/lookup?event="@ + normalized(
            selector,
        ),
        selector_type !is Event ==> lookup_url(selector_type, seq![normalized(selector)])
            == "https://api.openchain.xyz/signature-database/v1/lookup?function="@ + normalized(
            selector,
        ),
{
    law_address_lists_selectors(selector_type, Seq::empty(), normalized(selector));
    assert(normalized_all(seq![selector]) =~= seq![normalized(selector)]);
}

/// One selector is looked up by itself, among the selectors of its type.
pub proof fn law_one_selector_is_looked_up(
    client: OpenChainClient,
    selector: &str,
    selector_type: SelectorType,
    res: Result<Lookup, SelectorError>,
    len: int,
)
    requires
        selector_type is Event ==> len == 66,
        selector_type !is Event ==> len == 10,
        call_ensures(OpenChainClient::decode_selector, (&client, selector, selector_type), res),
    ensures
        client@.spurious ==> res == Err::<Lookup, SelectorError>(
            SelectorError::SpuriousConnection,
        ),
        !client@.spurious && encode_utf8(normalized(selector@)).len() != len ==> {
            &&& res matches Err(SelectorError::InvalidSelector { selector: text, expected_len })
            &&& text@ == normalized(selector@)
            &&& expected_len == len
        },
        !client@.spurious && encode_utf8(normalized(selector@)).len() == len ==> {
            &&& res matches Ok(lookup)
            &&& lookup.selector_type == selector_type
            &&& lookup.selectors.len() == 1
            &&& lookup.selectors[0]@ == normalized(selector@)
            &&& lookup.url@ == (if selector_type is Event {
                "https://api.openchain.xyz/signature-database/v1/lookup?event="@
            } else {
                "https://api.openchain.xyz/signature-database/v1/lookup?function="@
            }) + normalized(selector@)
        },
{
    lemma_single_item(selector_type, selector@);
    if let Ok(lookup) = res {
        assert(lookup.selectors.deep_view() == seq![normalized(selector@)]);
        assert(lookup.selectors.deep_view().len() == 1);
        assert(lookup.selectors.deep_view()[0] == lookup.selectors[0]@);
    }
}

/// A function selector is looked up among functions.
pub proof fn law_function_selector_is_looked_up(
    client: OpenChainClient,
    selector: &str,
    res: Result<Lookup, SelectorError>,
)
    requires
        call_ensures(OpenChainClient::decode_function_selector, (&client, selector), res),
    ensures
        client@.spurious ==> res == Err::<Lookup, SelectorError>(
            SelectorError::SpuriousConnection,
        ),
        !client@.spurious && encode_utf8(normalized(selector@)).len() != 10 ==> {
            &&& res matches Err(SelectorError::InvalidSelector { selector: text, expected_len })
            &&& text@ == normalized(selector@)
            &&& expected_len == 10
        },
        !client@.spurious && encode_utf8(normalized(selector@)).len() == 10 ==> {
            &&& res matches Ok(lookup)
            &&& lookup.selector_type == SelectorType::Function
            &&& lookup.selectors.len() == 1
            &&& lookup.selectors[0]@ == normalized(selector@)
            &&& lookup.url@
                == "https://api.openchain.xyz/signature-database/v1/lookup?function="@
                + normalized(selector@)
        },
{
    lemma_single_item(SelectorType::Function, selector@);
    if let Ok(lookup) = res {
        assert(lookup.selectors.deep_view() == seq![normalized(selector@)]);
        assert(lookup.selectors.deep_view().len() == 1);
        assert(lookup.selectors.deep_view()[0] == lookup.selectors[0]@);
    }
}

/// An event topic is looked up among events.
pub proof fn law_event_topic_is_looked_up(
    client: OpenChainClient,
    topic: &str,
    res: Result<Lookup, SelectorError>,
)
    requires
        call_ensures(OpenChainClient::decode_event_topic, (&client, topic), res),
    ensures
        client@.spurious ==> res == Err::<Lookup, SelectorError>(
            SelectorError::SpuriousConnection,
        ),
        !client@.spurious && encode_utf8(normalized(topic@)).len() != 66 ==> {
            &&& res matches Err(SelectorError::InvalidSelector { selector: text, expected_len })
            &&& text@ == normalized(topic@)
            &&& expected_len == 66
        },
        !client@.spurious && encode_utf8(normalized(topic@)).len() == 66 ==> {
            &&& res matches Ok(lookup)
            &&& lookup.selector_type == SelectorType::Event
            &&& lookup.selectors.len() == 1
            &&& lookup.selectors[0]@ == normalized(topic@)
            &&& lookup.url@
                == "https://api.openchain.xyz/signature-database/v1/lookup?event="@
                + normalized(topic@)
        },
{
    lemma_single_item(SelectorType::Event, topic@);
    if let Ok(lookup) = res {
        assert(lookup.selectors.deep_view() == seq![normalized(topic@)]);
        assert(lookup.selectors.deep_view().len() == 1);
        assert(lookup.selectors.deep_view()[0] == lookup.selectors[0]@);
    }
}

/// With a new client one selector is looked up by itself too.
pub proof fn law_one_selector_with_a_new_client(
    selector_type: SelectorType,
    selector: &str,
    res: Result<Lookup, SelectorError>,
    len: int,
)
    requires
        selector_type is Event ==> len == 66,
        selector_type !is Event ==> len == 10,
        call_ensures(decode_selector, (selector_type, selector), res),
    ensures
        encode_utf8(normalized(selector@)).len() != len ==> {
            &&& res matches Err(SelectorError::InvalidSelector { selector: text, expected_len })
            &&& text@ == normalized(selector@)
            &&& expected_len == len
        },
        encode_utf8(normalized(selector@)).len() == len ==> {
            &&& res matches Ok(lookup)
            &&& lookup.selector_type == selector_type
            &&& lookup.selectors.len() == 1
            &&& lookup.selectors[0]@ == normalized(selector@)
            &&& lookup.url@ == (if selector_type is Event {
                "https://api.openchain.xyz/signature-database/v1/lookup?event="@
            } else {
                "https://api.openchain.xyz/signature-database/v1/lookup?function="@
            }) + normalized(selector@)
        },
{
    lemma_single_item(selector_type, selector@);
    if let Ok(lookup) = res {
        assert(lookup.selectors.deep_view() == seq![normalized(selector@)]);
        assert(lookup.selectors.deep_view().len() == 1);
        assert(lookup.selectors.deep_view()[0] == lookup.selectors[0]@);
    }
}

/// With a new client a function selector is looked up among functions too.
pub proof fn law_function_selector_with_a_new_client(
    selector: &str,
    res: Result<Lookup, SelectorError>,
)
    requires
        call_ensures(decode_function_selector, (selector,), res),
    ensures
        encode_utf8(normalized(selector@)).len() != 10 ==> {
            &&& res matches Err(SelectorError::InvalidSelector { selector: text, expected_len })
            &&& text@ == normalized(selector@)
            &&& expected_len == 10
        },
        encode_utf8(normalized(selector@)).len() == 10 ==> {
            &&& res matches Ok(lookup)
            &&& lookup.selector_type == SelectorType::Function
            &&& lookup.selectors.len() == 1
            &&& lookup.selectors[0]@ == normalized(selector@)
            &&& lookup.url@
                == "https://api.openchain.xyz/signature-database/v1/lookup?function="@
                + normalized(selector@)
        },
{
    lemma_single_item(SelectorType::Function, selector@);
    if let Ok(lookup) = res {
        assert(lookup.selectors.deep_view() == seq![normalized(selector@)]);
        assert(lookup.selectors.deep_view().len() == 1);
        assert(lookup.selectors.deep_view()[0] == lookup.selectors[0]@);
    }
}

/// With a new client an event topic is looked up among events too.
pub proof fn law_event_topic_with_a_new_client(
    topic: &str,
    res: Result<Lookup, SelectorError>,
)
    requires
        call_ensures(decode_event_topic, (topic,), res),
    ensures
        encode_utf8(normalized(topic@)).len() != 66 ==> {
            &&& res matches Err(SelectorError::InvalidSelector { selector: text, expected_len })
            &&& text@ == normalized(topic@)
            &&& expected_len == 66
        },
        encode_utf8(normalized(topic@)).len() == 66 ==> {
            &&& res matches Ok(lookup)
            &&& lookup.selector_type == SelectorType::Event
            &&& lookup.selectors.len() == 1
            &&& lookup.selectors[0]@ == normalized(topic@)
            &&& lookup.url@
                == "https://api.openchain.xyz/signature-database/v1/lookup?event="@
                + normalized(topic@)
        },
{
    lemma_single_item(SelectorType::Event, topic@);
    if let Ok(lookup) = res {
        assert(lookup.selectors.deep_view() == seq![normalized(topic@)]);
        assert(lookup.selectors.deep_view().len() == 1);
        assert(lookup.selectors.deep_view()[0] == lookup.selectors[0]@);
    }
}

/// An answer is read selector by selector: what is found for one is what the
/// answer has under it, among the events for a lookup of events and among the
/// functions for any other. An answer that says nothing, and one that reports a
/// failure, is returned as the error.
pub proof fn law_answer_is_read_by_type(
    lookup: Lookup,
    response: &str,
    parsed: Result<ApiResponse, String>,
    res: Result<Vec<Option<Vec<String>>>, SelectorError>,
)
    requires
        call_ensures(Lookup::decode, (&lookup, response, parsed), res),
    ensures
        parsed matches Err(reason) ==> {
            &&& res matches Err(SelectorError::UndecodableResponse { response: text, cause })
            &&& text@ == response@
            &&& cause@ == reason@
        },
        parsed matches Ok(answer) ==> !answer.ok ==> (res matches Err(
            SelectorError::LookupFailed { response: text },
        ) && text@ == response@),
        parsed matches Ok(answer) ==> answer.ok ==> {
            &&& res matches Ok(decoded)
            &&& decoded.len() == lookup.selectors.len()
            &&& forall|i: int|
                0 <= i < decoded.len() ==> {
                    let table = if lookup.selector_type is Event {
                        answer.result.event.deep_view()
                    } else {
                        answer.result.function.deep_view()
                    };
                    let key = lookup.selectors[i]@;
                    match #[trigger] decoded[i] {
                        Some(names) => table.contains_key(key) && table[key] == Some(
                            names.deep_view(),
                        ),
                        None => table.contains_key(key) ==> table[key] is None,
                    }
                }
        },
{
    if let (Ok(answer), Ok(decoded)) = (parsed, res) {
        if answer.ok {
            assert(decoded.deep_view().len() == decoded.len());
            assert(lookup.selectors.deep_view().len() == lookup.selectors.len());
            assert forall|i: int| 0 <= i < decoded.len() implies {
                let table = if lookup.selector_type is Event {
                    answer.result.event.deep_view()
                } else {
                    answer.result.function.deep_view()
                };
                let key = lookup.selectors[i]@;
                match #[trigger] decoded[i] {
                    Some(names) => table.contains_key(key) && table[key] == Some(
                        names.deep_view(),
                    ),
                    None => table.contains_key(key) ==> table[key] is None,
                }
            } by {
                assert(decoded.deep_view()[i] == decoded[i].deep_view());
                assert(lookup.selectors.deep_view()[i] == lookup.selectors[i]@);
                assert(lookup.outcome(answer.result)[i] == decoded[i].deep_view());
            }
        }
    }
}

/// What an answer has among the functions makes no difference to a lookup of
/// events, and what it has among the events makes none to any other lookup.
pub proof fn law_other_table_makes_no_difference(
    lookup: Lookup,
    response: &str,
    first: ApiResponse,
    second: ApiResponse,
    first_res: Result<Vec<Option<Vec<String>>>, SelectorError>,
    second_res: Result<Vec<Option<Vec<String>>>, SelectorError>,
)
    requires
        first.ok && second.ok,
        lookup.selector_type is Event ==> first.result.event.deep_view()
            == second.result.event.deep_view(),
        lookup.selector_type !is Event ==> first.result.function.deep_view()
            == second.result.function.deep_view(),
        call_ensures(Lookup::decode, (&lookup, response, Ok(first)), first_res),
        call_ensures(Lookup::decode, (&lookup, response, Ok(second)), second_res),
    ensures
        first_res matches Ok(one) && second_res matches Ok(other) && one.deep_view()
            == other.deep_view(),
{
    assert(lookup.outcome(first.result) =~= lookup.outcome(second.result));
}

/// What is found for the only selector of a lookup, or for the last, is what the
/// answer has under it, among the events for an event and among the functions
/// for any other. That nothing is found is an error.
pub proof fn law_last_selector_is_read(
    lookup: Lookup,
    response: &str,
    parsed: Result<ApiResponse, String>,
    res: Result<Vec<String>, SelectorError>,
)
    requires
        lookup.selectors.len() > 0,
        call_ensures(Lookup::decode_single, (&lookup, response, parsed), res),
    ensures
        parsed matches Err(reason) ==> {
            &&& res matches Err(SelectorError::UndecodableResponse { response: text, cause })
            &&& text@ == response@
            &&& cause@ == reason@
        },
        parsed matches Ok(answer) ==> !answer.ok ==> (res matches Err(
            SelectorError::LookupFailed { response: text },
        ) && text@ == response@),
        parsed matches Ok(answer) ==> answer.ok ==> {
            let table = if lookup.selector_type is Event {
                answer.result.event.deep_view()
            } else {
                answer.result.function.deep_view()
            };
            let key = lookup.selectors@.last()@;
            match res {
                Ok(names) => table.contains_key(key) && table[key] == Some(names.deep_view()),
                Err(err) => {
                    &&& err == SelectorError::NoSignatureFound
                    &&& table.contains_key(key) ==> table[key] is None
                },
            }
        },
{
    assert(lookup.selectors.deep_view().last() == lookup.selectors@.last()@);
}

/// What was found for one selector, or for the last, is handed on as it is.
pub proof fn law_sole_signatures_are_handed_on(
    decoded: Vec<Option<Vec<String>>>,
    res: Result<Vec<String>, SelectorError>,
)
    requires
        decoded.len() > 0,
        call_ensures(sole_signatures, (decoded,), res),
    ensures
        match decoded@.last() {
            Some(names) => res matches Ok(found) && found.deep_view() == names.deep_view(),
            None => res == Err::<Vec<String>, SelectorError>(SelectorError::NoSignatureFound),
        },
{
}

} // verus!
