//! Reading signatures from the tokens that a user gives.

use crate::import::RawSelectorImportData;
use crate::lookup::SelectorType;
use crate::text::{
    ends_with, first_word, law_words_end_at_spaces, leading_words, lemma_first_space, second_word,
};
use alloy_json_abi::JsonAbi;
use vstd::prelude::*;

verus! {

/// What the tokens of a user hold.
#[derive(Debug, PartialEq, Eq)]
pub struct ParsedSignatures {
    /// The signatures among the tokens.
    pub signatures: RawSelectorImportData,
    /// The ABIs in the artifact files that the tokens name.
    pub abis: Vec<JsonAbi>,
}

impl Default for ParsedSignatures {
    fn default() -> (res: Self)
        ensures
            res.signatures.spec_is_empty(),
            res.abis.len() == 0,
    {
        ParsedSignatures { signatures: RawSelectorImportData::default(), abis: Vec::new() }
    }
}

/// Whether `token` names a JSON artifact file.
pub open spec fn names_artifact(token: Seq<char>) -> bool {
    ".json"@.is_suffix_of(token)
}

/// Whether `word` is one that states the type of the signature behind it.
pub open spec fn states_type(word: Seq<char>) -> bool {
    word == "function"@ || word == "event"@ || word == "error"@
}

/// The signature in `token`, and its type: the word behind `function`, `event`
/// or `error` if `token` begins with one of these words, and else its first
/// word, as a function. A token that names an artifact file holds no signature,
/// nor does one that ends behind the word for the type, nor one where the word
/// that would be the signature is empty.
pub open spec fn signature_in(token: Seq<char>) -> Option<(SelectorType, Seq<char>)> {
    let first = first_word(token);
    if names_artifact(token) {
        None
    } else if first == "function"@ {
        typed(SelectorType::Function, second_word(token))
    } else if first == "event"@ {
        typed(SelectorType::Event, second_word(token))
    } else if first == "error"@ {
        typed(SelectorType::Error, second_word(token))
    } else {
        typed(SelectorType::Function, Some(first))
    }
}

/// `signature` with its type, if there is one and it is not empty.
pub open spec fn typed(selector_type: SelectorType, signature: Option<Seq<char>>) -> Option<
    (SelectorType, Seq<char>),
> {
    match signature {
        Some(text) if text.len() > 0 => Some((selector_type, text)),
        _ => None,
    }
}

/// The signatures of the given type in `tokens`, in the same order.
pub open spec fn signatures_in(tokens: Seq<Seq<char>>, selector_type: SelectorType) -> Seq<
    Seq<char>,
>
    decreases tokens.len(),
{
    if tokens.len() == 0 {
        Seq::empty()
    } else {
        let before = signatures_in(tokens.drop_last(), selector_type);
        match signature_in(tokens.last()) {
            Some((found, signature)) if found == selector_type => before.push(signature),
            _ => before,
        }
    }
}

/// The ABIs that could be read, in the same order.
pub open spec fn readable(artifacts: Seq<Option<JsonAbi>>) -> Seq<JsonAbi>
    decreases artifacts.len(),
{
    if artifacts.len() == 0 {
        Seq::empty()
    } else {
        match artifacts.last() {
            Some(abi) => readable(artifacts.drop_last()).push(abi),
            None => readable(artifacts.drop_last()),
        }
    }
}

/// Reads the signature in `token`, and its type.
fn parse_token(token: &str) -> (res: Option<(SelectorType, String)>)
    ensures
        match signature_in(token@) {
            Some((found, signature)) => res matches Some((t, text)) && t == found && text@
                == signature,
            None => res is None,
        },
{
    if ends_with(token, ".json") {
        return None;
    }
    let (first, second) = leading_words(token);
    let (selector_type, signature) = if first == "function".to_owned() {
        (SelectorType::Function, second)
    } else if first == "event".to_owned() {
        (SelectorType::Event, second)
    } else if first == "error".to_owned() {
        (SelectorType::Error, second)
    } else {
        (SelectorType::Function, Some(first))
    };
    match signature {
        Some(text) => {
            if text.as_str().is_empty() {
                None
            } else {
                Some((selector_type, text))
            }
        },
        None => None,
    }
}

/// The tokens that name JSON artifact files, in the same order.
pub fn artifact_files(tokens: &Vec<String>) -> (res: Vec<String>)
    ensures
        res.deep_view() == tokens.deep_view().filter(|token: Seq<char>| names_artifact(token)),
{
    let ghost all = tokens.deep_view();
    let ghost is_artifact = |token: Seq<char>| names_artifact(token);
    let mut res: Vec<String> = Vec::new();
    proof {
        reveal(Seq::filter);
        assert(res.deep_view() =~= all.take(0).filter(is_artifact));
    }
    for i in 0..tokens.len()
        invariant
            all == tokens.deep_view(),
            is_artifact == (|token: Seq<char>| names_artifact(token)),
            res.deep_view() == all.take(i as int).filter(is_artifact),
    {
        let ghost before = res.deep_view();
        proof {
            reveal(Seq::filter);
            assert(all.take(i + 1).drop_last() =~= all.take(i as int));
            assert(all.take(i + 1).last() == tokens[i as int]@);
        }
        if ends_with(tokens[i].as_str(), ".json") {
            res.push(tokens[i].clone());
            proof {
                assert(res.deep_view() =~= before.push(all[i as int]));
            }
        }
    }
    proof {
        assert(all.take(tokens.len() as int) =~= all);
    }
    res
}

/// Parses a list of tokens into function, event, and error signatures.
/// Ignores invalid tokens: those in which the signature is missing or empty.
///
/// Tokens that name JSON artifact files hold no signatures. What these files
/// hold is in `artifacts`: `None` for a file that cannot be read.
pub fn parse_signatures(tokens: Vec<String>, artifacts: Vec<Option<JsonAbi>>) -> (res:
    ParsedSignatures)
    ensures
        res.signatures.function.deep_view() == signatures_in(
            tokens.deep_view(),
            SelectorType::Function,
        ),
        res.signatures.event.deep_view() == signatures_in(tokens.deep_view(), SelectorType::Event),
        res.signatures.error.deep_view() == signatures_in(tokens.deep_view(), SelectorType::Error),
        res.abis@ == readable(artifacts@),
{
    let abis = keep_readable(artifacts);
    let ghost all = tokens.deep_view();
    let mut function: Vec<String> = Vec::new();
    let mut event: Vec<String> = Vec::new();
    let mut error: Vec<String> = Vec::new();
    proof {
        assert(function.deep_view() =~= Seq::<Seq<char>>::empty());
        assert(event.deep_view() =~= Seq::<Seq<char>>::empty());
        assert(error.deep_view() =~= Seq::<Seq<char>>::empty());
    }
    for i in 0..tokens.len()
        invariant
            all == tokens.deep_view(),
            function.deep_view() == signatures_in(all.take(i as int), SelectorType::Function),
            event.deep_view() == signatures_in(all.take(i as int), SelectorType::Event),
            error.deep_view() == signatures_in(all.take(i as int), SelectorType::Error),
    {
        proof {
            assert(all.take(i + 1).drop_last() =~= all.take(i as int));
            assert(all.take(i + 1).last() == tokens[i as int]@);
        }
        match parse_token(tokens[i].as_str()) {
            Some((SelectorType::Function, signature)) => {
                push_text(&mut function, signature);
            },
            Some((SelectorType::Event, signature)) => {
                push_text(&mut event, signature);
            },
            Some((SelectorType::Error, signature)) => {
                push_text(&mut error, signature);
            },
            None => {},
        }
    }
    proof {
        assert(all.take(tokens.len() as int) =~= all);
    }
    ParsedSignatures { signatures: RawSelectorImportData { function, event, error }, abis }
}

fn push_text(texts: &mut Vec<String>, text: String)
    ensures
        final(texts).deep_view() == old(texts).deep_view().push(text@),
{
    let ghost before = texts.deep_view();
    texts.push(text);
    proof {
        assert(texts.deep_view() =~= before.push(text@));
    }
}

fn keep_readable(artifacts: Vec<Option<JsonAbi>>) -> (res: Vec<JsonAbi>)
    ensures
        res@ == readable(artifacts@),
{
    let ghost all = artifacts@;
    let mut abis: Vec<JsonAbi> = Vec::new();
    for artifact in it: artifacts
        invariant
            it.seq() == all,
            abis@ == readable(all.take(it.index())),
    {
        proof {
            assert(all.take(it.index() + 1).drop_last() =~= all.take(it.index()));
        }
        if let Some(abi) = artifact {
            abis.push(abi);
        }
    }
    proof {
        assert(all.take(all.len() as int) =~= all);
    }
    abis
}

/// Tokens are read one by one: the signatures in two lists of tokens are those
/// in the first list and then those in the second.
pub proof fn law_tokens_are_read_in_order(
    first: Seq<Seq<char>>,
    second: Seq<Seq<char>>,
    selector_type: SelectorType,
)
    ensures
        signatures_in(first + second, selector_type) == signatures_in(first, selector_type)
            + signatures_in(second, selector_type),
    decreases second.len(),
{
    if second.len() == 0 {
        assert(first + second =~= first);
    } else {
        law_tokens_are_read_in_order(first, second.drop_last(), selector_type);
        assert((first + second).drop_last() =~= first + second.drop_last());
        assert((first + second).last() == second.last());
        assert(signatures_in(first + second, selector_type) =~= signatures_in(first, selector_type)
            + signatures_in(second, selector_type));
    }
}

/// Every token that holds a signature yields it once: the three lists together
/// are as long as there are such tokens.
pub proof fn law_one_signature_per_token(tokens: Seq<Seq<char>>)
    ensures
        signatures_in(tokens, SelectorType::Function).len() + signatures_in(
            tokens,
            SelectorType::Event,
        ).len() + signatures_in(tokens, SelectorType::Error).len() == tokens.filter(
            |token: Seq<char>| signature_in(token) is Some,
        ).len(),
    decreases tokens.len(),
{
    reveal(Seq::filter);
    if tokens.len() > 0 {
        law_one_signature_per_token(tokens.drop_last());
    }
}

/// A token without a signature is ignored: leaving it out changes nothing.
pub proof fn law_invalid_tokens_are_ignored(
    before: Seq<Seq<char>>,
    token: Seq<char>,
    after: Seq<Seq<char>>,
    selector_type: SelectorType,
)
    requires
        signature_in(token) is None,
    ensures
        signatures_in(before.push(token) + after, selector_type) == signatures_in(
            before + after,
            selector_type,
        ),
{
    law_tokens_are_read_in_order(before.push(token), after, selector_type);
    law_tokens_are_read_in_order(before, after, selector_type);
    assert(before.push(token).drop_last() =~= before);
}

/// The words that state a type hold no signature by themselves, nor with a
/// space behind them. The empty token holds none, nor does one that begins with
/// a space, and a token that names an artifact file holds none at all.
pub proof fn law_tokens_without_signature(token: Seq<char>)
    requires
        ({
            ||| states_type(token)
            ||| token.len() > 0 && token.last() == ' ' && states_type(token.drop_last())
            ||| token.len() == 0
            ||| token[0] == ' '
            ||| names_artifact(token)
        }),
    ensures
        signature_in(token) is None,
{
    reveal_strlit("function");
    reveal_strlit("event");
    reveal_strlit("error");
    if names_artifact(token) {
    } else if token.len() == 0 || token[0] == ' ' {
        lemma_first_space(token, 0);
    } else if states_type(token) {
        lemma_first_space(token, token.len() as int);
        assert(token.take(token.len() as int) =~= token);
    } else {
        let word = token.drop_last();
        assert forall|j: int| 0 <= j < word.len() implies token[j] != ' ' by {
            assert(word[j] == token[j]);
        }
        lemma_first_space(token, token.len() - 1);
        assert(token.take(token.len() - 1) =~= word);
        let rest = token.skip(token.len() as int);
        assert(rest.len() == 0);
        lemma_first_space(rest, 0);
    }
}

/// No signature that is read is empty.
pub proof fn law_no_signature_is_empty(tokens: Seq<Seq<char>>, selector_type: SelectorType)
    ensures
        forall|i: int|
            0 <= i < signatures_in(tokens, selector_type).len() ==> (#[trigger] signatures_in(
                tokens,
                selector_type,
            )[i]).len() > 0,
    decreases tokens.len(),
{
    if tokens.len() > 0 {
        law_no_signature_is_empty(tokens.drop_last(), selector_type);
        let before = signatures_in(tokens.drop_last(), selector_type);
        let all = signatures_in(tokens, selector_type);
        assert forall|i: int| 0 <= i < all.len() implies (#[trigger] all[i]).len() > 0 by {
            if i < before.len() {
                assert(all[i] == before[i]);
            }
        }
    }
}

/// A signature is taken for the type that is stated before it.
pub proof fn law_stated_type(word: Seq<char>, selector_type: SelectorType, signature: Seq<char>)
    requires
        ({
            ||| word == "function"@ && selector_type == SelectorType::Function
            ||| word == "event"@ && selector_type == SelectorType::Event
            ||| word == "error"@ && selector_type == SelectorType::Error
        }),
        signature.len() > 0,
        !signature.contains(' '),
        !names_artifact(signature),
    ensures
        signature_in(word.push(' ') + signature) == Some((selector_type, signature)),
{
    reveal_strlit("function");
    reveal_strlit("event");
    reveal_strlit("error");
    reveal_strlit(".json");
    assert("function"@.len() == 8 && "event"@.len() == 5 && "error"@.len() == 5);
    assert("event"@[1] == 'v' && "error"@[1] == 'r');
    let token = word.push(' ') + signature;
    let at = word.len() as int;
    assert(token[at] == ' ');
    lemma_first_space(token, at);
    assert(token.take(at) =~= word);
    let rest = token.skip(at + 1);
    assert(rest =~= signature);
    lemma_first_space(signature, signature.len() as int);
    assert(signature.take(signature.len() as int) =~= signature);
    assert(!names_artifact(token)) by {
        if names_artifact(token) {
            let tail = token.subrange(token.len() - 5, token.len() as int);
            assert(tail == ".json"@);
            if signature.len() < 5 {
                assert(tail[at - (token.len() - 5)] == ' ');
            } else {
                assert(tail =~= signature.subrange(signature.len() - 5, signature.len() as int));
            }
        }
    }
}

/// A signature without a stated type is taken for a function: it is read like
/// the same signature behind the word `function`.
pub proof fn law_functions_by_default(signature: Seq<char>)
    requires
        signature.len() > 0,
        !signature.contains(' '),
        !names_artifact(signature),
        !states_type(signature),
    ensures
        signature_in(signature) == Some((SelectorType::Function, signature)),
        signature_in("function"@.push(' ') + signature) == signature_in(signature),
{
    lemma_first_space(signature, signature.len() as int);
    assert(signature.take(signature.len() as int) =~= signature);
    law_stated_type("function"@, SelectorType::Function, signature);
}

/// A single token yields its signature, whole, in the list of its type, and
/// nothing in the other lists.
pub proof fn law_single_token(token: Seq<char>, selector_type: SelectorType)
    ensures
        match signature_in(token) {
            Some((found, signature)) => signatures_in(seq![token], selector_type) == (
            if found == selector_type {
                seq![signature]
            } else {
                Seq::empty()
            }),
            None => signatures_in(seq![token], selector_type) == Seq::<Seq<char>>::empty(),
        },
{
    let none = seq![token].drop_last();
    assert(none.len() == 0);
    assert(signatures_in(none, selector_type) =~= Seq::<Seq<char>>::empty());
    if let Some((_, signature)) = signature_in(token) {
        assert(Seq::<Seq<char>>::empty().push(signature) =~= seq![signature]);
    }
}

/// An artifact file is named by a token that is some stem and then `.json`.
pub proof fn law_artifacts_end_in_json(token: Seq<char>)
    ensures
        names_artifact(token) <==> exists|stem: Seq<char>| token == #[trigger] (stem + ".json"@),
{
    reveal_strlit(".json");
    if names_artifact(token) {
        let stem = token.take(token.len() - 5);
        assert(token =~= stem + ".json"@);
    }
    if exists|stem: Seq<char>| token == #[trigger] (stem + ".json"@) {
        let stem = choose|stem: Seq<char>| token == #[trigger] (stem + ".json"@);
        assert(token.subrange(token.len() - 5, token.len() as int) =~= ".json"@);
    }
}

/// What stands between `word` and the next space, or the end, is the signature
/// of the type that `word` states, if there is anything; what follows is
/// dropped.
proof fn lemma_token_with_type(word: Seq<char>, signature: Seq<char>, tail: Seq<char>)
    requires
        states_type(word),
        forall|i: int| 0 <= i < signature.len() ==> signature[i] != ' ',
        tail.len() == 0 || tail[0] == ' ',
        !names_artifact(word + seq![' '] + signature + tail),
    ensures
        signature_in(word + seq![' '] + signature + tail) == (if signature.len() == 0 {
            None
        } else if word == "function"@ {
            Some((SelectorType::Function, signature))
        } else if word == "event"@ {
            Some((SelectorType::Event, signature))
        } else {
            Some((SelectorType::Error, signature))
        }),
{
    reveal_strlit("function");
    reveal_strlit("event");
    reveal_strlit("error");
    assert("function"@.len() == 8 && "event"@.len() == 5 && "error"@.len() == 5);
    assert("event"@[1] == 'v' && "error"@[1] == 'r');
    let rest = signature + tail;
    let token = word + seq![' '] + signature + tail;
    assert(token =~= word + seq![' '] + rest);
    law_words_end_at_spaces(word, rest);
    if tail.len() > 0 {
        let after = tail.skip(1);
        assert(rest =~= signature + seq![' '] + after);
        law_words_end_at_spaces(signature, after);
    } else {
        assert(rest =~= signature);
        law_words_end_at_spaces(signature, tail);
    }
}

/// Reading a token that states a type: the word behind the type, whole, is the
/// one signature that is read, and it is of that type. If there is no such word
/// none is read.
pub proof fn law_typed_token_is_read(
    tokens: Vec<String>,
    artifacts: Vec<Option<JsonAbi>>,
    parsed: ParsedSignatures,
    word: Seq<char>,
    signature: Seq<char>,
    tail: Seq<char>,
)
    requires
        call_ensures(parse_signatures, (tokens, artifacts), parsed),
        tokens.len() == 1,
        tokens[0]@ == word + seq![' '] + signature + tail,
        word == "function"@ || word == "event"@ || word == "error"@,
        forall|i: int| 0 <= i < signature.len() ==> signature[i] != ' ',
        tail.len() == 0 || tail[0] == ' ',
        !".json"@.is_suffix_of(tokens[0]@),
    ensures
        ({
            let read = if signature.len() == 0 {
                Seq::empty()
            } else {
                seq![signature]
            };
            let none = Seq::<Seq<char>>::empty();
            &&& parsed.signatures.function.deep_view() == (if word == "function"@ {
                read
            } else {
                none
            })
            &&& parsed.signatures.event.deep_view() == (if word == "event"@ {
                read
            } else {
                none
            })
            &&& parsed.signatures.error.deep_view() == (if word == "error"@ {
                read
            } else {
                none
            })
        }),
{
    reveal_strlit("function");
    reveal_strlit("event");
    reveal_strlit("error");
    assert("function"@.len() == 8 && "event"@.len() == 5 && "error"@.len() == 5);
    assert("event"@[1] == 'v' && "error"@[1] == 'r');
    assert(tokens.deep_view() =~= seq![tokens[0]@]);
    lemma_token_with_type(word, signature, tail);
    law_single_token(tokens[0]@, SelectorType::Function);
    law_single_token(tokens[0]@, SelectorType::Event);
    law_single_token(tokens[0]@, SelectorType::Error);
}

/// Reading a token that states no type: its first word, whole, is the one
/// signature that is read, and it is a function. If that word is empty none is
/// read, nor if the token is a type word by itself or names an artifact file.
pub proof fn law_untyped_token_is_read(
    tokens: Vec<String>,
    artifacts: Vec<Option<JsonAbi>>,
    parsed: ParsedSignatures,
    signature: Seq<char>,
    tail: Seq<char>,
)
    requires
        call_ensures(parse_signatures, (tokens, artifacts), parsed),
        tokens.len() == 1,
        tokens[0]@ == signature + tail,
        forall|i: int| 0 <= i < signature.len() ==> signature[i] != ' ',
        tail.len() == 0 || tail[0] == ' ',
        tail.len() > 0 ==> signature != "function"@ && signature != "event"@ && signature
            != "error"@,
    ensures
        ({
            let skipped = {
                ||| signature.len() == 0
                ||| signature == "function"@ || signature == "event"@ || signature == "error"@
                ||| ".json"@.is_suffix_of(tokens[0]@)
            };
            &&& parsed.signatures.function.deep_view() == (if skipped {
                Seq::empty()
            } else {
                seq![signature]
            })
            &&& parsed.signatures.event.len() == 0
            &&& parsed.signatures.error.len() == 0
        }),
{
    let token = tokens[0]@;
    assert(tokens.deep_view() =~= seq![token]);
    if tail.len() > 0 {
        let after = tail.skip(1);
        assert(token =~= signature + seq![' '] + after);
        law_words_end_at_spaces(signature, after);
    } else {
        assert(token =~= signature);
        law_words_end_at_spaces(signature, tail);
    }
    law_single_token(token, SelectorType::Function);
    law_single_token(token, SelectorType::Event);
    law_single_token(token, SelectorType::Error);
    assert(parsed.signatures.event.deep_view().len() == 0);
    assert(parsed.signatures.error.deep_view().len() == 0);
}

/// Reading a token that names an artifact file yields no signature, whatever
/// word it begins with.
pub proof fn law_artifact_token_is_not_read(
    tokens: Vec<String>,
    artifacts: Vec<Option<JsonAbi>>,
    parsed: ParsedSignatures,
)
    requires
        call_ensures(parse_signatures, (tokens, artifacts), parsed),
        tokens.len() == 1,
        ".json"@.is_suffix_of(tokens[0]@),
    ensures
        parsed.signatures.function.len() == 0,
        parsed.signatures.event.len() == 0,
        parsed.signatures.error.len() == 0,
{
    assert(tokens.deep_view() =~= seq![tokens[0]@]);
    law_single_token(tokens[0]@, SelectorType::Function);
    law_single_token(tokens[0]@, SelectorType::Event);
    law_single_token(tokens[0]@, SelectorType::Error);
    assert(parsed.signatures.function.deep_view().len() == 0);
    assert(parsed.signatures.event.deep_view().len() == 0);
    assert(parsed.signatures.error.deep_view().len() == 0);
}

/// Reading two lists of tokens at once gives what reading the one and then the
/// other gives, list by list.
pub proof fn law_lists_of_tokens_concatenate(
    first: Vec<String>,
    second: Vec<String>,
    both: Vec<String>,
    first_artifacts: Vec<Option<JsonAbi>>,
    second_artifacts: Vec<Option<JsonAbi>>,
    both_artifacts: Vec<Option<JsonAbi>>,
    first_parsed: ParsedSignatures,
    second_parsed: ParsedSignatures,
    both_parsed: ParsedSignatures,
)
    requires
        call_ensures(parse_signatures, (first, first_artifacts), first_parsed),
        call_ensures(parse_signatures, (second, second_artifacts), second_parsed),
        call_ensures(parse_signatures, (both, both_artifacts), both_parsed),
        both.deep_view() == first.deep_view() + second.deep_view(),
        both_artifacts@ == first_artifacts@ + second_artifacts@,
    ensures
        both_parsed.signatures.function.deep_view() == first_parsed.signatures.function.deep_view()
            + second_parsed.signatures.function.deep_view(),
        both_parsed.signatures.event.deep_view() == first_parsed.signatures.event.deep_view()
            + second_parsed.signatures.event.deep_view(),
        both_parsed.signatures.error.deep_view() == first_parsed.signatures.error.deep_view()
            + second_parsed.signatures.error.deep_view(),
        both_parsed.abis@ == first_parsed.abis@ + second_parsed.abis@,
{
    law_tokens_are_read_in_order(first.deep_view(), second.deep_view(), SelectorType::Function);
    law_tokens_are_read_in_order(first.deep_view(), second.deep_view(), SelectorType::Event);
    law_tokens_are_read_in_order(first.deep_view(), second.deep_view(), SelectorType::Error);
    lemma_readable_concat(first_artifacts@, second_artifacts@);
}

proof fn lemma_readable_concat(first: Seq<Option<JsonAbi>>, second: Seq<Option<JsonAbi>>)
    ensures
        readable(first + second) == readable(first) + readable(second),
    decreases second.len(),
{
    if second.len() == 0 {
        assert(first + second =~= first);
        assert(readable(first) + readable(second) =~= readable(first));
    } else {
        lemma_readable_concat(first, second.drop_last());
        assert((first + second).drop_last() =~= first + second.drop_last());
        assert((first + second).last() == second.last());
        assert(readable(first + second) =~= readable(first) + readable(second));
    }
}

proof fn lemma_readable(artifacts: Seq<Option<JsonAbi>>, n: int)
    requires
        0 <= n <= artifacts.len(),
    ensures
        ({
            let is_read = |artifact: Option<JsonAbi>| artifact is Some;
            let kept = readable(artifacts.take(n));
            &&& kept.len() == artifacts.take(n).filter(is_read).len()
            &&& forall|i: int|
                0 <= i < n && (#[trigger] artifacts[i]) is Some ==> {
                    let rank = artifacts.take(i).filter(is_read).len() as int;
                    &&& rank < kept.len()
                    &&& kept[rank] == artifacts[i]->0
                }
        }),
    decreases n,
{
    reveal(Seq::filter);
    let is_read = |artifact: Option<JsonAbi>| artifact is Some;
    if n > 0 {
        lemma_readable(artifacts, n - 1);
        assert(artifacts.take(n).drop_last() =~= artifacts.take(n - 1));
        assert(artifacts.take(n).last() == artifacts[n - 1]);
    }
}

/// The ABIs that are returned are those that could be read, each once and in
/// order: an ABI stands behind as many as could be read before it.
pub proof fn law_readable_artifacts_are_kept(
    tokens: Vec<String>,
    artifacts: Vec<Option<JsonAbi>>,
    parsed: ParsedSignatures,
)
    requires
        call_ensures(parse_signatures, (tokens, artifacts), parsed),
    ensures
        parsed.abis.len() == artifacts@.filter(
            |artifact: Option<JsonAbi>| artifact is Some,
        ).len(),
        forall|i: int|
            0 <= i < artifacts.len() && (#[trigger] artifacts@[i]) is Some ==> {
                let rank = artifacts@.take(i).filter(
                    |artifact: Option<JsonAbi>| artifact is Some,
                ).len() as int;
                &&& rank < parsed.abis.len()
                &&& parsed.abis[rank] == artifacts@[i]->0
            },
{
    lemma_readable(artifacts@, artifacts.len() as int);
    assert(artifacts@.take(artifacts.len() as int) =~= artifacts@);
}

/// The artifact files are the tokens that end in `.json`, in order.
pub proof fn law_artifact_files_end_in_json(tokens: Vec<String>, files: Vec<String>)
    requires
        call_ensures(artifact_files, (&tokens,), files),
    ensures
        files.deep_view() == tokens.deep_view().filter(
            |token: Seq<char>| ".json"@.is_suffix_of(token),
        ),
{
    assert((|token: Seq<char>| names_artifact(token)) =~= (|token: Seq<char>|
        ".json"@.is_suffix_of(token)));
}

} // verus!
