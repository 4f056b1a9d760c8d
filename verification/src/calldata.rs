//! Finding the function that calldata calls, and showing calldata.

use crate::client::{Connection, OpenChainClient};
use crate::error::SelectorError;
use crate::lookup::{
    lookup_begins, lookup_url, normalized, normalized_all, Lookup, SelectorType,
};
use crate::text::{
    byte_count, byte_len, byte_slice, law_boundaries_lie_between_characters,
    law_padding_is_zeros_in_front, law_prefixes_are_taken_off, law_slices_by_bytes_hold_characters,
    lemma_ascii_bytes, lemma_ascii_without_prefixes, lemma_boundary_of_tail, lemma_byte_slice_all,
    lemma_byte_slice_len, lemma_byte_slices_join, lemma_encode_concat, lemma_flatten_drop_last,
    lemma_numeral_value, lemma_zero_padded_value, numeral, numeral_value, on_boundary, pad_zeros,
    split_bytes, strip_prefix, to_numeral, trim_start_matches, without_prefix, without_prefixes,
    zero_padded,
};
use vstd::prelude::*;
use vstd::string::StringExecFns;
use vstd::utf8::*;

verus! {

/// How many hexadecimal digits a selector has.
pub const SELECTOR_DIGITS: usize = 8;

/// How many hexadecimal digits a word of arguments has.
pub const WORD_DIGITS: usize = 64;

/// How many bytes of calldata a word of arguments stands for.
pub const WORD_BYTES: usize = 32;

/// Calldata whose function is being looked up.
#[derive(Debug, PartialEq, Eq)]
pub struct CalldataLookup {
    /// The calldata, without its `0x` prefix.
    pub calldata: String,
    /// The lookup of its selector.
    pub lookup: Lookup,
}

/// Whether the function of `calldata` is looked up, by a client with the given
/// state, as `res` says.
pub open spec fn calldata_lookup_begins(
    state: Connection,
    calldata: Seq<char>,
    res: Result<CalldataLookup, SelectorError>,
) -> bool {
    let digits = without_prefix(calldata, "0x"@);
    let selector = byte_slice(digits, 0, SELECTOR_DIGITS as int);
    if byte_len(digits) < SELECTOR_DIGITS {
        res matches Err(SelectorError::CalldataTooShort { len }) && len == byte_len(digits)
    } else {
        match res {
            Ok(found) => {
                &&& found.calldata@ == digits
                &&& lookup_begins(state, SelectorType::Function, seq![selector], Ok(found.lookup))
            },
            Err(err) => lookup_begins(state, SelectorType::Function, seq![selector], Err(err)),
        }
    }
}

/// Whether `calldata` can be cut behind its selector: not within a character
/// that takes several bytes.
pub open spec fn selector_is_separable(calldata: Seq<char>) -> bool {
    let digits = without_prefix(calldata, "0x"@);
    byte_len(digits) >= SELECTOR_DIGITS ==> on_boundary(digits, SELECTOR_DIGITS as int)
}

/// Those of `signatures` that are marked in `marks`, in the same order.
pub open spec fn marked(signatures: Seq<Seq<char>>, marks: Seq<bool>) -> Seq<Seq<char>>
    decreases signatures.len(),
{
    if signatures.len() == 0 {
        Seq::empty()
    } else if marks[signatures.len() - 1] {
        marked(signatures.drop_last(), marks).push(signatures.last())
    } else {
        marked(signatures.drop_last(), marks)
    }
}

/// Keeps the signatures with which the calldata could be decoded, in the same
/// order. Which these are is in `decodable`.
pub fn keep_decodable(signatures: &Vec<String>, decodable: &Vec<bool>) -> (res: Vec<String>)
    requires
        signatures.len() == decodable.len(),
    ensures
        res.deep_view() == marked(signatures.deep_view(), decodable@),
{
    let ghost all = signatures.deep_view();
    let mut res: Vec<String> = Vec::new();
    for i in 0..signatures.len()
        invariant
            all == signatures.deep_view(),
            signatures.len() == decodable.len(),
            res.deep_view() == marked(all.take(i as int), decodable@),
    {
        proof {
            assert(all.take(i + 1).drop_last() =~= all.take(i as int));
        }
        if decodable[i] {
            let ghost before = res.deep_view();
            res.push(signatures[i].clone());
            proof {
                assert(res.deep_view() =~= before.push(all[i as int]));
            }
        }
    }
    proof {
        assert(all.take(signatures.len() as int) =~= all);
    }
    res
}

/// What is shown for the method of calldata.
#[derive(Debug, PartialEq, Eq)]
pub enum SelectorOrSig {
    /// Its selector, where no signature is known.
    Selector(String),
    /// The signatures that it may have.
    Sig(Vec<String>),
}

/// Calldata in a form that can be shown.
#[derive(Debug, PartialEq, Eq)]
pub struct PossibleSigs {
    method: SelectorOrSig,
    data: Vec<String>,
}

/// The lines that list `signatures`.
pub open spec fn signature_lines(signatures: Seq<Seq<char>>) -> Seq<char>
    decreases signatures.len(),
{
    if signatures.len() == 0 {
        Seq::empty()
    } else {
        signature_lines(signatures.drop_last()) + " - "@ + signatures.last() + "\n"@
    }
}

/// The label of a row of arguments: how many bytes of arguments stand before
/// it, in hexadecimal, with at least three digits.
pub open spec fn row_label(row: int) -> Seq<char> {
    zero_padded(numeral(row * WORD_BYTES, 16), 3)
}

/// The lines that show `rows` of arguments.
pub open spec fn row_lines(rows: Seq<Seq<char>>) -> Seq<char>
    decreases rows.len(),
{
    if rows.len() == 0 {
        Seq::empty()
    } else {
        row_lines(rows.drop_last()) + " ["@ + row_label(rows.len() - 1) + "]: "@ + rows.last()
            + "\n"@
    }
}

/// The lines that show the method.
pub open spec fn method_lines(method: SelectorOrSig) -> Seq<char> {
    match method {
        SelectorOrSig::Selector(selector) => "\n Method: "@ + selector@ + "\n"@,
        SelectorOrSig::Sig(signatures) => "\n Possible methods:\n"@ + signature_lines(
            signatures.deep_view(),
        ),
    }
}

impl PossibleSigs {
    /// What is shown for the method.
    pub closed spec fn spec_method(&self) -> SelectorOrSig {
        self.method
    }

    /// The words of arguments.
    pub closed spec fn spec_rows(&self) -> Seq<Seq<char>> {
        self.data.deep_view()
    }

    #[verifier::type_invariant]
    closed spec fn labels_fit(&self) -> bool {
        self.data.len() * WORD_BYTES <= usize::MAX
    }

    /// Calldata of which nothing is known.
    pub fn new() -> (res: Self)
        ensures
            res.spec_method() matches SelectorOrSig::Selector(selector) && selector@
                == "0x00000000"@,
            res.spec_rows().len() == 0,
    {
        PossibleSigs { method: SelectorOrSig::Selector("0x00000000".to_owned()), data: Vec::new() }
    }

    /// The text that shows the calldata: the method, a rule, and a labelled row
    /// for each word of arguments.
    pub fn render(&self) -> (res: String)
        ensures
            res@ == method_lines(self.spec_method()) + " ------------\n"@ + row_lines(
                self.spec_rows(),
            ),
    {
        proof {
            use_type_invariant(self);
        }
        let mut res = match &self.method {
            SelectorOrSig::Selector(selector) => {
                let mut head = "\n Method: ".to_owned();
                head.append(selector.as_str());
                head.append("\n");
                head
            },
            SelectorOrSig::Sig(signatures) => {
                let mut head = "\n Possible methods:\n".to_owned();
                append_signature_lines(&mut head, signatures);
                head
            },
        };
        res.append(" ------------\n");
        append_row_lines(&mut res, &self.data);
        res
    }
}

fn append_signature_lines(out: &mut String, signatures: &Vec<String>)
    ensures
        final(out)@ == old(out)@ + signature_lines(signatures.deep_view()),
{
    let ghost all = signatures.deep_view();
    let ghost before = out@;
    proof {
        assert(before + Seq::<char>::empty() =~= before);
    }
    for i in 0..signatures.len()
        invariant
            all == signatures.deep_view(),
            out@ == before + signature_lines(all.take(i as int)),
    {
        proof {
            assert(all.take(i + 1).drop_last() =~= all.take(i as int));
        }
        out.append(" - ");
        out.append(signatures[i].as_str());
        out.append("\n");
        proof {
            assert(out@ =~= before + signature_lines(all.take(i + 1)));
        }
    }
    proof {
        assert(all.take(signatures.len() as int) =~= all);
    }
}

fn append_row_lines(out: &mut String, rows: &Vec<String>)
    requires
        rows.len() * WORD_BYTES <= usize::MAX,
    ensures
        final(out)@ == old(out)@ + row_lines(rows.deep_view()),
{
    let ghost all = rows.deep_view();
    let ghost before = out@;
    proof {
        assert(before + Seq::<char>::empty() =~= before);
    }
    for i in 0..rows.len()
        invariant
            all == rows.deep_view(),
            rows.len() * WORD_BYTES <= usize::MAX,
            out@ == before + row_lines(all.take(i as int)),
    {
        proof {
            assert(all.take(i + 1).drop_last() =~= all.take(i as int));
        }
        let label = pad_zeros(to_numeral(i * WORD_BYTES, 16), 3);
        out.append(" [");
        out.append(label.as_str());
        out.append("]: ");
        out.append(rows[i].as_str());
        out.append("\n");
        proof {
            assert(out@ =~= before + row_lines(all.take(i + 1)));
        }
    }
    proof {
        assert(all.take(rows.len() as int) =~= all);
    }
}

/// Calldata that is about to be shown.
#[derive(Debug, PartialEq, Eq)]
pub struct CalldataPreview {
    /// The selector.
    pub selector: String,
    /// The arguments, which stand behind the selector.
    pub data: String,
    /// The lookup of the selector, unless there is none to be made.
    pub lookup: Option<Lookup>,
}

/// The words that fill `data`, if it is cut every sixty-four bytes.
pub open spec fn words(data: Seq<char>) -> Seq<Seq<char>> {
    Seq::new(
        byte_len(data) / WORD_DIGITS as nat,
        |i: int| byte_slice(data, WORD_DIGITS * i, WORD_DIGITS * (i + 1)),
    )
}

/// Whether `data`, if it fills whole words, can be cut between them: not within
/// a character that takes several bytes.
pub open spec fn words_are_separable(data: Seq<char>) -> bool {
    byte_len(data) % WORD_DIGITS as nat == 0 ==> forall|i: int|
        0 <= i <= byte_len(data) / WORD_DIGITS as nat ==> #[trigger] on_boundary(
            data,
            WORD_DIGITS * i,
        )
}

/// Whether the preview of `calldata` that a client with the given state is
/// asked for goes on as `res` says.
///
/// Signatures are looked up unless `offline` is set. A lookup that is refused
/// is not made.
pub open spec fn preview_begins(
    state: Connection,
    calldata: Seq<char>,
    offline: bool,
    res: Result<CalldataPreview, SelectorError>,
) -> bool {
    let digits = without_prefixes(calldata, "0x"@);
    let selector = byte_slice(digits, 0, SELECTOR_DIGITS as int);
    if !on_boundary(digits, SELECTOR_DIGITS as int) {
        res matches Err(SelectorError::MissingSelector)
    } else {
        &&& res matches Ok(preview)
        &&& preview.selector@ == selector
        &&& preview.data@ == byte_slice(digits, SELECTOR_DIGITS as int, byte_len(digits) as int)
        &&& match preview.lookup {
            Some(lookup) => {
                &&& !offline
                &&& lookup_begins(state, SelectorType::Function, seq![selector], Ok(lookup))
            },
            None => offline || exists|err: SelectorError|
                lookup_begins(state, SelectorType::Function, seq![selector], Err(err)),
        }
    }
}

impl CalldataPreview {
    /// Puts the preview together, with the signatures that were found: `None`
    /// if the lookup was not made or failed.
    pub fn finish(self, found: Option<Vec<String>>) -> (res: Result<PossibleSigs, SelectorError>)
        requires
            words_are_separable(self.data@),
        ensures
            if byte_len(self.data@) % WORD_DIGITS as nat != 0 {
                res matches Err(SelectorError::InvalidCalldataSize)
            } else {
                &&& res matches Ok(shown)
                &&& shown.spec_rows() == words(self.data@)
                &&& match shown.spec_method() {
                    SelectorOrSig::Selector(selector) => {
                        &&& selector@ == self.selector@
                        &&& found matches Some(signatures) ==> signatures.len() == 0
                    },
                    SelectorOrSig::Sig(signatures) => {
                        &&& found == Some(signatures)
                        &&& signatures.len() > 0
                    },
                }
            },
    {
        let signatures = match found {
            Some(signatures) => signatures,
            None => Vec::new(),
        };
        if byte_count(self.data.as_str()) % WORD_DIGITS != 0 {
            return Err(SelectorError::InvalidCalldataSize);
        }
        let data = split_words(self.data.as_str());
        let method = if signatures.len() == 0 {
            SelectorOrSig::Selector(self.selector)
        } else {
            SelectorOrSig::Sig(signatures)
        };
        Ok(PossibleSigs { method, data })
    }
}

/// Cuts `data` into words.
fn split_words(data: &str) -> (res: Vec<String>)
    requires
        byte_len(data@) % WORD_DIGITS as nat == 0,
        words_are_separable(data@),
    ensures
        res.deep_view() == words(data@),
        res.len() * WORD_BYTES <= usize::MAX,
{
    let ghost bytes = encode_utf8(data@);
    let len = byte_count(data);
    let count = len / WORD_DIGITS;
    let mut res: Vec<String> = Vec::new();
    let mut rest = data;
    proof {
        assert(bytes.subrange(0, len as int) =~= bytes);
    }
    for row in 0..count
        invariant
            bytes == encode_utf8(data@),
            len == bytes.len(),
            count == len / WORD_DIGITS,
            len == count * WORD_DIGITS,
            words_are_separable(data@),
            encode_utf8(rest@) == bytes.subrange(WORD_DIGITS * row, len as int),
            res.len() == row,
            forall|j: int| 0 <= j < row ==> #[trigger] res[j]@ == words(data@)[j],
    {
        proof {
            encode_utf8_valid_utf8(data@);
            assert(on_boundary(data@, WORD_DIGITS * row));
            assert(on_boundary(data@, WORD_DIGITS * (row + 1)));
            lemma_boundary_of_tail(bytes, WORD_DIGITS * row, WORD_DIGITS * (row + 1));
        }
        let (word, tail) = split_bytes(rest, WORD_DIGITS);
        proof {
            let cut = encode_utf8(rest@);
            assert(cut.subrange(0, WORD_DIGITS as int) =~= bytes.subrange(
                WORD_DIGITS * row,
                WORD_DIGITS * (row + 1),
            ));
            assert(cut.subrange(WORD_DIGITS as int, cut.len() as int) =~= bytes.subrange(
                WORD_DIGITS * (row + 1),
                len as int,
            ));
        }
        res.push(word.to_owned());
        rest = tail;
    }
    proof {
        assert(res.deep_view() =~= words(data@));
    }
    res
}

impl OpenChainClient {
    /// Begins to fetch all possible signatures of the function that `calldata`
    /// calls.
    pub fn decode_calldata(&self, calldata: &str) -> (res: Result<CalldataLookup, SelectorError>)
        requires
            selector_is_separable(calldata@),
        ensures
            calldata_lookup_begins(self@, calldata@, res),
    {
        let digits = strip_prefix(calldata, "0x");
        let len = byte_count(digits);
        if len < SELECTOR_DIGITS {
            return Err(SelectorError::CalldataTooShort { len });
        }
        let (selector, _) = split_bytes(digits, SELECTOR_DIGITS);
        match self.decode_function_selector(selector) {
            Ok(lookup) => Ok(CalldataLookup { calldata: digits.to_owned(), lookup }),
            Err(err) => Err(err),
        }
    }

    /// Begins to show calldata, and, unless `offline` is set, to fetch possible
    /// function signatures.
    pub fn pretty_calldata(&self, calldata: &str, offline: bool) -> (res: Result<
        CalldataPreview,
        SelectorError,
    >)
        ensures
            preview_begins(self@, calldata@, offline, res),
    {
        proof {
            reveal_strlit("0x");
        }
        let digits = trim_start_matches(calldata, "0x");
        if !digits.is_char_boundary(SELECTOR_DIGITS) {
            return Err(SelectorError::MissingSelector);
        }
        let (selector, data) = split_bytes(digits, SELECTOR_DIGITS);
        let lookup = if offline {
            None
        } else {
            match self.decode_function_selector(selector) {
                Ok(lookup) => Some(lookup),
                Err(_) => None,
            }
        };
        Ok(CalldataPreview { selector: selector.to_owned(), data: data.to_owned(), lookup })
    }
}

/// Begins to fetch all possible signatures of the function that `calldata`
/// calls with a new client.
pub fn decode_calldata(calldata: &str) -> (res: Result<CalldataLookup, SelectorError>)
    requires
        selector_is_separable(calldata@),
    ensures
        calldata_lookup_begins(Connection::fresh(), calldata@, res),
{
    OpenChainClient::new().decode_calldata(calldata)
}

/// Begins to show calldata, and, unless `offline` is set, to fetch possible
/// function signatures with a new client.
pub fn pretty_calldata(calldata: &str, offline: bool) -> (res: Result<
    CalldataPreview,
    SelectorError,
>)
    ensures
        preview_begins(Connection::fresh(), calldata@, offline, res),
{
    OpenChainClient::new().pretty_calldata(calldata, offline)
}

/// The label of a row, read as a hexadecimal number, is how many bytes of
/// arguments stand before it.
pub proof fn law_label_is_offset(row: int)
    requires
        0 <= row,
    ensures
        numeral_value(row_label(row), 16) == row * WORD_BYTES,
{
    let text = numeral(row * WORD_BYTES, 16);
    lemma_numeral_value(row * WORD_BYTES, 16);
    if text.len() < 3 {
        lemma_zero_padded_value(text, (3 - text.len()) as nat, 16);
    }
}

proof fn lemma_words_from(data: Seq<char>, row: int)
    requires
        byte_len(data) % WORD_DIGITS as nat == 0,
        words_are_separable(data),
        0 <= row <= words(data).len(),
    ensures
        words(data).skip(row).flatten() == byte_slice(
            data,
            WORD_DIGITS * row,
            byte_len(data) as int,
        ),
    decreases words(data).len() - row,
{
    let all = words(data);
    assert(on_boundary(data, WORD_DIGITS * row));
    if row == all.len() {
        assert(encode_utf8(data).subrange(WORD_DIGITS * row, byte_len(data) as int) =~= Seq::<
            u8,
        >::empty());
        assert(all.skip(row) =~= Seq::<Seq<char>>::empty());
    } else {
        assert(on_boundary(data, WORD_DIGITS * (row + 1)));
        lemma_byte_slices_join(data, WORD_DIGITS * row, WORD_DIGITS * (row + 1));
        lemma_words_from(data, row + 1);
        assert(all.skip(row).drop_first() =~= all.skip(row + 1));
        assert(all.skip(row).first() == all[row]);
    }
}

/// Showing calldata loses nothing: the selector and the words behind it, put
/// together, are the calldata without its `0x` prefixes, and every word takes
/// sixty-four bytes.
pub proof fn law_preview_is_complete(calldata: Seq<char>)
    requires
        ({
            let digits = without_prefixes(calldata, "0x"@);
            let data = byte_slice(digits, SELECTOR_DIGITS as int, byte_len(digits) as int);
            &&& on_boundary(digits, SELECTOR_DIGITS as int)
            &&& byte_len(data) % WORD_DIGITS as nat == 0
            &&& words_are_separable(data)
        }),
    ensures
        ({
            let digits = without_prefixes(calldata, "0x"@);
            let data = byte_slice(digits, SELECTOR_DIGITS as int, byte_len(digits) as int);
            &&& byte_slice(digits, 0, SELECTOR_DIGITS as int) + words(data).flatten() == digits
            &&& forall|i: int|
                0 <= i < words(data).len() ==> byte_len(#[trigger] words(data)[i]) == WORD_DIGITS
        }),
{
    let digits = without_prefixes(calldata, "0x"@);
    let data = byte_slice(digits, SELECTOR_DIGITS as int, byte_len(digits) as int);
    encode_utf8_valid_utf8(digits);
    is_char_boundary_start_end_of_seq(encode_utf8(digits));
    lemma_byte_slices_join(digits, 0, SELECTOR_DIGITS as int);
    lemma_byte_slice_all(digits);
    lemma_words_from(data, 0);
    lemma_byte_slice_all(data);
    assert(words(data).skip(0) =~= words(data));
    assert forall|i: int| 0 <= i < words(data).len() implies byte_len(#[trigger] words(data)[i])
        == WORD_DIGITS by {
        assert(on_boundary(data, WORD_DIGITS * i));
        assert(on_boundary(data, WORD_DIGITS * (i + 1)));
        lemma_byte_slice_len(data, WORD_DIGITS * i, WORD_DIGITS * (i + 1));
    }
}

/// Calldata in ASCII can be cut behind its selector and between its words.
pub proof fn law_ascii_calldata_is_separable(calldata: Seq<char>)
    requires
        is_ascii_chars(calldata),
    ensures
        selector_is_separable(calldata),
        ({
            let digits = without_prefixes(calldata, "0x"@);
            &&& on_boundary(digits, SELECTOR_DIGITS as int) <==> digits.len() >= SELECTOR_DIGITS
            &&& digits.len() >= SELECTOR_DIGITS ==> words_are_separable(
                byte_slice(digits, SELECTOR_DIGITS as int, byte_len(digits) as int),
            )
        }),
{
    let once = without_prefix(calldata, "0x"@);
    lemma_ascii_bytes(once, 0, once.len() as int);
    if once.len() >= SELECTOR_DIGITS {
        lemma_ascii_bytes(once, 0, SELECTOR_DIGITS as int);
    }
    let digits = without_prefixes(calldata, "0x"@);
    lemma_ascii_without_prefixes(calldata, "0x"@);
    lemma_ascii_bytes(digits, 0, digits.len() as int);
    encode_utf8_valid_utf8(digits);
    if digits.len() >= SELECTOR_DIGITS {
        lemma_ascii_bytes(digits, 0, SELECTOR_DIGITS as int);
        lemma_ascii_bytes(digits, SELECTOR_DIGITS as int, digits.len() as int);
        let data = byte_slice(digits, SELECTOR_DIGITS as int, byte_len(digits) as int);
        lemma_ascii_bytes(data, 0, data.len() as int);
        assert forall|i: int|
            0 <= i <= byte_len(data) / WORD_DIGITS as nat implies #[trigger] on_boundary(
            data,
            WORD_DIGITS * i,
        ) by {
            lemma_ascii_bytes(data, 0, WORD_DIGITS * i);
        }
    }
}

/// A `0x` before calldata makes no difference to how it is shown.
pub proof fn law_preview_ignores_prefix(
    state: Connection,
    calldata: Seq<char>,
    offline: bool,
    res: Result<CalldataPreview, SelectorError>,
)
    ensures
        preview_begins(state, "0x"@ + calldata, offline, res) <==> preview_begins(
            state,
            calldata,
            offline,
            res,
        ),
{
    reveal_strlit("0x");
    let prefixed = "0x"@ + calldata;
    assert(prefixed.subrange(0, 2) =~= "0x"@);
    assert(prefixed.skip(2) =~= calldata);
}

proof fn lemma_marked(signatures: Seq<Seq<char>>, marks: Seq<bool>)
    requires
        signatures.len() <= marks.len(),
    ensures
        forall|signature: Seq<char>| #[trigger]
            marked(signatures, marks).contains(signature) <==> exists|i: int|
                0 <= i < signatures.len() && #[trigger] marks[i] && signatures[i] == signature,
        marked(signatures, marks).len() <= signatures.len(),
        (forall|i: int| 0 <= i < signatures.len() ==> marks[i]) ==> marked(signatures, marks)
            == signatures,
    decreases signatures.len(),
{
    let kept = marked(signatures, marks);
    if signatures.len() > 0 {
        let last = signatures.len() - 1;
        let rest = signatures.drop_last();
        lemma_marked(rest, marks);
        assert forall|signature: Seq<char>| #[trigger]
            kept.contains(signature) <==> exists|i: int|
                0 <= i < signatures.len() && #[trigger] marks[i] && signatures[i] == signature by {
            if kept.contains(signature) {
                if marks[last] && signature == signatures[last] {
                } else {
                    let at = choose|at: int| 0 <= at < kept.len() && kept[at] == signature;
                    assert(marked(rest, marks)[at] == signature);
                    assert(marked(rest, marks).contains(signature));
                    let i = choose|i: int|
                        0 <= i < rest.len() && #[trigger] marks[i] && rest[i] == signature;
                    assert(marks[i] && signatures[i] == signature);
                }
            }
            if exists|i: int|
                0 <= i < signatures.len() && #[trigger] marks[i] && signatures[i] == signature {
                let i = choose|i: int|
                    0 <= i < signatures.len() && #[trigger] marks[i] && signatures[i] == signature;
                if i == last {
                    assert(kept.last() == signature);
                } else {
                    assert(marks[i] && rest[i] == signature);
                    assert(marked(rest, marks).contains(signature));
                    let at = choose|at: int|
                        0 <= at < marked(rest, marks).len() && marked(rest, marks)[at] == signature;
                    assert(kept[at] == signature);
                }
            }
        }
        if forall|i: int| 0 <= i < signatures.len() ==> marks[i] {
            assert(marks[last]);
            assert(rest.push(signatures.last()) =~= signatures);
        }
    }
}

/// What is kept of the signatures are those that are marked, and all of them.
pub proof fn law_kept_are_the_marked(signatures: Seq<Seq<char>>, marks: Seq<bool>)
    requires
        signatures.len() == marks.len(),
    ensures
        forall|signature: Seq<char>| #[trigger]
            marked(signatures, marks).contains(signature) <==> exists|i: int|
                0 <= i < signatures.len() && #[trigger] marks[i] && signatures[i] == signature,
        marked(signatures, marks).len() <= signatures.len(),
        (forall|i: int| 0 <= i < marks.len() ==> marks[i]) ==> marked(signatures, marks)
            == signatures,
{
    lemma_marked(signatures, marks);
}

proof fn lemma_marked_rank(signatures: Seq<Seq<char>>, marks: Seq<bool>)
    requires
        signatures.len() <= marks.len(),
    ensures
        ({
            let kept = marked(signatures, marks);
            &&& kept.len() == marks.take(signatures.len() as int).filter(|mark: bool| mark).len()
            &&& forall|i: int|
                0 <= i < signatures.len() && #[trigger] marks[i] ==> {
                    let rank = marks.take(i).filter(|mark: bool| mark).len() as int;
                    &&& rank < kept.len()
                    &&& kept[rank] == signatures[i]
                }
        }),
    decreases signatures.len(),
{
    reveal(Seq::filter);
    let n = signatures.len() as int;
    if n > 0 {
        lemma_marked_rank(signatures.drop_last(), marks);
        assert(marks.take(n).drop_last() =~= marks.take(n - 1));
        assert(marks.take(n).last() == marks[n - 1]);
    }
}

/// As many signatures are kept as there are marks, and each marked one once and
/// in order: it stands behind as many as are marked before it.
pub proof fn law_each_marked_signature_is_kept_once(
    signatures: Vec<String>,
    decodable: Vec<bool>,
    kept: Vec<String>,
)
    requires
        signatures.len() == decodable.len(),
        call_ensures(keep_decodable, (&signatures, &decodable), kept),
    ensures
        kept.len() == decodable@.filter(|mark: bool| mark).len(),
        forall|i: int|
            0 <= i < signatures.len() && #[trigger] decodable@[i] ==> {
                let rank = decodable@.take(i).filter(|mark: bool| mark).len() as int;
                &&& rank < kept.len()
                &&& kept[rank]@ == signatures[i]@
            },
{
    lemma_marked_rank(signatures.deep_view(), decodable@);
    assert(decodable@.take(decodable.len() as int) =~= decodable@);
    assert(kept.deep_view().len() == kept.len());
    assert forall|i: int| 0 <= i < signatures.len() && #[trigger] decodable@[i] implies {
        let rank = decodable@.take(i).filter(|mark: bool| mark).len() as int;
        &&& rank < kept.len()
        &&& kept[rank]@ == signatures[i]@
    } by {
        let rank = decodable@.take(i).filter(|mark: bool| mark).len() as int;
        assert(kept.deep_view()[rank] == signatures.deep_view()[i]);
    }
}

proof fn lemma_row_lines(rows: Seq<Seq<char>>)
    ensures
        row_lines(rows) == Seq::new(
            rows.len(),
            |i: int| " ["@ + row_label(i) + "]: "@ + rows[i] + "\n"@,
        ).flatten(),
    decreases rows.len(),
{
    let lines = Seq::new(
        rows.len(),
        |i: int| " ["@ + row_label(i) + "]: "@ + rows[i] + "\n"@,
    );
    if rows.len() > 0 {
        let rest = rows.drop_last();
        lemma_row_lines(rest);
        lemma_flatten_drop_last(lines);
        assert(lines.drop_last() =~= Seq::new(
            rest.len(),
            |i: int| " ["@ + row_label(i) + "]: "@ + rest[i] + "\n"@,
        ));
        assert(row_lines(rows) =~= row_lines(rest) + lines.last());
    }
}

proof fn lemma_signature_lines(signatures: Seq<Seq<char>>)
    ensures
        signature_lines(signatures) == Seq::new(
            signatures.len(),
            |i: int| " - "@ + signatures[i] + "\n"@,
        ).flatten(),
    decreases signatures.len(),
{
    let lines = Seq::new(signatures.len(), |i: int| " - "@ + signatures[i] + "\n"@);
    if signatures.len() > 0 {
        let rest = signatures.drop_last();
        lemma_signature_lines(rest);
        lemma_flatten_drop_last(lines);
        assert(lines.drop_last() =~= Seq::new(rest.len(), |i: int| " - "@ + rest[i] + "\n"@));
        assert(signature_lines(signatures) =~= signature_lines(rest) + lines.last());
    }
}

/// Text that is made of words of sixty-four bytes is cut into just these words.
proof fn lemma_words_of(data: Seq<char>, given: Seq<Seq<char>>)
    requires
        data == given.flatten(),
        forall|i: int| 0 <= i < given.len() ==> encode_utf8(#[trigger] given[i]).len() == 64,
    ensures
        byte_len(data) == 64 * given.len(),
        words(data) == given,
        words_are_separable(data),
    decreases given.len(),
{
    encode_utf8_valid_utf8(data);
    is_char_boundary_start_end_of_seq(encode_utf8(data));
    if given.len() == 0 {
        assert(words(data) =~= given);
    } else {
        let n = given.len() as int;
        let less = given.drop_last();
        let rest = less.flatten();
        lemma_flatten_drop_last(given);
        lemma_words_of(rest, less);
        lemma_encode_concat(rest, given.last());
        let bytes = encode_utf8(data);
        let head = encode_utf8(rest);
        assert(bytes =~= head + encode_utf8(given.last()));
        encode_utf8_valid_utf8(rest);
        encode_utf8_decode_utf8(given.last());
        assert forall|i: int| 0 <= i < n implies #[trigger] words(data)[i] == given[i] by {
            if i < n - 1 {
                assert(bytes.subrange(64 * i, 64 * (i + 1))
                    =~= head.subrange(64 * i, 64 * (i + 1)));
                assert(words(rest)[i] == less[i]);
            } else {
                assert(bytes.subrange(64 * i, 64 * (i + 1)) =~= encode_utf8(given.last()));
            }
        }
        assert(words(data) =~= given);
        law_boundaries_lie_between_characters(data, 64 * (n - 1));
        assert(data.take(rest.len() as int) =~= rest);
        assert forall|i: int| 0 <= i <= n implies #[trigger] on_boundary(data, WORD_DIGITS * i) by {
            if i < n - 1 {
                assert(on_boundary(rest, WORD_DIGITS * i));
                is_char_boundary_iff_not_is_continuation_byte(head, 64 * i);
                is_char_boundary_iff_not_is_continuation_byte(bytes, 64 * i);
                assert(bytes[64 * i] == head[64 * i]);
            }
        }
    }
}

/// Calldata whose arguments are some words of sixty-four bytes each is shown
/// with a line for every word, in order and whatever it holds: the label of the
/// word, and the word. Before these lines stand the signatures that were found,
/// a line for each, or the selector if there are none, and then a rule.
pub proof fn law_every_word_is_shown(
    preview: CalldataPreview,
    found: Option<Vec<String>>,
    res: Result<PossibleSigs, SelectorError>,
    text: String,
    given: Seq<Seq<char>>,
)
    requires
        preview.data@ == given.flatten(),
        forall|i: int| 0 <= i < given.len() ==> encode_utf8(#[trigger] given[i]).len() == 64,
        call_ensures(CalldataPreview::finish, (preview, found), res),
        res matches Ok(shown) ==> call_ensures(PossibleSigs::render, (&shown,), text),
    ensures
        words_are_separable(preview.data@),
        res is Ok,
        text@ == (match found {
            Some(signatures) if signatures.len() > 0 => "\n Possible methods:\n"@ + Seq::new(
                signatures@.len(),
                |i: int| " - "@ + signatures[i]@ + "\n"@,
            ).flatten(),
            _ => "\n Method: "@ + preview.selector@ + "\n"@,
        }) + " ------------\n"@ + Seq::new(
            given.len(),
            |i: int| " ["@ + row_label(i) + "]: "@ + given[i] + "\n"@,
        ).flatten(),
{
    lemma_words_of(preview.data@, given);
    lemma_row_lines(given);
    if let Some(signatures) = found {
        lemma_signature_lines(signatures.deep_view());
        assert(Seq::new(
            signatures.deep_view().len(),
            |i: int| " - "@ + signatures.deep_view()[i] + "\n"@,
        ) =~= Seq::new(signatures@.len(), |i: int| " - "@ + signatures[i]@ + "\n"@));
    }
}

/// A preview is refused exactly if its arguments do not fill whole words.
pub proof fn law_arguments_fill_words(
    preview: CalldataPreview,
    found: Option<Vec<String>>,
    res: Result<PossibleSigs, SelectorError>,
)
    requires
        call_ensures(CalldataPreview::finish, (preview, found), res),
    ensures
        encode_utf8(preview.data@).len() % 64 == 0 <==> res is Ok,
        res matches Err(err) ==> {
            &&& err == SelectorError::InvalidCalldataSize
            &&& words_are_separable(preview.data@)
        },
{
}

/// The label of a row has at least three digits. Its digits are hexadecimal and
/// write out thirty-two times the number of rows before it.
pub proof fn law_labels_count_bytes(row: int)
    requires
        0 <= row,
    ensures
        row_label(row).len() >= 3,
        row_label(row) == zero_padded(numeral(32 * row, 16), 3),
        numeral_value(row_label(row), 16) == 32 * row,
        row_label(row).len() > 3 ==> row_label(row) == numeral(32 * row, 16),
{
    law_label_is_offset(row);
    law_padding_is_zeros_in_front(numeral(32 * row, 16), 3);
}

/// Calldata that has not been seen shows an empty selector and no words.
pub proof fn law_new_calldata_is_empty(shown: PossibleSigs, text: String)
    requires
        call_ensures(PossibleSigs::new, (), shown),
        call_ensures(PossibleSigs::render, (&shown,), text),
    ensures
        text@ == "\n Method: 0x00000000\n ------------\n"@,
{
    reveal_strlit("\n Method: ");
    reveal_strlit("0x00000000");
    reveal_strlit("\n");
    reveal_strlit(" ------------\n");
    reveal_strlit("\n Method: 0x00000000\n ------------\n");
    assert(row_lines(shown.spec_rows()) =~= Seq::<char>::empty());
    assert(text@ =~= "\n Method: 0x00000000\n ------------\n"@);
}

proof fn lemma_selector_and_data(selector: Seq<char>, data: Seq<char>)
    requires
        encode_utf8(selector).len() == 8,
    ensures
        ({
            let digits = selector + data;
            &&& byte_len(digits) == 8 + encode_utf8(data).len()
            &&& on_boundary(digits, SELECTOR_DIGITS as int)
            &&& byte_slice(digits, 0, SELECTOR_DIGITS as int) == selector
            &&& byte_slice(digits, SELECTOR_DIGITS as int, byte_len(digits) as int) == data
        }),
{
    let digits = selector + data;
    let cut = selector.len() as int;
    lemma_encode_concat(selector, data);
    assert(digits.take(cut) =~= selector);
    assert(digits.take(0) =~= Seq::<char>::empty());
    assert(digits.take(digits.len() as int) =~= digits);
    assert(digits.subrange(0, cut) =~= selector);
    assert(digits.subrange(cut, digits.len() as int) =~= data);
    law_boundaries_lie_between_characters(digits, 8);
    law_slices_by_bytes_hold_characters(digits, 0, cut);
    law_slices_by_bytes_hold_characters(digits, cut, digits.len() as int);
}

/// Calldata that is a selector of eight bytes and then arguments is shown by
/// just these two, with or without a `0x` in front. Its selector is looked up,
/// as a function, unless that is not wanted or is refused.
pub proof fn law_preview_takes_calldata_apart(
    client: OpenChainClient,
    calldata: &str,
    offline: bool,
    res: Result<CalldataPreview, SelectorError>,
    selector: Seq<char>,
    data: Seq<char>,
)
    requires
        call_ensures(OpenChainClient::pretty_calldata, (&client, calldata, offline), res),
        calldata@ == selector + data || calldata@ == "0x"@ + (selector + data),
        !"0x"@.is_prefix_of(selector + data),
        encode_utf8(selector).len() == 8,
    ensures
        res matches Ok(preview) && {
            &&& preview.selector@ == selector
            &&& preview.data@ == data
            &&& preview.lookup is Some <==> {
                &&& !offline
                &&& !client@.spurious
                &&& encode_utf8(normalized(selector)).len() == 10
            }
            &&& preview.lookup matches Some(lookup) ==> {
                &&& lookup.selector_type == SelectorType::Function
                &&& lookup.selectors.deep_view() == seq![normalized(selector)]
                &&& lookup.url@ == lookup_url(SelectorType::Function, seq![normalized(selector)])
            }
        },
{
    reveal_strlit("0x");
    law_prefixes_are_taken_off(selector + data, "0x"@);
    lemma_selector_and_data(selector, data);
    let all = normalized_all(seq![selector]);
    assert(all =~= seq![normalized(selector)]);
    assert(all[0] == normalized(selector));
}

/// Calldata without a first eight bytes that are whole characters is refused,
/// with or without a `0x` in front.
pub proof fn law_preview_needs_a_selector(
    client: OpenChainClient,
    calldata: &str,
    offline: bool,
    res: Result<CalldataPreview, SelectorError>,
    digits: Seq<char>,
)
    requires
        call_ensures(OpenChainClient::pretty_calldata, (&client, calldata, offline), res),
        calldata@ == digits || calldata@ == "0x"@ + digits,
        !"0x"@.is_prefix_of(digits),
        forall|cut: int|
            0 <= cut <= digits.len() ==> encode_utf8(#[trigger] digits.take(cut)).len() != 8,
    ensures
        res == Err::<CalldataPreview, SelectorError>(SelectorError::MissingSelector),
{
    reveal_strlit("0x");
    law_prefixes_are_taken_off(digits, "0x"@);
    law_boundaries_lie_between_characters(digits, 8);
}

/// Two previews, one of calldata and one of the same calldata behind a `0x`,
/// show the same.
pub proof fn law_previews_agree_up_to_prefix(
    client: OpenChainClient,
    calldata: &str,
    prefixed: &str,
    offline: bool,
    res: Result<CalldataPreview, SelectorError>,
    prefixed_res: Result<CalldataPreview, SelectorError>,
)
    requires
        prefixed@ == "0x"@ + calldata@,
        call_ensures(OpenChainClient::pretty_calldata, (&client, calldata, offline), res),
        call_ensures(OpenChainClient::pretty_calldata, (&client, prefixed, offline), prefixed_res),
    ensures
        match res {
            Ok(preview) => prefixed_res matches Ok(other) && {
                &&& other.selector@ == preview.selector@
                &&& other.data@ == preview.data@
                &&& match preview.lookup {
                    Some(lookup) => other.lookup matches Some(same) && same.url@ == lookup.url@,
                    None => other.lookup is None,
                }
            },
            Err(err) => prefixed_res == Err::<CalldataPreview, SelectorError>(err),
        },
{
    reveal_strlit("0x");
    law_prefixes_are_taken_off(calldata@, "0x"@);
    lemma_lookup_is_settled();
}

/// Whether a lookup of one selector is made depends on the connection and the
/// selector alone.
proof fn lemma_lookup_is_settled()
    ensures
        forall|state: Connection, selector: Seq<char>, lookup: Lookup, err: SelectorError|
            #[trigger] lookup_begins(
                state,
                SelectorType::Function,
                seq![selector],
                Ok(lookup),
            ) ==> !(#[trigger] lookup_begins(
                state,
                SelectorType::Function,
                seq![selector],
                Err(err),
            )),
{
    assert forall|state: Connection, selector: Seq<char>, lookup: Lookup, err: SelectorError|
        #[trigger] lookup_begins(
            state,
            SelectorType::Function,
            seq![selector],
            Ok(lookup),
        ) implies !(#[trigger] lookup_begins(
        state,
        SelectorType::Function,
        seq![selector],
        Err(err),
    )) by {
        let all = normalized_all(seq![selector]);
        assert(all[0] == normalized(selector));
    }
}

/// The function of calldata is looked up by its first eight bytes, behind one
/// `0x`. Calldata with fewer bytes is refused, with their number.
pub proof fn law_function_of_calldata(
    client: OpenChainClient,
    calldata: &str,
    res: Result<CalldataLookup, SelectorError>,
    digits: Seq<char>,
    selector: Seq<char>,
    data: Seq<char>,
)
    requires
        call_ensures(OpenChainClient::decode_calldata, (&client, calldata), res),
        calldata@ == "0x"@ + digits || calldata@ == digits && !"0x"@.is_prefix_of(digits),
        encode_utf8(digits).len() >= 8 ==> digits == selector + data && encode_utf8(selector).len()
            == 8,
    ensures
        selector_is_separable(calldata@),
        encode_utf8(digits).len() < 8 ==> (res matches Err(
            SelectorError::CalldataTooShort { len },
        ) && len == encode_utf8(digits).len()),
        encode_utf8(digits).len() >= 8 ==> {
            &&& client@.spurious ==> res == Err::<CalldataLookup, SelectorError>(
                SelectorError::SpuriousConnection,
            )
            &&& !client@.spurious && encode_utf8(normalized(selector)).len() != 10 ==> (
            res matches Err(SelectorError::InvalidSelector { selector: text, expected_len })
                && text@ == normalized(selector) && expected_len == 10)
            &&& res is Ok <==> !client@.spurious && encode_utf8(normalized(selector)).len() == 10
            &&& res matches Ok(found) ==> {
                &&& found.calldata@ == digits
                &&& found.lookup.selector_type == SelectorType::Function
                &&& found.lookup.selectors.deep_view() == seq![normalized(selector)]
                &&& found.lookup.url@ == lookup_url(
                    SelectorType::Function,
                    seq![normalized(selector)],
                )
            }
        },
{
    reveal_strlit("0x");
    law_prefixes_are_taken_off(digits, "0x"@);
    if encode_utf8(digits).len() >= 8 {
        lemma_selector_and_data(selector, data);
        let all = normalized_all(seq![selector]);
        assert(all =~= seq![normalized(selector)]);
        assert(all[0] == normalized(selector));
    }
}

/// A word more of arguments is a line more, with its own label, and changes
/// nothing before that.
pub proof fn law_word_adds_a_line(
    first: CalldataPreview,
    second: CalldataPreview,
    found: Option<Vec<String>>,
    first_res: Result<PossibleSigs, SelectorError>,
    second_res: Result<PossibleSigs, SelectorError>,
    first_text: String,
    second_text: String,
    given: Seq<Seq<char>>,
    word: Seq<char>,
)
    requires
        first.data@ == given.flatten(),
        forall|i: int| 0 <= i < given.len() ==> encode_utf8(#[trigger] given[i]).len() == 64,
        encode_utf8(word).len() == 64,
        second.selector@ == first.selector@,
        second.data@ == first.data@ + word,
        call_ensures(CalldataPreview::finish, (first, found), first_res),
        call_ensures(CalldataPreview::finish, (second, found), second_res),
        first_res matches Ok(shown) ==> call_ensures(PossibleSigs::render, (&shown,), first_text),
        second_res matches Ok(shown) ==> call_ensures(PossibleSigs::render, (&shown,), second_text),
    ensures
        second_text@ == first_text@ + " ["@ + row_label(given.len() as int) + "]: "@ + word
            + "\n"@,
{
    let more = given.push(word);
    assert(more.drop_last() =~= given);
    lemma_flatten_drop_last(more);
    assert forall|i: int| 0 <= i < more.len() implies encode_utf8(#[trigger] more[i]).len()
        == 64 by {
        if i < given.len() {
            assert(more[i] == given[i]);
        }
    }
    law_every_word_is_shown(first, found, first_res, first_text, given);
    law_every_word_is_shown(second, found, second_res, second_text, more);
    lemma_row_lines(given);
    lemma_row_lines(more);
    assert(row_lines(more) == row_lines(given) + " ["@ + row_label(given.len() as int) + "]: "@
        + word + "\n"@);
    assert(second_text@ =~= first_text@ + " ["@ + row_label(given.len() as int) + "]: "@ + word
        + "\n"@);
}

/// With a new client calldata is shown, and its function looked up, as on any
/// connection that is not spurious.
pub proof fn law_calldata_with_a_new_client(
    client: OpenChainClient,
    calldata: &str,
    offline: bool,
    res: Result<CalldataPreview, SelectorError>,
    other: Result<CalldataPreview, SelectorError>,
    found: Result<CalldataLookup, SelectorError>,
    other_found: Result<CalldataLookup, SelectorError>,
)
    requires
        !client@.spurious,
        call_ensures(OpenChainClient::pretty_calldata, (&client, calldata, offline), res),
        call_ensures(pretty_calldata, (calldata, offline), other),
        call_ensures(OpenChainClient::decode_calldata, (&client, calldata), found),
        call_ensures(decode_calldata, (calldata,), other_found),
    ensures
        match res {
            Ok(preview) => other matches Ok(same) && {
                &&& same.selector@ == preview.selector@
                &&& same.data@ == preview.data@
                &&& match preview.lookup {
                    Some(lookup) => same.lookup matches Some(again) && again.url@ == lookup.url@,
                    None => same.lookup is None,
                }
            },
            Err(err) => other == Err::<CalldataPreview, SelectorError>(err),
        },
        match found {
            Ok(lookup) => other_found matches Ok(same) && {
                &&& same.calldata@ == lookup.calldata@
                &&& same.lookup.url@ == lookup.lookup.url@
            },
            Err(err) => other_found matches Err(same) && same.spec_message() == err.spec_message(),
        },
{
    let digits = without_prefixes(calldata@, "0x"@);
    let selector = byte_slice(digits, 0, SELECTOR_DIGITS as int);
    let all = normalized_all(seq![selector]);
    assert(all[0] == normalized(selector));
    let digits = without_prefix(calldata@, "0x"@);
    let selector = byte_slice(digits, 0, SELECTOR_DIGITS as int);
    let all = normalized_all(seq![selector]);
    assert(all[0] == normalized(selector));
}

} // verus!
