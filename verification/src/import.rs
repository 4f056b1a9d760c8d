//! Uploading signatures to OpenChain.

use crate::client::{Connection, OpenChainClient};
use crate::error::SelectorError;
use crate::outside::{
    abi_errors, abi_events, abi_functions, error_signatures, event_signatures, function_signatures,
    lists, map_entries,
};
use alloy_json_abi::JsonAbi;
use alloy_primitives::map::HashMap;
use vstd::prelude::*;
use vstd::string::StringExecFns;

verus! {

/// Where signatures are uploaded.
pub const SELECTOR_IMPORT_URL: &'static str = "https://api.openchain.xyz/signature-database/v1/import";

/// Signatures to be uploaded.
#[derive(Debug, PartialEq, Eq)]
pub struct RawSelectorImportData {
    /// Signatures of functions.
    pub function: Vec<String>,
    /// Signatures of events.
    pub event: Vec<String>,
    /// Signatures of errors.
    pub error: Vec<String>,
}

impl RawSelectorImportData {
    /// Whether there is no signature at all.
    pub open spec fn spec_is_empty(&self) -> bool {
        &&& self.function.len() == 0
        &&& self.event.len() == 0
        &&& self.error.len() == 0
    }

    /// Whether there is no signature at all.
    pub fn is_empty(&self) -> (res: bool)
        ensures
            res == self.spec_is_empty(),
    {
        self.function.len() == 0 && self.event.len() == 0 && self.error.len() == 0
    }
}

impl Default for RawSelectorImportData {
    fn default() -> (res: Self)
        ensures
            res.spec_is_empty(),
    {
        RawSelectorImportData { function: Vec::new(), event: Vec::new(), error: Vec::new() }
    }
}

/// What to upload.
#[derive(Debug, PartialEq, Eq)]
pub enum SelectorImportData {
    /// Everything that contracts declare.
    Abi(Vec<JsonAbi>),
    /// Signatures.
    Raw(RawSelectorImportData),
}

/// The body of an upload.
#[derive(Debug, PartialEq, Eq)]
pub struct SelectorImportRequest {
    /// Signatures of functions and errors.
    pub function: Vec<String>,
    /// Signatures of events.
    pub event: Vec<String>,
}

/// The functions and errors of `abis`: those of one ABI after those of another,
/// and of each first the functions.
pub open spec fn declared_functions(abis: Seq<JsonAbi>) -> Seq<Seq<char>>
    decreases abis.len(),
{
    if abis.len() == 0 {
        Seq::empty()
    } else {
        declared_functions(abis.drop_last()) + abi_functions(abis.last()) + abi_errors(abis.last())
    }
}

/// The events of `abis`: those of one ABI after those of another.
pub open spec fn declared_events(abis: Seq<JsonAbi>) -> Seq<Seq<char>>
    decreases abis.len(),
{
    if abis.len() == 0 {
        Seq::empty()
    } else {
        declared_events(abis.drop_last()) + abi_events(abis.last())
    }
}

impl SelectorImportData {
    /// The signatures that are uploaded as functions. Errors are among them:
    /// the service does not tell the two apart.
    pub open spec fn functions(&self) -> Seq<Seq<char>> {
        match self {
            SelectorImportData::Abi(abis) => declared_functions(abis@),
            SelectorImportData::Raw(raw) => raw.function.deep_view() + raw.error.deep_view(),
        }
    }

    /// The signatures that are uploaded as events.
    pub open spec fn events(&self) -> Seq<Seq<char>> {
        match self {
            SelectorImportData::Abi(abis) => declared_events(abis@),
            SelectorImportData::Raw(raw) => raw.event.deep_view(),
        }
    }
}

/// Whether the upload of `data` that a client with the given state is asked for
/// goes on as `res` says. It is refused on a spurious connection, and only then.
pub open spec fn import_begins(
    state: Connection,
    data: SelectorImportData,
    res: Result<SelectorImportRequest, SelectorError>,
) -> bool {
    match res {
        Ok(request) => {
            &&& !state.spurious
            &&& request.function.deep_view() == data.functions()
            &&& request.event.deep_view() == data.events()
        },
        Err(SelectorError::SpuriousConnection) => state.spurious,
        Err(_) => false,
    }
}

/// Puts `more` behind what `texts` holds.
fn extend(texts: &mut Vec<String>, more: Vec<String>)
    ensures
        final(texts).deep_view() == old(texts).deep_view() + more.deep_view(),
{
    let mut more = more;
    let ghost before = texts.deep_view();
    let ghost added = more.deep_view();
    texts.append(&mut more);
    proof {
        assert(texts.deep_view() =~= before + added);
    }
}

fn request_of(data: SelectorImportData) -> (res: SelectorImportRequest)
    ensures
        res.function.deep_view() == data.functions(),
        res.event.deep_view() == data.events(),
{
    match data {
        SelectorImportData::Abi(abis) => {
            let mut function: Vec<String> = Vec::new();
            let mut event: Vec<String> = Vec::new();
            proof {
                assert(function.deep_view() =~= Seq::<Seq<char>>::empty());
                assert(event.deep_view() =~= Seq::<Seq<char>>::empty());
            }
            for i in 0..abis.len()
                invariant
                    function.deep_view() == declared_functions(abis@.take(i as int)),
                    event.deep_view() == declared_events(abis@.take(i as int)),
            {
                proof {
                    assert(abis@.take(i + 1).drop_last() =~= abis@.take(i as int));
                }
                extend(&mut function, function_signatures(&abis[i]));
                extend(&mut function, error_signatures(&abis[i]));
                extend(&mut event, event_signatures(&abis[i]));
            }
            proof {
                assert(abis@.take(abis.len() as int) =~= abis@);
            }
            SelectorImportRequest { function, event }
        },
        SelectorImportData::Raw(raw) => {
            let mut function = raw.function;
            extend(&mut function, raw.error);
            SelectorImportRequest { function, event: raw.event }
        },
    }
}

impl OpenChainClient {
    /// Begins to upload selectors using the given data: what to post to
    /// [`SELECTOR_IMPORT_URL`].
    pub fn import_selectors(&self, data: SelectorImportData) -> (res: Result<
        SelectorImportRequest,
        SelectorError,
    >)
        ensures
            import_begins(self@, data, res),
    {
        if let Err(err) = self.ensure_not_spurious() {
            return Err(err);
        }
        Ok(request_of(data))
    }
}

/// Begins to upload selectors using the given data with a new client.
pub fn import_selectors(data: SelectorImportData) -> (res: Result<
    SelectorImportRequest,
    SelectorError,
>)
    ensures
        import_begins(Connection::fresh(), data, res),
{
    OpenChainClient::new().import_selectors(data)
}

/// What became of signatures of one type: their selectors, by signature.
#[derive(Debug)]
pub struct SelectorImportEffect {
    /// Those that were uploaded.
    pub imported: HashMap<String, String>,
    /// Those that were known before.
    pub duplicated: HashMap<String, String>,
}

/// What became of the signatures in an upload.
#[derive(Debug)]
pub struct SelectorImportResult {
    /// Of those of functions and errors.
    pub function: SelectorImportEffect,
    /// Of those of events.
    pub event: SelectorImportEffect,
}

/// The answer to an upload.
#[derive(Debug)]
pub struct SelectorImportResponse {
    /// What became of the signatures.
    pub result: SelectorImportResult,
}

/// The line that tells what became of one signature.
pub open spec fn entry_line(head: Seq<char>, entry: (Seq<char>, Seq<char>)) -> Seq<char> {
    head + entry.0 + ": "@ + entry.1
}

/// A line for each of `entries`.
pub open spec fn entry_lines(head: Seq<char>, entries: Seq<(Seq<char>, Seq<char>)>) -> Seq<
    Seq<char>,
> {
    entries.map_values(|entry: (Seq<char>, Seq<char>)| entry_line(head, entry))
}

/// The report on an upload: what was uploaded, what was known, and a last line.
pub open spec fn report(
    functions: Seq<(Seq<char>, Seq<char>)>,
    events: Seq<(Seq<char>, Seq<char>)>,
    known_functions: Seq<(Seq<char>, Seq<char>)>,
    known_events: Seq<(Seq<char>, Seq<char>)>,
) -> Seq<Seq<char>> {
    entry_lines("Imported: Function "@, functions) + entry_lines("Imported: Event "@, events)
        + entry_lines("Duplicated: Function "@, known_functions) + entry_lines(
        "Duplicated: Event "@,
        known_events,
    ) + seq!["Selectors successfully uploaded to OpenChain"@]
}

fn append_entry_lines(lines: &mut Vec<String>, head: &str, entries: &Vec<(String, String)>)
    ensures
        final(lines).deep_view() == old(lines).deep_view() + entry_lines(
            head@,
            entries.deep_view(),
        ),
{
    let ghost before = lines.deep_view();
    let ghost expected = entry_lines(head@, entries.deep_view());
    let ghost start = lines.len();
    for i in 0..entries.len()
        invariant
            expected == entry_lines(head@, entries.deep_view()),
            expected.len() == entries.len(),
            before.len() == start,
            lines.len() == start + i,
            forall|j: int| 0 <= j < start ==> (#[trigger] lines[j])@ == before[j],
            forall|j: int| start <= j < start + i ==> (#[trigger] lines[j])@ == expected[j - start],
    {
        let entry = &entries[i];
        let mut line = head.to_owned();
        line.append(entry.0.as_str());
        line.append(": ");
        line.append(entry.1.as_str());
        lines.push(line);
        proof {
            assert(entries.deep_view()[i as int] == (entry.0@, entry.1@));
            assert(line@ == expected[i as int]);
        }
    }
    proof {
        assert(lines.deep_view() =~= before + expected);
    }
}

/// The lines of the report on an upload, given the signatures and selectors in
/// the order in which they are to be reported.
pub fn report_lines(
    functions: &Vec<(String, String)>,
    events: &Vec<(String, String)>,
    known_functions: &Vec<(String, String)>,
    known_events: &Vec<(String, String)>,
) -> (res: Vec<String>)
    ensures
        res.deep_view() == report(
            functions.deep_view(),
            events.deep_view(),
            known_functions.deep_view(),
            known_events.deep_view(),
        ),
{
    let mut lines: Vec<String> = Vec::new();
    proof {
        assert(lines.deep_view() =~= Seq::<Seq<char>>::empty());
    }
    append_entry_lines(&mut lines, "Imported: Function ", functions);
    append_entry_lines(&mut lines, "Imported: Event ", events);
    append_entry_lines(&mut lines, "Duplicated: Function ", known_functions);
    append_entry_lines(&mut lines, "Duplicated: Event ", known_events);
    let ghost before = lines.deep_view();
    lines.push("Selectors successfully uploaded to OpenChain".to_owned());
    proof {
        assert(lines.deep_view() =~= before.push("Selectors successfully uploaded to OpenChain"@));
        assert(lines.deep_view() =~= report(
            functions.deep_view(),
            events.deep_view(),
            known_functions.deep_view(),
            known_events.deep_view(),
        ));
    }
    lines
}

impl SelectorImportResponse {
    /// Whether `lines` report on this answer, with its entries in some order.
    pub open spec fn reported_by(&self, lines: Seq<Seq<char>>) -> bool {
        exists|
            functions: Seq<(Seq<char>, Seq<char>)>,
            events: Seq<(Seq<char>, Seq<char>)>,
            known_functions: Seq<(Seq<char>, Seq<char>)>,
            known_events: Seq<(Seq<char>, Seq<char>)>,
        |
            {
                &&& lists(functions, self.result.function.imported.deep_view())
                &&& lists(events, self.result.event.imported.deep_view())
                &&& lists(known_functions, self.result.function.duplicated.deep_view())
                &&& lists(known_events, self.result.event.duplicated.deep_view())
                &&& lines == #[trigger] report(functions, events, known_functions, known_events)
            }
    }

    /// The lines to print about the functions which were uploaded or already
    /// known. The entries of one map come in no particular order.
    pub fn describe(&self) -> (res: Vec<String>)
        ensures
            self.reported_by(res.deep_view()),
    {
        let functions = map_entries(&self.result.function.imported);
        let events = map_entries(&self.result.event.imported);
        let known_functions = map_entries(&self.result.function.duplicated);
        let known_events = map_entries(&self.result.event.duplicated);
        report_lines(&functions, &events, &known_functions, &known_events)
    }
}

/// Data without a signature asks for nothing to be uploaded, and only such data
/// does.
pub proof fn law_empty_data_uploads_nothing(raw: RawSelectorImportData)
    ensures
        raw.spec_is_empty() <==> {
            &&& SelectorImportData::Raw(raw).functions().len() == 0
            &&& SelectorImportData::Raw(raw).events().len() == 0
        },
{
}

/// ABIs are uploaded one by one: what two lists of ABIs declare is what the
/// first list declares and then what the second does.
pub proof fn law_abis_are_uploaded_in_order(first: Seq<JsonAbi>, second: Seq<JsonAbi>)
    ensures
        declared_functions(first + second) == declared_functions(first) + declared_functions(
            second,
        ),
        declared_events(first + second) == declared_events(first) + declared_events(second),
    decreases second.len(),
{
    if second.len() == 0 {
        assert(first + second =~= first);
        assert(declared_functions(first) + declared_functions(second) =~= declared_functions(
            first,
        ));
        assert(declared_events(first) + declared_events(second) =~= declared_events(first));
    } else {
        law_abis_are_uploaded_in_order(first, second.drop_last());
        assert((first + second).drop_last() =~= first + second.drop_last());
        assert((first + second).last() == second.last());
        assert(declared_functions(first + second) =~= declared_functions(first)
            + declared_functions(second));
        assert(declared_events(first + second) =~= declared_events(first) + declared_events(
            second,
        ));
    }
}

/// Uploading an ABI is uploading the signatures of what it declares.
pub proof fn law_abi_is_uploaded_by_signatures(abis: Vec<JsonAbi>, raw: RawSelectorImportData)
    requires
        abis.len() == 1,
        raw.function.deep_view() == abi_functions(abis[0]),
        raw.error.deep_view() == abi_errors(abis[0]),
        raw.event.deep_view() == abi_events(abis[0]),
    ensures
        SelectorImportData::Abi(abis).functions() == SelectorImportData::Raw(raw).functions(),
        SelectorImportData::Abi(abis).events() == SelectorImportData::Raw(raw).events(),
{
    let none = abis@.drop_last();
    assert(declared_functions(none) =~= Seq::<Seq<char>>::empty());
    assert(declared_events(none) =~= Seq::<Seq<char>>::empty());
    assert(SelectorImportData::Abi(abis).functions() =~= SelectorImportData::Raw(raw).functions());
    assert(SelectorImportData::Abi(abis).events() =~= SelectorImportData::Raw(raw).events());
}

proof fn lemma_entry_is_reported(
    head: Seq<char>,
    entries: Seq<(Seq<char>, Seq<char>)>,
    map: Map<Seq<char>, Seq<char>>,
    before: Seq<Seq<char>>,
    after: Seq<Seq<char>>,
    key: Seq<char>,
)
    requires
        lists(entries, map),
        map.contains_key(key),
    ensures
        (before + entry_lines(head, entries) + after).contains(entry_line(head, (key, map[key]))),
{
    let i = choose|i: int| 0 <= i < entries.len() && (#[trigger] entries[i]).0 == key;
    assert(entries[i] == (key, map[key]));
    let all = before + entry_lines(head, entries) + after;
    assert(all[before.len() + i] == entry_line(head, (key, map[key])));
}

/// Whatever order the entries come in, the report tells what became of every
/// signature, and ends by telling of the success.
pub proof fn law_report_is_complete(response: SelectorImportResponse, lines: Seq<Seq<char>>)
    requires
        response.reported_by(lines),
    ensures
        ({
            let functions = response.result.function.imported.deep_view();
            let events = response.result.event.imported.deep_view();
            let known_functions = response.result.function.duplicated.deep_view();
            let known_events = response.result.event.duplicated.deep_view();
            &&& forall|key: Seq<char>| #[trigger]
                functions.contains_key(key) ==> lines.contains(
                    entry_line("Imported: Function "@, (key, functions[key])),
                )
            &&& forall|key: Seq<char>| #[trigger]
                events.contains_key(key) ==> lines.contains(
                    entry_line("Imported: Event "@, (key, events[key])),
                )
            &&& forall|key: Seq<char>| #[trigger]
                known_functions.contains_key(key) ==> lines.contains(
                    entry_line("Duplicated: Function "@, (key, known_functions[key])),
                )
            &&& forall|key: Seq<char>| #[trigger]
                known_events.contains_key(key) ==> lines.contains(
                    entry_line("Duplicated: Event "@, (key, known_events[key])),
                )
            &&& lines.len() > 0
            &&& lines.last() == "Selectors successfully uploaded to OpenChain"@
        }),
{
    let functions = response.result.function.imported.deep_view();
    let events = response.result.event.imported.deep_view();
    let known_functions = response.result.function.duplicated.deep_view();
    let known_events = response.result.event.duplicated.deep_view();
    let (a, b, c, d) = choose|
        a: Seq<(Seq<char>, Seq<char>)>,
        b: Seq<(Seq<char>, Seq<char>)>,
        c: Seq<(Seq<char>, Seq<char>)>,
        d: Seq<(Seq<char>, Seq<char>)>,
    |
        {
            &&& lists(a, functions)
            &&& lists(b, events)
            &&& lists(c, known_functions)
            &&& lists(d, known_events)
            &&& lines == #[trigger] report(a, b, c, d)
        };
    let first = entry_lines("Imported: Function "@, a);
    let second = entry_lines("Imported: Event "@, b);
    let third = entry_lines("Duplicated: Function "@, c);
    let fourth = entry_lines("Duplicated: Event "@, d);
    let end = seq!["Selectors successfully uploaded to OpenChain"@];
    let none = Seq::<Seq<char>>::empty();
    assert forall|key: Seq<char>| #[trigger] functions.contains_key(key) implies lines.contains(
        entry_line("Imported: Function "@, (key, functions[key])),
    ) by {
        let after = second + third + fourth + end;
        lemma_entry_is_reported("Imported: Function "@, a, functions, none, after, key);
        assert(lines =~= none + first + after);
    }
    assert forall|key: Seq<char>| #[trigger] events.contains_key(key) implies lines.contains(
        entry_line("Imported: Event "@, (key, events[key])),
    ) by {
        let after = third + fourth + end;
        lemma_entry_is_reported("Imported: Event "@, b, events, first, after, key);
        assert(lines =~= first + second + after);
    }
    assert forall|key: Seq<char>| #[trigger] known_functions.contains_key(key) implies lines.contains(
        entry_line("Duplicated: Function "@, (key, known_functions[key])),
    ) by {
        let before = first + second;
        let after = fourth + end;
        lemma_entry_is_reported("Duplicated: Function "@, c, known_functions, before, after, key);
        assert(lines =~= before + third + after);
    }
    assert forall|key: Seq<char>| #[trigger] known_events.contains_key(key) implies lines.contains(
        entry_line("Duplicated: Event "@, (key, known_events[key])),
    ) by {
        let before = first + second + third;
        lemma_entry_is_reported("Duplicated: Event "@, d, known_events, before, end, key);
        assert(lines =~= before + fourth + end);
    }
}

proof fn lemma_declared(abis: Seq<JsonAbi>)
    ensures
        declared_functions(abis) == abis.map_values(
            |abi: JsonAbi| abi_functions(abi) + abi_errors(abi),
        ).flatten(),
        declared_events(abis) == abis.map_values(|abi: JsonAbi| abi_events(abi)).flatten(),
    decreases abis.len(),
{
    let functions = abis.map_values(|abi: JsonAbi| abi_functions(abi) + abi_errors(abi));
    let events = abis.map_values(|abi: JsonAbi| abi_events(abi));
    if abis.len() > 0 {
        lemma_declared(abis.drop_last());
        assert(abis.drop_last().map_values(|abi: JsonAbi| abi_functions(abi) + abi_errors(abi))
            =~= functions.drop_last());
        assert(abis.drop_last().map_values(|abi: JsonAbi| abi_events(abi)) =~= events.drop_last());
        functions.drop_last().lemma_flatten_push(functions.last());
        events.drop_last().lemma_flatten_push(events.last());
        assert(functions.drop_last().push(functions.last()) =~= functions);
        assert(events.drop_last().push(events.last()) =~= events);
        assert(declared_functions(abis) =~= functions.flatten());
        assert(declared_events(abis) =~= events.flatten());
    }
}

/// Of ABIs everything is uploaded, in order: as functions the functions and then
/// the errors of each, as events the events of each.
pub proof fn law_abis_are_uploaded_in_full(
    client: OpenChainClient,
    abis: Vec<JsonAbi>,
    res: Result<SelectorImportRequest, SelectorError>,
)
    requires
        call_ensures(
            OpenChainClient::import_selectors,
            (&client, SelectorImportData::Abi(abis)),
            res,
        ),
    ensures
        client@.spurious ==> res == Err::<SelectorImportRequest, SelectorError>(
            SelectorError::SpuriousConnection,
        ),
        !client@.spurious ==> {
            &&& res matches Ok(request)
            &&& request.function.deep_view() == abis@.map_values(
                |abi: JsonAbi| abi_functions(abi) + abi_errors(abi),
            ).flatten()
            &&& request.event.deep_view() == abis@.map_values(
                |abi: JsonAbi| abi_events(abi),
            ).flatten()
        },
{
    lemma_declared(abis@);
}

/// Of a single ABI every function, error and event is uploaded, one by one.
pub proof fn law_one_abi_is_uploaded_in_full(
    client: OpenChainClient,
    abis: Vec<JsonAbi>,
    res: Result<SelectorImportRequest, SelectorError>,
)
    requires
        abis.len() == 1,
        !client@.spurious,
        call_ensures(
            OpenChainClient::import_selectors,
            (&client, SelectorImportData::Abi(abis)),
            res,
        ),
    ensures
        res matches Ok(request) && {
            let functions = abi_functions(abis[0]);
            let errors = abi_errors(abis[0]);
            let events = abi_events(abis[0]);
            &&& request.function.len() == functions.len() + errors.len()
            &&& forall|i: int|
                0 <= i < functions.len() ==> (#[trigger] request.function[i])@ == functions[i]
            &&& forall|i: int|
                functions.len() <= i < request.function.len() ==> (#[trigger] request.function[i])@
                    == errors[i - functions.len()]
            &&& request.event.len() == events.len()
            &&& forall|i: int|
                0 <= i < events.len() ==> (#[trigger] request.event[i])@ == events[i]
        },
{
    let none = abis@.drop_last();
    assert(declared_functions(none) =~= Seq::<Seq<char>>::empty());
    assert(declared_events(none) =~= Seq::<Seq<char>>::empty());
    if let Ok(request) = res {
        let functions = abi_functions(abis[0]);
        let errors = abi_errors(abis[0]);
        let events = abi_events(abis[0]);
        assert(request.function.deep_view() =~= functions + errors);
        assert(request.event.deep_view() =~= events);
        assert(request.function.deep_view().len() == request.function.len());
        assert(request.event.deep_view().len() == request.event.len());
        assert forall|i: int| 0 <= i < request.function.len() implies (
        #[trigger] request.function[i])@ == (functions + errors)[i] by {
            assert(request.function.deep_view()[i] == request.function[i]@);
        }
        assert forall|i: int| 0 <= i < events.len() implies (#[trigger] request.event[i])@
            == events[i] by {
            assert(request.event.deep_view()[i] == request.event[i]@);
        }
    }
}

/// Of signatures every one is uploaded, in order: the functions and then the
/// errors as functions, the events as events.
pub proof fn law_signatures_are_uploaded_in_full(
    client: OpenChainClient,
    raw: RawSelectorImportData,
    res: Result<SelectorImportRequest, SelectorError>,
)
    requires
        call_ensures(
            OpenChainClient::import_selectors,
            (&client, SelectorImportData::Raw(raw)),
            res,
        ),
    ensures
        client@.spurious ==> res == Err::<SelectorImportRequest, SelectorError>(
            SelectorError::SpuriousConnection,
        ),
        !client@.spurious ==> {
            &&& res matches Ok(request)
            &&& request.function.len() == raw.function.len() + raw.error.len()
            &&& forall|i: int|
                0 <= i < raw.function.len() ==> (#[trigger] request.function[i])@
                    == raw.function[i]@
            &&& forall|i: int|
                raw.function.len() <= i < request.function.len() ==> (
                #[trigger] request.function[i])@ == raw.error[i - raw.function.len()]@
            &&& request.event.len() == raw.event.len()
            &&& forall|i: int|
                0 <= i < raw.event.len() ==> (#[trigger] request.event[i])@ == raw.event[i]@
        },
{
    if let Ok(request) = res {
        let functions = raw.function.deep_view();
        let errors = raw.error.deep_view();
        assert(request.function.deep_view().len() == request.function.len());
        assert(request.event.deep_view().len() == request.event.len());
        assert(functions.len() == raw.function.len() && errors.len() == raw.error.len());
        assert(raw.event.deep_view().len() == raw.event.len());
        assert forall|i: int| 0 <= i < raw.function.len() implies (#[trigger] request.function[i])@
            == raw.function[i]@ by {
            assert(request.function.deep_view()[i] == functions[i]);
        }
        assert forall|i: int| raw.function.len() <= i < request.function.len() implies (
        #[trigger] request.function[i])@ == raw.error[i - raw.function.len()]@ by {
            assert(request.function.deep_view()[i] == errors[i - functions.len()]);
        }
        assert forall|i: int| 0 <= i < raw.event.len() implies (#[trigger] request.event[i])@
            == raw.event[i]@ by {
            assert(request.event.deep_view()[i] == raw.event.deep_view()[i]);
        }
    }
}

/// With a new client an upload is never refused, and asks for what it asks for
/// on any connection that is not spurious.
pub proof fn law_upload_with_a_new_client(
    client: OpenChainClient,
    data: SelectorImportData,
    res: Result<SelectorImportRequest, SelectorError>,
    other: Result<SelectorImportRequest, SelectorError>,
)
    requires
        !client@.spurious,
        call_ensures(OpenChainClient::import_selectors, (&client, data), res),
        call_ensures(import_selectors, (data,), other),
    ensures
        res matches Ok(first) && other matches Ok(second) && {
            &&& first.function.deep_view() == second.function.deep_view()
            &&& first.event.deep_view() == second.event.deep_view()
        },
{
}

/// Data is empty exactly if it has no functions, no events and no errors, as
/// default data has.
pub proof fn law_empty_data_has_no_signatures(
    raw: RawSelectorImportData,
    res: bool,
    default: RawSelectorImportData,
)
    requires
        call_ensures(RawSelectorImportData::is_empty, (&raw,), res),
        call_ensures(RawSelectorImportData::default, (), default),
    ensures
        res <==> raw.function.len() + raw.event.len() + raw.error.len() == 0,
        default.function.len() == 0,
        default.event.len() == 0,
        default.error.len() == 0,
{
}

/// The report has a line for every entry, with its signature and its selector,
/// in the order of the entries: first the functions and events that were
/// uploaded, then those that were known. One more line ends it.
pub proof fn law_every_entry_is_reported(
    functions: Vec<(String, String)>,
    events: Vec<(String, String)>,
    known_functions: Vec<(String, String)>,
    known_events: Vec<(String, String)>,
    lines: Vec<String>,
)
    requires
        call_ensures(report_lines, (&functions, &events, &known_functions, &known_events), lines),
    ensures
        lines.len() == functions.len() + events.len() + known_functions.len() + known_events.len()
            + 1,
        lines@.last()@ == "Selectors successfully uploaded to OpenChain"@,
        forall|i: int|
            0 <= i < functions.len() ==> lines[i]@ == "Imported: Function "@ + (
            #[trigger] functions[i]).0@ + ": "@ + functions[i].1@,
        forall|i: int|
            0 <= i < events.len() ==> lines[functions.len() + i]@ == "Imported: Event "@ + (
            #[trigger] events[i]).0@ + ": "@ + events[i].1@,
        forall|i: int|
            0 <= i < known_functions.len() ==> lines[functions.len() + events.len() + i]@
                == "Duplicated: Function "@ + (#[trigger] known_functions[i]).0@ + ": "@
                + known_functions[i].1@,
        forall|i: int|
            0 <= i < known_events.len() ==> lines[functions.len() + events.len()
                + known_functions.len() + i]@ == "Duplicated: Event "@ + (
            #[trigger] known_events[i]).0@ + ": "@ + known_events[i].1@,
{
    let all = lines.deep_view();
    let a = functions.deep_view();
    let b = events.deep_view();
    let c = known_functions.deep_view();
    let d = known_events.deep_view();
    assert(all.len() == lines.len());
    assert(a.len() == functions.len() && b.len() == events.len());
    assert(c.len() == known_functions.len() && d.len() == known_events.len());
    assert(lines@.last()@ == all[all.len() - 1]);
    assert forall|i: int| 0 <= i < functions.len() implies lines[i]@ == "Imported: Function "@ + (
    #[trigger] functions[i]).0@ + ": "@ + functions[i].1@ by {
        assert(all[i] == lines[i]@);
        assert(a[i] == (functions[i].0@, functions[i].1@));
        assert(all[i] == entry_line("Imported: Function "@, a[i]));
    }
    assert forall|i: int| 0 <= i < events.len() implies lines[functions.len() + i]@
        == "Imported: Event "@ + (#[trigger] events[i]).0@ + ": "@ + events[i].1@ by {
        let at = functions.len() + i;
        assert(all[at] == lines[at]@);
        assert(b[i] == (events[i].0@, events[i].1@));
        assert(all[at] == entry_line("Imported: Event "@, b[i]));
    }
    assert forall|i: int| 0 <= i < known_functions.len() implies lines[functions.len()
        + events.len() + i]@ == "Duplicated: Function "@ + (#[trigger] known_functions[i]).0@
        + ": "@ + known_functions[i].1@ by {
        let at = functions.len() + events.len() + i;
        assert(all[at] == lines[at]@);
        assert(c[i] == (known_functions[i].0@, known_functions[i].1@));
        assert(all[at] == entry_line("Duplicated: Function "@, c[i]));
    }
    assert forall|i: int| 0 <= i < known_events.len() implies lines[functions.len() + events.len()
        + known_functions.len() + i]@ == "Duplicated: Event "@ + (#[trigger] known_events[i]).0@
        + ": "@ + known_events[i].1@ by {
        let at = functions.len() + events.len() + known_functions.len() + i;
        assert(all[at] == lines[at]@);
        assert(d[i] == (known_events[i].0@, known_events[i].1@));
        assert(all[at] == entry_line("Duplicated: Event "@, d[i]));
    }
}

proof fn lemma_listed_once(entries: Seq<(Seq<char>, Seq<char>)>, map: Map<Seq<char>, Seq<char>>)
    requires
        lists(entries, map),
    ensures
        map.dom().len() == entries.len(),
        map.dom().finite(),
{
    let keys = entries.map_values(|entry: (Seq<char>, Seq<char>)| entry.0);
    assert(keys.no_duplicates());
    keys.unique_seq_to_set();
    assert forall|key: Seq<char>| map.dom().contains(key) implies keys.to_set().contains(key) by {
        assert(map.contains_key(key));
        let i = choose|i: int| 0 <= i < entries.len() && (#[trigger] entries[i]).0 == key;
        assert(keys[i] == key);
    }
    assert(map.dom() =~= keys.to_set());
}

/// The answer to an upload is described by a line for each of its entries, in
/// four groups, and one more line: in the first group stand the functions that
/// were uploaded, in the second the events, in the third the functions that were
/// known, in the fourth the events. Every entry has its line in its group.
pub proof fn law_answer_is_described_in_full(response: SelectorImportResponse, lines: Vec<String>)
    requires
        call_ensures(SelectorImportResponse::describe, (&response,), lines),
    ensures
        ({
            let a = response.result.function.imported.deep_view();
            let b = response.result.event.imported.deep_view();
            let c = response.result.function.duplicated.deep_view();
            let d = response.result.event.duplicated.deep_view();
            let first = a.dom().len();
            let second = first + b.dom().len();
            let third = second + c.dom().len();
            let fourth = third + d.dom().len();
            &&& lines.len() == fourth + 1
            &&& lines[fourth as int]@ == "Selectors successfully uploaded to OpenChain"@
            &&& forall|key: Seq<char>| #[trigger]
                a.contains_key(key) ==> exists|i: int|
                    0 <= i < first && (#[trigger] lines[i])@ == "Imported: Function "@ + key
                        + ": "@ + a[key]
            &&& forall|key: Seq<char>| #[trigger]
                b.contains_key(key) ==> exists|i: int|
                    first <= i < second && (#[trigger] lines[i])@ == "Imported: Event "@ + key
                        + ": "@ + b[key]
            &&& forall|key: Seq<char>| #[trigger]
                c.contains_key(key) ==> exists|i: int|
                    second <= i < third && (#[trigger] lines[i])@ == "Duplicated: Function "@ + key
                        + ": "@ + c[key]
            &&& forall|key: Seq<char>| #[trigger]
                d.contains_key(key) ==> exists|i: int|
                    third <= i < fourth && (#[trigger] lines[i])@ == "Duplicated: Event "@ + key
                        + ": "@ + d[key]
        }),
{
    let a = response.result.function.imported.deep_view();
    let b = response.result.event.imported.deep_view();
    let c = response.result.function.duplicated.deep_view();
    let d = response.result.event.duplicated.deep_view();
    let all = lines.deep_view();
    let (functions, events, known_functions, known_events) = choose|
        functions: Seq<(Seq<char>, Seq<char>)>,
        events: Seq<(Seq<char>, Seq<char>)>,
        known_functions: Seq<(Seq<char>, Seq<char>)>,
        known_events: Seq<(Seq<char>, Seq<char>)>,
    |
        {
            &&& lists(functions, a)
            &&& lists(events, b)
            &&& lists(known_functions, c)
            &&& lists(known_events, d)
            &&& all == #[trigger] report(functions, events, known_functions, known_events)
        };
    lemma_listed_once(functions, a);
    lemma_listed_once(events, b);
    lemma_listed_once(known_functions, c);
    lemma_listed_once(known_events, d);
    let first = functions.len() as int;
    let second = first + events.len();
    let third = second + known_functions.len();
    let fourth = third + known_events.len();
    assert(all.len() == lines.len());
    assert(all.len() == fourth + 1);
    assert(all[fourth] == lines[fourth]@);
    assert forall|key: Seq<char>| #[trigger] a.contains_key(key) implies exists|i: int|
        0 <= i < first && (#[trigger] lines[i])@ == "Imported: Function "@ + key + ": "@
            + a[key] by {
        let i = choose|i: int| 0 <= i < functions.len() && (#[trigger] functions[i]).0 == key;
        assert(functions[i] == (key, a[key]));
        assert(all[i] == lines[i]@);
        assert(all[i] == entry_line("Imported: Function "@, functions[i]));
    }
    assert forall|key: Seq<char>| #[trigger] b.contains_key(key) implies exists|i: int|
        first <= i < second && (#[trigger] lines[i])@ == "Imported: Event "@ + key + ": "@
            + b[key] by {
        let i = choose|i: int| 0 <= i < events.len() && (#[trigger] events[i]).0 == key;
        assert(events[i] == (key, b[key]));
        assert(all[first + i] == lines[first + i]@);
        assert(all[first + i] == entry_line("Imported: Event "@, events[i]));
    }
    assert forall|key: Seq<char>| #[trigger] c.contains_key(key) implies exists|i: int|
        second <= i < third && (#[trigger] lines[i])@ == "Duplicated: Function "@ + key + ": "@
            + c[key] by {
        let i = choose|i: int|
            0 <= i < known_functions.len() && (#[trigger] known_functions[i]).0 == key;
        assert(known_functions[i] == (key, c[key]));
        assert(all[second + i] == lines[second + i]@);
        assert(all[second + i] == entry_line("Duplicated: Function "@, known_functions[i]));
    }
    assert forall|key: Seq<char>| #[trigger] d.contains_key(key) implies exists|i: int|
        third <= i < fourth && (#[trigger] lines[i])@ == "Duplicated: Event "@ + key + ": "@
            + d[key] by {
        let i = choose|i: int|
            0 <= i < known_events.len() && (#[trigger] known_events[i]).0 == key;
        assert(known_events[i] == (key, d[key]));
        assert(all[third + i] == lines[third + i]@);
        assert(all[third + i] == entry_line("Duplicated: Event "@, known_events[i]));
    }
}

/// Uploads go to the service that answers lookups.
pub proof fn law_upload_address()
    ensures
        SELECTOR_IMPORT_URL@ == "https://api.openchain.xyz/signature-database/v1/import"@,
{
}

} // verus!
