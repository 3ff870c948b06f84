//! Airtable: tables, formulas, and the requests that read and write records.
use vstd::prelude::*;

use crate::http::{header_value_text, ApiRequest, Method};
use crate::link::{
    extend_link, extended_link, has_room, is_short, outcome, pair_texts, plain, query_link,
    then_queried, LinkError,
};
use crate::text::texts;

pub mod queue;

verus! {

/// Where Airtable's interface is.
pub const BASE_URL: &'static str = "https://api.airtable.com";

/// What is said where the address of a table cannot be built.
pub const NO_TABLE_URL: &'static str = "https://api.airtable.com cannot be a base";

/// How many records one request writes.
pub const MAX_RECORDS_PER_UPSERT: usize = 10;

/// A table of a base.
pub struct AirtableTable {
    /// The base.
    pub base_id: String,
    /// The table, by its id or by its name.
    pub table_id_or_name: String,
}

impl Clone for AirtableTable {
    fn clone(&self) -> (copy: Self)
        ensures
            copy == *self,
    {
        AirtableTable {
            base_id: self.base_id.clone(),
            table_id_or_name: self.table_id_or_name.clone(),
        }
    }
}

impl AirtableTable {
    /// The path of the table.
    pub open spec fn segments(&self) -> Seq<Seq<char>> {
        seq!["v0"@, self.base_id@, self.table_id_or_name@]
    }

    /// The address of the table's records, or why it has none.
    pub open spec fn link(&self) -> Result<Seq<char>, Option<Seq<char>>> {
        extended_link(BASE_URL@, self.segments())
    }

    /// Whether the names of the table fit into an address.
    pub open spec fn fits_link(&self) -> bool {
        has_room(BASE_URL@, self.segments())
    }

    /// Tells whether the names of the table fit into an address.
    pub fn is_short(&self) -> (short: bool)
        ensures
            short == self.fits_link(),
            short == has_room(
                "https://api.airtable.com"@,
                seq!["v0"@, self.base_id@, self.table_id_or_name@],
            ),
    {
        is_short(BASE_URL, &self.path())
    }

    fn path(&self) -> (path: Vec<&str>)
        ensures
            texts(path@) == self.segments(),
    {
        let mut path: Vec<&str> = Vec::new();
        path.push("v0");
        path.push(self.base_id.as_str());
        path.push(self.table_id_or_name.as_str());
        path
    }

    /// The address of the table's records.
    pub fn url(&self) -> (url: Result<String, LinkError>)
        requires
            self.fits_link(),
        ensures
            outcome(url) == self.link(),
            outcome(url) == extended_link(
                "https://api.airtable.com"@,
                seq!["v0"@, self.base_id@, self.table_id_or_name@],
            ),
    {
        proof {
            lemma_base_is_plain();
        }
        extend_link(BASE_URL, &self.path())
    }
}

proof fn lemma_base_is_plain()
    ensures
        plain(BASE_URL@),
{
    reveal_strlit("https://api.airtable.com");
}

/// `s` with a backslash before each backslash and before each `close`.
pub open spec fn escaped(s: Seq<char>, close: char) -> Seq<char>
    decreases s.len(),
{
    if s.len() == 0 {
        Seq::empty()
    } else if s.last() == '\\' || s.last() == close {
        escaped(s.drop_last(), close).push('\\').push(s.last())
    } else {
        escaped(s.drop_last(), close).push(s.last())
    }
}

fn escape(text: &str, close: char) -> (safe: String)
    ensures
        safe@ == escaped(text@, close),
{
    let mut safe = String::new();
    for c in it: text.chars()
        invariant
            it.seq() == text@,
            safe@ == escaped(text@.take(it.index() as int), close),
    {
        assert(text@.take(it.index() + 1).drop_last() == text@.take(it.index() as int));
        if c == '\\' || c == close {
            safe.push('\\');
        }
        safe.push(c);
    }
    assert(text@.take(text@.len() as int) == text@);
    safe
}

/// Makes a value safe between the single quotes of a formula.
pub fn escape_formula_string(value: &str) -> (safe: String)
    ensures
        safe@ == escaped(value@, '\''),
{
    escape(value, '\'')
}

/// Makes the name of a field safe between the braces of a formula.
pub fn escape_formula_field(field: &str) -> (safe: String)
    ensures
        safe@ == escaped(field@, '}'),
{
    escape(field, '}')
}

/// The formula for the records whose field `field` is `value`.
pub open spec fn formula(field: Seq<char>, value: Seq<char>) -> Seq<char> {
    "{"@ + escaped(field, '}') + "}='"@ + escaped(value, '\'') + "'"@
}

/// Writes the formula for the records whose field `field` is `value`.
pub fn find_formula(field: &str, value: &str) -> (text: String)
    ensures
        text@ == formula(field@, value@),
        text@ == "{"@ + escaped(field@, '}') + "}='"@ + escaped(value@, '\'') + "'"@,
{
    let mut text = "{".to_owned();
    text.append(escape_formula_field(field).as_str());
    text.append("}='");
    text.append(escape_formula_string(value).as_str());
    text.append("'");
    text
}

/// Reads what stands before the first `close` without a backslash in front of
/// it, taking backslashes away from what they protect, and what follows that
/// `close`. `None` where there is none.
pub open spec fn read_escaped(s: Seq<char>, close: char) -> Option<(Seq<char>, Seq<char>)>
    decreases s.len(),
{
    if s.len() == 0 {
        None
    } else if s[0] == close {
        Some((Seq::empty(), s.skip(1)))
    } else if s[0] == '\\' {
        if s.len() == 1 {
            None
        } else {
            match read_escaped(s.skip(2), close) {
                Some((text, rest)) => Some((seq![s[1]] + text, rest)),
                None => None,
            }
        }
    } else {
        match read_escaped(s.skip(1), close) {
            Some((text, rest)) => Some((seq![s[0]] + text, rest)),
            None => None,
        }
    }
}

/// The field and the value that a formula compares; `None` where the text is
/// not one field in braces, an equals sign and one value in single quotes.
pub open spec fn read_formula(s: Seq<char>) -> Option<(Seq<char>, Seq<char>)> {
    if s.len() == 0 || s[0] != '{' {
        None
    } else {
        match read_escaped(s.skip(1), '}') {
            Some((field, rest)) => if rest.len() < 2 || rest[0] != '=' || rest[1] != '\'' {
                None
            } else {
                match read_escaped(rest.skip(2), '\'') {
                    Some((value, end)) => if end.len() == 0 {
                        Some((field, value))
                    } else {
                        None
                    },
                    None => None,
                }
            },
            None => None,
        }
    }
}

proof fn lemma_escaped_front(c: char, s: Seq<char>, close: char)
    ensures
        escaped(seq![c] + s, close) == escaped(seq![c], close) + escaped(s, close),
    decreases s.len(),
{
    let t = seq![c] + s;
    if s.len() == 0 {
        assert(t == seq![c]);
        assert(escaped(seq![c], close) + escaped(s, close) == escaped(seq![c], close));
    } else {
        lemma_escaped_front(c, s.drop_last(), close);
        assert(t.drop_last() == seq![c] + s.drop_last());
    }
}

/// What was escaped is read back, whatever follows it.
pub proof fn escaped_reads_back(s: Seq<char>, close: char, rest: Seq<char>)
    requires
        close != '\\',
    ensures
        read_escaped(escaped(s, close) + seq![close] + rest, close) == Some((s, rest)),
    decreases s.len(),
{
    let whole = escaped(s, close) + seq![close] + rest;
    if s.len() == 0 {
        assert(whole.skip(1) == rest);
    } else {
        let c = s[0];
        let tail = s.drop_first();
        let inner = escaped(tail, close) + seq![close] + rest;
        assert(s == seq![c] + tail);
        lemma_escaped_front(c, tail, close);
        escaped_reads_back(tail, close, rest);
        assert(seq![c].drop_last() == Seq::<char>::empty());
        assert(escaped(Seq::<char>::empty(), close) == Seq::<char>::empty());
        if c == '\\' || c == close {
            assert(escaped(seq![c], close) == seq!['\\', c]);
            assert(whole == seq!['\\', c] + inner);
            assert(whole.skip(2) == inner);
        } else {
            assert(escaped(seq![c], close) == seq![c]);
            assert(whole == seq![c] + inner);
            assert(whole.skip(1) == inner);
        }
    }
}

/// Whatever characters a field and a value hold, their formula compares that
/// field with that value and does nothing else.
pub proof fn formula_reads_back(field: Seq<char>, value: Seq<char>)
    ensures
        read_formula(formula(field, value)) == Some((field, value)),
{
    reveal_strlit("{");
    reveal_strlit("}='");
    reveal_strlit("'");
    let f = formula(field, value);
    let after_field = seq!['=', '\''] + escaped(value, '\'') + seq!['\''];
    assert(f.skip(1) == escaped(field, '}') + seq!['}'] + after_field);
    escaped_reads_back(field, '}', after_field);
    assert(after_field.skip(2) == escaped(value, '\'') + seq!['\''] + Seq::<char>::empty());
    escaped_reads_back(value, '\'', Seq::empty());
}

/// By which fields a write finds the records that it changes.
pub struct UpsertSettings {
    /// The names of those fields.
    pub fields_to_merge_on: Vec<String>,
}

/// A record to write.
pub struct RecordEntry<T> {
    /// Its fields.
    pub fields: T,
}

/// The body of one request that writes records.
pub struct UpsertTopLevel<'a, T> {
    /// By which fields records are found.
    pub settings: &'a UpsertSettings,
    /// The records.
    pub records: &'a Vec<RecordEntry<T>>,
    /// Whether Airtable converts values to the types of its fields.
    pub typecast: bool,
}

/// Records to write, in as many chunks as requests are needed.
pub struct Upsert<T> {
    /// The table.
    pub table: AirtableTable,
    /// The address of the table's records.
    pub url: String,
    /// By which fields records are found.
    pub settings: UpsertSettings,
    /// The chunks.
    pub chunks: Vec<Vec<RecordEntry<T>>>,
}

/// The entries for records.
pub open spec fn entries<T>(records: Seq<T>) -> Seq<RecordEntry<T>> {
    records.map_values(|r: T| RecordEntry { fields: r })
}

/// How many chunks `n` records make up.
pub open spec fn chunk_count(n: nat) -> nat {
    (n + MAX_RECORDS_PER_UPSERT as nat - 1) as nat / MAX_RECORDS_PER_UPSERT as nat
}

/// The chunk with the number `i`: the next records in order, as many as one
/// request writes or as are left.
pub open spec fn chunk<T>(all: Seq<RecordEntry<T>>, i: int) -> Seq<RecordEntry<T>> {
    let start = i * MAX_RECORDS_PER_UPSERT;
    let end = if start + MAX_RECORDS_PER_UPSERT <= all.len() {
        start + MAX_RECORDS_PER_UPSERT
    } else {
        all.len() as int
    };
    all.subrange(start, end)
}

/// All chunks, one after another.
pub open spec fn flattened<T>(chunks: Seq<Vec<RecordEntry<T>>>) -> Seq<RecordEntry<T>>
    decreases chunks.len(),
{
    if chunks.len() == 0 {
        Seq::empty()
    } else {
        flattened(chunks.drop_last()) + chunks.last()@
    }
}

fn in_chunks<T>(records: Vec<T>) -> (chunks: Vec<Vec<RecordEntry<T>>>)
    ensures
        chunks@.len() == chunk_count(records@.len()),
        forall|i: int|
            0 <= i < chunks@.len() ==> (#[trigger] chunks@[i])@ == chunk(entries(records@), i),
{
    let ghost all = entries(records@);
    let mut chunks: Vec<Vec<RecordEntry<T>>> = Vec::new();
    let mut current: Vec<RecordEntry<T>> = Vec::new();
    for record in it: records
        invariant
            it.seq() == records@,
            all == entries(records@),
            current@.len() <= MAX_RECORDS_PER_UPSERT,
            current@.len() == 0 ==> it.index() == 0,
            chunks@.len() * MAX_RECORDS_PER_UPSERT + current@.len() == it.index(),
            current@ == all.subrange(
                chunks@.len() * MAX_RECORDS_PER_UPSERT,
                it.index() as int,
            ),
            forall|i: int|
                0 <= i < chunks@.len() ==> (#[trigger] chunks@[i])@ == all.subrange(
                    i * MAX_RECORDS_PER_UPSERT,
                    (i + 1) * MAX_RECORDS_PER_UPSERT,
                ),
    {
        if current.len() == MAX_RECORDS_PER_UPSERT {
            chunks.push(current);
            current = Vec::new();
        }
        current.push(RecordEntry { fields: record });
    }
    let ghost full = chunks@;
    if current.len() > 0 {
        chunks.push(current);
    }
    assert forall|i: int| 0 <= i < chunks@.len() implies (#[trigger] chunks@[i])@ == chunk(
        all,
        i,
    ) by {
        if i < full.len() {
            assert(chunks@[i] == full[i]);
        }
    }
    chunks
}

/// Prepares the write of records to a table: cuts them into the chunks that go
/// out one request each.
pub fn upsert_records<T>(
    table: AirtableTable,
    records: Vec<T>,
    fields_to_merge_on_names: Vec<String>,
) -> (upsert: Result<Upsert<T>, LinkError>)
    requires
        table.fits_link(),
    ensures
        match upsert {
            Ok(upsert) => {
                &&& upsert.wf()
                &&& upsert.table == table
                &&& upsert.settings.fields_to_merge_on == fields_to_merge_on_names
                &&& upsert.chunks@.len() == chunk_count(records@.len())
                &&& forall|i: int|
                    0 <= i < upsert.chunks@.len() ==> (#[trigger] upsert.chunks@[i])@ == chunk(
                        entries(records@),
                        i,
                    )
                &&& forall|k: int|
                    0 <= k < records@.len() ==> upsert.chunks@[k / 10]@[k % 10].fields
                        == #[trigger] records@[k]
            },
            Err(error) => table.link() is Err && outcome(Err::<String, _>(error)) == table.link(),
        },
{
    let url = match table.url() {
        Ok(url) => url,
        Err(error) => {
            return Err(error);
        },
    };
    let ghost all = records@;
    let chunks = in_chunks(records);
    proof {
        records_stand_in_chunks_of_ten(all, chunks@);
    }
    let settings = UpsertSettings { fields_to_merge_on: fields_to_merge_on_names };
    Ok(Upsert { table, url, settings, chunks })
}

impl<T> Upsert<T> {
    /// Whether the address is that of the table.
    pub open spec fn wf(&self) -> bool {
        self.table.link() == Ok::<_, Option<Seq<char>>>(self.url@)
    }

    /// The body of the request for the chunk with the number `i`.
    pub fn body(&self, i: usize) -> (body: UpsertTopLevel<'_, T>)
        requires
            i < self.chunks@.len(),
        ensures
            *body.settings == self.settings,
            *body.records == self.chunks@[i as int],
            body.typecast,
    {
        UpsertTopLevel { settings: &self.settings, records: &self.chunks[i], typecast: true }
    }

    /// The request that writes a chunk to the table, where `body` is its body as
    /// JSON.
    pub fn upsert_request(&self, token: String, body: String) -> (request: ApiRequest<String>)
        requires
            self.wf(),
            header_value_text(crate::http::bearer(token@)),
        ensures
            request.method == Method::Patch,
            self.table.link() == Ok::<_, Option<Seq<char>>>(request.url@),
            request.json,
            request.bearer == Some(token),
            request.body == body,
    {
        ApiRequest {
            method: Method::Patch,
            url: self.url.clone(),
            json: true,
            bearer: Some(token),
            body,
        }
    }
}

proof fn lemma_flattened_chunks<T>(all: Seq<RecordEntry<T>>, chunks: Seq<Vec<RecordEntry<T>>>)
    requires
        chunks.len() <= chunk_count(all.len()),
        forall|i: int| 0 <= i < chunks.len() ==> (#[trigger] chunks[i])@ == chunk(all, i),
    ensures
        flattened(chunks) == all.take(
            if chunks.len() * MAX_RECORDS_PER_UPSERT <= all.len() {
                chunks.len() * MAX_RECORDS_PER_UPSERT
            } else {
                all.len() as int
            },
        ),
    decreases chunks.len(),
{
    if chunks.len() > 0 {
        let front = chunks.drop_last();
        assert forall|i: int| 0 <= i < front.len() implies (#[trigger] front[i])@ == chunk(
            all,
            i,
        ) by {
            assert(front[i] == chunks[i]);
        }
        lemma_flattened_chunks(all, front);
        assert(chunks[chunks.len() - 1]@ == chunk(all, chunks.len() - 1));
    }
}

/// Cutting records into chunks loses none, repeats none and keeps their order;
/// no chunk is empty, none is too large for a request, and all but the last
/// are as large as a request may be.
pub proof fn chunks_hold_all_records<T>(all: Seq<RecordEntry<T>>, chunks: Seq<Vec<RecordEntry<T>>>)
    requires
        chunks.len() == chunk_count(all.len()),
        forall|i: int| 0 <= i < chunks.len() ==> (#[trigger] chunks[i])@ == chunk(all, i),
    ensures
        flattened(chunks) == all,
        forall|i: int|
            0 <= i < chunks.len() ==> 0 < (#[trigger] chunks[i])@.len() <= MAX_RECORDS_PER_UPSERT,
        forall|i: int|
            0 <= i < chunks.len() - 1 ==> (#[trigger] chunks[i])@.len() == MAX_RECORDS_PER_UPSERT,
{
    lemma_flattened_chunks(all, chunks);
    assert(all.take(all.len() as int) == all);
}

/// A record that was found.
pub struct FindRecord<T> {
    /// Its fields.
    pub fields: T,
}

/// A page of the records that were found.
pub struct FindRecordsTopLevel<T> {
    /// The records.
    pub records: Vec<FindRecord<T>>,
    /// Where the next page starts, if there is one.
    pub offset: Option<String>,
}

/// The fields of records.
pub open spec fn fields_of<T>(records: Seq<FindRecord<T>>) -> Seq<T> {
    records.map_values(|r: FindRecord<T>| r.fields)
}

/// A search for records, one page after another.
pub struct FindRecords<T> {
    /// The table.
    pub table: AirtableTable,
    /// What the records have to meet.
    pub formula: String,
    /// The fields of the records that were found so far.
    pub records: Vec<T>,
    /// Where the page to ask for starts.
    pub offset: Option<String>,
}

/// Starts a search for the records whose field `field` is `value`.
pub fn find_records<T>(table: AirtableTable, field: String, value: String) -> (search: FindRecords<T>)
    ensures
        search.table == table,
        search.formula@ == formula(field@, value@),
        search.records@ == Seq::<T>::empty(),
        search.offset is None,
{
    let formula = find_formula(field.as_str(), value.as_str());
    FindRecords { table, formula, records: Vec::new(), offset: None }
}

impl<T> FindRecords<T> {
    /// What the address of the next page asks for.
    pub open spec fn query(&self) -> Seq<(Seq<char>, Seq<char>)> {
        match self.offset {
            Some(offset) => seq![
                ("filterByFormula"@, self.formula@),
                ("offset"@, offset@),
            ],
            None => seq![("filterByFormula"@, self.formula@)],
        }
    }

    /// The address of the next page, or why it has none: the address of the
    /// table, and what is asked for.
    pub open spec fn page_link(&self) -> Result<Seq<char>, Option<Seq<char>>> {
        then_queried(self.table.link(), self.query())
    }

    /// The address of the next page.
    pub fn page_url(&self) -> (url: Result<String, LinkError>)
        requires
            self.table.fits_link(),
        ensures
            outcome(url) == self.page_link(),
    {
        proof {
            lemma_base_is_plain();
        }
        let mut pairs: Vec<(&str, &str)> = Vec::new();
        pairs.push(("filterByFormula", self.formula.as_str()));
        if let Some(offset) = &self.offset {
            pairs.push(("offset", offset.as_str()));
        }
        assert(pair_texts(pairs@) == self.query());
        query_link(BASE_URL, &self.table.path(), &pairs)
    }

    /// The request for the page at `url`.
    pub fn page_request(url: String, token: String) -> (request: ApiRequest<()>)
        requires
            header_value_text(crate::http::bearer(token@)),
        ensures
            request == (ApiRequest {
                method: Method::Get,
                url,
                json: true,
                bearer: Some(token),
                body: (),
            }),
    {
        ApiRequest { method: Method::Get, url, json: true, bearer: Some(token), body: () }
    }

    /// The request for the next page.
    pub fn next_request(&self, token: String) -> (request: Result<ApiRequest<()>, LinkError>)
        requires
            self.table.fits_link(),
            header_value_text(crate::http::bearer(token@)),
        ensures
            match self.page_link() {
                Ok(url) => request matches Ok(request) && request.method == Method::Get
                    && request.url@ == url && request.json && request.bearer == Some(token),
                Err(_) => request matches Err(error) && outcome(Err::<String, _>(error))
                    == self.page_link(),
            },
    {
        match self.page_url() {
            Ok(url) => Ok(Self::page_request(url, token)),
            Err(error) => Err(error),
        }
    }

    /// Takes a page in, and tells whether there is another.
    pub fn add_page(&mut self, page: FindRecordsTopLevel<T>) -> (more: bool)
        ensures
            page_added(*old(self), page, *final(self)),
            more == (page.offset is Some),
            final(self).records@.len() == old(self).records@.len() + page.records@.len(),
            forall|i: int|
                0 <= i < old(self).records@.len() ==> #[trigger] final(self).records@[i]
                    == old(self).records@[i],
            forall|i: int|
                0 <= i < page.records@.len() ==> final(self).records@[old(self).records@.len() + i]
                    == (#[trigger] page.records@[i]).fields,
    {
        let ghost before = self.records@;
        for record in it: page.records
            invariant
                it.seq() == page.records@,
                self.table == old(self).table,
                self.formula == old(self).formula,
                self.records@ == before + fields_of(page.records@).take(it.index() as int),
        {
            self.records.push(record.fields);
        }
        assert(fields_of(page.records@).take(page.records@.len() as int) == fields_of(
            page.records@,
        ));
        self.offset = page.offset;
        self.offset.is_some()
    }
}

/// Whether taking `page` in turns one state of a search into the other: the
/// records of the page follow those found before, and the search goes on where
/// the page says.
pub open spec fn page_added<T>(
    before: FindRecords<T>,
    page: FindRecordsTopLevel<T>,
    after: FindRecords<T>,
) -> bool {
    &&& after.table == before.table
    &&& after.formula == before.formula
    &&& after.records@ == before.records@ + fields_of(page.records@)
    &&& after.offset == page.offset
}

/// The fields of the records on all of `pages`, in order.
pub open spec fn fields_on<T>(pages: Seq<FindRecordsTopLevel<T>>) -> Seq<T>
    decreases pages.len(),
{
    if pages.len() == 0 {
        Seq::empty()
    } else {
        fields_on(pages.drop_last()) + fields_of(pages.last().records@)
    }
}

/// A search finds exactly the records of the pages that it took in, in order,
/// always asks for the same table and formula, and asks for each page but the
/// first where the page before it said.
pub proof fn search_finds_all_pages<T>(
    states: Seq<FindRecords<T>>,
    pages: Seq<FindRecordsTopLevel<T>>,
)
    requires
        states.len() == pages.len() + 1,
        states[0].records@ == Seq::<T>::empty(),
        forall|i: int|
            0 <= i < pages.len() ==> page_added(states[i], #[trigger] pages[i], states[i + 1]),
    ensures
        states.last().records@ == fields_on(pages),
        forall|i: int|
            0 <= i < states.len() ==> (#[trigger] states[i]).table == states[0].table
                && states[i].formula == states[0].formula,
        forall|i: int| 0 < i < states.len() ==> (#[trigger] states[i]).offset == pages[i - 1].offset,
    decreases pages.len(),
{
    if pages.len() > 0 {
        let n = pages.len() - 1;
        search_finds_all_pages(states.drop_last(), pages.drop_last());
        assert forall|i: int| 0 <= i < states.len() - 1 implies states[i]
            == #[trigger] states.drop_last()[i] by {}
        assert(page_added(states[n], pages[n], states[n + 1]));
        assert forall|i: int| 0 <= i < states.len() implies (#[trigger] states[i]).table
            == states[0].table && states[i].formula == states[0].formula by {
            if i <= n {
                assert(states.drop_last()[i].table == states[0].table);
            } else {
                assert(states.drop_last()[n].table == states[0].table);
            }
        }
        assert forall|i: int| 0 < i < states.len() implies (#[trigger] states[i]).offset == pages[i
            - 1].offset by {
            assert(page_added(states[i - 1], pages[i - 1], states[i - 1 + 1]));
        }
    }
}

/// Texts are escaped character by character: a backslash and the closing
/// character get a backslash in front, every other character stays as it is.
pub proof fn escaping_goes_char_by_char(a: Seq<char>, b: Seq<char>, c: char, close: char)
    ensures
        escaped(Seq::empty(), close).len() == 0,
        escaped(a + b, close) == escaped(a, close) + escaped(b, close),
        c == '\\' || c == close ==> escaped(seq![c], close) == seq!['\\', c],
        c != '\\' && c != close ==> escaped(seq![c], close) == seq![c],
    decreases b.len(),
{
    assert(seq![c].drop_last() == Seq::<char>::empty());
    assert(escaped(Seq::<char>::empty(), close) == Seq::<char>::empty());
    if b.len() == 0 {
        assert(a + b == a);
    } else {
        escaping_goes_char_by_char(a, b.drop_last(), c, close);
        assert((a + b).drop_last() == a + b.drop_last());
        assert((a + b).last() == b.last());
    }
}

/// The records of a write stand in chunks of ten, in order: the record with the
/// number `k` is the one with the number `k % 10` of the chunk `k / 10`. There
/// are no more chunks than are needed, none is empty, and they hold as many
/// records together as are to be written.
pub proof fn records_stand_in_chunks_of_ten<T>(records: Seq<T>, chunks: Seq<Vec<RecordEntry<T>>>)
    requires
        chunks.len() == chunk_count(records.len()),
        forall|i: int| 0 <= i < chunks.len() ==> (#[trigger] chunks[i])@ == chunk(entries(records), i),
    ensures
        records.len() <= 10 * chunks.len() < records.len() + 10,
        forall|i: int|
            0 <= i < chunks.len() ==> (#[trigger] chunks[i])@.len() == (if 10 * i + 10
                <= records.len() {
                10
            } else {
                records.len() - 10 * i
            }),
        forall|k: int|
            0 <= k < records.len() ==> chunks[k / 10]@[k % 10].fields == #[trigger] records[k],
{
    assert forall|k: int| 0 <= k < records.len() implies chunks[k / 10]@[k % 10].fields
        == #[trigger] records[k] by {
        let i = k / 10;
        assert(0 <= i < chunks.len());
        assert(chunks[i]@ == chunk(entries(records), i));
        assert(chunk(entries(records), i)[k % 10] == entries(records)[k]);
    }
}

/// Taking a page in adds exactly the records of the page, each with its own
/// fields, behind those that were found before.
pub proof fn page_adds_each_record<T>(
    before: FindRecords<T>,
    page: FindRecordsTopLevel<T>,
    after: FindRecords<T>,
)
    requires
        page_added(before, page, after),
    ensures
        after.records@.len() == before.records@.len() + page.records@.len(),
        forall|i: int|
            0 <= i < before.records@.len() ==> #[trigger] after.records@[i] == before.records@[i],
        forall|i: int|
            0 <= i < page.records@.len() ==> after.records@[before.records@.len() + i] == (
            #[trigger] page.records@[i]).fields,
        after.offset == page.offset,
        after.table == before.table,
        after.formula == before.formula,
{
}

/// Every record of every page has its place among all that are found: behind
/// the records of the pages before, and in the order of its page. Nothing else
/// is found.
pub proof fn every_record_is_found<T>(pages: Seq<FindRecordsTopLevel<T>>, p: int)
    requires
        0 <= p < pages.len(),
    ensures
        fields_on(pages.take(0)).len() == 0,
        fields_on(pages.take(p + 1)).len() == fields_on(pages.take(p)).len()
            + pages[p].records@.len(),
        forall|i: int|
            0 <= i < pages[p].records@.len() ==> fields_on(pages)[fields_on(pages.take(p)).len()
                + i] == (#[trigger] pages[p].records@[i]).fields,
    decreases pages.len(),
{
    assert(pages.take(p + 1).drop_last() == pages.take(p));
    if p == pages.len() - 1 {
        assert(pages.take(p + 1) == pages);
    } else {
        let front = pages.drop_last();
        every_record_is_found(front, p);
        assert(front.take(p) == pages.take(p));
        assert(front.take(p + 1) == pages.take(p + 1));
        lemma_fields_on_grow(front, p + 1);
    }
}

proof fn lemma_fields_on_grow<T>(pages: Seq<FindRecordsTopLevel<T>>, p: int)
    requires
        0 <= p <= pages.len(),
    ensures
        fields_on(pages.take(p)).len() <= fields_on(pages).len(),
    decreases pages.len(),
{
    if p == pages.len() {
        assert(pages.take(p) == pages);
    } else {
        lemma_fields_on_grow(pages.drop_last(), p);
        assert(pages.drop_last().take(p) == pages.take(p));
    }
}

/// A page is asked for at the address of the table, by the formula of the
/// search and, behind the first page, by the offset that the page before named.
pub proof fn page_is_asked_for_by_formula_and_offset<T>(search: FindRecords<T>)
    ensures
        search.query()[0] == ("filterByFormula"@, search.formula@),
        search.offset is None ==> search.query().len() == 1,
        search.offset matches Some(offset) ==> search.query().len() == 2 && search.query()[1] == (
            "offset"@,
            offset@,
        ),
        match extended_link(
            "https://api.airtable.com"@,
            seq!["v0"@, search.table.base_id@, search.table.table_id_or_name@],
        ) {
            Ok(url) => search.page_link() == Ok::<_, Option<Seq<char>>>(
                crate::link::queried_link(url, search.query()),
            ),
            Err(reason) => search.page_link() == Err::<Seq<char>, _>(reason),
        },
{
}

/// A table has a path of three segments: the version of the interface, the base
/// and the table.
pub proof fn table_has_a_path(table: AirtableTable)
    ensures
        table.segments().len() == 3,
        table.segments()[0] == "v0"@,
        table.segments()[1] == table.base_id@,
        table.segments()[2] == table.table_id_or_name@,
{
}

/// A write goes to the address of its own table.
pub proof fn write_goes_to_its_table<T>(upsert: Upsert<T>)
    requires
        upsert.wf(),
    ensures
        extended_link(
            "https://api.airtable.com"@,
            seq!["v0"@, upsert.table.base_id@, upsert.table.table_id_or_name@],
        ) == Ok::<_, Option<Seq<char>>>(upsert.url@),
{
}

} // verus!
