//! The document driver: frames the input as one document or as one
//! document per line, numbers the documents, and turns each into lines.

use crate::error::{Error, ErrorKind};
use crate::filter::{
    column_field, column_text, regex_is_match, FilterView, RegexOn, RegexOptions,
};
use crate::format::{format_record, line_of, missing_field, Options, OptionsView};
use crate::json::{children_of, is_container, json_parse, Json, JsonView};
use crate::output::{
    blocks_of, first_in_slot, BlockView, BuilderView, Output, OutputBuilder,
};
use crate::pointer::{
    complete, drain, flatten, flatten_spec, lemma_drain_complete, records_view, JsonPointer,
};
use vstd::string::StringExecFns;
use vstd::prelude::*;
use vstd::slice::slice_subrange;

verus! {

/// The byte that ends a line.
pub const NEWLINE: u8 = 10;

/// The model of an optional filter.
pub open spec fn filter_view(filter: Option<RegexOptions>) -> Option<FilterView> {
    match filter {
        Some(f) => Some(f@),
        None => None,
    }
}

/// The texts of a run of lines.
pub open spec fn texts(lines: Seq<String>) -> Seq<Seq<char>> {
    Seq::new(lines.len(), |i: int| lines[i]@)
}

/// Whether the filter, if there is one, keeps a record: whether its
/// pattern matches the text of its column.
pub open spec fn keeps(f: Option<FilterView>, o: OptionsView, blocks: Seq<BlockView>) -> bool {
    match f {
        Some(f) => match column_text(blocks, o, f.column) {
            Some(text) => regex_is_match(f.pattern, text),
            None => false,
        },
        None => true,
    }
}

/// The lines that one record contributes: its line if the filter keeps it
/// and it lacks no field, and nothing otherwise.
pub open spec fn emitted(o: OptionsView, f: Option<FilterView>, r: BuilderView) -> Seq<Seq<char>> {
    let blocks = blocks_of(r);
    if keeps(f, o, blocks) && missing_field(blocks, o) is None {
        seq![line_of(blocks, o)]
    } else {
        Seq::empty()
    }
}

/// The lines of a run of records, in order.
pub open spec fn lines_of(o: OptionsView, f: Option<FilterView>, records: Seq<BuilderView>) -> Seq<
    Seq<char>,
>
    decreases records.len(),
{
    if records.len() == 0 {
        Seq::empty()
    } else {
        emitted(o, f, records[0]) + lines_of(o, f, records.drop_first())
    }
}

/// A filter lets through only what it matches: every line of the output
/// is the line of a record whose chosen column the pattern matches.
pub proof fn lemma_lines_are_matches(o: OptionsView, f: FilterView, records: Seq<BuilderView>)
    ensures
        forall|i: int|
            0 <= i < lines_of(o, Some(f), records).len() ==> exists|k: int|
                0 <= k < records.len() && keeps(Some(f), o, blocks_of(records[k])) && (
                #[trigger] lines_of(o, Some(f), records)[i]) == line_of(
                    #[trigger] blocks_of(records[k]),
                    o,
                ),
    decreases records.len(),
{
    if records.len() > 0 {
        let first = emitted(o, Some(f), records[0]);
        let rest = records.drop_first();
        lemma_lines_are_matches(o, f, rest);
        assert forall|i: int| 0 <= i < lines_of(o, Some(f), records).len() implies exists|k: int|
            0 <= k < records.len() && keeps(Some(f), o, blocks_of(records[k])) && (
            #[trigger] lines_of(o, Some(f), records)[i]) == line_of(
                #[trigger] blocks_of(records[k]),
                o,
            ) by {
            let line = lines_of(o, Some(f), records)[i];
            if i < first.len() {
                assert(line == line_of(blocks_of(records[0]), o));
            } else {
                assert(line == lines_of(o, Some(f), rest)[i - first.len()]);
                let k = choose|k: int|
                    0 <= k < rest.len() && keeps(Some(f), o, blocks_of(rest[k])) && lines_of(
                        o,
                        Some(f),
                        rest,
                    )[i - first.len()] == line_of(#[trigger] blocks_of(rest[k]), o);
                assert(rest[k] == records[k + 1]);
                assert(line == line_of(blocks_of(records[k + 1]), o));
            }
        }
    }
}

/// A complete record lacks no field of a line and has every column that a
/// filter may look at.
pub proof fn lemma_complete_has_fields(r: BuilderView, o: OptionsView, column: RegexOn)
    requires
        complete(r),
    ensures
        missing_field(blocks_of(r), o) is None,
        column_text(blocks_of(r), o, column) is Some,
        first_in_slot(blocks_of(r), 0) == Some(BlockView::Ident(r.ident.unwrap())),
        first_in_slot(blocks_of(r), 2) == Some(BlockView::Type(r.jtype.unwrap())),
        first_in_slot(blocks_of(r), 3) == Some(BlockView::Pointer(r.pointer.unwrap())),
        first_in_slot(blocks_of(r), 4) == Some(BlockView::Value(r.value.unwrap())),
{
    let b = blocks_of(r);
    let b1 = b.drop_first();
    let b2 = b1.drop_first();
    let b3 = b2.drop_first();
    assert(b =~= seq![
        BlockView::Ident(r.ident.unwrap()),
        BlockView::Type(r.jtype.unwrap()),
        BlockView::Pointer(r.pointer.unwrap()),
        BlockView::Value(r.value.unwrap()),
    ]);
    assert(b1[0] == b[1] && b2[0] == b[2] && b3[0] == b[3]);
    assert forall|slot: int| 0 <= slot <= 4 && slot != 1 implies (#[trigger] first_in_slot(b, slot))
        == Some(b[if slot == 0 {
        0int
    } else {
        slot - 1
    }]) by {
        assert(first_in_slot(b3, slot) == if slot == 4 {
            Some(b[3])
        } else {
            first_in_slot(b3.drop_first(), slot)
        });
        assert(first_in_slot(b2, slot) == if slot == 3 {
            Some(b[2])
        } else {
            first_in_slot(b3, slot)
        });
        assert(first_in_slot(b1, slot) == if slot == 2 {
            Some(b[1])
        } else {
            first_in_slot(b2, slot)
        });
    }
    assert(first_in_slot(b, 0) == Some(b[0]));
    assert(first_in_slot(b, 2) == Some(b[1]));
    assert(first_in_slot(b, 3) == Some(b[2]));
    assert(first_in_slot(b, 4) == Some(b[3]));
}

/// Renders one record, unless the filter suppresses it. A record that
/// lacks the column of the filter, or a field of the line, gives
/// `MissingField` with the field's name.
pub fn emit(record: OutputBuilder, options: &Options, filter: &Option<RegexOptions>) -> (r: Result<
    Option<String>,
    ErrorKind,
>)
    ensures
        ({
            let blocks = blocks_of(record@);
            let f = filter_view(*filter);
            if f is Some && column_text(blocks, options@, f.unwrap().column) is None {
                r matches Err(ErrorKind::MissingField(n)) && n@ == column_field(f.unwrap().column)
            } else if !keeps(f, options@, blocks) {
                r matches Ok(None)
            } else {
                match missing_field(blocks, options@) {
                    Some(name) => r matches Err(ErrorKind::MissingField(n)) && n@ == name,
                    None => r matches Ok(Some(line)) && line@ == line_of(blocks, options@),
                }
            }
        }),
{
    let output = record.done();
    let kept = match filter {
        Some(f) => match f.accepts(&output, options) {
            Ok(b) => b,
            Err(e) => {
                return Err(e);
            },
        },
        None => true,
    };
    if !kept {
        return Ok(None);
    }
    match format_record(&output, options) {
        Ok(line) => Ok(Some(line)),
        Err(e) => Err(e),
    }
}

proof fn lemma_texts_push(lines: Seq<String>, line: String)
    ensures
        texts(lines.push(line)) == texts(lines).push(line@),
{
    assert(texts(lines.push(line)) =~= texts(lines).push(line@));
}

/// Appends to `lines` the lines of one document: of each record of its
/// walk that the filter keeps, in order.
pub fn document_lines(
    json: &Json,
    ident: usize,
    base: String,
    options: &Options,
    filter: &Option<RegexOptions>,
    lines: &mut Vec<String>,
)
    ensures
        texts(final(lines)@) == texts(old(lines)@) + lines_of(
            options@,
            filter_view(*filter),
            flatten_spec(json@, ident, base@),
        ),
{
    let ghost o = options@;
    let ghost f = filter_view(*filter);
    let ghost all = flatten_spec(json@, ident, base@);
    let ghost total = texts(lines@) + lines_of(o, f, all);
    let mut walk = JsonPointer::new(json, (ident, base, None));
    let ghost mut n: nat = 0;
    proof {
        assert(all.skip(0) =~= all);
    }
    loop
        invariant
            o == options@,
            f == filter_view(*filter),
            n <= all.len(),
            walk.remaining() == all.skip(n as int),
            all == drain(ident, seq![(json@, base@)]),
            texts(lines@) + lines_of(o, f, walk.remaining()) == total,
            total == texts(old(lines)@) + lines_of(o, f, all),
        decreases walk.remaining().len(),
    {
        let ghost rest = walk.remaining();
        match walk.parse_next() {
            None => {
                proof {
                    assert(lines_of(o, f, rest) =~= Seq::<Seq<char>>::empty());
                    assert(texts(lines@) =~= total);
                }
                return ;
            },
            Some(record) => {
                proof {
                    lemma_drain_complete(ident, seq![(json@, base@)]);
                    assert(record@ == all[n as int]);
                    assert(complete(record@));
                    lemma_complete_has_fields(record@, o, RegexOn::Entry);
                    lemma_complete_has_fields(record@, o, RegexOn::Type);
                    lemma_complete_has_fields(record@, o, RegexOn::Value);
                    lemma_complete_has_fields(record@, o, RegexOn::Separator);
                    assert(rest.drop_first() =~= all.skip(n as int + 1));
                    assert(lines_of(o, f, rest) == emitted(o, f, record@) + lines_of(
                        o,
                        f,
                        rest.drop_first(),
                    ));
                    n = n + 1;
                }
                match emit(record, options, filter) {
                    Ok(Some(line)) => {
                        proof {
                            lemma_texts_push(lines@, line);
                            assert(texts(lines@).push(line@) + lines_of(o, f, walk.remaining())
                                =~= total);
                        }
                        lines.push(line);
                    },
                    Ok(None) => {
                        proof {
                            assert(texts(lines@) + lines_of(o, f, walk.remaining()) =~= total);
                        }
                    },
                    Err(_) => {
                        // A record of a walk lacks no field.
                        assert(false);
                    },
                }
            },
        }
    }
}

/// The base path that a packet names: empty where it names none, else the
/// JSON string that its bytes hold.
pub open spec fn packet_base(base: Option<Vec<u8>>) -> Result<Seq<char>, Seq<char>> {
    match base {
        None => Ok(Seq::empty()),
        Some(bytes) => match json_parse(bytes@) {
            Ok(JsonView::String(s)) => Ok(s),
            Ok(_) => Err("the base path is not a JSON string"@),
            Err(message) => Err(message),
        },
    }
}

/// The pointers of a run of complete records.
pub open spec fn pointers_of(records: Seq<BuilderView>) -> Seq<Seq<char>> {
    Seq::new(records.len(), |i: int| records[i].pointer.unwrap())
}

/// One document with its identifier and the base path of its pointers.
#[derive(Debug, PartialEq, Eq)]
pub struct JsonPacket {
    ident: usize,
    base_path: String,
    json: Json,
}

impl JsonPacket {
    /// The document's identifier.
    pub closed spec fn ident(&self) -> usize {
        self.ident
    }

    /// The path that every pointer of the document starts with.
    pub closed spec fn base(&self) -> Seq<char> {
        self.base_path@
    }

    /// The document.
    pub closed spec fn json(&self) -> JsonView {
        self.json@
    }

    /// The packet of a document that stands alone: identifier 1, empty
    /// base path.
    pub fn new(object: Json) -> (p: JsonPacket)
        ensures
            p.ident() == 1,
            p.base() == Seq::<char>::empty(),
            p.json() == object@,
    {
        JsonPacket { ident: 1, base_path: String::new(), json: object }
    }

    /// Reads a packet from an identifier, the bytes of a base path, if
    /// any, and the bytes of a document. The base path is read first; bytes
    /// that do not parse give `Io` with the parser's message.
    pub fn try_from(packet: (usize, Option<Vec<u8>>, Vec<u8>)) -> (r: Result<JsonPacket, ErrorKind>)
        ensures
            match packet_base(packet.1) {
                Err(message) => r matches Err(ErrorKind::Io(m)) && m@ == message,
                Ok(base) => match json_parse(packet.2@) {
                    Err(message) => r matches Err(ErrorKind::Io(m)) && m@ == message,
                    Ok(doc) => r matches Ok(p) && p.ident() == packet.0 && p.base() == base
                        && p.json() == doc,
                },
            },
    {
        let (ident, base, bytes) = packet;
        let base_path = match base {
            None => String::new(),
            Some(base) => match Json::parse(base.as_slice()) {
                Ok(Json::String(s)) => s,
                Ok(_) => {
                    return Err(ErrorKind::Io(String::from_str("the base path is not a JSON string")));
                },
                Err(message) => {
                    return Err(ErrorKind::Io(message));
                },
            },
        };
        match Json::parse(bytes.as_slice()) {
            Ok(json) => Ok(JsonPacket { ident, base_path, json }),
            Err(message) => Err(ErrorKind::Io(message)),
        }
    }

    /// How many children the document's root has, if it is a container.
    fn size_hint(&self) -> (hint: Option<usize>)
        ensures
            hint == if is_container(self.json()) {
                Some(children_of(self.json()) as usize)
            } else {
                None
            },
    {
        match &self.json {
            Json::Object(_) | Json::Array(_) => Some(self.json.child_count()),
            _ => None,
        }
    }

    /// Takes the packet apart: the document, and what a walk of it needs.
    pub fn into_inner(self) -> (r: (Json, (usize, String, Option<usize>)))
        ensures
            r.0@ == self.json(),
            r.1.0 == self.ident(),
            r.1.1@ == self.base(),
            r.1.2 == if is_container(self.json()) {
                Some(children_of(self.json()) as usize)
            } else {
                None
            },
    {
        let hint = self.size_hint();
        (self.json, (self.ident, self.base_path, hint))
    }

    /// The pointers of all records of a document, in the order of its
    /// walk.
    pub fn parse_json(json_value: &Json) -> (list: Vec<String>)
        ensures
            texts(list@) == pointers_of(flatten_spec(json_value@, 1, Seq::empty())),
    {
        let records = flatten(json_value, 1, String::new());
        let ghost all = flatten_spec(json_value@, 1, Seq::empty());
        let mut list: Vec<String> = Vec::new();
        proof {
            lemma_drain_complete(1, seq![(json_value@, Seq::empty())]);
        }
        let mut i: usize = 0;
        while i < records.len()
            invariant
                i <= records.len(),
                records_view(records@) == all,
                forall|k: int| 0 <= k < all.len() ==> complete(#[trigger] all[k]),
                list@.len() == i,
                forall|k: int| 0 <= k < i ==> (#[trigger] list@[k])@ == all[k].pointer.unwrap(),
            decreases records.len() - i,
        {
            let ghost r = records@[i as int]@;
            assert(r == all[i as int]);
            let pointer = records[i].pointer_text();
            list.push(pointer);
            i += 1;
        }
        proof {
            assert(texts(list@) =~= pointers_of(all));
        }
        list
    }

    /// Appends the lines of this document to `output`.
    pub fn print(&self, options: &Options, filter: &Option<RegexOptions>, output: &mut Vec<String>)
        ensures
            texts(final(output)@) == texts(old(output)@) + lines_of(
                options@,
                filter_view(*filter),
                flatten_spec(self.json(), self.ident(), self.base()),
            ),
    {
        document_lines(&self.json, self.ident, self.base_path.clone(), options, filter, output);
    }
}

/// Where the first line of `input` ends: the place of its first newline,
/// or its length where it has none.
pub open spec fn line_end(input: Seq<u8>) -> nat
    decreases input.len(),
{
    if input.len() == 0 || input[0] == NEWLINE {
        0
    } else {
        1 + line_end(input.drop_first())
    }
}

/// What follows the first line of `input` and its newline.
pub open spec fn after_line(input: Seq<u8>) -> Seq<u8> {
    if line_end(input) < input.len() {
        input.skip(line_end(input) as int + 1)
    } else {
        Seq::empty()
    }
}

/// The lines of one line of input read as a document with the identifier
/// `ident`: nothing where the line holds no document.
pub open spec fn line_lines(o: OptionsView, f: Option<FilterView>, line: Seq<u8>, ident: usize) -> Seq<
    Seq<char>,
> {
    match json_parse(line) {
        Ok(doc) => lines_of(o, f, flatten_spec(doc, ident, Seq::empty())),
        Err(_) => Seq::empty(),
    }
}

/// The lines of an input that holds one document per line. The lines of
/// input are numbered from `ident` on, one by one; a line that holds no
/// document is passed over and keeps its number.
pub open spec fn stream_lines(o: OptionsView, f: Option<FilterView>, input: Seq<u8>, ident: nat) -> Seq<
    Seq<char>,
>
    decreases input.len(),
{
    if input.len() == 0 {
        Seq::empty()
    } else {
        line_lines(o, f, input.take(line_end(input) as int), ident as usize) + stream_lines(
            o,
            f,
            after_line(input),
            ident + 1,
        )
    }
}

proof fn lemma_line_end_bound(input: Seq<u8>)
    ensures
        line_end(input) <= input.len(),
        line_end(input) < input.len() ==> input[line_end(input) as int] == NEWLINE,
        forall|i: int| 0 <= i < line_end(input) ==> input[i] != NEWLINE,
    decreases input.len(),
{
    if !(input.len() == 0 || input[0] == NEWLINE) {
        lemma_line_end_bound(input.drop_first());
        assert forall|i: int| 0 <= i < line_end(input) implies input[i] != NEWLINE by {
            if i > 0 {
                assert(input[i] == input.drop_first()[i - 1]);
            }
        }
    }
}

proof fn lemma_line_end_found(input: Seq<u8>, k: nat)
    requires
        k <= input.len(),
        forall|i: int| 0 <= i < k ==> input[i] != NEWLINE,
        k == input.len() || input[k as int] == NEWLINE,
    ensures
        line_end(input) == k,
    decreases k,
{
    if k > 0 {
        lemma_line_end_found(input.drop_first(), (k - 1) as nat);
    }
}

/// Where the line that starts at `from` ends.
fn find_line_end(input: &[u8], from: usize) -> (end: usize)
    requires
        from <= input.len(),
    ensures
        from <= end <= input.len(),
        end - from == line_end(input@.skip(from as int)),
{
    let mut end = from;
    while end < input.len() && input[end] != NEWLINE
        invariant
            from <= end <= input.len(),
            forall|i: int| from <= i < end ==> input@[i] != NEWLINE,
        decreases input.len() - end,
    {
        end += 1;
    }
    proof {
        lemma_line_end_found(input@.skip(from as int), (end - from) as nat);
    }
    end
}

/// Turns an input into lines of text.
///
/// Without `multi_documents` the whole input is one document with the
/// identifier 1; input that holds no document is an error with the parser's
/// message. With `multi_documents` every line of the input is a document;
/// the lines are numbered from the given identifier on, and one that holds
/// no document is passed over.
///
/// `filter` is the filter to apply, compiled once for all inputs:
/// [`RegexOptions::from_options`] makes it of the options and refuses a
/// configuration that cannot be honoured.
pub fn to_csv(options: &Options, filter: &Option<RegexOptions>, input: &[u8]) -> (r: Result<
    Vec<String>,
    Error,
>)
    requires
        options.multi_documents matches Some(start) ==> start + input.len() <= usize::MAX,
    ensures
        match options@.multi_documents {
            None => match json_parse(input@) {
                Ok(doc) => r matches Ok(lines) && texts(lines@) == lines_of(
                    options@,
                    filter_view(*filter),
                    flatten_spec(doc, 1, Seq::empty()),
                ),
                Err(message) => r matches Err(e) && e.context is None && (e.kind matches ErrorKind::Io(
                    m,
                ) && m@ == message),
            },
            Some(start) => r matches Ok(lines) && texts(lines@) == stream_lines(
                options@,
                filter_view(*filter),
                input@,
                start as nat,
            ),
        },
{
    let mut lines: Vec<String> = Vec::new();
    let ghost o = options@;
    let ghost f = filter_view(*filter);
    proof {
        assert(texts(lines@) =~= Seq::<Seq<char>>::empty());
    }
    match options.multi_documents {
        None => match Json::parse(input) {
            Ok(json) => {
                document_lines(&json, 1, String::new(), options, filter, &mut lines);
                proof {
                    assert(texts(lines@) =~= lines_of(o, f, flatten_spec(json@, 1, Seq::empty())));
                }
                Ok(lines)
            },
            Err(message) => Err(Error { kind: ErrorKind::Io(message), context: None }),
        },
        Some(start) => {
            let mut from: usize = 0;
            let mut ident: usize = start;
            let ghost total = stream_lines(o, f, input@, start as nat);
            proof {
                assert(input@.skip(0) =~= input@);
            }
            while from < input.len()
                invariant
                    o == options@,
                    f == filter_view(*filter),
                    from <= input.len(),
                    ident + (input.len() - from) <= usize::MAX,
                    texts(lines@) + stream_lines(o, f, input@.skip(from as int), ident as nat)
                        == total,
                decreases input.len() - from,
            {
                let end = find_line_end(input, from);
                let line = slice_subrange(input, from, end);
                let ghost rest = input@.skip(from as int);
                let ghost before = texts(lines@);
                proof {
                    lemma_line_end_bound(rest);
                    assert(line@ =~= rest.take(line_end(rest) as int));
                }
                match Json::parse(line) {
                    Ok(json) => {
                        document_lines(&json, ident, String::new(), options, filter, &mut lines);
                    },
                    Err(_) => {},
                }
                proof {
                    assert(texts(lines@) == before + line_lines(o, f, line@, ident));
                    if end < input.len() {
                        assert(after_line(rest) =~= input@.skip(end as int + 1));
                    } else {
                        assert(after_line(rest) =~= input@.skip(end as int));
                    }
                    assert(before + (line_lines(o, f, line@, ident) + stream_lines(
                        o,
                        f,
                        after_line(rest),
                        ident as nat + 1,
                    )) =~= (before + line_lines(o, f, line@, ident)) + stream_lines(
                        o,
                        f,
                        after_line(rest),
                        ident as nat + 1,
                    ));
                }
                from = if end < input.len() {
                    end + 1
                } else {
                    end
                };
                ident = ident + 1;
            }
            proof {
                assert(input@.skip(from as int).len() == 0);
                assert(texts(lines@) =~= total);
            }
            Ok(lines)
        },
    }
}

} // verus!
