//! Rendering of a record as one delimited line.

use crate::error::ErrorKind;
use crate::filter::RegexOn;
use crate::output::{block_text, first_in_slot, BlockKind, BlockView, Builder, Output};
use vstd::prelude::*;
use vstd::string::StringExecFns;

verus! {

/// How records are rendered and which of them are kept.
#[derive(Debug, PartialEq, Eq)]
pub struct Options {
    /// Leave the type column out.
    pub hide_type: bool,
    /// The text between two fields.
    pub separator: String,
    /// The text before every field.
    pub left_delimiter: String,
    /// The text after every field.
    pub right_delimiter: String,
    /// The text that ends a record.
    pub end_of_record: String,
    /// The text that begins a record.
    pub beginning_of_record: String,
    /// Read one document per line and number them from this identifier on;
    /// the identifier becomes the first column.
    pub multi_documents: Option<usize>,
    /// The pattern that a record must match to be kept.
    pub regex: Option<String>,
    /// The column that the pattern is tested against.
    pub column: Option<RegexOn>,
}

/// The model of [`Options`].
pub ghost struct OptionsView {
    pub hide_type: bool,
    pub separator: Seq<char>,
    pub left_delimiter: Seq<char>,
    pub right_delimiter: Seq<char>,
    pub end_of_record: Seq<char>,
    pub beginning_of_record: Seq<char>,
    pub multi_documents: Option<usize>,
    pub regex: Option<Seq<char>>,
    pub column: Option<RegexOn>,
}

impl View for Options {
    type V = OptionsView;

    open spec fn view(&self) -> OptionsView {
        OptionsView {
            hide_type: self.hide_type,
            separator: self.separator@,
            left_delimiter: self.left_delimiter@,
            right_delimiter: self.right_delimiter@,
            end_of_record: self.end_of_record@,
            beginning_of_record: self.beginning_of_record@,
            multi_documents: self.multi_documents,
            regex: match self.regex {
                Some(p) => Some(p@),
                None => None,
            },
            column: self.column,
        }
    }
}

impl Default for Options {
    /// Fields between double quotes, separated by a comma and a space, one
    /// record per line, types shown, one document, no filter.
    fn default() -> (o: Options)
        ensures
            o@ == (OptionsView {
                hide_type: false,
                separator: ", "@,
                left_delimiter: "\""@,
                right_delimiter: "\""@,
                end_of_record: "\n"@,
                beginning_of_record: Seq::empty(),
                multi_documents: None,
                regex: None,
                column: None,
            }),
    {
        Options {
            hide_type: false,
            separator: String::from_str(", "),
            left_delimiter: String::from_str("\""),
            right_delimiter: String::from_str("\""),
            end_of_record: String::from_str("\n"),
            beginning_of_record: String::new(),
            multi_documents: None,
            regex: None,
            column: None,
        }
    }
}

/// The text a field shows in a line: a record without a value shows
/// `NO_VALUE`, every other block shows its own text.
pub open spec fn field_text(b: BlockView) -> Seq<char> {
    match b {
        BlockView::Value(None) => "NO_VALUE"@,
        _ => block_text(b),
    }
}

/// A field between its guards.
pub open spec fn guarded(o: OptionsView, text: Seq<char>) -> Seq<char> {
    o.left_delimiter + text + o.right_delimiter
}

/// A guarded field followed by the separator.
pub open spec fn column_of(o: OptionsView, b: BlockView) -> Seq<char> {
    guarded(o, field_text(b)) + o.separator
}

/// The name of the first field that the line needs and the record lacks,
/// in the order of the columns.
pub open spec fn missing_field(blocks: Seq<BlockView>, o: OptionsView) -> Option<Seq<char>> {
    if o.multi_documents is Some && first_in_slot(blocks, 0) is None {
        Some("ident"@)
    } else if !o.hide_type && first_in_slot(blocks, 2) is None {
        Some("type"@)
    } else if first_in_slot(blocks, 3) is None {
        Some("pointer"@)
    } else if first_in_slot(blocks, 4) is None {
        Some("value"@)
    } else {
        None
    }
}

/// The line of a record that lacks no field: the start of the record; the
/// identifier, when documents are numbered; the type, unless hidden; the
/// pointer; the value; the end of the record. Each field stands between the
/// guards, and the separator stands between two fields.
pub open spec fn line_of(blocks: Seq<BlockView>, o: OptionsView) -> Seq<char> {
    o.beginning_of_record + (if o.multi_documents is Some {
        column_of(o, first_in_slot(blocks, 0).unwrap())
    } else {
        Seq::empty()
    }) + (if !o.hide_type {
        column_of(o, first_in_slot(blocks, 2).unwrap())
    } else {
        Seq::empty()
    }) + column_of(o, first_in_slot(blocks, 3).unwrap()) + guarded(
        o,
        field_text(first_in_slot(blocks, 4).unwrap()),
    ) + o.end_of_record
}

/// The text of a block as a line shows it.
pub fn field_string(block: &BlockKind) -> (s: String)
    ensures
        s@ == field_text(block@),
{
    match block {
        BlockKind::Value(None) => String::from_str("NO_VALUE"),
        _ => block.to_string(),
    }
}

/// Appends a guarded field to `line`.
fn push_field(line: &mut String, options: &Options, block: &BlockKind)
    ensures
        final(line)@ == old(line)@ + guarded(options@, field_text(block@)),
{
    let text = field_string(block);
    line.append(options.left_delimiter.as_str());
    line.append(text.as_str());
    line.append(options.right_delimiter.as_str());
    proof {
        assert(line@ =~= old(line)@ + guarded(options@, field_text(block@)));
    }
}

/// Appends a guarded field and the separator to `line`.
fn push_column(line: &mut String, options: &Options, block: &BlockKind)
    ensures
        final(line)@ == old(line)@ + column_of(options@, block@),
{
    push_field(line, options, block);
    line.append(options.separator.as_str());
    proof {
        assert(line@ =~= old(line)@ + column_of(options@, block@));
    }
}

fn missing(name: &str) -> (r: Result<String, ErrorKind>)
    ensures
        r matches Err(ErrorKind::MissingField(n)) && n@ == name@,
{
    Err(ErrorKind::MissingField(String::from_str(name)))
}

/// Renders a record as one line. A record that lacks a field the line
/// needs gives `MissingField` with the field's name, and no line.
pub fn format_record(record: &Output, options: &Options) -> (r: Result<String, ErrorKind>)
    ensures
        match missing_field(record@, options@) {
            Some(name) => r matches Err(ErrorKind::MissingField(n)) && n@ == name,
            None => r matches Ok(line) && line@ == line_of(record@, options@),
        },
{
    let mut line = options.beginning_of_record.clone();
    if options.multi_documents.is_some() {
        match record.identifer() {
            Ok(block) => push_column(&mut line, options, &block),
            Err(_) => {
                return missing("ident");
            },
        }
    }
    if !options.hide_type {
        match record.jtype() {
            Ok(block) => push_column(&mut line, options, &block),
            Err(_) => {
                return missing("type");
            },
        }
    }
    match record.pointer() {
        Ok(block) => push_column(&mut line, options, &block),
        Err(_) => {
            return missing("pointer");
        },
    }
    match record.value() {
        Ok(block) => push_field(&mut line, options, &block),
        Err(_) => {
            return missing("value");
        },
    }
    line.append(options.end_of_record.as_str());
    proof {
        assert(line@ =~= line_of(record@, options@));
    }
    Ok(line)
}

} // verus!
