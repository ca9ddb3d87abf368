//! The optional filter: a regular expression tested against one column of
//! a record.

use crate::error::ErrorKind;
use crate::format::{field_string, field_text, Options, OptionsView};
use crate::output::{first_in_slot, BlockView, Builder, Output};
use crate::text::same_text;
use vstd::prelude::*;
use vstd::std_specs::convert::FromSpecImpl;
use vstd::string::StringExecFns;

verus! {

/// The column that a pattern is tested against.
#[derive(Debug, Clone, Copy, PartialEq, Eq, Structural)]
pub enum RegexOn {
    /// The pointer.
    Entry,
    /// The value.
    Value,
    /// The type.
    Type,
    /// The separator itself.
    Separator,
}

/// The column that a name stands for; an unknown name stands for the
/// pointer.
pub open spec fn column_named(name: Seq<char>) -> RegexOn {
    if name == "key"@ {
        RegexOn::Entry
    } else if name == "type"@ {
        RegexOn::Type
    } else if name == "sep"@ {
        RegexOn::Separator
    } else if name == "value"@ {
        RegexOn::Value
    } else {
        RegexOn::Entry
    }
}

impl<'a> From<&'a str> for RegexOn {
    fn from(s: &'a str) -> (column: RegexOn) {
        if same_text(s, "key") {
            RegexOn::Entry
        } else if same_text(s, "type") {
            RegexOn::Type
        } else if same_text(s, "sep") {
            RegexOn::Separator
        } else if same_text(s, "value") {
            RegexOn::Value
        } else {
            RegexOn::Entry
        }
    }
}

impl<'a> FromSpecImpl<&'a str> for RegexOn {
    open spec fn obeys_from_spec() -> bool {
        true
    }

    open spec fn from_spec(s: &'a str) -> RegexOn {
        column_named(s@)
    }
}

impl Default for RegexOn {
    fn default() -> (column: RegexOn)
        ensures
            column == RegexOn::Entry,
    {
        RegexOn::Entry
    }
}

/// `regex::Regex`, a compiled regular expression, carried as it is.
#[verifier::external_type_specification]
#[verifier::external_body]
pub struct ExRegex(regex::Regex);

/// The pattern that a compiled expression was made from: what
/// `regex::Regex::as_str` returns.
pub uninterp spec fn regex_source(regex: regex::Regex) -> Seq<char>;

/// The message with which `regex::Regex::new` refuses a pattern, or `None`
/// where it accepts the pattern.
pub uninterp spec fn regex_refusal(pattern: Seq<char>) -> Option<Seq<char>>;

/// Whether the expression compiled from `pattern` matches somewhere in
/// `text`: what `regex::Regex::is_match` returns.
pub uninterp spec fn regex_is_match(pattern: Seq<char>, text: Seq<char>) -> bool;

/// `regex::Regex::new`, a refusal turned into its message by `Display`.
/// The expression it returns remembers the pattern it was given.
#[verifier::external_body]
fn compile(pattern: &str) -> (r: Result<regex::Regex, String>)
    ensures
        match r {
            Ok(regex) => regex_refusal(pattern@) is None && regex_source(regex) == pattern@,
            Err(message) => regex_refusal(pattern@) == Some(message@),
        },
{
    regex::Regex::new(pattern).map_err(|e: regex::Error| e.to_string())
}

/// `regex::Regex::is_match`, on an expression that `regex::Regex::new`
/// compiled: the answer depends on the pattern and the text alone.
#[verifier::external_body]
fn is_match(regex: &regex::Regex, text: &str) -> (b: bool)
    ensures
        b == regex_is_match(regex_source(*regex), text@),
{
    regex.is_match(text)
}

/// A compiled pattern and the column it is tested against.
pub struct RegexOptions {
    regex: regex::Regex,
    column: RegexOn,
}

/// The model of a filter: its pattern and its column.
pub ghost struct FilterView {
    pub pattern: Seq<char>,
    pub column: RegexOn,
}

impl View for RegexOptions {
    type V = FilterView;

    closed spec fn view(&self) -> FilterView {
        FilterView { pattern: regex_source(self.regex), column: self.column }
    }
}

/// The text of the column that a filter looks at, where the record has it.
pub open spec fn column_text(blocks: Seq<BlockView>, o: OptionsView, column: RegexOn) -> Option<
    Seq<char>,
> {
    match column {
        RegexOn::Entry => match first_in_slot(blocks, 3) {
            Some(b) => Some(field_text(b)),
            None => None,
        },
        RegexOn::Type => match first_in_slot(blocks, 2) {
            Some(b) => Some(field_text(b)),
            None => None,
        },
        RegexOn::Value => match first_in_slot(blocks, 4) {
            Some(b) => Some(field_text(b)),
            None => None,
        },
        RegexOn::Separator => Some(o.separator),
    }
}

/// The name of the field that a column shows.
pub open spec fn column_field(column: RegexOn) -> Seq<char> {
    match column {
        RegexOn::Entry => "pointer"@,
        RegexOn::Type => "type"@,
        RegexOn::Value => "value"@,
        RegexOn::Separator => "separator"@,
    }
}

/// The words with which a conflicting configuration is refused.
pub open spec fn conflict_message() -> Seq<char> {
    "cannot match on the type column while types are hidden"@
}

/// Whether a configuration asks to match on the type column while types
/// are hidden.
pub open spec fn filter_conflict(o: OptionsView) -> bool {
    o.regex is Some && o.column == Some(RegexOn::Type) && o.hide_type
}

impl RegexOptions {
    /// Compiles `pattern` for `column`. A pattern that does not compile
    /// gives `Message` with the compiler's words.
    pub fn new(pattern: &str, column: RegexOn) -> (r: Result<RegexOptions, ErrorKind>)
        ensures
            match r {
                Ok(filter) => regex_refusal(pattern@) is None && filter@ == (FilterView {
                    pattern: pattern@,
                    column,
                }),
                Err(e) => e matches ErrorKind::Message(m) && regex_refusal(pattern@) == Some(m@),
            },
    {
        match compile(pattern) {
            Ok(regex) => Ok(RegexOptions { regex, column }),
            Err(message) => Err(ErrorKind::Message(message)),
        }
    }

    /// The filter that `options` configure, checked before any input is
    /// read: `None` where no pattern or no column is set; an error where
    /// the column is the type while types are hidden, or where the pattern
    /// does not compile.
    pub fn from_options(options: &Options) -> (r: Result<Option<RegexOptions>, ErrorKind>)
        ensures
            match (options@.regex, options@.column) {
                (Some(pattern), Some(column)) => if filter_conflict(options@) {
                    r matches Err(ErrorKind::Message(m)) && m@ == conflict_message()
                } else {
                    match r {
                        Ok(Some(filter)) => regex_refusal(pattern) is None && filter@ == (
                        FilterView { pattern, column }),
                        Ok(None) => false,
                        Err(e) => e matches ErrorKind::Message(m) && regex_refusal(pattern) == Some(
                            m@,
                        ),
                    }
                },
                _ => r matches Ok(None),
            },
    {
        match (&options.regex, &options.column) {
            (Some(pattern), Some(column)) => {
                if options.hide_type && *column == RegexOn::Type {
                    Err(
                        ErrorKind::Message(
                            String::from_str(
                                "cannot match on the type column while types are hidden",
                            ),
                        ),
                    )
                } else {
                    match RegexOptions::new(pattern.as_str(), *column) {
                        Ok(filter) => Ok(Some(filter)),
                        Err(e) => Err(e),
                    }
                }
            },
            _ => Ok(None),
        }
    }

    /// The compiled pattern.
    pub fn get_regex(&self) -> (regex: &regex::Regex)
        ensures
            regex_source(*regex) == self@.pattern,
    {
        &self.regex
    }

    /// The column the pattern is tested against.
    pub fn get_column(&self) -> (column: &RegexOn)
        ensures
            *column == self@.column,
    {
        &self.column
    }

    /// Whether the filter keeps `record`: whether the pattern matches the
    /// text of the chosen column. A record that lacks that column gives
    /// `MissingField` with the field's name.
    pub fn accepts(&self, record: &Output, options: &Options) -> (r: Result<bool, ErrorKind>)
        ensures
            match column_text(record@, options@, self@.column) {
                Some(text) => r matches Ok(b) && b == regex_is_match(self@.pattern, text),
                None => r matches Err(ErrorKind::MissingField(n)) && n@ == column_field(
                    self@.column,
                ),
            },
    {
        let found = match self.column {
            RegexOn::Entry => record.pointer(),
            RegexOn::Type => record.jtype(),
            RegexOn::Value => record.value(),
            RegexOn::Separator => {
                return Ok(is_match(&self.regex, options.separator.as_str()));
            },
        };
        match found {
            Ok(block) => {
                let text = field_string(&block);
                Ok(is_match(&self.regex, text.as_str()))
            },
            Err(_) => Err(
                ErrorKind::MissingField(
                    String::from_str(
                        match self.column {
                            RegexOn::Entry => "pointer",
                            RegexOn::Type => "type",
                            RegexOn::Value => "value",
                            RegexOn::Separator => "separator",
                        },
                    ),
                ),
            ),
        }
    }
}

} // verus!
