//! The errors this library reports, and how they are rendered and mapped to
//! exit codes.

use crate::text::{decimal, decimal_string};
use vstd::prelude::*;
use vstd::std_specs::convert::FromSpecImpl;
use vstd::string::StringExecFns;

verus! {

/// What went wrong.
#[derive(Debug, PartialEq, Eq)]
pub enum ErrorKind {
    /// Catch all.
    Generic,
    /// A free-form message, used for invalid configuration.
    Message(String),
    /// A worker did not return.
    ThreadFailed(String),
    /// A channel closed while data was still expected.
    UnexpectedChannelClose(String),
    /// An I/O failure or a malformed JSON document, with the cause's text.
    Io(String),
    /// Bytes that are not UTF-8, with the cause's text.
    UTF8(String),
    /// A record lacks a field that the output needs.
    MissingField(String),
}

/// Circumstances that change how an error is reported.
#[derive(Debug, PartialEq, Eq)]
pub enum Context {
    /// Free-form context.
    Overide(String),
    /// The input was at least as long as the line buffer of the given size.
    DataLenEqualLineBufferLen(usize),
}

/// An error kind together with the context it arose in, if any.
#[derive(Debug, PartialEq, Eq)]
pub struct Error {
    pub kind: ErrorKind,
    pub context: Option<Context>,
}


/// The text of an error kind.
pub open spec fn kind_text(kind: ErrorKind) -> Seq<char> {
    match kind {
        ErrorKind::Generic => "Generic Error"@,
        ErrorKind::Message(m) => m@,
        ErrorKind::ThreadFailed(e) => "Thread: "@ + e@ + " failed to return"@,
        ErrorKind::UnexpectedChannelClose(e) => "A channel quit unexpectedly: "@ + e@,
        ErrorKind::Io(e) => "An underlying IO error occurred: "@ + e@,
        ErrorKind::UTF8(e) => "Invalid or incomplete UTF-8: "@ + e@,
        ErrorKind::MissingField(e) => "Missing required field: "@ + e@,
    }
}

/// The text of an error kind seen in a context. Only an I/O failure on
/// input as long as the line buffer reads differently: it names the buffer
/// size and the way to raise it.
pub open spec fn context_text(kind: ErrorKind, context: Context) -> Seq<char> {
    match (kind, context) {
        (ErrorKind::Io(e), Context::DataLenEqualLineBufferLen(size)) =>
            "Input data size is >= input buffer, which likely lead to this error. Input buffer size is adjustable, try adding 'config --buf_in "@
            + decimal(size as nat) + "' (error: "@ + e@ + ")"@,
        _ => kind_text(kind),
    }
}

/// The text of an error.
pub open spec fn error_text(err: Error) -> Seq<char> {
    match err.context {
        Some(context) => context_text(err.kind, context),
        None => kind_text(err.kind),
    }
}

/// The text of the cause that an error kind wraps, if it wraps one.
pub open spec fn cause_text(kind: ErrorKind) -> Option<Seq<char>> {
    match kind {
        ErrorKind::Io(e) => Some(e@),
        ErrorKind::UTF8(e) => Some(e@),
        _ => None,
    }
}

/// The chain of an error: its own text, then the text of its cause, if
/// it has one.
pub open spec fn chain_of(err: Error) -> Seq<Seq<char>> {
    match cause_text(err.kind) {
        Some(cause) => seq![error_text(err), cause],
        None => seq![error_text(err)],
    }
}

/// The exit code that an error kind stands for: 2 for a worker that did
/// not return, 3 for a channel that closed too early, 1 for everything
/// else.
pub open spec fn exit_code(kind: ErrorKind) -> i32 {
    match kind {
        ErrorKind::ThreadFailed(_) => 2,
        ErrorKind::UnexpectedChannelClose(_) => 3,
        _ => 1,
    }
}

fn prefixed(prefix: &str, text: &String) -> (s: String)
    ensures
        s@ == prefix@ + text@,
{
    let mut s = String::from_str(prefix);
    s.append(text.as_str());
    s
}

impl ErrorKind {
    /// The text of this error kind.
    pub fn to_string(&self) -> (s: String)
        ensures
            s@ == kind_text(*self),
    {
        match self {
            ErrorKind::Generic => String::from_str("Generic Error"),
            ErrorKind::Message(m) => m.clone(),
            ErrorKind::ThreadFailed(e) => {
                let mut s = prefixed("Thread: ", e);
                s.append(" failed to return");
                s
            },
            ErrorKind::UnexpectedChannelClose(e) => prefixed("A channel quit unexpectedly: ", e),
            ErrorKind::Io(e) => prefixed("An underlying IO error occurred: ", e),
            ErrorKind::UTF8(e) => prefixed("Invalid or incomplete UTF-8: ", e),
            ErrorKind::MissingField(e) => prefixed("Missing required field: ", e),
        }
    }

    /// The text of the cause that this error kind wraps, if it wraps one.
    pub fn source(&self) -> (cause: Option<&String>)
        ensures
            match cause {
                Some(c) => cause_text(*self) == Some(c@),
                None => cause_text(*self) is None,
            },
    {
        match self {
            ErrorKind::Io(e) => Some(e),
            ErrorKind::UTF8(e) => Some(e),
            _ => None,
        }
    }
}

impl<'a> From<&'a str> for Context {
    fn from(s: &'a str) -> (c: Context)
        ensures
            c matches Context::Overide(t) && t@ == s@,
    {
        Context::Overide(String::from_str(s))
    }
}

impl<'a> FromSpecImpl<&'a str> for Context {
    open spec fn obeys_from_spec() -> bool {
        false
    }

    open spec fn from_spec(s: &'a str) -> Context {
        arbitrary()
    }
}

impl From<ErrorKind> for Error {
    fn from(kind: ErrorKind) -> (err: Error) {
        Error { kind, context: None }
    }
}

impl FromSpecImpl<ErrorKind> for Error {
    open spec fn obeys_from_spec() -> bool {
        true
    }

    open spec fn from_spec(kind: ErrorKind) -> Error {
        Error { kind, context: None }
    }
}

impl From<(ErrorKind, Context)> for Error {
    fn from(pair: (ErrorKind, Context)) -> (err: Error) {
        Error { kind: pair.0, context: Some(pair.1) }
    }
}

impl FromSpecImpl<(ErrorKind, Context)> for Error {
    open spec fn obeys_from_spec() -> bool {
        true
    }

    open spec fn from_spec(pair: (ErrorKind, Context)) -> Error {
        Error { kind: pair.0, context: Some(pair.1) }
    }
}

impl From<Error> for i32 {
    fn from(err: Error) -> (code: i32) {
        match err.kind {
            ErrorKind::ThreadFailed(_) => 2,
            ErrorKind::UnexpectedChannelClose(_) => 3,
            _ => 1,
        }
    }
}

impl FromSpecImpl<Error> for i32 {
    open spec fn obeys_from_spec() -> bool {
        true
    }

    open spec fn from_spec(err: Error) -> i32 {
        exit_code(err.kind)
    }
}

impl Error {
    /// The text of `err` seen in the context `con`.
    pub fn display_with_context(err: &ErrorKind, con: &Context) -> (s: String)
        ensures
            s@ == context_text(*err, *con),
    {
        match (err, con) {
            (ErrorKind::Io(e), Context::DataLenEqualLineBufferLen(size)) => {
                let mut s = String::from_str(
                    "Input data size is >= input buffer, which likely lead to this error. Input buffer size is adjustable, try adding 'config --buf_in ",
                );
                let digits = decimal_string(*size);
                s.append(digits.as_str());
                s.append("' (error: ");
                s.append(e.as_str());
                s.append(")");
                s
            },
            _ => err.to_string(),
        }
    }

    /// The text of this error.
    pub fn to_string(&self) -> (s: String)
        ensures
            s@ == error_text(*self),
    {
        match &self.context {
            Some(con) => Error::display_with_context(&self.kind, con),
            None => self.kind.to_string(),
        }
    }

    /// The text of the cause of this error, if it has one.
    pub fn source(&self) -> (cause: Option<&String>)
        ensures
            match cause {
                Some(c) => cause_text(self.kind) == Some(c@),
                None => cause_text(self.kind) is None,
            },
    {
        self.kind.source()
    }
}

/// Pairs the error of a result with the context it arose in.
pub trait ErrContext<T, E> {
    fn context<C>(self, context: C) -> Result<T, (E, C)>;
}

impl<T, E> ErrContext<T, E> for Result<T, E> {
    fn context<C>(self, context: C) -> (r: Result<T, (E, C)>)
        ensures
            r == match self {
                Ok(v) => Ok::<T, (E, C)>(v),
                Err(e) => Err::<T, (E, C)>((e, context)),
            },
    {
        match self {
            Ok(res) => Ok(res),
            Err(err) => Err((err, context)),
        }
    }
}

/// The texts of a chain, outermost first, joined by a colon and a space.
pub open spec fn joined(chain: Seq<Seq<char>>) -> Seq<char>
    decreases chain.len(),
{
    if chain.len() == 0 {
        Seq::empty()
    } else if chain.len() == 1 {
        chain[0]
    } else {
        joined(chain.drop_last()) + ": "@ + chain.last()
    }
}

/// The texts of a run of strings.
pub open spec fn chain_view(chain: Seq<String>) -> Seq<Seq<char>> {
    Seq::new(chain.len(), |i: int| chain[i]@)
}

/// Renders a chain of an error and its causes, outermost first: each
/// cause follows after a colon and a space.
pub fn join_chain(chain: &Vec<String>) -> (s: String)
    ensures
        s@ == joined(chain_view(chain@)),
{
    let mut s = String::new();
    let mut i: usize = 0;
    proof {
        assert(chain_view(chain@).take(0) =~= Seq::<Seq<char>>::empty());
    }
    while i < chain.len()
        invariant
            i <= chain.len(),
            s@ == joined(chain_view(chain@).take(i as int)),
        decreases chain.len() - i,
    {
        proof {
            let next = chain_view(chain@).take(i as int + 1);
            assert(next.drop_last() =~= chain_view(chain@).take(i as int));
            assert(next.last() == chain@[i as int]@);
            assert(Seq::<char>::empty() + chain@[i as int]@ =~= chain@[i as int]@);
        }
        if i > 0 {
            s.append(": ");
        }
        s.append(chain[i].as_str());
        i += 1;
    }
    proof {
        assert(chain_view(chain@).take(i as int) =~= chain_view(chain@));
    }
    s
}

/// Renders an error with its chain of causes: the error's own text, then
/// each cause after a colon and a space.
pub fn formated_error(err: &Error) -> (s: String)
    ensures
        s@ == joined(chain_of(*err)),
{
    let mut chain: Vec<String> = Vec::new();
    chain.push(err.to_string());
    match err.source() {
        Some(cause) => {
            chain.push(cause.clone());
        },
        None => {},
    }
    proof {
        assert(chain_view(chain@) =~= chain_of(*err));
    }
    join_chain(&chain)
}

} // verus!
