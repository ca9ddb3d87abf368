//! A scanner that follows a byte stream and knows, after every byte,
//! whether the stream stands inside a quoted string.

use vstd::prelude::*;

verus! {

/// Which side of a quote the scanner is on.
#[derive(Clone, Copy, PartialEq, Eq, Structural, Debug)]
enum ScanState {
    InQuotes,
    OutQuotes,
}

/// The byte `"`.
pub const QUOTE: u8 = 34;

/// The byte `\`.
pub const BACKSLASH: u8 = 92;

/// What one pull from a byte source yields, as far as the scanner cares.
pub ghost enum ScanEvent {
    /// A byte was read.
    Byte(u8),
    /// The read failed.
    Failure,
    /// The source is exhausted.
    End,
}

/// The model of a scanner.
pub ghost struct ScanView {
    /// Whether the scanner stands inside a quoted string.
    pub in_quotes: bool,
    /// Whether the byte before was a backslash that no backslash escaped.
    pub escape: bool,
    /// Bytes counted since the scanner last entered quotes.
    pub inside: nat,
    /// Bytes counted since the scanner last left quotes.
    pub outside: nat,
}

/// The state before any byte: outside quotes, nothing counted.
pub open spec fn scan_start() -> ScanView {
    ScanView { in_quotes: false, escape: false, inside: 0, outside: 0 }
}

/// One more byte counted on the side the scanner stands on.
pub open spec fn scan_count(s: ScanView) -> ScanView {
    if s.in_quotes {
        ScanView { inside: s.inside + 1, ..s }
    } else {
        ScanView { outside: s.outside + 1, ..s }
    }
}

/// The state after a quote that nothing escapes: the other side, with the
/// counter of the side just entered at zero.
pub open spec fn scan_toggle(s: ScanView) -> ScanView {
    if s.in_quotes {
        ScanView { in_quotes: false, outside: 0, ..s }
    } else {
        ScanView { in_quotes: true, inside: 0, ..s }
    }
}

/// The state after one event. A quote toggles the side unless the byte
/// before was an unescaped backslash, and is never counted. Any other byte
/// and a failed read are counted on the current side. A backslash escapes
/// the next byte unless it is escaped itself. The end of the source changes
/// nothing.
pub open spec fn scan_step(s: ScanView, e: ScanEvent) -> ScanView {
    match e {
        ScanEvent::Byte(b) => if b == QUOTE {
            if s.escape {
                ScanView { escape: false, ..s }
            } else {
                ScanView { escape: false, ..scan_toggle(s) }
            }
        } else {
            ScanView { escape: b == BACKSLASH && !s.escape, ..scan_count(s) }
        },
        ScanEvent::Failure => ScanView { escape: false, ..scan_count(s) },
        ScanEvent::End => s,
    }
}

/// Whether an event makes the scanner count.
pub open spec fn scan_counts(e: ScanEvent) -> bool {
    match e {
        ScanEvent::Byte(b) => b != QUOTE,
        ScanEvent::Failure => true,
        ScanEvent::End => false,
    }
}

/// The state after a run of bytes, read without failure.
pub open spec fn scan_bytes(s: ScanView, bytes: Seq<u8>) -> ScanView
    decreases bytes.len(),
{
    if bytes.len() == 0 {
        s
    } else {
        scan_step(scan_bytes(s, bytes.drop_last()), ScanEvent::Byte(bytes.last()))
    }
}

/// The event that an item pulled from a byte source stands for.
pub open spec fn event_of<E>(item: Option<Result<u8, E>>) -> ScanEvent {
    match item {
        Some(Ok(b)) => ScanEvent::Byte(b),
        Some(Err(_)) => ScanEvent::Failure,
        None => ScanEvent::End,
    }
}

/// An escape suppresses exactly one toggle: a backslash and a quote leave
/// the scanner on the side it was on, and the quote after them toggles.
pub proof fn lemma_escape_suppresses_one_toggle(s: ScanView)
    requires
        !s.escape,
    ensures
        scan_bytes(s, seq![BACKSLASH, QUOTE]).in_quotes == s.in_quotes,
        scan_bytes(s, seq![BACKSLASH, QUOTE, QUOTE]).in_quotes == !s.in_quotes,
{
    let one = seq![BACKSLASH];
    let two = seq![BACKSLASH, QUOTE];
    let three = seq![BACKSLASH, QUOTE, QUOTE];
    assert(one.drop_last() =~= Seq::<u8>::empty());
    assert(two.drop_last() =~= one);
    assert(three.drop_last() =~= two);
    assert(scan_bytes(s, one.drop_last()) == s);
    assert(scan_bytes(s, one) == scan_step(s, ScanEvent::Byte(BACKSLASH)));
    assert(scan_bytes(s, two) == scan_step(scan_bytes(s, one), ScanEvent::Byte(QUOTE)));
    assert(scan_bytes(s, three) == scan_step(scan_bytes(s, two), ScanEvent::Byte(QUOTE)));
}

/// A backslash that a backslash escapes does not escape the quote after
/// it: that quote toggles.
pub proof fn lemma_escaped_backslash_frees_quote(s: ScanView)
    requires
        !s.escape,
    ensures
        scan_bytes(s, seq![BACKSLASH, BACKSLASH, QUOTE]).in_quotes == !s.in_quotes,
{
    let one = seq![BACKSLASH];
    let two = seq![BACKSLASH, BACKSLASH];
    let three = seq![BACKSLASH, BACKSLASH, QUOTE];
    assert(one.drop_last() =~= Seq::<u8>::empty());
    assert(two.drop_last() =~= one);
    assert(three.drop_last() =~= two);
    assert(scan_bytes(s, one.drop_last()) == s);
    assert(scan_bytes(s, one) == scan_step(s, ScanEvent::Byte(BACKSLASH)));
    assert(scan_bytes(s, two) == scan_step(scan_bytes(s, one), ScanEvent::Byte(BACKSLASH)));
    assert(scan_bytes(s, three) == scan_step(scan_bytes(s, two), ScanEvent::Byte(QUOTE)));
}

/// Follows a byte stream and tracks on which side of a quote it stands.
pub struct JsonScan {
    escape: bool,
    state: ScanState,
    /// (inside quotes, outside quotes)
    offsets: (usize, usize),
}

impl View for JsonScan {
    type V = ScanView;

    closed spec fn view(&self) -> ScanView {
        ScanView {
            in_quotes: self.state == ScanState::InQuotes,
            escape: self.escape,
            inside: self.offsets.0 as nat,
            outside: self.offsets.1 as nat,
        }
    }
}

impl JsonScan {
    /// Whether the counter that `e` would advance has room for it.
    pub open spec fn has_room(&self, e: ScanEvent) -> bool {
        scan_counts(e) ==> if self@.in_quotes {
            self@.inside < usize::MAX
        } else {
            self@.outside < usize::MAX
        }
    }

    /// A scanner at the start of a stream.
    pub fn new() -> (scan: JsonScan)
        ensures
            scan@ == scan_start(),
    {
        JsonScan { escape: false, state: ScanState::OutQuotes, offsets: (0, 0) }
    }

    /// Whether the scanner stands outside quotes.
    pub fn outside_quotes(&self) -> (r: bool)
        ensures
            r == !self@.in_quotes,
    {
        match self.state {
            ScanState::OutQuotes => true,
            ScanState::InQuotes => false,
        }
    }

    /// The two counters: bytes since the scanner last entered quotes, and
    /// bytes since it last left them.
    pub fn offsets(&self) -> (r: (usize, usize))
        ensures
            r.0 == self@.inside,
            r.1 == self@.outside,
    {
        self.offsets
    }

    /// Handles a quote: toggles the side unless the quote is escaped.
    fn handle_state(&mut self)
        ensures
            final(self)@ == scan_step(old(self)@, ScanEvent::Byte(QUOTE)),
    {
        if self.escape {
            self.escape = false;
        } else {
            match self.state {
                ScanState::InQuotes => {
                    self.offsets.1 = 0;
                    self.state = ScanState::OutQuotes;
                },
                ScanState::OutQuotes => {
                    self.offsets.0 = 0;
                    self.state = ScanState::InQuotes;
                },
            }
        }
    }

    /// Counts one byte on the current side.
    fn increment_offset(&mut self)
        requires
            old(self).has_room(ScanEvent::Failure),
        ensures
            final(self)@ == scan_count(old(self)@),
    {
        match self.state {
            ScanState::InQuotes => {
                self.offsets.0 = self.offsets.0 + 1;
            },
            ScanState::OutQuotes => {
                self.offsets.1 = self.offsets.1 + 1;
            },
        }
    }

    /// Follows a run of bytes that were read without failure.
    pub fn feed(&mut self, bytes: &[u8])
        requires
            old(self)@.inside + bytes.len() <= usize::MAX,
            old(self)@.outside + bytes.len() <= usize::MAX,
        ensures
            final(self)@ == scan_bytes(old(self)@, bytes@),
    {
        let mut i: usize = 0;
        proof {
            assert(bytes@.take(0) =~= Seq::<u8>::empty());
        }
        while i < bytes.len()
            invariant
                i <= bytes.len(),
                self@ == scan_bytes(old(self)@, bytes@.take(i as int)),
                self@.inside <= old(self)@.inside + i,
                self@.outside <= old(self)@.outside + i,
                old(self)@.inside + bytes.len() <= usize::MAX,
                old(self)@.outside + bytes.len() <= usize::MAX,
            decreases bytes.len() - i,
        {
            proof {
                assert(bytes@.take(i as int + 1).drop_last() =~= bytes@.take(i as int));
                assert(bytes@.take(i as int + 1).last() == bytes@[i as int]);
            }
            let item: Option<Result<u8, ()>> = Some(Ok(bytes[i]));
            self.next(item);
            i += 1;
        }
        proof {
            assert(bytes@.take(i as int) =~= bytes@);
        }
    }

    /// Takes the next item pulled from the byte source, updates the state
    /// and hands the item on unchanged.
    pub fn next<E>(&mut self, item: Option<Result<u8, E>>) -> (r: Option<Result<u8, E>>)
        requires
            old(self).has_room(event_of(item)),
        ensures
            r == item,
            final(self)@ == scan_step(old(self)@, event_of(item)),
    {
        match item {
            Some(Ok(b)) => {
                if b == QUOTE {
                    self.handle_state();
                } else {
                    self.increment_offset();
                    self.escape = b == BACKSLASH && !self.escape;
                }
                Some(Ok(b))
            },
            Some(Err(e)) => {
                self.increment_offset();
                self.escape = false;
                Some(Err(e))
            },
            None => None,
        }
    }
}

} // verus!
