//! What nodes send while a test watches.
use vstd::prelude::*;

use crate::text;
use crate::text::{contains_text, decimal_text, joined2, joined4, owned};
use crate::wire::copy_range;

verus! {

/// Messages in the order in which they came.
#[derive(Debug, PartialEq, Eq)]
pub struct AsyncMessageBuffer<T> {
    messages: Vec<T>,
}

impl<T> View for AsyncMessageBuffer<T> {
    type V = Seq<T>;

    closed spec fn view(&self) -> Seq<T> {
        self.messages@
    }
}

impl<T> AsyncMessageBuffer<T> {
    pub fn new() -> (r: Self)
        ensures
            r@ == Seq::<T>::empty(),
    {
        AsyncMessageBuffer { messages: Vec::new() }
    }

    pub fn push(&mut self, msg: T)
        ensures
            final(self)@ == old(self)@.push(msg),
    {
        self.messages.push(msg);
    }

    /// The messages in the order in which they came.
    pub fn messages(&self) -> (r: &[T])
        ensures
            r@ == self@,
    {
        self.messages.as_slice()
    }

    /// Whether at least `count` messages have come.
    pub fn has_at_least(&self, count: usize) -> (r: bool)
        ensures
            r == (self@.len() >= count),
    {
        self.messages.len() >= count
    }

    pub fn clear(&mut self)
        ensures
            final(self)@ == Seq::<T>::empty(),
    {
        self.messages.clear();
    }
}

impl<T> Default for AsyncMessageBuffer<T> {
    fn default() -> (r: Self)
        ensures
            r@ == Seq::<T>::empty(),
    {
        AsyncMessageBuffer::new()
    }
}

/// The text that a serial line has carried.
#[derive(Debug, Clone, PartialEq, Eq)]
pub struct CapturedText {
    text: String,
}

impl View for CapturedText {
    type V = Seq<char>;

    closed spec fn view(&self) -> Seq<char> {
        self.text@
    }
}

impl CapturedText {
    pub fn new() -> (r: Self)
        ensures
            r@ == Seq::<char>::empty(),
    {
        proof {
            reveal_strlit("");
            assert(""@ =~= Seq::<char>::empty());
        }
        CapturedText { text: owned("") }
    }

    /// Takes note of more text.
    pub fn append(&mut self, more: &str)
        ensures
            final(self)@ == old(self)@ + more@,
    {
        self.text = joined2(self.text.as_str(), more);
    }

    /// Whether a pattern has come.
    pub fn holds(&self, pattern: &str) -> (r: bool)
        ensures
            r == text::occurs(self@, pattern@),
    {
        contains_text(self.text.as_str(), pattern)
    }

    /// The text so far.
    pub fn text(&self) -> (r: String)
        ensures
            r@ == self@,
    {
        owned(self.text.as_str())
    }

    pub fn clear(&mut self)
        ensures
            final(self)@ == Seq::<char>::empty(),
    {
        proof {
            reveal_strlit("");
            assert(""@ =~= Seq::<char>::empty());
        }
        self.text = owned("");
    }
}

/// The topic of a chip on a serial bus.
pub fn spi_topic(bus: &str, cs: u32) -> (r: String)
    ensures
        r@ == "sim/spi/"@ + bus@ + "/"@ + text::decimal(cs as nat),
{
    joined4("sim/spi/", bus, "/", decimal_text(cs as u64).as_str())
}

/// The four bytes that an echo sends back: those behind the header. `None` if there are too few.
pub fn spi_echo(request: &[u8], header_size: usize) -> (r: Option<Vec<u8>>)
    ensures
        match r {
            Some(data) => header_size + 4 <= request@.len() && data@ == request@.subrange(
                header_size as int,
                header_size + 4,
            ),
            None => header_size + 4 > request@.len(),
        },
{
    if request.len() < 4 || request.len() - 4 < header_size {
        return None;
    }
    Some(copy_range(request, header_size, header_size + 4))
}

} // verus!
