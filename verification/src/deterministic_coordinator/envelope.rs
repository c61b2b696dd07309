//! Messages with what is known of the topic or link that they came on.
use vstd::prelude::*;

use crate::deterministic_coordinator::barrier::{CoordMessage, CoordMessageView, Held};
use crate::sorting::{Ranked, Sortable};
use crate::text;
use crate::text::owned;

verus! {

/// A message and where it came from.
#[derive(Debug, PartialEq, Eq)]
pub struct Envelope {
    pub message: CoordMessage,
    /// The topic that the message came on, without the node and what follows it.
    pub base_topic: Option<String>,
    /// The link that the message came on.
    pub link_id: Option<u32>,
}

#[verifier::ext_equal]
pub struct EnvelopeView {
    pub message: CoordMessageView,
    pub base_topic: Option<Seq<char>>,
    pub link_id: Option<u32>,
}

impl View for Envelope {
    type V = EnvelopeView;

    open spec fn view(&self) -> EnvelopeView {
        EnvelopeView {
            message: self.message@,
            base_topic: text::optional(self.base_topic),
            link_id: self.link_id,
        }
    }
}

/// Envelopes are ordered as their messages are.
impl Ranked for EnvelopeView {
    open spec fn rank_le(self, other: Self) -> bool {
        self.message.rank_le(other.message)
    }

    proof fn rank_total(a: Self, b: Self) {
        CoordMessageView::rank_total(a.message, b.message);
    }

    proof fn rank_transitive(a: Self, b: Self, c: Self) {
        CoordMessageView::rank_transitive(a.message, b.message, c.message);
    }
}

impl Sortable for Envelope {
    fn not_after(&self, other: &Self) -> (r: bool) {
        self.message.not_after(&other.message)
    }
}

impl Held for Envelope {
    fn duplicate(&self) -> (r: Self) {
        let base_topic = match &self.base_topic {
            Some(s) => Some(owned(s.as_str())),
            None => None,
        };
        Envelope { message: self.message.clone(), base_topic, link_id: self.link_id }
    }
}

} // verus!
