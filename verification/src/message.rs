//! The unit carried on the aggregation channel.
//!
//! Workers produce messages, the aggregator consumes them. A message is one
//! of: a completion marker (a worker's partition is exhausted), a secondary
//! identifier discovered inside an accepted record, or an accepted primary
//! record carried as its raw payload text.

use vstd::prelude::*;

verus! {

/// One message on the aggregation channel. Produced only by workers,
/// consumed only by the aggregator.
#[derive(Debug, PartialEq, Eq)]
pub enum Message {
    /// The sending worker's partition is exhausted; its last message.
    Completion,
    /// A secondary identifier found inside an accepted record.
    SecondaryIdentifier(usize),
    /// An accepted record's raw payload text, passed on verbatim.
    PrimaryRecord(String),
}

/// The mathematical shape of a `Message`: the payload text as a sequence.
pub ghost enum MessageView {
    Completion,
    SecondaryIdentifier(usize),
    PrimaryRecord(Seq<char>),
}

impl View for Message {
    type V = MessageView;

    open spec fn view(&self) -> MessageView {
        match self {
            Message::Completion => MessageView::Completion,
            Message::SecondaryIdentifier(id) => MessageView::SecondaryIdentifier(*id),
            Message::PrimaryRecord(text) => MessageView::PrimaryRecord(text@),
        }
    }
}

impl DeepView for Message {
    type V = MessageView;

    open spec fn deep_view(&self) -> MessageView {
        self.view()
    }
}

impl Clone for Message {
    /// A clone carries the same view.
    fn clone(&self) -> (other: Self)
        ensures
            other@ == self@,
    {
        match self {
            Message::Completion => Message::Completion,
            Message::SecondaryIdentifier(id) => Message::SecondaryIdentifier(*id),
            Message::PrimaryRecord(text) => Message::PrimaryRecord(text.clone()),
        }
    }
}

/// How many completion markers a message sequence holds.
pub open spec fn count_completions(msgs: Seq<MessageView>) -> nat
    decreases msgs.len(),
{
    if msgs.len() == 0 {
        0
    } else {
        count_completions(msgs.drop_last()) + if msgs.last() is Completion {
            1nat
        } else {
            0nat
        }
    }
}

/// The payload texts of the primary records of a message sequence, in order.
pub open spec fn primaries_of(msgs: Seq<MessageView>) -> Seq<Seq<char>>
    decreases msgs.len(),
{
    if msgs.len() == 0 {
        Seq::empty()
    } else {
        primaries_of(msgs.drop_last()) + match msgs.last() {
            MessageView::PrimaryRecord(text) => seq![text],
            _ => Seq::empty(),
        }
    }
}

/// The secondary identifiers of a message sequence, in order, duplicates
/// and all.
pub open spec fn secondaries_of(msgs: Seq<MessageView>) -> Seq<usize>
    decreases msgs.len(),
{
    if msgs.len() == 0 {
        Seq::empty()
    } else {
        secondaries_of(msgs.drop_last()) + match msgs.last() {
            MessageView::SecondaryIdentifier(id) => seq![id],
            _ => Seq::empty(),
        }
    }
}

/// A completion count is additive over concatenation.
pub proof fn lemma_count_completions_add(a: Seq<MessageView>, b: Seq<MessageView>)
    ensures
        count_completions(a + b) == count_completions(a) + count_completions(b),
    decreases b.len(),
{
    if b.len() == 0 {
        assert(a + b =~= a);
    } else {
        lemma_count_completions_add(a, b.drop_last());
        assert((a + b).drop_last() =~= a + b.drop_last());
        assert((a + b).last() == b.last());
    }
}

/// Taking one more message adds that message's completion marker, if it is
/// one, to the count.
pub proof fn lemma_count_completions_take_step(msgs: Seq<MessageView>, i: int)
    requires
        0 <= i < msgs.len(),
    ensures
        count_completions(msgs.take(i + 1)) == count_completions(msgs.take(i)) + if msgs[i]
            is Completion {
            1nat
        } else {
            0nat
        },
{
    assert(msgs.take(i + 1).drop_last() =~= msgs.take(i));
    assert(msgs.take(i + 1).last() == msgs[i]);
}

/// Taking one more message appends that message's primary payload, if it
/// has one, to the primaries.
pub proof fn lemma_primaries_take_step(msgs: Seq<MessageView>, i: int)
    requires
        0 <= i < msgs.len(),
    ensures
        primaries_of(msgs.take(i + 1)) == primaries_of(msgs.take(i)) + (match msgs[i] {
            MessageView::PrimaryRecord(text) => seq![text],
            _ => Seq::empty(),
        }),
{
    assert(msgs.take(i + 1).drop_last() =~= msgs.take(i));
    assert(msgs.take(i + 1).last() == msgs[i]);
}

/// Taking one more message appends that message's secondary identifier, if
/// it carries one, to the secondaries.
pub proof fn lemma_secondaries_take_step(msgs: Seq<MessageView>, i: int)
    requires
        0 <= i < msgs.len(),
    ensures
        secondaries_of(msgs.take(i + 1)) == secondaries_of(msgs.take(i)) + (match msgs[i] {
            MessageView::SecondaryIdentifier(id) => seq![id],
            _ => Seq::empty(),
        }),
{
    assert(msgs.take(i + 1).drop_last() =~= msgs.take(i));
    assert(msgs.take(i + 1).last() == msgs[i]);
}

/// The completion count never shrinks as a prefix grows.
pub proof fn lemma_count_completions_monotonic(msgs: Seq<MessageView>, i: int, j: int)
    requires
        0 <= i <= j <= msgs.len(),
    ensures
        count_completions(msgs.take(i)) <= count_completions(msgs.take(j)),
    decreases j - i,
{
    if i < j {
        lemma_count_completions_monotonic(msgs, i, j - 1);
        lemma_count_completions_take_step(msgs, j - 1);
    }
}

} // verus!
