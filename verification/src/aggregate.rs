//! The aggregator: the single consumer of the aggregation channel.
//!
//! It classifies each incoming message, counts completion markers,
//! deduplicates secondary identifiers in a set it alone owns, and passes
//! primary records straight through for output. It is done — and stops
//! consuming — the instant the completion count reaches the worker count;
//! messages behind that point are deliberately left unread (best-effort
//! draining: a worker's own messages all precede its completion marker, so
//! only messages that violate that ordering can be lost).

use vstd::prelude::*;
use crate::message::{
    Message, MessageView, count_completions, primaries_of, secondaries_of,
    lemma_count_completions_take_step, lemma_primaries_take_step, lemma_secondaries_take_step,
    lemma_count_completions_monotonic,
};

verus! {

/// The secondary identifiers of `ids`, first occurrences only, in the order
/// the first occurrences arrive.
pub open spec fn dedup(ids: Seq<usize>) -> Seq<usize>
    decreases ids.len(),
{
    if ids.len() == 0 {
        Seq::empty()
    } else {
        let rest = dedup(ids.drop_last());
        if rest.contains(ids.last()) {
            rest
        } else {
            rest.push(ids.last())
        }
    }
}

/// Law: deduplication keeps each distinct inserted identifier exactly once —
/// the result has no duplicates yet holds exactly the identifiers inserted —
/// and inserting an identifier a second time is a no-op.
pub proof fn lemma_dedup_exactly_once(ids: Seq<usize>)
    ensures
        dedup(ids).no_duplicates(),
        dedup(ids).to_set() == ids.to_set(),
        forall|x: usize| ids.contains(x) ==> dedup(ids.push(x)) == dedup(ids),
    decreases ids.len(),
{
    if ids.len() == 0 {
        assert(dedup(ids).to_set() =~= ids.to_set());
    } else {
        lemma_dedup_exactly_once(ids.drop_last());
        let rest = dedup(ids.drop_last());
        let last = ids.last();
        if !rest.contains(last) {
            assert forall|i: int, j: int|
                0 <= i < dedup(ids).len() && 0 <= j < dedup(ids).len() && i != j implies dedup(
                ids,
            )[i] != dedup(ids)[j] by {
                if i == rest.len() && dedup(ids)[i] == dedup(ids)[j] {
                    assert(rest[j] == last);
                } else if j == rest.len() && dedup(ids)[i] == dedup(ids)[j] {
                    assert(rest[i] == last);
                }
            }
        }
        assert forall|x: usize| ids.contains(x) implies dedup(ids).contains(x) by {
            let i = choose|i: int| 0 <= i < ids.len() && ids[i] == x;
            if i < ids.len() - 1 {
                assert(ids.drop_last()[i] == x);
                assert(ids.drop_last().contains(x));
                assert(rest.to_set().contains(x));
                assert(rest.contains(x));
                if !rest.contains(last) {
                    let j = choose|j: int| 0 <= j < rest.len() && rest[j] == x;
                    assert(dedup(ids)[j] == x);
                }
            } else {
                assert(x == last);
                if !rest.contains(last) {
                    assert(dedup(ids)[rest.len() as int] == x);
                }
            }
        }
        assert forall|x: usize| dedup(ids).contains(x) implies ids.contains(x) by {
            let j = choose|j: int| 0 <= j < dedup(ids).len() && dedup(ids)[j] == x;
            if j < rest.len() {
                assert(rest[j] == x);
                assert(rest.to_set().contains(x));
                assert(ids.drop_last().contains(x));
                let i = choose|i: int|
                    0 <= i < ids.drop_last().len() && ids.drop_last()[i] == x;
                assert(ids[i] == x);
            } else {
                assert(x == last);
                assert(ids[ids.len() - 1] == x);
            }
        }
        assert(dedup(ids).to_set() =~= ids.to_set());
    }
    assert forall|x: usize| ids.contains(x) implies dedup(ids.push(x)) == dedup(ids) by {
        assert(ids.push(x).drop_last() =~= ids);
        assert(ids.push(x).last() == x);
        assert(ids.to_set().contains(x));
        assert(dedup(ids).to_set().contains(x));
        assert(dedup(ids).contains(x));
    }
}

/// The aggregator's state: the number of workers it waits for, how many
/// completion markers it has seen, and the secondary identifiers seen so
/// far, each kept once, in first-arrival order.
pub struct Aggregator {
    pub workers: usize,
    pub completions: usize,
    pub seen: Vec<usize>,
}

/// What one `drain` run produced: the primary payloads in arrival order,
/// the deduplicated secondary identifiers, whether the aggregator reached
/// `Done`, and how many messages it consumed before stopping.
pub struct DrainOutcome {
    pub primaries: Vec<String>,
    pub secondary_ids: Vec<usize>,
    pub done: bool,
    pub consumed: usize,
}

impl Aggregator {
    /// The state invariant: at least one worker, no more completions than
    /// workers, and the seen identifiers hold no duplicate.
    pub open spec fn wf(&self) -> bool {
        &&& self.workers >= 1
        &&& self.completions <= self.workers
        &&& self.seen@.no_duplicates()
    }

    /// `Done`: every worker has reported completion.
    pub open spec fn spec_done(&self) -> bool {
        self.completions == self.workers
    }

    /// A fresh aggregator waiting for `workers` completion markers.
    pub fn new(workers: usize) -> (agg: Aggregator)
        requires
            workers >= 1,
        ensures
            agg.wf(),
            agg.workers == workers,
            agg.completions == 0,
            agg.seen@ == Seq::<usize>::empty(),
    {
        Aggregator { workers, completions: 0, seen: Vec::new() }
    }

    /// Whether the aggregator has reached `Done`. It is `Done` exactly when
    /// it has received as many completion markers as there are workers.
    pub fn is_done(&self) -> (done: bool)
        ensures
            done == self.spec_done(),
    {
        self.completions == self.workers
    }

    /// Consume one message: a completion marker raises the completion count
    /// by exactly one; a secondary identifier joins the seen set unless it
    /// is already there (a duplicate insert is a no-op); a primary record
    /// leaves the state untouched and comes back out for immediate output.
    pub fn step(&mut self, msg: Message) -> (out: Option<String>)
        requires
            old(self).wf(),
            !old(self).spec_done(),
        ensures
            final(self).wf(),
            final(self).workers == old(self).workers,
            (match msg@ {
                MessageView::Completion => {
                    &&& final(self).completions == old(self).completions + 1
                    &&& final(self).seen@ == old(self).seen@
                    &&& out is None
                },
                MessageView::SecondaryIdentifier(id) => {
                    &&& final(self).completions == old(self).completions
                    &&& final(self).seen@ == (if old(self).seen@.contains(id) {
                        old(self).seen@
                    } else {
                        old(self).seen@.push(id)
                    })
                    &&& out is None
                },
                MessageView::PrimaryRecord(text) => {
                    &&& *final(self) == *old(self)
                    &&& out matches Some(line) && line@ == text
                },
            }),
    {
        match msg {
            Message::Completion => {
                self.completions = self.completions + 1;
                None
            },
            Message::SecondaryIdentifier(id) => {
                if !contains_id(&self.seen, id) {
                    let ghost pre = self.seen@;
                    self.seen.push(id);
                    proof {
                        assert forall|i: int, j: int|
                            0 <= i < self.seen@.len() && 0 <= j < self.seen@.len() && i
                                != j implies self.seen@[i] != self.seen@[j] by {
                            if i == pre.len() as int {
                                assert(self.seen@[j] == pre[j]);
                            } else if j == pre.len() as int {
                                assert(self.seen@[i] == pre[i]);
                            }
                        }
                    }
                }
                None
            },
            Message::PrimaryRecord(text) => Some(text),
        }
    }

    /// Hand the deduplicated secondary identifiers over for output, ending
    /// the aggregator's life. Order is first arrival; the contract of the
    /// run that filled the set says which identifiers are in it.
    pub fn flush(self) -> (ids: Vec<usize>)
        ensures
            ids@ == self.seen@,
    {
        self.seen
    }
}

/// Whether `ids` holds `id`.
fn contains_id(ids: &Vec<usize>, id: usize) -> (found: bool)
    ensures
        found == ids@.contains(id),
{
    let mut i: usize = 0;
    while i < ids.len()
        invariant
            i <= ids@.len(),
            forall|k: int| 0 <= k < i ==> ids@[k] != id,
        decreases ids@.len() - i,
    {
        if ids[i] == id {
            return true;
        }
        i = i + 1;
    }
    false
}

/// Run the aggregator over a message stream, in order, stopping the moment
/// the completion count reaches `workers` (or at the stream's end).
///
/// The contract pins the run down exactly: the consumed prefix is the
/// shortest one holding `workers` completion markers (or the whole stream,
/// when the aggregator does not finish); the aggregator is `Done` if and
/// only if it has received exactly `workers` completion markers — that is,
/// if and only if the whole stream holds at least that many, whatever other
/// messages are interleaved; the primaries out are exactly the primary
/// payloads of the consumed prefix, in order; and the secondary identifiers
/// out are the deduplicated secondary identifiers of the consumed prefix.
pub fn drain(workers: usize, msgs: &Vec<Message>) -> (out: DrainOutcome)
    requires
        workers >= 1,
    ensures
        out.consumed <= msgs@.len(),
        out.done <==> count_completions(msgs.deep_view().take(out.consumed as int)) == workers,
        out.done <==> count_completions(msgs.deep_view()) >= workers,
        !out.done ==> out.consumed == msgs@.len(),
        forall|p: int|
            0 <= p < out.consumed ==> count_completions(#[trigger] msgs.deep_view().take(p))
                < workers,
        out.primaries.deep_view() == primaries_of(msgs.deep_view().take(out.consumed as int)),
        out.secondary_ids@ == dedup(secondaries_of(msgs.deep_view().take(out.consumed as int))),
{
    let ghost mv = msgs.deep_view();
    let mut agg = Aggregator::new(workers);
    let mut primaries: Vec<String> = Vec::new();
    let n = msgs.len();
    let mut i: usize = 0;
    proof {
        assert(mv.take(0) =~= Seq::<MessageView>::empty());
    }
    while i < n && !agg.is_done()
        invariant
            mv == msgs.deep_view(),
            n == msgs@.len(),
            mv.len() == n,
            i <= n,
            agg.wf(),
            agg.workers == workers,
            agg.completions == count_completions(mv.take(i as int)),
            forall|p: int| 0 <= p < i ==> count_completions(#[trigger] mv.take(p)) < workers,
            primaries.deep_view() == primaries_of(mv.take(i as int)),
            agg.seen@ == dedup(secondaries_of(mv.take(i as int))),
        decreases n - i,
    {
        let ghost pre = mv.take(i as int);
        proof {
            lemma_count_completions_take_step(mv, i as int);
            lemma_primaries_take_step(mv, i as int);
            lemma_secondaries_take_step(mv, i as int);
            assert(mv[i as int] == msgs@[i as int]@);
        }
        let msg = msgs[i].clone();
        let line = agg.step(msg);
        match line {
            Some(text) => {
                let ghost pre_lines = primaries.deep_view();
                let ghost prev = primaries@;
                primaries.push(text);
                proof {
                    assert forall|m: int|
                        0 <= m < primaries@.len() implies primaries.deep_view()[m] == primaries_of(
                        mv.take(i + 1),
                    )[m] by {
                        if m < prev.len() {
                            assert(primaries.deep_view()[m] == prev[m]@);
                            assert(prev[m]@ == pre_lines[m]);
                        }
                    }
                    assert(primaries.deep_view() =~= primaries_of(mv.take(i + 1)));
                }
            },
            None => {
                proof {
                    if mv[i as int] is SecondaryIdentifier {
                        let sec = secondaries_of(pre);
                        let id = mv[i as int]->SecondaryIdentifier_0;
                        assert(secondaries_of(mv.take(i + 1)) =~= sec.push(id));
                        assert(sec.push(id).drop_last() =~= sec);
                        assert(primaries_of(mv.take(i + 1)) =~= primaries_of(pre));
                    } else {
                        assert(secondaries_of(mv.take(i + 1)) =~= secondaries_of(pre));
                        assert(primaries_of(mv.take(i + 1)) =~= primaries_of(pre));
                    }
                }
            },
        }
        i = i + 1;
    }
    let done = agg.is_done();
    proof {
        if done {
            lemma_count_completions_monotonic(mv, i as int, mv.len() as int);
            assert(mv.take(mv.len() as int) =~= mv);
        } else {
            assert(i == n);
            assert(mv.take(n as int) =~= mv);
            assert(count_completions(mv) < workers);
        }
    }
    let secondary_ids = agg.flush();
    DrainOutcome { primaries, secondary_ids, done, consumed: i }
}

} // verus!
