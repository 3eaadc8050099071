//! The worker's decisions: decode, filter, and message construction.
//!
//! A worker owns one partition, fetches one payload at a time, and decides
//! per fetch outcome which messages to emit. Those decisions live here as
//! pure functions over plain values; the caller performs the fetches and
//! carries the messages to the channel. A failed fetch contributes no
//! message at all — the identifier is silently skipped; a worker's own
//! message stream ends with exactly one completion marker.

use vstd::prelude::*;
use crate::message::{Message, MessageView, count_completions, lemma_count_completions_add};
use crate::record::{Movie, Credits, IdObject, filter_movie, spec_accepts, standard_config};

verus! {

/// What one payload text decodes to, if it has the record's shape: the
/// decoded record's mathematical shape, a fixed function of the text alone.
pub uninterp spec fn movie_of(s: Seq<char>) -> Option<crate::record::MovieView>;

/// Relies on serde_json::from_str and serde_json::Value's accessors: the
/// document's `budget` and `revenue` numbers and the `id` of each entry of
/// its `genres`, `credits.cast` and `credits.crew` arrays, when all of
/// those are present; anything malformed decodes to nothing. The result is
/// a function of the text alone.
#[verifier::external_body]
fn decode_movie(s: &str) -> (decoded: Option<Movie>)
    ensures
        decoded is Some <==> movie_of(s@) is Some,
        decoded matches Some(movie) ==> movie@ == movie_of(s@).unwrap(),
{
    let v: serde_json::Value = match serde_json::from_str(s) {
        Ok(v) => v,
        Err(_) => return None,
    };
    let ids = |a: &serde_json::Value| -> Option<Vec<IdObject>> {
        a.as_array()?.iter().map(
            |x| x["id"].as_u64().and_then(|n| usize::try_from(n).ok()).map(|id| IdObject { id }),
        ).collect()
    };
    Some(Movie {
        budget: usize::try_from(v["budget"].as_u64()?).ok()?,
        revenue: usize::try_from(v["revenue"].as_u64()?).ok()?,
        genres: ids(&v["genres"])?,
        credits: Credits { cast: ids(&v["credits"]["cast"])?, crew: ids(&v["credits"]["crew"])? },
    })
}

/// Which entity kind a run fetches: the primary (movie) kind, which is
/// decoded and filtered, or the secondary (person) kind, which is passed
/// through unfiltered.
#[derive(Clone, Copy, Debug, PartialEq, Eq, Structural)]
pub enum DataResponse {
    Movie,
    Actor,
}

/// The messages a worker emits for one primary payload: nothing if the text
/// does not decode or the record is rejected; otherwise the record itself
/// followed by one secondary identifier per cast member.
pub open spec fn spec_movie_messages(s: Seq<char>) -> Seq<MessageView> {
    match movie_of(s) {
        Option::None => Seq::empty(),
        Option::Some(m) => if spec_accepts(standard_config(), m) {
            seq![MessageView::PrimaryRecord(s)] + m.cast.map_values(
                |id: usize| MessageView::SecondaryIdentifier(id),
            )
        } else {
            Seq::empty()
        },
    }
}

/// The messages a worker emits for one fetch outcome: nothing for a failed
/// fetch; for a fetched text, the primary kind decodes and filters while
/// the secondary kind passes the text through.
pub open spec fn spec_response_messages(mode: DataResponse, response: Option<Seq<char>>) -> Seq<
    MessageView,
> {
    match response {
        Option::None => Seq::empty(),
        Option::Some(s) => match mode {
            DataResponse::Movie => spec_movie_messages(s),
            DataResponse::Actor => seq![MessageView::PrimaryRecord(s)],
        },
    }
}

/// Every message a worker emits for its fetch outcomes, in order, before
/// its completion marker.
pub open spec fn spec_worker_body(mode: DataResponse, responses: Seq<Option<Seq<char>>>) -> Seq<
    MessageView,
>
    decreases responses.len(),
{
    if responses.len() == 0 {
        Seq::empty()
    } else {
        spec_worker_body(mode, responses.drop_last()) + spec_response_messages(
            mode,
            responses.last(),
        )
    }
}

/// A worker's whole message stream: its body, then exactly one completion
/// marker, last.
pub open spec fn spec_worker_messages(mode: DataResponse, responses: Seq<Option<Seq<char>>>) -> Seq<
    MessageView,
> {
    spec_worker_body(mode, responses) + seq![MessageView::Completion]
}

/// Decide the messages for one primary payload text: decode it; if it has
/// the record's shape and the filter accepts it, emit the raw text as a
/// primary record followed by one secondary identifier per cast member;
/// otherwise (decode failure is rejection) emit nothing.
pub fn parse_movie_string(movie_string: String) -> (msgs: Vec<Message>)
    ensures
        msgs.deep_view() == spec_movie_messages(movie_string@),
{
    let ghost s = movie_string@;
    let decoded = decode_movie(movie_string.as_str());
    match decoded {
        Option::None => {
            let msgs: Vec<Message> = Vec::new();
            proof {
                assert(msgs.deep_view() =~= spec_movie_messages(s));
            }
            msgs
        },
        Option::Some(movie) => {
            if filter_movie(&movie) {
                let mut msgs: Vec<Message> = Vec::new();
                msgs.push(Message::PrimaryRecord(movie_string));
                let n = movie.credits.cast.len();
                let mut i: usize = 0;
                while i < n
                    invariant
                        n == movie.credits.cast@.len(),
                        i <= n,
                        movie@ == movie_of(s).unwrap(),
                        movie_of(s) is Some,
                        msgs.deep_view().len() == 1 + i,
                        msgs.deep_view()[0] == MessageView::PrimaryRecord(s),
                        forall|j: int|
                            0 <= j < i ==> #[trigger] msgs.deep_view()[j + 1]
                                == MessageView::SecondaryIdentifier(movie@.cast[j]),
                    decreases n - i,
                {
                    let id = movie.credits.cast[i].id;
                    let ghost pre = msgs.deep_view();
                    msgs.push(Message::SecondaryIdentifier(id));
                    proof {
                        assert(movie@.cast[i as int] == id);
                        assert forall|j: int|
                            0 <= j < i + 1 implies #[trigger] msgs.deep_view()[j + 1]
                            == MessageView::SecondaryIdentifier(movie@.cast[j]) by {
                            if j < i {
                                assert(msgs.deep_view()[j + 1] == pre[j + 1]);
                            } else {
                                assert(msgs.deep_view()[j + 1] == Message::SecondaryIdentifier(
                                    id,
                                )@);
                            }
                        }
                        assert(msgs.deep_view()[0] == pre[0]);
                    }
                    i = i + 1;
                }
                proof {
                    assert(movie@.cast.len() == n);
                    let rhs = spec_movie_messages(s);
                    let mapped = movie@.cast.map_values(
                        |id: usize| MessageView::SecondaryIdentifier(id),
                    );
                    assert(rhs == seq![MessageView::PrimaryRecord(s)] + mapped);
                    assert forall|m: int|
                        0 <= m < 1 + n implies msgs.deep_view()[m] == rhs[m] by {
                        if m == 0 {
                            assert(rhs[0] == MessageView::PrimaryRecord(s));
                        } else {
                            assert(rhs[m] == mapped[m - 1]);
                            assert(mapped[m - 1] == MessageView::SecondaryIdentifier(
                                movie@.cast[m - 1],
                            ));
                            assert(msgs.deep_view()[(m - 1) + 1] == MessageView::SecondaryIdentifier(
                                movie@.cast[m - 1],
                            ));
                        }
                    }
                    assert(msgs.deep_view() =~= spec_movie_messages(s));
                }
                msgs
            } else {
                let msgs: Vec<Message> = Vec::new();
                proof {
                    assert(msgs.deep_view() =~= spec_movie_messages(s));
                }
                msgs
            }
        },
    }
}

/// Decide the message for one secondary payload text: it is passed through
/// unfiltered, verbatim, as a primary record for the secondary run's output.
pub fn parse_actor_string(actor_string: String) -> (msg: Message)
    ensures
        msg@ == MessageView::PrimaryRecord(actor_string@),
{
    Message::PrimaryRecord(actor_string)
}

/// Decide the messages for one fetch outcome: a failed fetch (transport
/// failure, bad status, unreadable body — all alike) yields no message and
/// no error; a fetched text yields its kind's messages.
pub fn messages_for_response(mode: DataResponse, response: Option<String>) -> (msgs: Vec<Message>)
    ensures
        msgs.deep_view() == spec_response_messages(mode, response.deep_view()),
{
    match response {
        Option::None => {
            let msgs: Vec<Message> = Vec::new();
            proof {
                assert(msgs.deep_view() =~= Seq::<MessageView>::empty());
            }
            msgs
        },
        Option::Some(text) => match mode {
            DataResponse::Movie => parse_movie_string(text),
            DataResponse::Actor => {
                let ghost s = text@;
                let mut msgs: Vec<Message> = Vec::new();
                msgs.push(parse_actor_string(text));
                proof {
                    assert(msgs.deep_view() =~= seq![MessageView::PrimaryRecord(s)]);
                }
                msgs
            },
        },
    }
}

/// A worker's whole run, given the fetch outcome of every identifier of its
/// partition in order: the messages for each outcome, then — its partition
/// exhausted — exactly one completion marker, last. No fetch failure ends
/// the worker; only exhaustion does.
pub fn worker_run(mode: DataResponse, responses: &Vec<Option<String>>) -> (msgs: Vec<Message>)
    ensures
        msgs.deep_view() == spec_worker_messages(mode, responses.deep_view()),
        count_completions(msgs.deep_view()) == 1,
        msgs.deep_view().len() >= 1,
        msgs.deep_view().last() == MessageView::Completion,
{
    let ghost rv = responses.deep_view();
    let mut msgs: Vec<Message> = Vec::new();
    let n = responses.len();
    let mut i: usize = 0;
    proof {
        assert(msgs.deep_view() =~= spec_worker_body(mode, rv.take(0)));
        assert(rv.take(0) =~= Seq::<Option<Seq<char>>>::empty());
    }
    while i < n
        invariant
            rv == responses.deep_view(),
            n == responses@.len(),
            rv.len() == n,
            i <= n,
            msgs.deep_view() == spec_worker_body(mode, rv.take(i as int)),
        decreases n - i,
    {
        let response = match &responses[i] {
            Option::None => Option::None,
            Option::Some(text) => Option::Some(text.clone()),
        };
        proof {
            assert(response.deep_view() == rv[i as int]);
        }
        let ghost pre = msgs.deep_view();
        let mut batch = messages_for_response(mode, response);
        let ghost batch_view = batch.deep_view();
        msgs.append(&mut batch);
        proof {
            assert forall|m: int|
                0 <= m < msgs.deep_view().len() implies msgs.deep_view()[m] == (pre
                + batch_view)[m] by {
                if m < pre.len() {
                    assert(msgs.deep_view()[m] == pre[m]);
                } else {
                    assert(msgs.deep_view()[m] == batch_view[m - pre.len()]);
                }
            }
            assert(msgs.deep_view() =~= pre + batch_view);
            assert(rv.take(i + 1).drop_last() =~= rv.take(i as int));
            assert(rv.take(i + 1).last() == rv[i as int]);
        }
        i = i + 1;
    }
    proof {
        assert(rv.take(n as int) =~= rv);
    }
    let ghost body = msgs.deep_view();
    msgs.push(Message::Completion);
    proof {
        assert(msgs.deep_view() =~= body + seq![MessageView::Completion]);
        lemma_worker_body_no_completions(mode, rv);
        lemma_count_completions_add(body, seq![MessageView::Completion]);
        assert(count_completions(seq![MessageView::Completion]) == 1) by {
            assert(count_completions(Seq::<MessageView>::empty()) == 0);
            assert(seq![MessageView::Completion].drop_last() =~= Seq::<MessageView>::empty());
            assert(seq![MessageView::Completion].last() == MessageView::Completion);
        }
    }
    msgs
}

/// No message of a worker's body is a completion marker: the marker the
/// worker sends after its partition is exhausted is its only one, and it
/// comes after every record and identifier message.
pub proof fn lemma_worker_body_no_completions(mode: DataResponse, responses: Seq<Option<Seq<char>>>)
    ensures
        count_completions(spec_worker_body(mode, responses)) == 0,
    decreases responses.len(),
{
    if responses.len() > 0 {
        lemma_worker_body_no_completions(mode, responses.drop_last());
        lemma_response_no_completions(mode, responses.last());
        lemma_count_completions_add(
            spec_worker_body(mode, responses.drop_last()),
            spec_response_messages(mode, responses.last()),
        );
    }
}

/// The messages for one fetch outcome hold no completion marker.
pub proof fn lemma_response_no_completions(mode: DataResponse, response: Option<Seq<char>>)
    ensures
        count_completions(spec_response_messages(mode, response)) == 0,
{
    match response {
        Option::None => {},
        Option::Some(s) => match mode {
            DataResponse::Movie => {
                lemma_movie_messages_no_completions(s);
            },
            DataResponse::Actor => {
                assert(count_completions(Seq::<MessageView>::empty()) == 0);
                assert(seq![MessageView::PrimaryRecord(s)].drop_last() =~= Seq::<
                    MessageView,
                >::empty());
            },
        },
    }
}

/// The messages for one primary payload hold no completion marker.
pub proof fn lemma_movie_messages_no_completions(s: Seq<char>)
    ensures
        count_completions(spec_movie_messages(s)) == 0,
{
    match movie_of(s) {
        Option::None => {},
        Option::Some(m) => {
            if spec_accepts(standard_config(), m) {
                let secondaries = m.cast.map_values(
                    |id: usize| MessageView::SecondaryIdentifier(id),
                );
                lemma_secondary_messages_no_completions(m.cast);
                lemma_count_completions_add(seq![MessageView::PrimaryRecord(s)], secondaries);
                assert(count_completions(seq![MessageView::PrimaryRecord(s)]) == 0) by {
                    assert(count_completions(Seq::<MessageView>::empty()) == 0);
                    assert(seq![MessageView::PrimaryRecord(s)].drop_last() =~= Seq::<
                        MessageView,
                    >::empty());
                    assert(seq![MessageView::PrimaryRecord(s)].last() == MessageView::PrimaryRecord(
                        s,
                    ));
                }
            }
        },
    }
}

/// A sequence of secondary-identifier messages holds no completion marker.
pub proof fn lemma_secondary_messages_no_completions(ids: Seq<usize>)
    ensures
        count_completions(ids.map_values(|id: usize| MessageView::SecondaryIdentifier(id))) == 0,
    decreases ids.len(),
{
    let mapped = ids.map_values(|id: usize| MessageView::SecondaryIdentifier(id));
    if ids.len() > 0 {
        lemma_secondary_messages_no_completions(ids.drop_last());
        assert(mapped.drop_last() =~= ids.drop_last().map_values(
            |id: usize| MessageView::SecondaryIdentifier(id),
        ));
    }
}

} // verus!
