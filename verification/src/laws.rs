//! The guarantees of the translation, stated and proved over the
//! specification model in [`crate::translate`].

use vstd::prelude::*;
use vstd::seq_lib::lemma_flatten_concat;

use crate::http::{spec_page_404, spec_page_500, spec_page_502};
use crate::http::{Response, ResponseEvent, RunResult, StreamResult};
use crate::translate::{
    continues_stream, lemma_stream_total_is_flatten_len, response_matches, spec_closed,
    spec_events, spec_writes, stream_first_start, stream_terminal, stream_writes,
};

verus! {

/// Every message of `s` is stream content: a `Start` or a `Data` signal.
pub open spec fn all_stream_content(s: Seq<RunResult>) -> bool {
    forall|k: int| 0 <= k < s.len() ==> continues_stream(#[trigger] s[k])
}

/// Every message of `s` is a `Data` signal.
pub open spec fn all_data(s: Seq<RunResult>) -> bool {
    forall|k: int|
        0 <= k < s.len() ==> (#[trigger] s[k]) matches RunResult::Stream(StreamResult::Data(_))
}

/// The payload views of every `Data` signal in `s`, in order.
pub open spec fn payloads(s: Seq<RunResult>) -> Seq<Seq<u8>>
    decreases s.len(),
{
    if s.len() == 0 {
        Seq::empty()
    } else {
        match s[0] {
            RunResult::Stream(StreamResult::Data(b)) => seq![b@] + payloads(s.drop_first()),
            _ => payloads(s.drop_first()),
        }
    }
}

/// The first `Start` signal in `s`, if any.
pub open spec fn first_metadata(s: Seq<RunResult>) -> Option<Response>
    decreases s.len(),
{
    if s.len() == 0 {
        None
    } else {
        match s[0] {
            RunResult::Stream(StreamResult::Start(h)) => Some(h),
            _ => first_metadata(s.drop_first()),
        }
    }
}

/// A translation reports at most one event to the notifier.
pub proof fn lemma_at_most_one_event(m: Seq<RunResult>)
    ensures
        spec_events(m).len() <= 1,
{
}

/// A well-formed stream — any interleaving of `Start` and `Data` signals
/// closed by one `Done` — writes exactly its payloads to the body sink, in
/// arrival order; its response metadata is the first `Start`; it ends on
/// the `Done`; and, unless it consists of the `Done` alone, it closes the
/// sink and reports exactly one `Bytes` event counting the payload bytes.
pub proof fn lemma_stream_run(content: Seq<RunResult>, e: u128)
    requires
        all_stream_content(content),
    ensures
        stream_writes(content + seq![RunResult::Stream(StreamResult::Done(e))]) == payloads(
            content,
        ),
        stream_first_start(content + seq![RunResult::Stream(StreamResult::Done(e))])
            == first_metadata(content),
        stream_terminal(content + seq![RunResult::Stream(StreamResult::Done(e))]) == Some(
            RunResult::Stream(StreamResult::Done(e)),
        ),
        content.len() > 0 ==> spec_events(content + seq![RunResult::Stream(StreamResult::Done(e))])
            == seq![
            ResponseEvent::Bytes(payloads(content).flatten().len() as usize, Some(e)),
        ],
        content.len() > 0 ==> spec_closed(content + seq![RunResult::Stream(StreamResult::Done(e))]),
    decreases content.len(),
{
    let m = content + seq![RunResult::Stream(StreamResult::Done(e))];
    lemma_stream_total_is_flatten_len(m);
    if content.len() == 0 {
        assert(m =~= seq![RunResult::Stream(StreamResult::Done(e))]);
        assert(payloads(content) =~= Seq::<Seq<u8>>::empty());
        assert(stream_writes(m) =~= Seq::<Seq<u8>>::empty());
    } else {
        let tail = content.drop_first();
        assert(continues_stream(content[0]));
        assert(all_stream_content(tail)) by {
            assert forall|k: int| 0 <= k < tail.len() implies continues_stream(
                #[trigger] tail[k],
            ) by {
                assert(tail[k] == content[k + 1]);
            }
        }
        lemma_stream_run(tail, e);
        assert(m.drop_first() =~= tail + seq![RunResult::Stream(StreamResult::Done(e))]);
        assert(m[0] == content[0]);
        match content[0] {
            RunResult::Stream(StreamResult::Data(b)) => {
                assert(stream_writes(m) == seq![b@] + stream_writes(m.drop_first()));
                assert(payloads(content) == seq![b@] + payloads(tail));
            },
            RunResult::Stream(StreamResult::Start(_)) => {
                assert(stream_writes(m) == stream_writes(m.drop_first()));
                assert(payloads(content) == payloads(tail));
            },
            _ => {
                assert(false);
            },
        }
    }
}

/// The channel is consumed only up to the terminal `Done`: whatever arrives
/// after it is left unread and changes nothing — not the sink writes, not
/// the response, not the events.
pub proof fn lemma_unread_after_done(content: Seq<RunResult>, e: u128, rest: Seq<RunResult>)
    requires
        all_stream_content(content),
    ensures
        ({
            let done = seq![RunResult::Stream(StreamResult::Done(e))];
            &&& stream_writes(content + done + rest) == stream_writes(content + done)
            &&& stream_first_start(content + done + rest) == stream_first_start(content + done)
            &&& stream_terminal(content + done + rest) == stream_terminal(content + done)
            &&& spec_events(content + done + rest) == spec_events(content + done)
            &&& spec_closed(content + done + rest) == spec_closed(content + done)
            &&& forall|t: Option<Response>|
                response_matches(content + done + rest, t) == response_matches(content + done, t)
        }),
    decreases content.len(),
{
    let done = seq![RunResult::Stream(StreamResult::Done(e))];
    let m1 = content + done;
    let m2 = content + done + rest;
    lemma_stream_total_is_flatten_len(m1);
    lemma_stream_total_is_flatten_len(m2);
    if content.len() == 0 {
        assert(m1 =~= done);
        assert(m2[0] == RunResult::Stream(StreamResult::Done(e)));
        assert(stream_writes(m1) =~= Seq::<Seq<u8>>::empty());
        assert(stream_writes(m2) =~= Seq::<Seq<u8>>::empty());
        assert(stream_terminal(m1) == Some(m1[0]));
        assert(stream_terminal(m2) == Some(m2[0]));
    } else {
        let tail = content.drop_first();
        assert(continues_stream(content[0]));
        assert(all_stream_content(tail)) by {
            assert forall|k: int| 0 <= k < tail.len() implies continues_stream(
                #[trigger] tail[k],
            ) by {
                assert(tail[k] == content[k + 1]);
            }
        }
        lemma_unread_after_done(tail, e, rest);
        assert(m1.drop_first() =~= tail + done);
        assert(m2.drop_first() =~= tail + done + rest);
        assert(m1[0] == content[0]);
        assert(m2[0] == content[0]);
        match content[0] {
            RunResult::Stream(StreamResult::Data(b)) => {
                assert(stream_writes(m1) == seq![b@] + stream_writes(m1.drop_first()));
                assert(stream_writes(m2) == seq![b@] + stream_writes(m2.drop_first()));
            },
            RunResult::Stream(StreamResult::Start(_)) => {
                assert(stream_writes(m1) == stream_writes(m1.drop_first()));
                assert(stream_writes(m2) == stream_writes(m2.drop_first()));
            },
            _ => {
                assert(false);
            },
        }
    }
}

/// A buffered result is handed back unchanged — same status, headers and
/// body — the sink is untouched, and the notifier sees exactly one `Bytes`
/// event carrying the body length and the elapsed time. Messages after the
/// first are left unread.
pub proof fn lemma_buffered_result(r: Response, e: Option<u128>, rest: Seq<RunResult>)
    ensures
        spec_events(seq![RunResult::Response(r, e)] + rest) == seq![
            ResponseEvent::Bytes(r.body@.len() as usize, e),
        ],
        response_matches(seq![RunResult::Response(r, e)] + rest, Some(r)),
        spec_writes(seq![RunResult::Response(r, e)] + rest) == Seq::<Seq<u8>>::empty(),
        !spec_closed(seq![RunResult::Response(r, e)] + rest),
{
    let m = seq![RunResult::Response(r, e)] + rest;
    assert(m[0] == RunResult::Response(r, e));
    assert(stream_writes(m) =~= Seq::<Seq<u8>>::empty());
}

/// When `Start` arrives before any `Data`, the response metadata is exactly
/// the `Start`'s, the sink receives each payload in arrival order, and the
/// one `Bytes` event counts exactly the length of the concatenated body.
pub proof fn lemma_stream_start_first(h: Response, chunks: Seq<RunResult>, e: u128)
    requires
        all_data(chunks),
    ensures
        ({
            let m = seq![RunResult::Stream(StreamResult::Start(h))] + chunks + seq![
                RunResult::Stream(StreamResult::Done(e)),
            ];
            &&& stream_first_start(m) == Some(h)
            &&& stream_writes(m) == payloads(chunks)
            &&& spec_events(m) == seq![
                ResponseEvent::Bytes(payloads(chunks).flatten().len() as usize, Some(e)),
            ]
            &&& spec_closed(m)
            &&& forall|t: Option<Response>|
                response_matches(m, t) ==> (t matches Some(d) && d.status == h.status
                    && d.headers == h.headers && d.body@ == payloads(chunks).flatten())
        }),
{
    let content = seq![RunResult::Stream(StreamResult::Start(h))] + chunks;
    assert(all_stream_content(content)) by {
        assert forall|k: int| 0 <= k < content.len() implies continues_stream(
            #[trigger] content[k],
        ) by {
            if k > 0 {
                assert(content[k] == chunks[k - 1]);
                assert(chunks[k - 1] matches RunResult::Stream(StreamResult::Data(_)));
            }
        }
    }
    lemma_stream_run(content, e);
    let m = seq![RunResult::Stream(StreamResult::Start(h))] + chunks + seq![
        RunResult::Stream(StreamResult::Done(e)),
    ];
    assert(m =~= content + seq![RunResult::Stream(StreamResult::Done(e))]);
    assert(content[0] == RunResult::Stream(StreamResult::Start(h)));
    assert(first_metadata(content) == Some(h));
    assert(payloads(content) == payloads(content.drop_first()));
    assert(content.drop_first() =~= chunks);
}

/// `Data` chunks that arrive before `Start` are buffered, not lost: the
/// sink writes still begin with the early chunk, the assembled body begins
/// with its bytes in original order, and the response carries the later
/// `Start`'s metadata.
pub proof fn lemma_stream_data_first(b: Vec<u8>, later: Seq<RunResult>, e: u128)
    requires
        all_stream_content(later),
        first_metadata(later) is Some,
    ensures
        ({
            let m = seq![RunResult::Stream(StreamResult::Data(b))] + later + seq![
                RunResult::Stream(StreamResult::Done(e)),
            ];
            &&& stream_first_start(m) == first_metadata(later)
            &&& stream_writes(m) == seq![b@] + payloads(later)
            &&& stream_writes(m).flatten() == b@ + payloads(later).flatten()
            &&& spec_events(m) == seq![
                ResponseEvent::Bytes(
                    (b@.len() + payloads(later).flatten().len()) as usize,
                    Some(e),
                ),
            ]
            &&& spec_closed(m)
            &&& forall|t: Option<Response>|
                response_matches(m, t) ==> (t matches Some(d) && d.body@ == b@ + payloads(
                    later,
                ).flatten())
        }),
{
    let content = seq![RunResult::Stream(StreamResult::Data(b))] + later;
    assert(all_stream_content(content)) by {
        assert forall|k: int| 0 <= k < content.len() implies continues_stream(
            #[trigger] content[k],
        ) by {
            if k > 0 {
                assert(content[k] == later[k - 1]);
            }
        }
    }
    lemma_stream_run(content, e);
    let m = seq![RunResult::Stream(StreamResult::Data(b))] + later + seq![
        RunResult::Stream(StreamResult::Done(e)),
    ];
    assert(m =~= content + seq![RunResult::Stream(StreamResult::Done(e))]);
    assert(content[0] == RunResult::Stream(StreamResult::Data(b)));
    assert(payloads(content) == seq![b@] + payloads(content.drop_first()));
    assert(first_metadata(content) == first_metadata(content.drop_first()));
    assert(content.drop_first() =~= later);
    lemma_flatten_concat(seq![b@], payloads(later));
    seq![b@].lemma_flatten_singleton();
}

/// A stream consisting only of `Done`, with no `Start` and no `Data`:
/// exactly one `StreamDoneNoDataError` event, no sink writes, the sink
/// closed at once, and a response with an empty body. Messages after the
/// `Done` are left unread.
pub proof fn lemma_done_without_start(e: u128, rest: Seq<RunResult>)
    ensures
        spec_events(seq![RunResult::Stream(StreamResult::Done(e))] + rest) == seq![
            ResponseEvent::StreamDoneNoDataError,
        ],
        spec_writes(seq![RunResult::Stream(StreamResult::Done(e))] + rest) == Seq::<
            Seq<u8>,
        >::empty(),
        spec_closed(seq![RunResult::Stream(StreamResult::Done(e))] + rest),
        forall|t: Option<Response>|
            response_matches(seq![RunResult::Stream(StreamResult::Done(e))] + rest, t) ==> (
            t matches Some(d) && d.body@.len() == 0),
{
    let m = seq![RunResult::Stream(StreamResult::Done(e))] + rest;
    assert(m[0] == RunResult::Stream(StreamResult::Done(e)));
    assert(stream_writes(m) =~= Seq::<Seq<u8>>::empty());
}

/// `Timeout` and `MemoryLimit` each yield the fixed 502 bad-gateway page
/// and exactly one `LimitsReached` event carrying the message.
pub proof fn lemma_limits_reached(first: RunResult, rest: Seq<RunResult>)
    requires
        first == RunResult::Timeout || first == RunResult::MemoryLimit,
    ensures
        spec_events(seq![first] + rest) == seq![ResponseEvent::LimitsReached(first)],
        spec_writes(seq![first] + rest) == Seq::<Seq<u8>>::empty(),
        !spec_closed(seq![first] + rest),
        forall|t: Option<Response>|
            response_matches(seq![first] + rest, t) ==> (t matches Some(d) && d.status == 502
                && d.body@ == spec_page_502()),
{
    let m = seq![first] + rest;
    assert(m[0] == first);
    assert(stream_writes(m) =~= Seq::<Seq<u8>>::empty());
}

/// `Error` yields the fixed 500 internal-error page and exactly one `Error`
/// event carrying the message.
pub proof fn lemma_error_result(detail: String, rest: Seq<RunResult>)
    ensures
        spec_events(seq![RunResult::Error(detail)] + rest) == seq![
            ResponseEvent::Error(RunResult::Error(detail)),
        ],
        spec_writes(seq![RunResult::Error(detail)] + rest) == Seq::<Seq<u8>>::empty(),
        !spec_closed(seq![RunResult::Error(detail)] + rest),
        forall|t: Option<Response>|
            response_matches(seq![RunResult::Error(detail)] + rest, t) ==> (t matches Some(d)
                && d.status == 500 && d.body@ == spec_page_500()),
{
    let m = seq![RunResult::Error(detail)] + rest;
    assert(m[0] == RunResult::Error(detail));
    assert(stream_writes(m) =~= Seq::<Seq<u8>>::empty());
}

/// `NotFound` yields the fixed 404 not-found page and no notifier
/// invocation at all: the one outcome that telemetry does not see.
pub proof fn lemma_not_found(rest: Seq<RunResult>)
    ensures
        spec_events(seq![RunResult::NotFound] + rest).len() == 0,
        spec_writes(seq![RunResult::NotFound] + rest) == Seq::<Seq<u8>>::empty(),
        !spec_closed(seq![RunResult::NotFound] + rest),
        forall|t: Option<Response>|
            response_matches(seq![RunResult::NotFound] + rest, t) ==> (t matches Some(d)
                && d.status == 404 && d.body@ == spec_page_404()),
{
    let m = seq![RunResult::NotFound] + rest;
    assert(m[0] == RunResult::NotFound);
    assert(stream_writes(m) =~= Seq::<Seq<u8>>::empty());
}

} // verus!
