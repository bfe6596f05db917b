//! The translation state machine.
//!
//! [`classify_first`] decides, from the first channel message alone, whether
//! the response is buffered or streamed. In streaming mode a [`Forwarder`]
//! consumes the remaining messages one [`Forwarder::step`] at a time; each
//! step returns a [`StepEffect`] telling the surrounding task what to write
//! to the body sink, what to hand to the still-waiting caller, and what to
//! report to the notifier. [`handle_response`] runs the whole machine over a
//! complete message sequence and is proved against the specification
//! functions in this module.

use vstd::prelude::*;
use vstd::seq_lib::lemma_flatten_concat;

use crate::http::{Response, ResponseEvent, RunResult, StreamResult};
use crate::http::{spec_page_404, spec_page_500, spec_page_502};

verus! {

/// The views of a sequence of sink writes.
pub open spec fn views_of(chunks: Seq<Vec<u8>>) -> Seq<Seq<u8>> {
    chunks.map_values(|c: Vec<u8>| c@)
}

/// True of the messages streaming mode keeps consuming: response metadata
/// and body payload. Every other message ends streaming mode.
pub open spec fn continues_stream(m: RunResult) -> bool {
    ||| m matches RunResult::Stream(StreamResult::Start(_))
    ||| m matches RunResult::Stream(StreamResult::Data(_))
}

/// The payloads written to the body sink by a streaming run over `s`, in
/// arrival order: one entry per `Data` signal, up to the first message that
/// ends streaming mode. Empty when `s` does not begin with stream content.
pub open spec fn stream_writes(s: Seq<RunResult>) -> Seq<Seq<u8>>
    decreases s.len(),
{
    if s.len() == 0 {
        Seq::empty()
    } else {
        match s[0] {
            RunResult::Stream(StreamResult::Data(b)) => seq![b@] + stream_writes(s.drop_first()),
            RunResult::Stream(StreamResult::Start(_)) => stream_writes(s.drop_first()),
            _ => Seq::empty(),
        }
    }
}

/// The response metadata fixed by a streaming run over `s`: the first
/// `Start` consumed before streaming mode ends, if any.
pub open spec fn stream_first_start(s: Seq<RunResult>) -> Option<Response>
    decreases s.len(),
{
    if s.len() == 0 {
        None
    } else {
        match s[0] {
            RunResult::Stream(StreamResult::Start(h)) => Some(h),
            RunResult::Stream(StreamResult::Data(_)) => stream_first_start(s.drop_first()),
            _ => None,
        }
    }
}

/// The message that ends a streaming run over `s`, if the run ends before
/// the channel does: a `Done`, or any non-stream message.
pub open spec fn stream_terminal(s: Seq<RunResult>) -> Option<RunResult>
    decreases s.len(),
{
    if s.len() == 0 {
        None
    } else if !continues_stream(s[0]) {
        Some(s[0])
    } else {
        stream_terminal(s.drop_first())
    }
}

/// The byte total a streaming run over `s` accumulates: the summed length
/// of every payload written to the sink.
pub open spec fn stream_total(s: Seq<RunResult>) -> nat
    decreases s.len(),
{
    if s.len() == 0 {
        0
    } else {
        match s[0] {
            RunResult::Stream(StreamResult::Data(b)) => b@.len() + stream_total(s.drop_first()),
            RunResult::Stream(StreamResult::Start(_)) => stream_total(s.drop_first()),
            _ => 0,
        }
    }
}

/// The byte total of a streaming run is the length of its concatenated sink
/// writes: nothing is counted that is not written, and nothing written that
/// is not counted.
pub proof fn lemma_stream_total_is_flatten_len(s: Seq<RunResult>)
    ensures
        stream_total(s) == stream_writes(s).flatten().len(),
    decreases s.len(),
{
    if s.len() == 0 {
        assert(stream_writes(s).flatten() =~= Seq::<u8>::empty());
    } else {
        match s[0] {
            RunResult::Stream(StreamResult::Data(b)) => {
                lemma_stream_total_is_flatten_len(s.drop_first());
                lemma_flatten_concat(seq![b@], stream_writes(s.drop_first()));
                seq![b@].lemma_flatten_singleton();
            },
            RunResult::Stream(StreamResult::Start(_)) => {
                lemma_stream_total_is_flatten_len(s.drop_first());
            },
            _ => {
                assert(stream_writes(s).flatten() =~= Seq::<u8>::empty());
            },
        }
    }
}

/// The events a streaming run over `s` reports, in order: exactly one
/// `Bytes` on a terminal `Done`, exactly one `UnexpectedStreamResult` on any
/// other terminal message, none when the channel closes first.
pub open spec fn stream_events(s: Seq<RunResult>) -> Seq<ResponseEvent> {
    match stream_terminal(s) {
        Some(RunResult::Stream(StreamResult::Done(e))) => seq![
            ResponseEvent::Bytes(stream_total(s) as usize, Some(e)),
        ],
        Some(t) => seq![ResponseEvent::UnexpectedStreamResult(t)],
        None => Seq::empty(),
    }
}

/// The events a whole translation over `m` reports to the notifier, in
/// order. `NotFound` reports nothing, by design; a channel that closes
/// mid-stream without `Done` also reports nothing, a deliberate gap kept
/// from the observed behaviour.
pub open spec fn spec_events(m: Seq<RunResult>) -> Seq<ResponseEvent> {
    if m.len() == 0 {
        Seq::empty()
    } else {
        match m[0] {
            RunResult::Response(r, e) => seq![
                ResponseEvent::Bytes(r.body@.len() as usize, e),
            ],
            RunResult::Stream(StreamResult::Done(_)) => seq![ResponseEvent::StreamDoneNoDataError],
            RunResult::Stream(_) => stream_events(m),
            RunResult::Timeout => seq![ResponseEvent::LimitsReached(m[0])],
            RunResult::MemoryLimit => seq![ResponseEvent::LimitsReached(m[0])],
            RunResult::Error(_) => seq![ResponseEvent::Error(m[0])],
            RunResult::NotFound => Seq::empty(),
        }
    }
}

/// The payloads a whole translation over `m` writes to the body sink:
/// the streaming writes when `m` enters streaming mode, nothing otherwise.
pub open spec fn spec_writes(m: Seq<RunResult>) -> Seq<Seq<u8>> {
    stream_writes(m)
}

/// Whether a whole translation over `m` writes the terminating empty marker
/// to the body sink.
pub open spec fn spec_closed(m: Seq<RunResult>) -> bool {
    if m.len() == 0 {
        false
    } else {
        match m[0] {
            RunResult::Stream(StreamResult::Done(_)) => true,
            RunResult::Stream(_) => stream_terminal(m) is Some,
            _ => false,
        }
    }
}

/// How the response handed back to the caller relates to the message
/// sequence `m`. `None` is the fatal outcome: the channel failed before any
/// message, or streaming mode ended without ever seeing a `Start`.
pub open spec fn response_matches(m: Seq<RunResult>, t: Option<Response>) -> bool {
    if m.len() == 0 {
        t is None
    } else {
        match m[0] {
            RunResult::Response(r, _) => t == Some(r),
            RunResult::Stream(StreamResult::Done(_)) => t matches Some(d) && d.status == 200
                && d.headers@.len() == 0 && d.body@.len() == 0,
            RunResult::Stream(_) => match stream_first_start(m) {
                Some(h) => t matches Some(d) && d.status == h.status && d.headers == h.headers
                    && d.body@ == stream_writes(m).flatten(),
                None => t is None,
            },
            RunResult::Timeout => t matches Some(d) && d.status == 502 && d.headers@.len() == 0
                && d.body@ == spec_page_502(),
            RunResult::MemoryLimit => t matches Some(d) && d.status == 502
                && d.headers@.len() == 0 && d.body@ == spec_page_502(),
            RunResult::Error(_) => t matches Some(d) && d.status == 500 && d.headers@.len() == 0
                && d.body@ == spec_page_500(),
            RunResult::NotFound => t matches Some(d) && d.status == 404 && d.headers@.len() == 0
                && d.body@ == spec_page_404(),
        }
    }
}

/// The byte total of a translation over `m` fits the machine's counter.
pub open spec fn total_fits(m: Seq<RunResult>) -> bool {
    stream_total(m) <= usize::MAX
}

/// What one step of the state machine asks the surrounding task to do.
pub struct StepEffect {
    /// Payload to write to the body sink.
    pub write: Option<Vec<u8>>,
    /// Write the terminating empty marker to the body sink.
    pub close: bool,
    /// Response metadata to hand to the caller still waiting for it.
    pub handoff: Option<Response>,
    /// Event to report to the notifier.
    pub event: Option<ResponseEvent>,
    /// Stop consuming the channel.
    pub stop: bool,
}

/// The state of a streaming run between steps.
pub struct Forwarder {
    /// Response metadata was already handed to the caller; later `Start`
    /// signals are redundant and ignored.
    pub started: bool,
    /// Payload bytes counted so far.
    pub total: usize,
    /// A terminal message was consumed; the run is over.
    pub finished: bool,
}

impl Forwarder {
    /// Consumes one message of an ongoing streaming run: a `Data` payload is
    /// counted and written to the sink; the first `Start` is handed to the
    /// caller and fixes the response metadata for good; `Done` reports the
    /// byte total, closes the sink and ends the run; any other message is a
    /// protocol violation that is reported, closes the sink and ends the run.
    pub fn step(&mut self, msg: RunResult) -> (eff: StepEffect)
        requires
            !old(self).finished,
            msg matches RunResult::Stream(StreamResult::Data(b))
                ==> old(self).total + b@.len() <= usize::MAX,
        ensures
            (match msg {
                RunResult::Stream(StreamResult::Start(h)) => {
                    &&& *final(self) == (Forwarder {
                        started: true,
                        total: old(self).total,
                        finished: false,
                    })
                    &&& eff.handoff == (if old(self).started {
                        Option::<Response>::None
                    } else {
                        Some(h)
                    })
                    &&& eff.write is None
                    &&& !eff.close
                    &&& eff.event is None
                    &&& !eff.stop
                },
                RunResult::Stream(StreamResult::Data(b)) => {
                    &&& *final(self) == (Forwarder {
                        started: old(self).started,
                        total: (old(self).total + b@.len()) as usize,
                        finished: false,
                    })
                    &&& eff.write == Some(b)
                    &&& eff.handoff is None
                    &&& !eff.close
                    &&& eff.event is None
                    &&& !eff.stop
                },
                RunResult::Stream(StreamResult::Done(e)) => {
                    &&& *final(self) == (Forwarder {
                        started: old(self).started,
                        total: old(self).total,
                        finished: true,
                    })
                    &&& eff.event == Some(ResponseEvent::Bytes(old(self).total, Some(e)))
                    &&& eff.write is None
                    &&& eff.close
                    &&& eff.handoff is None
                    &&& eff.stop
                },
                _ => {
                    &&& *final(self) == (Forwarder {
                        started: old(self).started,
                        total: old(self).total,
                        finished: true,
                    })
                    &&& eff.event == Some(ResponseEvent::UnexpectedStreamResult(msg))
                    &&& eff.write is None
                    &&& eff.close
                    &&& eff.handoff is None
                    &&& eff.stop
                },
            }),
    {
        match msg {
            RunResult::Stream(StreamResult::Start(h)) => {
                let handoff = if self.started { None } else { Some(h) };
                self.started = true;
                StepEffect { write: None, close: false, handoff, event: None, stop: false }
            },
            RunResult::Stream(StreamResult::Data(b)) => {
                self.total = self.total + b.len();
                StepEffect { write: Some(b), close: false, handoff: None, event: None, stop: false }
            },
            RunResult::Stream(StreamResult::Done(e)) => {
                self.finished = true;
                StepEffect {
                    write: None,
                    close: true,
                    handoff: None,
                    event: Some(ResponseEvent::Bytes(self.total, Some(e))),
                    stop: true,
                }
            },
            other => {
                self.finished = true;
                StepEffect {
                    write: None,
                    close: true,
                    handoff: None,
                    event: Some(ResponseEvent::UnexpectedStreamResult(other)),
                    stop: true,
                }
            },
        }
    }
}

/// What the first channel message decides: answer at once, or enter
/// streaming mode.
pub enum FirstDecision {
    /// The translation is complete; hand the response to the caller after
    /// reporting the event, if there is one.
    Immediate { response: Response, event: Option<ResponseEvent> },
    /// Streaming mode: apply the initial effect, then keep consuming the
    /// channel with the forwarder.
    Streaming { forwarder: Forwarder, effect: StepEffect },
}

/// Classifies the first channel message of a translation.
///
/// A buffered `Response` is returned as it stands, with one `Bytes` event.
/// `Timeout`, `MemoryLimit` and `Error` map to the fixed 502 and 500 pages,
/// each with its event; `NotFound` maps to the fixed 404 page with no event.
/// Any `Stream` signal enters streaming mode: `Start` fixes the response
/// metadata, `Data` is counted and written, and a first-message `Done` is
/// the malformed empty stream, reported as `StreamDoneNoDataError` with the
/// sink closed at once.
pub fn classify_first(msg: RunResult) -> (d: FirstDecision)
    ensures
        (match msg {
            RunResult::Response(r, e) => d matches FirstDecision::Immediate { response, event }
                && response == r
                && event == Some(ResponseEvent::Bytes(r.body@.len() as usize, e)),
            RunResult::Stream(StreamResult::Start(h)) => d matches FirstDecision::Streaming {
                forwarder,
                effect,
            }
                && forwarder == (Forwarder { started: true, total: 0, finished: false })
                && effect.handoff == Some(h)
                && effect.write is None
                && !effect.close
                && effect.event is None
                && !effect.stop,
            RunResult::Stream(StreamResult::Data(b)) => d matches FirstDecision::Streaming {
                forwarder,
                effect,
            }
                && forwarder == (Forwarder {
                    started: false,
                    total: b@.len() as usize,
                    finished: false,
                })
                && effect.write == Some(b)
                && effect.handoff is None
                && !effect.close
                && effect.event is None
                && !effect.stop,
            RunResult::Stream(StreamResult::Done(_)) => d matches FirstDecision::Streaming {
                forwarder,
                effect,
            }
                && forwarder == (Forwarder { started: false, total: 0, finished: true })
                && effect.event == Some(ResponseEvent::StreamDoneNoDataError)
                && effect.write is None
                && effect.close
                && effect.handoff is None
                && effect.stop,
            RunResult::Timeout => d matches FirstDecision::Immediate { response, event }
                && response.status == 502
                && response.headers@.len() == 0
                && response.body@ == spec_page_502()
                && event == Some(ResponseEvent::LimitsReached(RunResult::Timeout)),
            RunResult::MemoryLimit => d matches FirstDecision::Immediate { response, event }
                && response.status == 502
                && response.headers@.len() == 0
                && response.body@ == spec_page_502()
                && event == Some(ResponseEvent::LimitsReached(RunResult::MemoryLimit)),
            RunResult::Error(detail) => d matches FirstDecision::Immediate { response, event }
                && response.status == 500
                && response.headers@.len() == 0
                && response.body@ == spec_page_500()
                && event == Some(ResponseEvent::Error(RunResult::Error(detail))),
            RunResult::NotFound => d matches FirstDecision::Immediate { response, event }
                && response.status == 404
                && response.headers@.len() == 0
                && response.body@ == spec_page_404()
                && event is None,
        }),
{
    match msg {
        RunResult::Response(r, e) => {
            let len = r.body.len();
            FirstDecision::Immediate {
                response: r,
                event: Some(ResponseEvent::Bytes(len, e)),
            }
        },
        RunResult::Stream(StreamResult::Start(h)) => FirstDecision::Streaming {
            forwarder: Forwarder { started: true, total: 0, finished: false },
            effect: StepEffect {
                write: None,
                close: false,
                handoff: Some(h),
                event: None,
                stop: false,
            },
        },
        RunResult::Stream(StreamResult::Data(b)) => {
            let total = b.len();
            FirstDecision::Streaming {
                forwarder: Forwarder { started: false, total, finished: false },
                effect: StepEffect {
                    write: Some(b),
                    close: false,
                    handoff: None,
                    event: None,
                    stop: false,
                },
            }
        },
        RunResult::Stream(StreamResult::Done(_)) => FirstDecision::Streaming {
            forwarder: Forwarder { started: false, total: 0, finished: true },
            effect: StepEffect {
                write: None,
                close: true,
                handoff: None,
                event: Some(ResponseEvent::StreamDoneNoDataError),
                stop: true,
            },
        },
        RunResult::Timeout => FirstDecision::Immediate {
            response: Response { status: 502, headers: Vec::new(), body: crate::http::page_502() },
            event: Some(ResponseEvent::LimitsReached(RunResult::Timeout)),
        },
        RunResult::MemoryLimit => FirstDecision::Immediate {
            response: Response { status: 502, headers: Vec::new(), body: crate::http::page_502() },
            event: Some(ResponseEvent::LimitsReached(RunResult::MemoryLimit)),
        },
        RunResult::Error(detail) => FirstDecision::Immediate {
            response: Response { status: 500, headers: Vec::new(), body: crate::http::page_500() },
            event: Some(ResponseEvent::Error(RunResult::Error(detail))),
        },
        RunResult::NotFound => FirstDecision::Immediate {
            response: Response { status: 404, headers: Vec::new(), body: crate::http::page_404() },
            event: None,
        },
    }
}

/// Everything one whole translation produced for its caller: the response
/// (`None` is the fatal outcome: the channel closed before any message, or
/// streaming mode ended without ever seeing a `Start`), the body-sink
/// writes in order, whether the sink's terminating empty marker was
/// written, and the notifier events in order.
pub struct Translation {
    pub response: Option<Response>,
    pub writes: Vec<Vec<u8>>,
    pub closed: bool,
    pub events: Vec<ResponseEvent>,
}

/// Concatenates the sink writes into one assembled body.
fn concat_writes(chunks: &Vec<Vec<u8>>) -> (r: Vec<u8>)
    ensures
        r@ == views_of(chunks@).flatten(),
{
    let ghost cs = views_of(chunks@);
    let mut r: Vec<u8> = Vec::new();
    proof {
        assert(cs.take(0).flatten() =~= Seq::<u8>::empty());
    }
    let mut j: usize = 0;
    while j < chunks.len()
        invariant
            j <= chunks.len(),
            cs == views_of(chunks@),
            r@ == cs.take(j as int).flatten(),
        decreases chunks.len() - j,
    {
        let mut k: usize = 0;
        while k < chunks[j].len()
            invariant
                j < chunks.len(),
                k <= chunks@[j as int]@.len(),
                cs == views_of(chunks@),
                r@ == cs.take(j as int).flatten() + chunks@[j as int]@.take(k as int),
            decreases chunks@[j as int]@.len() - k,
        {
            r.push(chunks[j][k]);
            k = k + 1;
        }
        proof {
            assert(chunks@[j as int]@.take(chunks@[j as int]@.len() as int) =~= cs[j as int]);
            cs.take(j as int).lemma_flatten_push(cs[j as int]);
            assert(cs.take(j as int).push(cs[j as int]) =~= cs.take(j + 1));
            assert(r@ == cs.take(j + 1).flatten());
        }
        j = j + 1;
    }
    proof {
        assert(cs.take(cs.len() as int) =~= cs);
    }
    r
}

/// Runs one whole translation over the sequence of messages that the result
/// channel delivered before closing. The first message decides the mode;
/// in streaming mode the remaining messages are consumed until a terminal
/// message or the end of the sequence; every later message is left unread.
pub fn handle_response(msgs: Vec<RunResult>) -> (t: Translation)
    requires
        total_fits(msgs@),
    ensures
        t.events@ == spec_events(msgs@),
        views_of(t.writes@) == spec_writes(msgs@),
        t.closed == spec_closed(msgs@),
        response_matches(msgs@, t.response),
{
    let ghost m = msgs@;
    let mut msgs = msgs;
    let mut writes: Vec<Vec<u8>> = Vec::new();
    let mut events: Vec<ResponseEvent> = Vec::new();
    let mut closed = false;

    if msgs.len() == 0 {
        proof {
            assert(views_of(writes@) =~= spec_writes(m));
            assert(events@ =~= spec_events(m));
        }
        return Translation { response: None, writes, closed, events };
    }

    let first = msgs.remove(0);
    proof {
        assert(first == m[0]);
        assert(msgs@ =~= m.skip(1));
        assert(m.drop_first() =~= m.skip(1));
    }

    match classify_first(first) {
        FirstDecision::Immediate { response, event } => {
            if let Some(ev) = event {
                events.push(ev);
            }
            proof {
                assert(views_of(writes@) =~= stream_writes(m));
                assert(events@ =~= spec_events(m));
            }
            Translation { response: Some(response), writes, closed, events }
        },
        FirstDecision::Streaming { forwarder, effect } => {
            let mut fwd = forwarder;
            let mut header: Option<Response> = None;
            let StepEffect { write, close, handoff, event, stop } = effect;
            if let Some(b) = write {
                writes.push(b);
            }
            if close {
                closed = true;
            }
            if let Some(h) = handoff {
                header = Some(h);
            }
            if let Some(ev) = event {
                events.push(ev);
            }
            let done_first = stop;
            let mut stopped = stop;
            let ghost mut i: int = 1;
            proof {
                lemma_stream_total_is_flatten_len(m);
                assert(Seq::<Seq<u8>>::empty().flatten() =~= Seq::<u8>::empty());
                match m[0] {
                    RunResult::Stream(StreamResult::Start(_)) => {
                        assert(views_of(writes@) =~= Seq::<Seq<u8>>::empty());
                        assert(stream_writes(m) == views_of(writes@) + stream_writes(m.skip(1)));
                    },
                    RunResult::Stream(StreamResult::Data(b)) => {
                        assert(views_of(writes@) =~= seq![b@]);
                        assert(stream_writes(m) == seq![b@] + stream_writes(m.skip(1)));
                        seq![b@].lemma_flatten_singleton();
                        assert(views_of(writes@).flatten().len() == b@.len());
                    },
                    RunResult::Stream(StreamResult::Done(_)) => {
                        assert(views_of(writes@) =~= stream_writes(m));
                        assert(events@ =~= spec_events(m));
                    },
                    _ => {
                        assert(false);
                    },
                }
            }
            while !stopped && msgs.len() > 0
                invariant
                    total_fits(m),
                    stream_total(m) == stream_writes(m).flatten().len(),
                    m.len() > 0,
                    m[0] matches RunResult::Stream(_),
                    done_first == (m[0] matches RunResult::Stream(StreamResult::Done(_))),
                    done_first ==> stopped,
                    1 <= i <= m.len(),
                    msgs@ == m.skip(i),
                    !stopped ==> {
                        &&& !fwd.finished
                        &&& stream_writes(m) == views_of(writes@) + stream_writes(m.skip(i))
                        &&& stream_terminal(m) == stream_terminal(m.skip(i))
                        &&& (header matches Some(h) ==> fwd.started && stream_first_start(m)
                            == Some(h))
                        &&& (header is None ==> !fwd.started && stream_first_start(m)
                            == stream_first_start(m.skip(i)))
                        &&& fwd.total == views_of(writes@).flatten().len()
                        &&& events@ == Seq::<ResponseEvent>::empty()
                        &&& !closed
                    },
                    stopped ==> {
                        &&& events@ == spec_events(m)
                        &&& views_of(writes@) == stream_writes(m)
                        &&& closed == spec_closed(m)
                        &&& header == stream_first_start(m)
                    },
                decreases m.len() - i,
            {
                let msg = msgs.remove(0);
                proof {
                    assert(msg == m.skip(i)[0]);
                    assert(msg == m[i]);
                    assert(msgs@ =~= m.skip(i + 1));
                    assert(m.skip(i).drop_first() =~= m.skip(i + 1));
                    let ghost sofar = views_of(writes@);
                    let ghost rest = stream_writes(m.skip(i));
                    lemma_flatten_concat(sofar, rest);
                    match msg {
                        RunResult::Stream(StreamResult::Data(ref b)) => {
                            assert(rest == seq![b@] + stream_writes(m.skip(i + 1)));
                            lemma_flatten_concat(seq![b@], stream_writes(m.skip(i + 1)));
                            seq![b@].lemma_flatten_singleton();
                            assert(fwd.total + b@.len() <= stream_total(m));
                        },
                        _ => {},
                    }
                }
                let eff = fwd.step(msg);
                let StepEffect { write, close, handoff, event, stop } = eff;
                let ghost prev_writes = writes@;
                let ghost prev_header = header;
                if let Some(b) = write {
                    writes.push(b);
                }
                if close {
                    closed = true;
                }
                if let Some(h) = handoff {
                    header = Some(h);
                }
                if let Some(ev) = event {
                    events.push(ev);
                }
                if stop {
                    stopped = true;
                }
                proof {
                    let ghost sofar = views_of(prev_writes);
                    match m[i] {
                        RunResult::Stream(StreamResult::Start(h)) => {
                            assert(stream_writes(m.skip(i)) == stream_writes(m.skip(i + 1)));
                            assert(stream_terminal(m.skip(i)) == stream_terminal(m.skip(i + 1)));
                            assert(stream_first_start(m.skip(i)) == Some(h));
                            if prev_header is None {
                                assert(header == Some(h));
                                assert(stream_first_start(m) == Some(h));
                            }
                        },
                        RunResult::Stream(StreamResult::Data(b)) => {
                            assert(views_of(writes@) =~= sofar.push(b@));
                            sofar.lemma_flatten_push(b@);
                            assert(stream_writes(m.skip(i)) == seq![b@] + stream_writes(
                                m.skip(i + 1),
                            ));
                            assert(sofar + (seq![b@] + stream_writes(m.skip(i + 1)))
                                =~= sofar.push(b@) + stream_writes(m.skip(i + 1)));
                        },
                        RunResult::Stream(StreamResult::Done(e)) => {
                            assert(stream_writes(m.skip(i)) =~= Seq::<Seq<u8>>::empty());
                            assert(views_of(writes@) =~= sofar + stream_writes(m.skip(i)));
                            assert(views_of(writes@) == stream_writes(m));
                            assert(stream_terminal(m.skip(i)) == Some(m[i]));
                            assert(stream_total(m) == fwd.total);
                            assert(events@ =~= seq![
                                ResponseEvent::Bytes(fwd.total, Some(e)),
                            ]);
                            assert(events@ == stream_events(m));
                            if prev_header is None {
                                assert(stream_first_start(m.skip(i)) is None);
                            }
                            assert(header == stream_first_start(m));
                        },
                        _ => {
                            assert(stream_writes(m.skip(i)) =~= Seq::<Seq<u8>>::empty());
                            assert(views_of(writes@) =~= sofar + stream_writes(m.skip(i)));
                            assert(views_of(writes@) == stream_writes(m));
                            assert(stream_terminal(m.skip(i)) == Some(m[i]));
                            assert(events@ =~= seq![
                                ResponseEvent::UnexpectedStreamResult(m[i]),
                            ]);
                            assert(events@ == stream_events(m));
                            if prev_header is None {
                                assert(stream_first_start(m.skip(i)) is None);
                            }
                            assert(header == stream_first_start(m));
                        },
                    }
                    i = i + 1;
                }
            }
            proof {
                if !stopped {
                    assert(i == m.len());
                    assert(m.skip(i) =~= Seq::<RunResult>::empty());
                    assert(stream_writes(m.skip(i)) =~= Seq::<Seq<u8>>::empty());
                    assert(views_of(writes@) =~= views_of(writes@) + stream_writes(m.skip(i)));
                    assert(views_of(writes@) == stream_writes(m));
                    assert(stream_terminal(m) is None);
                    assert(events@ == stream_events(m));
                    assert(header == stream_first_start(m));
                }
                assert(events@ == spec_events(m));
                assert(closed == spec_closed(m));
            }
            let response: Option<Response> = match header {
                Some(h) => {
                    let body = concat_writes(&writes);
                    Some(Response { status: h.status, headers: h.headers, body })
                },
                None => {
                    if done_first {
                        Some(Response { status: 200, headers: Vec::new(), body: Vec::new() })
                    } else {
                        None
                    }
                },
            };
            proof {
                assert(response_matches(m, response));
            }
            Translation { response, writes, closed, events }
        },
    }
}

} // verus!
