//! Translation of an execution unit's outcome messages into an HTTP-shaped
//! response.
//!
//! An execution unit reports its outcome as an ordered sequence of
//! [`http::RunResult`] messages: one buffered response, a limit or error
//! signal, a "not found" signal, or the fragments of a streamed response.
//! The [`translate`] module classifies the first message, decides between a
//! buffered and a streamed response, forwards stream fragments to a body
//! sink, and reports at most one [`http::ResponseEvent`] per translation to
//! an external notifier. The [`laws`] module states and proves the
//! behavioural guarantees of that state machine.

pub mod http;
pub mod laws;
pub mod translate;
