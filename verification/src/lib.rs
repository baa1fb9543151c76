//! Client side of an HTTP CONNECT tunnel handshake, written without I/O of its
//! own: the library encodes the request, decides on every read what the
//! response so far amounts to, and replays to the tunnel's user the bytes that
//! were read past the response head.

pub mod flow;
pub mod head;
pub mod http;
pub mod prepend_io_stream;

pub use flow::{HandshakeOutcome, ResponseParts};
pub use http::{HeaderMap, HeaderValue};
pub use prepend_io_stream::PrependIoStream as Stream;

use vstd::prelude::*;

verus! {

/// A finished handshake with its tunnel.
#[derive(Debug)]
pub struct Outcome<T> {
    pub response_parts: ResponseParts,
    pub stream: T,
}

impl<T> AsRef<T> for Outcome<T> {
    fn as_ref(&self) -> (stream: &T)
        ensures
            *stream == self.stream,
    {
        &self.stream
    }
}

/// Ends a handshake on `stream` whose outcome is `outcome`: the tunnel is
/// `stream` with the bytes that were read past the response head to read
/// before its own.
pub fn handshake_and_wrap<T>(stream: T, outcome: HandshakeOutcome) -> (wrapped: Outcome<Stream<T>>)
    ensures
        wrapped.response_parts == outcome.response_parts,
        wrapped.stream.inner() == stream,
        wrapped.stream.pending() == outcome.data_after_handshake@,
        wrapped.stream is Chain <==> outcome.data_after_handshake@.len() > 0,
{
    let HandshakeOutcome { response_parts, data_after_handshake } = outcome;
    Outcome { response_parts, stream: Stream::from_vec(stream, Some(data_after_handshake)) }
}

} // verus!
