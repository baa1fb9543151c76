//! What a finished handshake hands to its caller.

use crate::head::{Head, HeadView};
use crate::http::{lower_bytes, HeaderMap, HeaderValue};
use vstd::prelude::*;

verus! {

/// The status line and the headers of the response.
#[derive(Debug, Clone, PartialEq, Eq)]
pub struct ResponseParts {
    pub status_code: u16,
    pub reason_phrase: String,
    pub headers: HeaderMap,
}

/// What a `ResponseParts` holds.
pub struct ResponsePartsView {
    pub status_code: u16,
    pub reason_phrase: Seq<char>,
    pub headers: Seq<(Seq<u8>, Seq<u8>)>,
}

impl View for ResponseParts {
    type V = ResponsePartsView;

    open spec fn view(&self) -> ResponsePartsView {
        ResponsePartsView {
            status_code: self.status_code,
            reason_phrase: self.reason_phrase@,
            headers: self.headers@,
        }
    }
}

/// The headers of a head as a header map holds them: in the order of the
/// head, every one of them, each name in lower case.
pub open spec fn headers_of(headers: Seq<(Seq<u8>, Seq<u8>)>) -> Seq<(Seq<u8>, Seq<u8>)> {
    Seq::new(headers.len(), |i: int| (lower_bytes(headers[i].0), headers[i].1))
}

/// The response parts that a complete head amounts to.
pub open spec fn parts_of(head: HeadView) -> ResponsePartsView {
    ResponsePartsView {
        status_code: head.status_code,
        reason_phrase: head.reason_phrase,
        headers: headers_of(head.headers),
    }
}

/// Builds the response parts from a complete head.
pub fn parts_from_complete_response(head: Head) -> (parts: ResponseParts)
    ensures
        parts@ == parts_of(head@),
        parts.headers.wf(),
{
    let mut headers = HeaderMap::new();
    let mut i: usize = 0;
    while i < head.headers.len()
        invariant
            i <= head.headers@.len(),
            headers@ == headers_of(head@.headers.take(i as int)),
            headers.wf(),
        decreases head.headers@.len() - i,
    {
        let pair = &head.headers[i];
        headers.append(pair.0.as_slice(), HeaderValue::from_bytes(pair.1.as_slice()));
        i += 1;
        assert(headers@ =~= headers_of(head@.headers.take(i as int)));
    }
    assert(head@.headers.take(i as int) =~= head@.headers);
    ResponseParts { status_code: head.status_code, reason_phrase: head.reason_phrase, headers }
}

/// Everything learned and everything read too far during a handshake.
#[derive(Debug, Clone, PartialEq, Eq)]
pub struct HandshakeOutcome {
    pub response_parts: ResponseParts,
    pub data_after_handshake: Vec<u8>,
}

/// What a `HandshakeOutcome` holds.
pub struct HandshakeOutcomeView {
    pub response_parts: ResponsePartsView,
    pub data_after_handshake: Seq<u8>,
}

impl View for HandshakeOutcome {
    type V = HandshakeOutcomeView;

    open spec fn view(&self) -> HandshakeOutcomeView {
        HandshakeOutcomeView {
            response_parts: self.response_parts@,
            data_after_handshake: self.data_after_handshake@,
        }
    }
}

impl HandshakeOutcome {
    /// The outcome of a handshake whose response had the head `head` and
    /// was followed, in what was read, by `data_after_handshake`.
    pub fn new(head: Head, data_after_handshake: Vec<u8>) -> (outcome: HandshakeOutcome)
        ensures
            outcome@ == (HandshakeOutcomeView {
                response_parts: parts_of(head@),
                data_after_handshake: data_after_handshake@,
            }),
            outcome.response_parts.headers.wf(),
    {
        HandshakeOutcome {
            response_parts: parts_from_complete_response(head),
            data_after_handshake,
        }
    }
}

} // verus!
