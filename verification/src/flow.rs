//! The handshake: the request to send, and what to make of each read of the
//! response.

pub mod handshake_outcome;
pub mod request;

pub use handshake_outcome::{HandshakeOutcome, ResponseParts};

use crate::head::{parse_response, tokenized, tokenized_as, HeadView, Status, Tokenized};
use crate::http::HeaderMap;
use handshake_outcome::{parts_of, HandshakeOutcomeView};
use vstd::prelude::*;

verus! {

/// How many headers a response may have. One with more is malformed.
pub const MAX_HEADERS: usize = 16;

/// Why a handshake failed, where the transport itself did not fail.
#[derive(Debug, Clone, Copy, PartialEq, Eq)]
pub enum HandshakeError {
    /// The bytes received cannot begin a response head. The tokenizer's
    /// error says where it stopped.
    MalformedResponse(httparse::Error),
    /// The transport was closed before the head was complete.
    UnexpectedEof,
}

/// The request for a tunnel to `host` and `port`, to be written to the
/// transport in one write.
pub fn send_request(host: &str, port: u16, headers: &HeaderMap) -> (buf: Vec<u8>)
    ensures
        buf@ == request::request(host@, port, headers@),
{
    let mut buf: Vec<u8> = Vec::with_capacity(1024);
    request::write(&mut buf, host, port, headers);
    assert(buf@ =~= request::request(host@, port, headers@));
    buf
}

/// Begins a handshake: the request to write to the transport, and the
/// receiver for what the transport then delivers.
pub fn handshake(host: &str, port: u16, request_headers: &HeaderMap) -> (begun: (
    Vec<u8>,
    Receiver,
))
    ensures
        begun.0@ == request::request(host@, port, request_headers@),
        begun.1@ == Seq::<u8>::empty(),
{
    (send_request(host, port, request_headers), Receiver::new())
}

/// The outcome of a handshake whose response has the head `head` and
/// stands at the front of `bytes`: what follows the head was read too far.
pub open spec fn outcome_of(head: HeadView, bytes: Seq<u8>) -> HandshakeOutcomeView {
    HandshakeOutcomeView {
        response_parts: parts_of(head),
        data_after_handshake: bytes.skip(head.consumed as int),
    }
}

/// Says what a result of the tokenizer on `bytes` means for the handshake:
/// nothing yet while the head is partial, the outcome once it is complete,
/// an error where it is malformed.
pub fn conclude(parsed: Result<Status, httparse::Error>, bytes: &[u8]) -> (end: Option<
    Result<HandshakeOutcome, HandshakeError>,
>)
    requires
        parsed matches Ok(Status::Complete(head)) ==> head.consumed <= bytes@.len(),
    ensures
        match end {
            None => parsed == Ok::<Status, httparse::Error>(Status::Partial),
            Some(Ok(outcome)) => parsed matches Ok(Status::Complete(head)) && outcome@
                == outcome_of(head@, bytes@) && outcome.response_parts.headers.wf(),
            Some(Err(error)) => parsed matches Err(e) && error
                == HandshakeError::MalformedResponse(e),
        },
{
    match parsed {
        Ok(Status::Partial) => None,
        Ok(Status::Complete(head)) => {
            let rest = vstd::slice::slice_to_vec(&bytes[head.consumed..bytes.len()]);
            assert(rest@ =~= bytes@.skip(head.consumed as int));
            Some(Ok(HandshakeOutcome::new(head, rest)))
        },
        Err(error) => Some(Err(HandshakeError::MalformedResponse(error))),
    }
}

/// The receiving side of a handshake between two reads: it holds the bytes
/// read so far, which are the beginning of a head still to be completed.
#[derive(Debug)]
pub struct Receiver {
    /// `None` until a first read has come and left the head partial: the
    /// first read is tokenized where it lies.
    carry_on: Option<Vec<u8>>,
}

impl View for Receiver {
    type V = Seq<u8>;

    /// The bytes read so far.
    closed spec fn view(&self) -> Seq<u8> {
        match self.carry_on {
            Some(bytes) => bytes@,
            None => Seq::empty(),
        }
    }
}

impl Receiver {
    /// The receiver before the first read.
    pub fn new() -> (receiver: Receiver)
        ensures
            receiver@ == Seq::<u8>::empty(),
    {
        Receiver { carry_on: None }
    }
}

/// Where the handshake stands after a read.
#[derive(Debug)]
pub enum Progress {
    /// The head is not complete: read again, and hand what was read to
    /// this receiver.
    Read(Receiver),
    /// The head is complete.
    Done(HandshakeOutcome),
    /// The handshake has failed. Nothing more is to be read.
    Failed(HandshakeError),
}

/// What a `Progress` holds.
pub enum ProgressView {
    Read(Seq<u8>),
    Done(HandshakeOutcomeView),
    Failed(HandshakeError),
}

impl View for Progress {
    type V = ProgressView;

    open spec fn view(&self) -> ProgressView {
        match self {
            Progress::Read(receiver) => ProgressView::Read(receiver@),
            Progress::Done(outcome) => ProgressView::Done(outcome@),
            Progress::Failed(error) => ProgressView::Failed(*error),
        }
    }
}

/// What a result of the tokenizer on `bytes` means for the handshake.
pub open spec fn decided(result: Tokenized, bytes: Seq<u8>) -> ProgressView {
    match result {
        Tokenized::Partial => ProgressView::Read(bytes),
        Tokenized::Complete(head) => ProgressView::Done(outcome_of(head, bytes)),
        Tokenized::Malformed(error) => ProgressView::Failed(
            HandshakeError::MalformedResponse(error),
        ),
    }
}

/// Where the handshake stands when `read` has been read behind `so_far`.
/// A read of no bytes says that the transport is closed.
pub open spec fn received(so_far: Seq<u8>, read: Seq<u8>) -> ProgressView {
    if read.len() == 0 {
        ProgressView::Failed(HandshakeError::UnexpectedEof)
    } else {
        decided(tokenized(so_far + read, MAX_HEADERS as nat), so_far + read)
    }
}

/// Takes what one read of the transport has delivered, `data`, and says
/// where the handshake stands. All the bytes read so far are tokenized
/// anew, from their first byte.
pub fn receive_response(receiver: Receiver, data: &[u8]) -> (progress: Progress)
    ensures
        progress@ == received(receiver@, data@),
        progress matches Progress::Done(outcome) ==> outcome.response_parts.headers.wf(),
{
    if data.len() == 0 {
        return Progress::Failed(HandshakeError::UnexpectedEof);
    }
    match receiver.carry_on {
        None => {
            assert(receiver@ + data@ =~= data@);
            let parsed = parse_response(data, MAX_HEADERS);
            match conclude(parsed, data) {
                None => Progress::Read(
                    Receiver { carry_on: Some(vstd::slice::slice_to_vec(data)) },
                ),
                Some(Ok(outcome)) => Progress::Done(outcome),
                Some(Err(error)) => Progress::Failed(error),
            }
        },
        Some(mut carry_on) => {
            carry_on.extend_from_slice(data);
            assert(carry_on@ =~= receiver@ + data@);
            let parsed = parse_response(carry_on.as_slice(), MAX_HEADERS);
            match conclude(parsed, carry_on.as_slice()) {
                None => Progress::Read(Receiver { carry_on: Some(carry_on) }),
                Some(Ok(outcome)) => Progress::Done(outcome),
                Some(Err(error)) => Progress::Failed(error),
            }
        },
    }
}

/// Where the handshake stands when the transport has delivered `reads` one
/// after the other behind `so_far`, and how many of them were taken: a read
/// is taken only while the head is partial.
pub open spec fn received_all(so_far: Seq<u8>, reads: Seq<Seq<u8>>) -> (ProgressView, nat)
    decreases reads.len(),
{
    if reads.len() == 0 {
        (ProgressView::Read(so_far), 0)
    } else {
        match received(so_far, reads[0]) {
            ProgressView::Read(more) => {
                let rest = received_all(more, reads.drop_first());
                (rest.0, (rest.1 + 1) as nat)
            },
            end => (end, 1),
        }
    }
}

/// The reads of a script, each as the bytes it delivers.
pub open spec fn reads_of(script: Seq<Vec<u8>>) -> Seq<Seq<u8>> {
    Seq::new(script.len(), |i: int| script[i]@)
}

/// Runs a receiver over a script of reads, in their order, until the
/// handshake ends or the script does, and says how many reads were taken.
pub fn receive_all(receiver: Receiver, script: &Vec<Vec<u8>>) -> (end: (Progress, usize))
    ensures
        (end.0@, end.1 as nat) == received_all(receiver@, reads_of(script@)),
        end.0 matches Progress::Done(outcome) ==> outcome.response_parts.headers.wf(),
{
    let ghost reads = reads_of(script@);
    let mut current = receiver;
    let mut taken: usize = 0;
    assert(reads.skip(0) =~= reads);
    while taken < script.len()
        invariant
            taken <= script@.len(),
            reads == reads_of(script@),
            received_all(receiver@, reads) == ({
                let rest = received_all(current@, reads.skip(taken as int));
                (rest.0, (rest.1 + taken) as nat)
            }),
        decreases script@.len() - taken,
    {
        proof {
            assert(reads.skip(taken as int)[0] == script@[taken as int]@);
            assert(reads.skip(taken as int).drop_first() =~= reads.skip(taken + 1));
        }
        match receive_response(current, script[taken].as_slice()) {
            Progress::Read(next) => {
                current = next;
                taken += 1;
            },
            Progress::Done(outcome) => {
                return (Progress::Done(outcome), taken + 1);
            },
            Progress::Failed(error) => {
                return (Progress::Failed(error), taken + 1);
            },
        }
    }
    (Progress::Read(current), taken)
}

/// A response that comes in one read: where the tokenizer finds a complete
/// head in that read, the handshake is done with it, the response parts are
/// those of the head, and the bytes behind the head are those read too far.
pub proof fn lemma_single_read(data: Seq<u8>, head: HeadView)
    requires
        data.len() > 0,
    ensures
        tokenized(data, MAX_HEADERS as nat) == Tokenized::Complete(head) ==> received(
            Seq::empty(),
            data,
        ) == ProgressView::Done(
            HandshakeOutcomeView {
                response_parts: parts_of(head),
                data_after_handshake: data.skip(head.consumed as int),
            },
        ),
{
    assert(Seq::<u8>::empty() + data =~= data);
}

/// Malformed bytes fail the handshake at the read that brings them, with
/// the tokenizer's error, and no read behind it is taken.
pub proof fn lemma_malformed_fails(
    so_far: Seq<u8>,
    read: Seq<u8>,
    more: Seq<Seq<u8>>,
    error: httparse::Error,
)
    requires
        read.len() > 0,
    ensures
        tokenized(so_far + read, MAX_HEADERS as nat) == Tokenized::Malformed(error)
            ==> received_all(so_far, seq![read] + more) == (
            ProgressView::Failed(HandshakeError::MalformedResponse(error)),
            1nat,
        ),
{
    assert((seq![read] + more)[0] == read);
}

/// A handshake that has ended has ended for good: whatever the transport
/// would deliver behind the reads that were taken, none of it is read, and
/// the end is the same.
pub proof fn lemma_end_is_final(so_far: Seq<u8>, reads: Seq<Seq<u8>>, more: Seq<Seq<u8>>)
    ensures
        !(received_all(so_far, reads).0 is Read) ==> received_all(so_far, reads + more)
            == received_all(so_far, reads),
    decreases reads.len(),
{
    if reads.len() > 0 {
        assert((reads + more)[0] == reads[0]);
        assert((reads + more).drop_first() =~= reads.drop_first() + more);
        match received(so_far, reads[0]) {
            ProgressView::Read(bytes) => {
                lemma_end_is_final(bytes, reads.drop_first(), more);
            },
            _ => {},
        }
    }
}

/// The bytes of `reads`, one read behind the other.
pub open spec fn joined(reads: Seq<Seq<u8>>) -> Seq<u8>
    decreases reads.len(),
{
    if reads.len() == 0 {
        Seq::empty()
    } else {
        reads[0] + joined(reads.drop_first())
    }
}

/// Whether the tokenizer reads `data` in one way however much of it has
/// arrived: as a partial head while fewer than `head.consumed` bytes are
/// there, and as the head `head` from then on.
pub open spec fn steady(data: Seq<u8>, head: HeadView) -> bool {
    &&& 0 < head.consumed <= data.len()
    &&& forall|n: int|
        0 < n <= data.len() ==> tokenized(#[trigger] data.take(n), MAX_HEADERS as nat) == if n
            < head.consumed {
            Tokenized::Partial
        } else {
            Tokenized::Complete(head)
        }
}

proof fn lemma_fragments(so_far: Seq<u8>, reads: Seq<Seq<u8>>, head: HeadView)
    requires
        forall|i: int| 0 <= i < reads.len() ==> (#[trigger] reads[i]).len() > 0,
        steady(so_far + joined(reads), head),
        so_far.len() < head.consumed,
    ensures
        ({
            let end = received_all(so_far, reads);
            &&& 0 < end.1 <= reads.len()
            &&& end.0 matches ProgressView::Done(outcome)
            &&& outcome.response_parts == parts_of(head)
            &&& outcome.data_after_handshake + joined(reads.skip(end.1 as int)) == (so_far
                + joined(reads)).skip(head.consumed as int)
        }),
    decreases reads.len(),
{
    let data = so_far + joined(reads);
    let first = reads[0];
    let rest = reads.drop_first();
    let bytes = so_far + first;
    assert(bytes + joined(rest) =~= data);
    assert(data.take(bytes.len() as int) =~= bytes);
    assert(first.len() > 0);
    if bytes.len() < head.consumed {
        assert forall|i: int| 0 <= i < rest.len() implies (#[trigger] rest[i]).len() > 0 by {
            assert(rest[i] == reads[i + 1]);
        }
        lemma_fragments(bytes, rest, head);
        let end = received_all(bytes, rest);
        assert(reads.skip(end.1 as int + 1) =~= rest.skip(end.1 as int));
    } else {
        assert(reads.skip(1) =~= rest);
        assert(bytes.skip(head.consumed as int) + joined(rest) =~= data.skip(
            head.consumed as int,
        ));
    }
}

/// Fragmentation does not change what a handshake finds. Let the bytes of
/// a response come in any number of reads, none of them empty, cut at any
/// places, and let the tokenizer be steady on them. Then the handshake is
/// done as it is when they come in one read, with the same response parts;
/// and the bytes read too far, followed by the reads not taken, are the
/// bytes that the single read has read too far.
pub proof fn lemma_fragmentation_invariance(reads: Seq<Seq<u8>>, head: HeadView)
    requires
        forall|i: int| 0 <= i < reads.len() ==> (#[trigger] reads[i]).len() > 0,
    ensures
        steady(joined(reads), head) ==> ({
            let whole = received(Seq::empty(), joined(reads));
            let split = received_all(Seq::empty(), reads);
            &&& whole matches ProgressView::Done(single)
            &&& split.0 matches ProgressView::Done(outcome)
            &&& split.1 <= reads.len()
            &&& outcome.response_parts == single.response_parts
            &&& outcome.data_after_handshake + joined(reads.skip(split.1 as int))
                == single.data_after_handshake
        }),
{
    let data = joined(reads);
    if steady(data, head) {
        assert(Seq::<u8>::empty() + data =~= data);
        assert(data.take(data.len() as int) =~= data);
        lemma_fragments(Seq::empty(), reads, head);
    }
}

} // verus!
