//! The response head, as the tokenizer of the `httparse` crate reads it.

use vstd::prelude::*;

verus! {

/// The parse error of `httparse`. Nothing is known of a value but which
/// value it is.
#[verifier::external_type_specification]
#[verifier::external_body]
pub struct ExError(httparse::Error);

/// A complete response head.
#[derive(Debug)]
pub struct Head {
    /// How many bytes the head takes, from the first byte given to the
    /// tokenizer up to and with the empty line.
    pub consumed: usize,
    /// The status code.
    pub status_code: u16,
    /// The reason phrase, empty where the status line has none.
    pub reason_phrase: String,
    /// The headers in the order of the head, each a name and a value as
    /// they stand there.
    pub headers: Vec<(Vec<u8>, Vec<u8>)>,
}

/// What a complete response head holds.
pub struct HeadView {
    pub consumed: nat,
    pub status_code: u16,
    pub reason_phrase: Seq<char>,
    pub headers: Seq<(Seq<u8>, Seq<u8>)>,
}

/// The pairs of `headers`, each vector taken as the bytes it holds.
pub open spec fn pairs_of(headers: Seq<(Vec<u8>, Vec<u8>)>) -> Seq<(Seq<u8>, Seq<u8>)> {
    Seq::new(headers.len(), |i: int| (headers[i].0@, headers[i].1@))
}

impl View for Head {
    type V = HeadView;

    open spec fn view(&self) -> HeadView {
        HeadView {
            consumed: self.consumed as nat,
            status_code: self.status_code,
            reason_phrase: self.reason_phrase@,
            headers: pairs_of(self.headers@),
        }
    }
}

/// What the tokenizer makes of bytes that are not malformed.
#[derive(Debug)]
pub enum Status {
    /// The bytes are the beginning of a head and more are needed.
    Partial,
    /// The bytes begin with a complete head.
    Complete(Head),
}

/// What the tokenizer makes of bytes.
pub enum Tokenized {
    /// The bytes are the beginning of a head and more are needed.
    Partial,
    /// The bytes begin with a complete head.
    Complete(HeadView),
    /// The bytes cannot begin a head.
    Malformed(httparse::Error),
}

/// What `httparse` makes of `bytes` as a response, with room for
/// `max_headers` headers.
pub uninterp spec fn tokenized(bytes: Seq<u8>, max_headers: nat) -> Tokenized;

/// The result of a call of the tokenizer, as a plain value.
pub open spec fn tokenized_as(result: Result<Status, httparse::Error>) -> Tokenized {
    match result {
        Ok(Status::Partial) => Tokenized::Partial,
        Ok(Status::Complete(head)) => Tokenized::Complete(head@),
        Err(error) => Tokenized::Malformed(error),
    }
}

/// Calls `httparse::Response::parse` on `buf`, with a fresh array of
/// `max_headers` empty headers to fill. Trusted: the result is the one that
/// `tokenized` names, and a complete head ends within `buf`, which the
/// parser shows by counting the bytes that it has walked over. A complete
/// response has its code and its reason set, and its headers cut down to
/// those that were read.
#[verifier::external_body]
pub(crate) fn parse_response(buf: &[u8], max_headers: usize) -> (result: Result<
    Status,
    httparse::Error,
>)
    ensures
        tokenized_as(result) == tokenized(buf@, max_headers as nat),
        result matches Ok(Status::Complete(head)) ==> head.consumed <= buf@.len(),
{
    let mut headers = vec![httparse::EMPTY_HEADER; max_headers];
    let mut response = httparse::Response::new(&mut headers);
    Ok(match response.parse(buf)? {
        httparse::Status::Partial => Status::Partial,
        httparse::Status::Complete(consumed) => Status::Complete(Head {
            consumed,
            status_code: response.code.unwrap(),
            reason_phrase: response.reason.unwrap().to_string(),
            headers: response.headers.iter().map(|h| (h.name.as_bytes().to_vec(), h.value.to_vec())).collect(),
        }),
    })
}

} // verus!
