//! Replies: a status code and a textual body whose exact byte length is
//! reported as its content length.
use vstd::prelude::*;
use vstd::utf8::encode_utf8;

verus! {

/// The content type of every reply.
pub const CONTENT_TYPE: &'static str = "text/plain";

pub const STATUS_OK: u16 = 200;

pub const STATUS_BAD_REQUEST: u16 = 400;

pub const STATUS_REQUEST_TIMEOUT: u16 = 408;

pub const STATUS_INTERNAL_ERROR: u16 = 500;

/// A reply to one request.
pub struct Reply {
    pub status: u16,
    pub body: Vec<u8>,
}

impl Reply {
    /// The value of the content-length header: the body's length in bytes.
    pub fn content_length(&self) -> (r: usize)
        ensures
            r == self.body@.len(),
    {
        self.body.len()
    }
}

/// What acquiring a request body came to.
pub enum BodyRead {
    /// The body arrived with these bytes.
    Received(Vec<u8>),
    /// The body stream ended cleanly without any bytes.
    Empty,
    /// No body arrived before the deadline.
    TimedOut,
    /// The transport reported a terminal failure.
    Failed,
}

pub open spec fn empty_body_text() -> Seq<char> {
    "no body!"@
}

pub open spec fn timeout_text() -> Seq<char> {
    "Timed out while reading the request body."@
}

pub open spec fn read_failure_text() -> Seq<char> {
    "Failed to read the request body."@
}

/// The UTF-8 bytes of a string.
pub fn bytes_of(s: &str) -> (r: Vec<u8>)
    ensures
        r@ == encode_utf8(s@),
{
    let b = s.as_bytes();
    let mut v: Vec<u8> = Vec::new();
    let mut i: usize = 0;
    while i < b.len()
        invariant
            b@ == encode_utf8(s@),
            i <= b@.len(),
            v@ == b@.subrange(0, i as int),
        decreases b@.len() - i,
    {
        v.push(b[i]);
        i = i + 1;
        assert(v@ =~= b@.subrange(0, i as int));
    }
    assert(v@ =~= b@);
    v
}

/// A reply with the given status and body.
pub fn generate_response(status: u16, body: Vec<u8>) -> (r: Reply)
    ensures
        r.status == status,
        r.body@ == body@,
{
    Reply { status, body }
}

/// A client-error reply whose body is `msg`.
pub fn return_bad_request(msg: &str) -> (r: Reply)
    ensures
        r.status == STATUS_BAD_REQUEST,
        r.body@ == encode_utf8(msg@),
{
    generate_response(STATUS_BAD_REQUEST, bytes_of(msg))
}

/// The payload of a request, or the reply that ends it: an empty body
/// stands for the text `no body!`, a missed deadline gives a request-timeout
/// reply and a transport failure an internal-error reply.
pub fn acquired_body(read: BodyRead) -> (r: Result<Vec<u8>, Reply>)
    ensures
        match read {
            BodyRead::Received(b) => r == Ok::<Vec<u8>, Reply>(b),
            BodyRead::Empty => r is Ok && r->Ok_0@ == encode_utf8(empty_body_text()),
            BodyRead::TimedOut => r is Err && r->Err_0.status == STATUS_REQUEST_TIMEOUT
                && r->Err_0.body@ == encode_utf8(timeout_text()),
            BodyRead::Failed => r is Err && r->Err_0.status == STATUS_INTERNAL_ERROR
                && r->Err_0.body@ == encode_utf8(read_failure_text()),
        },
{
    match read {
        BodyRead::Received(b) => Ok(b),
        BodyRead::Empty => Ok(bytes_of("no body!")),
        BodyRead::TimedOut => Err(
            generate_response(
                STATUS_REQUEST_TIMEOUT,
                bytes_of("Timed out while reading the request body."),
            ),
        ),
        BodyRead::Failed => Err(
            generate_response(STATUS_INTERNAL_ERROR, bytes_of("Failed to read the request body.")),
        ),
    }
}

} // verus!
