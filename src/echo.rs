//! The echo service: replies with the request body it was sent.
use vstd::prelude::*;
use vstd::utf8::encode_utf8;
use crate::reply::{
    acquired_body, empty_body_text, generate_response, read_failure_text, timeout_text, BodyRead,
    Reply, STATUS_INTERNAL_ERROR, STATUS_OK, STATUS_REQUEST_TIMEOUT,
};

verus! {

/// How long, in milliseconds, the echo service waits for a request body.
pub const ECHO_READ_TIMEOUT_MS: u64 = 2000;

/// The echo service, with a count of the requests it has seen.
pub struct HttpEchoApp {
    requests: u64,
}

impl HttpEchoApp {
    pub closed spec fn spec_request_count(&self) -> u64 {
        self.requests
    }

    pub fn new() -> (r: HttpEchoApp)
        ensures
            r.spec_request_count() == 0,
    {
        HttpEchoApp { requests: 0 }
    }

    /// The number of requests seen.
    pub fn request_count(&self) -> (r: u64)
        ensures
            r == self.spec_request_count(),
    {
        self.requests
    }

    /// Answers one request: every request counts once, and a body that
    /// arrived (or the text `no body!` for an empty one) is sent back as it
    /// came, with a success status.
    pub fn response(&mut self, read: BodyRead) -> (r: Reply)
        requires
            old(self).spec_request_count() < u64::MAX,
        ensures
            final(self).spec_request_count() == old(self).spec_request_count() + 1,
            match read {
                BodyRead::Received(b) => r.status == STATUS_OK && r.body@ == b@,
                BodyRead::Empty => r.status == STATUS_OK && r.body@ == encode_utf8(
                    empty_body_text(),
                ),
                BodyRead::TimedOut => r.status == STATUS_REQUEST_TIMEOUT && r.body@ == encode_utf8(
                    timeout_text(),
                ),
                BodyRead::Failed => r.status == STATUS_INTERNAL_ERROR && r.body@ == encode_utf8(
                    read_failure_text(),
                ),
            },
    {
        self.requests = self.requests + 1;
        match acquired_body(read) {
            Ok(body) => generate_response(STATUS_OK, body),
            Err(reply) => reply,
        }
    }
}

} // verus!
