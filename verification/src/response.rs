//! A full response: header, optional body, and the URL it came from.
//!
//! The body is kept only when the status class permits one — the success
//! class; every other class carries none.

use vstd::prelude::*;

use crate::error::Error;
use crate::header::{build_header, build_header_spec, Header, HeaderV};

verus! {

/// A parsed response.
#[derive(Debug)]
pub struct Response {
    header: Header,
    body: Option<Vec<u8>>,
    url: String,
}

/// Mathematical model of [`Response`].
pub struct ResponseV {
    pub header: HeaderV,
    pub body: Option<Seq<u8>>,
    pub url: Seq<char>,
}

impl View for Response {
    type V = ResponseV;

    closed spec fn view(&self) -> ResponseV {
        ResponseV { header: self.header@, body: self.body.deep_view(), url: self.url@ }
    }
}

/// What parsing raw response bytes against their source URL yields.
pub open spec fn response_spec(data: Seq<u8>, url: Seq<char>) -> Result<ResponseV, Error> {
    match build_header_spec(data) {
        Err(e) => Err(e),
        Ok((h, body)) => Ok(ResponseV { header: h, body, url }),
    }
}

impl Response {
    /// Splits raw bytes into header and body and records the source URL.
    pub fn parse(data: &[u8], url: &str) -> (r: Result<Response, Error>)
        ensures
            match r {
                Ok(resp) => response_spec(data@, url@) == Ok::<ResponseV, Error>(resp@),
                Err(e) => response_spec(data@, url@) == Err::<ResponseV, Error>(e),
            },
    {
        match build_header(data) {
            Err(e) => Err(e),
            Ok((header, body)) => Ok(Response { header, body, url: url.to_owned() }),
        }
    }

    /// The body bytes, present exactly for the success class.
    pub fn body(&self) -> (r: Option<&Vec<u8>>)
        ensures
            match r {
                Some(b) => self@.body == Some(b@),
                None => self@.body is None,
            },
    {
        match &self.body {
            Some(b) => {
                proof {
                    assert(b.deep_view() =~= b@);
                }
                Some(b)
            },
            None => None,
        }
    }

    pub fn header(&self) -> (r: &Header)
        ensures
            r@ == self@.header,
    {
        &self.header
    }

    /// The URL this response was fetched from; relative links in the body
    /// resolve against it.
    pub fn url(&self) -> (r: &str)
        ensures
            r@ == self@.url,
    {
        self.url.as_str()
    }
}

} // verus!
