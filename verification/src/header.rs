//! Response header: a two-digit status, a space, metadata, CRLF.
//!
//! The tens digit of the status selects the payload shape; the exact code
//! refines it.  The rule is: exact-code table first, tens-digit range
//! fallback second.  A leading digit outside 1 to 6 is an `Unknown` status
//! and a reportable parse error, never a crash.

use vstd::prelude::*;
use vstd::string::StrSliceExecFns;

use crate::error::Error;
use crate::text::{content_end, is_line_break, lemma_content_end_at};
use crate::urls::{parse_url, url_normal_of};

verus! {

/// The status of a response, decoded from its two-digit code.
#[derive(Debug, Copy, Clone, PartialEq, Eq, Structural)]
pub enum Status {
    // 10
    Input,
    // 11
    InputSensitive,
    // 20
    Success,
    // 30
    RedirectTemporary,
    // 31
    RedirectPermanent,
    // 40
    TemporaryFailure,
    // 41
    ServerUnavailable,
    // 42
    CgiError,
    // 43
    ProxyError,
    // 44
    SlowDown,
    // 50
    PermanentFailure,
    // 51
    NotFound,
    // 52
    Gone,
    // 53
    ProxyRequestRefused,
    // 59
    BadRequest,
    // 60
    ClientCertificateRequired,
    // 61
    CertificateNotAuthorized,
    // 62
    CertificateNotValid,
    // leading digit outside 1..6
    Unknown(u8),
}

/// The status a numeric code decodes to: the exact-code table first, the
/// tens-digit range second, `Unknown` for everything else.
pub open spec fn status_of(n: u8) -> Status {
    if n == 10 {
        Status::Input
    } else if n == 11 {
        Status::InputSensitive
    } else if n == 20 {
        Status::Success
    } else if n == 30 {
        Status::RedirectTemporary
    } else if n == 31 {
        Status::RedirectPermanent
    } else if n == 40 {
        Status::TemporaryFailure
    } else if n == 41 {
        Status::ServerUnavailable
    } else if n == 42 {
        Status::CgiError
    } else if n == 43 {
        Status::ProxyError
    } else if n == 44 {
        Status::SlowDown
    } else if n == 50 {
        Status::PermanentFailure
    } else if n == 51 {
        Status::NotFound
    } else if n == 52 {
        Status::Gone
    } else if n == 53 {
        Status::ProxyRequestRefused
    } else if n == 59 {
        Status::BadRequest
    } else if n == 60 {
        Status::ClientCertificateRequired
    } else if n == 61 {
        Status::CertificateNotAuthorized
    } else if n == 62 {
        Status::CertificateNotValid
    } else if 10 <= n && n <= 19 {
        Status::Input
    } else if 20 <= n && n <= 29 {
        Status::Success
    } else if 30 <= n && n <= 39 {
        Status::RedirectTemporary
    } else if 40 <= n && n <= 49 {
        Status::TemporaryFailure
    } else if 50 <= n && n <= 59 {
        Status::PermanentFailure
    } else if 60 <= n && n <= 69 {
        Status::ClientCertificateRequired
    } else {
        Status::Unknown(n)
    }
}

impl From<u8> for Status {
    fn from(status: u8) -> (r: Self) {
        if status == 10 {
            Status::Input
        } else if status == 11 {
            Status::InputSensitive
        } else if status == 20 {
            Status::Success
        } else if status == 30 {
            Status::RedirectTemporary
        } else if status == 31 {
            Status::RedirectPermanent
        } else if status == 40 {
            Status::TemporaryFailure
        } else if status == 41 {
            Status::ServerUnavailable
        } else if status == 42 {
            Status::CgiError
        } else if status == 43 {
            Status::ProxyError
        } else if status == 44 {
            Status::SlowDown
        } else if status == 50 {
            Status::PermanentFailure
        } else if status == 51 {
            Status::NotFound
        } else if status == 52 {
            Status::Gone
        } else if status == 53 {
            Status::ProxyRequestRefused
        } else if status == 59 {
            Status::BadRequest
        } else if status == 60 {
            Status::ClientCertificateRequired
        } else if status == 61 {
            Status::CertificateNotAuthorized
        } else if status == 62 {
            Status::CertificateNotValid
        } else if 10 <= status && status <= 19 {
            Status::Input
        } else if 20 <= status && status <= 29 {
            Status::Success
        } else if 30 <= status && status <= 39 {
            Status::RedirectTemporary
        } else if 40 <= status && status <= 49 {
            Status::TemporaryFailure
        } else if 50 <= status && status <= 59 {
            Status::PermanentFailure
        } else if 60 <= status && status <= 69 {
            Status::ClientCertificateRequired
        } else {
            Status::Unknown(status)
        }
    }
}

impl vstd::std_specs::convert::FromSpecImpl<u8> for Status {
    open spec fn obeys_from_spec() -> bool {
        true
    }

    open spec fn from_spec(v: u8) -> Status {
        status_of(v)
    }
}

/// The shape of the payload a status carries, fixed by the status class.
#[derive(Debug, Copy, Clone, PartialEq, Eq, Structural)]
pub enum Shape {
    Input,
    Success,
    Redirect,
    Failure,
    ClientCertificate,
    Unknown,
}

/// The payload shape of each status.
pub open spec fn shape_of(st: Status) -> Shape {
    match st {
        Status::Input | Status::InputSensitive => Shape::Input,
        Status::Success => Shape::Success,
        Status::RedirectTemporary | Status::RedirectPermanent => Shape::Redirect,
        Status::TemporaryFailure
        | Status::ServerUnavailable
        | Status::CgiError
        | Status::ProxyError
        | Status::SlowDown
        | Status::PermanentFailure
        | Status::NotFound
        | Status::Gone
        | Status::ProxyRequestRefused
        | Status::BadRequest => Shape::Failure,
        Status::ClientCertificateRequired
        | Status::CertificateNotAuthorized
        | Status::CertificateNotValid => Shape::ClientCertificate,
        Status::Unknown(_) => Shape::Unknown,
    }
}

/// The tens digit of a valid two-digit code determines the payload shape.
pub proof fn lemma_class_determines_shape(n: u8)
    ensures
        10 <= n <= 19 ==> shape_of(status_of(n)) == Shape::Input,
        20 <= n <= 29 ==> shape_of(status_of(n)) == Shape::Success,
        30 <= n <= 39 ==> shape_of(status_of(n)) == Shape::Redirect,
        40 <= n <= 59 ==> shape_of(status_of(n)) == Shape::Failure,
        60 <= n <= 69 ==> shape_of(status_of(n)) == Shape::ClientCertificate,
        (n < 10 || n > 69) ==> status_of(n) == Status::Unknown(n) && shape_of(status_of(n))
            == Shape::Unknown,
{
}

/// The payload of a header, one variant per status class.
#[derive(Debug, Clone)]
pub enum Inner {
    Input { prompt: Option<String> },
    Success { mime: String },
    Redirect { url: String },
    Failure { error: Option<String> },
    ClientCertificateRequired { error: Option<String> },
}

/// Mathematical model of [`Inner`].
pub enum InnerV {
    Input { prompt: Option<Seq<char>> },
    Success { mime: Seq<char> },
    Redirect { url: Seq<char> },
    Failure { error: Option<Seq<char>> },
    ClientCertificateRequired { error: Option<Seq<char>> },
}

impl View for Inner {
    type V = InnerV;

    open spec fn view(&self) -> InnerV {
        match self {
            Inner::Input { prompt } => InnerV::Input { prompt: prompt.deep_view() },
            Inner::Success { mime } => InnerV::Success { mime: mime@ },
            Inner::Redirect { url } => InnerV::Redirect { url: url@ },
            Inner::Failure { error } => InnerV::Failure { error: error.deep_view() },
            Inner::ClientCertificateRequired { error } => InnerV::ClientCertificateRequired {
                error: error.deep_view(),
            },
        }
    }
}

/// A decoded response header.
#[derive(Debug, Clone)]
pub struct Header {
    status: Status,
    inner: Inner,
}

/// Mathematical model of [`Header`].
pub struct HeaderV {
    pub status: Status,
    pub inner: InnerV,
}

impl View for Header {
    type V = HeaderV;

    closed spec fn view(&self) -> HeaderV {
        HeaderV { status: self.status, inner: self.inner@ }
    }
}

/// A metadata string as an optional field: absent when empty.
pub open spec fn opt_meta(meta: Seq<char>) -> Option<Seq<char>> {
    if meta.len() == 0 {
        None
    } else {
        Some(meta)
    }
}

impl Header {
    pub fn status(&self) -> (r: Status)
        ensures
            r == self@.status,
    {
        self.status
    }

    pub fn inner(&self) -> (r: &Inner)
        ensures
            r@ == self@.inner,
    {
        &self.inner
    }

    pub fn input(status: Status, prompt: &str) -> (r: Self)
        ensures
            r@.status == status,
            r@.inner == (InnerV::Input { prompt: opt_meta(prompt@) }),
    {
        Self { status, inner: Inner::Input { prompt: Self::prepare_str(prompt) } }
    }

    pub fn success(status: Status, mime: &str) -> (r: Self)
        ensures
            r@.status == status,
            r@.inner == (InnerV::Success { mime: mime@ }),
    {
        Self { status, inner: Inner::Success { mime: mime.to_owned() } }
    }

    pub fn redirect(status: Status, url: &str) -> (r: Self)
        ensures
            r@.status == status,
            r@.inner == (InnerV::Redirect { url: url@ }),
    {
        Self { status, inner: Inner::Redirect { url: url.to_owned() } }
    }

    pub fn failure(status: Status, error: &str) -> (r: Self)
        ensures
            r@.status == status,
            r@.inner == (InnerV::Failure { error: opt_meta(error@) }),
    {
        Self { status, inner: Inner::Failure { error: Self::prepare_str(error) } }
    }

    pub fn client_certificate(status: Status, error: &str) -> (r: Self)
        ensures
            r@.status == status,
            r@.inner == (InnerV::ClientCertificateRequired { error: opt_meta(error@) }),
    {
        Self { status, inner: Inner::ClientCertificateRequired { error: Self::prepare_str(error) } }
    }

    fn prepare_str(s: &str) -> (r: Option<String>)
        ensures
            r.deep_view() == opt_meta(s@),
    {
        if s.unicode_len() == 0 {
            None
        } else {
            Some(s.to_owned())
        }
    }
}

/// A decimal digit.
pub open spec fn is_digit(c: char) -> bool {
    48 <= c as int <= 57
}

/// The value of a decimal digit.
pub open spec fn digit_val(c: char) -> int {
    c as int - 48
}

/// What the mime crate's parser accepts, mapped to the essence (type and
/// subtype) of the parsed value; `None` when the string is not a MIME type.
pub uninterp spec fn mime_essence_of(s: Seq<char>) -> Option<Seq<char>>;

/// Relies on mime's `Mime: FromStr` and `Mime::essence_str`: the essence of
/// a parsed MIME type depends on the input string alone.
#[verifier::external_body]
fn parse_mime(s: &str) -> (r: Option<String>)
    ensures
        match r {
            Some(m) => mime_essence_of(s@) == Some(m@),
            None => mime_essence_of(s@) is None,
        },
{
    match s.parse::<mime::Mime>() {
        Ok(m) => Some(m.essence_str().to_string()),
        Err(_) => None,
    }
}

/// The wire grammar of a header: two digits, one space, metadata free of
/// line terminators, CRLF.  Yields the code, the metadata and the rest.
pub open spec fn header_grammar(s: Seq<char>) -> Option<(int, Seq<char>, Seq<char>)> {
    if s.len() >= 3 && is_digit(s[0]) && is_digit(s[1]) && s[2] == ' ' {
        let code = digit_val(s[0]) * 10 + digit_val(s[1]);
        let t = s.skip(3);
        let k = content_end(t) as int;
        if k + 2 <= t.len() && t[k] == '\r' && t[k + 1] == '\n' {
            Some((code, t.take(k), t.skip(k + 2)))
        } else {
            None
        }
    } else {
        None
    }
}

/// The payload parsed from the metadata of a status, by its shape.
pub open spec fn inner_spec(st: Status, meta: Seq<char>) -> Result<InnerV, Error> {
    match shape_of(st) {
        Shape::Input => Ok(InnerV::Input { prompt: opt_meta(meta) }),
        Shape::Success => match mime_essence_of(meta) {
            Some(m) => Ok(InnerV::Success { mime: m }),
            None => Err(Error::HeaderFieldInvalid),
        },
        Shape::Redirect => match url_normal_of(meta) {
            Some(u) => Ok(InnerV::Redirect { url: u }),
            None => Err(Error::HeaderFieldInvalid),
        },
        Shape::Failure => Ok(InnerV::Failure { error: opt_meta(meta) }),
        Shape::ClientCertificate => Ok(
            InnerV::ClientCertificateRequired { error: opt_meta(meta) },
        ),
        Shape::Unknown => Err(Error::HeaderParseError),
    }
}

/// What parsing a raw header yields: the header and the remaining input, or
/// the error owed to exactly this input.
pub open spec fn header_spec(s: Seq<char>) -> Result<(HeaderV, Seq<char>), Error> {
    match header_grammar(s) {
        None => Err(Error::HeaderParseError),
        Some((code, meta, rest)) => {
            let st = status_of(code as u8);
            match inner_spec(st, meta) {
                Ok(inner) => Ok((HeaderV { status: st, inner }, rest)),
                Err(e) => Err(e),
            }
        },
    }
}

/// In a successfully parsed header the payload variant is the one of the
/// status class.
pub proof fn lemma_shape_of_parsed(s: Seq<char>, h: HeaderV, rest: Seq<char>)
    requires
        header_spec(s) == Ok::<(HeaderV, Seq<char>), Error>((h, rest)),
    ensures
        (h.inner is Input) <==> shape_of(h.status) == Shape::Input,
        (h.inner is Success) <==> shape_of(h.status) == Shape::Success,
        (h.inner is Redirect) <==> shape_of(h.status) == Shape::Redirect,
        (h.inner is Failure) <==> shape_of(h.status) == Shape::Failure,
        (h.inner is ClientCertificateRequired) <==> shape_of(h.status) == Shape::ClientCertificate,
{
}

fn digit_char(c: char) -> (r: Option<u8>)
    ensures
        match r {
            Some(d) => is_digit(c) && d == digit_val(c),
            None => !is_digit(c),
        },
{
    let v = c as u32;
    if 48 <= v && v <= 57 {
        Some((v - 48) as u8)
    } else {
        None
    }
}

/// Reads the two leading status digits, returning the rest of the input and
/// the numeric code.
pub fn status_code_digits<'a>(i: &'a str) -> (r: Option<(&'a str, u8)>)
    ensures
        match r {
            Some((rest, code)) => i@.len() >= 2 && is_digit(i@[0]) && is_digit(i@[1]) && code
                == digit_val(i@[0]) * 10 + digit_val(i@[1]) && rest@ == i@.skip(2),
            None => !(i@.len() >= 2 && is_digit(i@[0]) && is_digit(i@[1])),
        },
{
    let n = i.unicode_len();
    if n < 2 {
        return None;
    }
    let d0 = digit_char(i.get_char(0));
    let d1 = digit_char(i.get_char(1));
    match (d0, d1) {
        (Some(a), Some(b)) => Some((i.substring_char(2, n), a * 10 + b)),
        _ => None,
    }
}

/// What parsing a raw response yields: the header, and the body bytes when
/// the status class permits a body (the success class), or the error owed to
/// exactly this input.
pub open spec fn build_header_spec(data: Seq<u8>) -> Result<(HeaderV, Option<Seq<u8>>), Error> {
    if !vstd::utf8::valid_utf8(data) {
        Err(Error::HeaderParseError)
    } else {
        match header_spec(vstd::utf8::decode_utf8(data)) {
            Err(e) => Err(e),
            Ok((h, rest)) => Ok(
                (
                    h,
                    if h.inner is Success {
                        Some(vstd::utf8::encode_utf8(rest))
                    } else {
                        None
                    },
                ),
            ),
        }
    }
}

/// Splits a raw response into its header and, for a success status, the body
/// bytes after the header line.
pub fn build_header(input: &[u8]) -> (r: Result<(Header, Option<Vec<u8>>), Error>)
    ensures
        match r {
            Ok((h, body)) => build_header_spec(input@) == Ok::<
                (HeaderV, Option<Seq<u8>>),
                Error,
            >((h@, body.deep_view())),
            Err(e) => build_header_spec(input@) == Err::<(HeaderV, Option<Seq<u8>>), Error>(e),
        },
{
    let s = match crate::text::bytes_as_str(input) {
        Some(s) => s,
        None => {
            return Err(Error::HeaderParseError);
        },
    };
    proof {
        vstd::utf8::encode_utf8_decode_utf8(s@);
    }
    match parse(s) {
        Err(e) => Err(e),
        Ok((rest, h)) => match h.inner() {
            Inner::Success { .. } => {
                let v = rest.as_bytes_vec();
                proof {
                    assert(v.deep_view() =~= v@);
                }
                Ok((h, Some(v)))
            },
            _ => Ok((h, None)),
        },
    }
}

/// Parses one raw header line, returning the remaining input and the header.
pub fn parse<'a>(i: &'a str) -> (r: Result<(&'a str, Header), Error>)
    ensures
        match r {
            Ok((rest, h)) => header_spec(i@) == Ok::<(HeaderV, Seq<char>), Error>((h@, rest@)),
            Err(e) => header_spec(i@) == Err::<(HeaderV, Seq<char>), Error>(e),
        },
{
    let n = i.unicode_len();
    let code = match status_code_digits(i) {
        Some((_, code)) => code,
        None => {
            return Err(Error::HeaderParseError);
        },
    };
    if n < 3 || i.get_char(2) != ' ' {
        return Err(Error::HeaderParseError);
    }
    let mut k: usize = 3;
    while k < n && !crate::text::is_break_char(i.get_char(k))
        invariant
            3 <= k <= n,
            n == i@.len(),
            forall|j: int| 3 <= j < k ==> !is_line_break(i@[j]),
        decreases n - k,
    {
        k = k + 1;
    }
    proof {
        assert forall|j: int| 0 <= j < k - 3 implies !is_line_break(i@.skip(3)[j]) by {
            assert(i@.skip(3)[j] == i@[j + 3]);
        }
        if k < n {
            assert(i@.skip(3)[k - 3] == i@[k as int]);
        }
        lemma_content_end_at(i@.skip(3), k - 3);
    }
    if k == n || i.get_char(k) != '\r' {
        return Err(Error::HeaderParseError);
    }
    if k + 1 >= n || i.get_char(k + 1) != '\n' {
        return Err(Error::HeaderParseError);
    }
    let meta = i.substring_char(3, k);
    let rest = i.substring_char(k + 2, n);
    proof {
        assert(meta@ =~= i@.skip(3).take(k - 3));
        assert(rest@ =~= i@.skip(3).skip(k - 3 + 2));
    }
    let status = Status::from(code);
    let header = match status {
        Status::Input | Status::InputSensitive => Header::input(status, meta),
        Status::Success => match parse_mime(meta) {
            Some(m) => Header::success(status, m.as_str()),
            None => {
                return Err(Error::HeaderFieldInvalid);
            },
        },
        Status::RedirectTemporary | Status::RedirectPermanent => match parse_url(meta) {
            Some(u) => Header::redirect(status, u.as_str()),
            None => {
                return Err(Error::HeaderFieldInvalid);
            },
        },
        Status::TemporaryFailure
        | Status::ServerUnavailable
        | Status::CgiError
        | Status::ProxyError
        | Status::SlowDown
        | Status::PermanentFailure
        | Status::NotFound
        | Status::Gone
        | Status::ProxyRequestRefused
        | Status::BadRequest => Header::failure(status, meta),
        Status::ClientCertificateRequired
        | Status::CertificateNotAuthorized
        | Status::CertificateNotValid => Header::client_certificate(status, meta),
        Status::Unknown(_) => {
            return Err(Error::HeaderParseError);
        },
    };
    Ok((rest, header))
}

} // verus!
