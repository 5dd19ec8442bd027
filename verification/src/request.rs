//! Parsing and validation of one HTTP request read from a connection.
//!
//! The raw bytes of the request line are handed to `httparse`; everything
//! after that call (field presence checks, error classification, candidate
//! path construction) is verified.

use vstd::prelude::*;

verus! {

/// Which of the three required request fields is absent.
#[derive(Clone, Copy, PartialEq, Eq, Structural, Debug)]
pub enum HttpField {
    Version,
    Method,
    Path,
}

/// A failure while handling one connection. Each failure is local to the
/// connection it arose on; none is fatal to the process.
#[derive(Clone, Copy, PartialEq, Eq, Structural, Debug)]
pub enum HttpError {
    /// The socket read failed before any bytes could be parsed.
    FailedRead,
    /// The bytes read do not form the start of an HTTP request.
    FailedParse,
    /// The request line parsed but lacks the given field.
    MissingField(HttpField),
    /// Writing the response to the socket failed.
    FailedWrite,
}

/// The outcome of parsing a byte buffer: each request-line field that the
/// parser saw before the buffer ended, or `None` for one it did not.
pub struct ParsedRequest {
    pub version: Option<u8>,
    pub method: Option<String>,
    pub path: Option<String>,
}

impl View for ParsedRequest {
    type V = (Option<u8>, Option<Seq<char>>, Option<Seq<char>>);

    open spec fn view(&self) -> (Option<u8>, Option<Seq<char>>, Option<Seq<char>>) {
        (self.version, self.method.deep_view(), self.path.deep_view())
    }
}

/// What `httparse` makes of a byte buffer, with room for 64 headers:
/// `None` where the buffer is malformed, otherwise the version, method and
/// path fields it recovered. The parse depends on the bytes alone.
pub uninterp spec fn http_parse(bytes: Seq<u8>) -> Option<
    (Option<u8>, Option<Seq<char>>, Option<Seq<char>>),
>;

/// Relies on httparse::Request::parse (httparse 1.10.1): fills method, path
/// and version from the request line of `buf`, leaving a field `None` when
/// the buffer ends before it, and fails on malformed input. The result is a
/// function of the bytes alone.
#[verifier::external_body]
fn parse_with_httparse(buf: &[u8]) -> (r: Option<ParsedRequest>)
    ensures
        match r {
            Some(p) => http_parse(buf@) == Some(p@),
            None => http_parse(buf@) is None,
        },
{
    let mut headers = [httparse::EMPTY_HEADER; 64];
    let mut req = httparse::Request::new(&mut headers);
    match req.parse(buf) {
        Ok(_) => Some(ParsedRequest {
            version: req.version,
            method: req.method.map(String::from),
            path: req.path.map(String::from),
        }),
        Err(_) => None,
    }
}

/// Parse the bytes read from a connection, or report `FailedParse`.
pub fn parse_request(buf: &[u8]) -> (r: Result<ParsedRequest, HttpError>)
    ensures
        match r {
            Ok(p) => http_parse(buf@) == Some(p@),
            Err(e) => http_parse(buf@) is None && e == HttpError::FailedParse,
        },
{
    match parse_with_httparse(buf) {
        Some(p) => Ok(p),
        None => Err(HttpError::FailedParse),
    }
}

/// A request whose three fields were all present.
pub struct RequestFields {
    pub version: u8,
    pub method: String,
    pub path: String,
}

/// All three request-line fields are present.
pub open spec fn has_all_fields(t: (Option<u8>, Option<Seq<char>>, Option<Seq<char>>)) -> bool {
    t.0 is Some && t.1 is Some && t.2 is Some
}

/// The first absent field, in the order version, method, path.
pub open spec fn first_missing_field(
    t: (Option<u8>, Option<Seq<char>>, Option<Seq<char>>),
) -> HttpField {
    if t.0 is None {
        HttpField::Version
    } else if t.1 is None {
        HttpField::Method
    } else {
        HttpField::Path
    }
}

/// Extract the three request fields, or report which one is missing.
/// Succeeds exactly when all three are present.
pub fn all_fields(req: &ParsedRequest) -> (r: Result<RequestFields, HttpError>)
    ensures
        match r {
            Ok(f) => has_all_fields(req@) && req@.0 == Some(f.version) && req@.1 == Some(
                f.method@,
            ) && req@.2 == Some(f.path@),
            Err(e) => !has_all_fields(req@) && e == HttpError::MissingField(
                first_missing_field(req@),
            ),
        },
{
    let version: u8 = match &req.version {
        Some(v) => *v,
        None => {
            return Err(HttpError::MissingField(HttpField::Version));
        },
    };
    let method: String = match &req.method {
        Some(m) => m.clone(),
        None => {
            return Err(HttpError::MissingField(HttpField::Method));
        },
    };
    let path: String = match &req.path {
        Some(p) => p.clone(),
        None => {
            return Err(HttpError::MissingField(HttpField::Path));
        },
    };
    Ok(RequestFields { version, method, path })
}

/// The filesystem path a request path denotes: the configured root directory
/// with the request path appended verbatim, no normalization.
pub fn candidate_path(directory: &str, path: &str) -> (r: String)
    ensures
        r@ == directory@ + path@,
{
    let mut out = directory.to_owned();
    out.append(path);
    out
}

/// A validated request together with the filesystem path it resolves to.
pub struct RequestPlan {
    pub fields: RequestFields,
    pub candidate: String,
}

/// Decide what one connection's bytes ask for: parse them, demand all three
/// request-line fields, and form the candidate filesystem path. Succeeds
/// exactly when the bytes parse and no field is missing; each failure names
/// its cause.
pub fn plan_request(buf: &[u8], directory: &str) -> (r: Result<RequestPlan, HttpError>)
    ensures
        match r {
            Ok(plan) => {
                &&& http_parse(buf@) matches Some(t)
                &&& has_all_fields(t)
                &&& t.0 == Some(plan.fields.version)
                &&& t.1 == Some(plan.fields.method@)
                &&& t.2 == Some(plan.fields.path@)
                &&& plan.candidate@ == directory@ + plan.fields.path@
            },
            Err(e) => match http_parse(buf@) {
                None => e == HttpError::FailedParse,
                Some(t) => !has_all_fields(t) && e == HttpError::MissingField(
                    first_missing_field(t),
                ),
            },
        },
{
    let parsed = parse_request(buf)?;
    let fields = all_fields(&parsed)?;
    let candidate = candidate_path(directory, fields.path.as_str());
    Ok(RequestPlan { fields, candidate })
}

} // verus!
