use vstd::prelude::*;
use vstd::utf8::encode_utf8;

verus! {

/// The text that hyper's `Uri` parser accepts `s` as, rendered back as a
/// string; `None` where the parser rejects `s`.
pub uninterp spec fn uri_form(s: Seq<char>) -> Option<Seq<char>>;

/// Relies on `hyper::Uri`'s `FromStr` and `Display`: parses `s` and renders
/// the parsed URI, which fills in what the parser implies (such as the root
/// path of an authority-only URL).
#[verifier::external_body]
pub(crate) fn normalize_uri(s: &str) -> (r: Option<String>)
    ensures
        match r {
            Some(t) => uri_form(s@) == Some(t@),
            None => uri_form(s@) is None,
        },
{
    match s.parse::<hyper::Uri>() {
        Ok(uri) => Some(uri.to_string()),
        Err(_) => None,
    }
}

/// A byte that may stand in a method name: an HTTP token character.
pub open spec fn is_token_byte(b: u8) -> bool {
    // digits, upper-case and lower-case ASCII letters
    ||| (48 <= b <= 57)
    ||| (65 <= b <= 90)
    ||| (97 <= b <= 122)
    // ! # $ % & '
    ||| b == 33 || (35 <= b <= 39)
    // * + - .
    ||| b == 42 || b == 43 || b == 45 || b == 46
    // ^ _ ` | ~
    ||| (94 <= b <= 96) || b == 124 || b == 126
}

/// A method name is one or more token bytes.
pub open spec fn is_method_name(b: Seq<u8>) -> bool {
    b.len() > 0 && forall|i: int| 0 <= i < b.len() ==> is_token_byte(#[trigger] b[i])
}

/// Relies on `hyper::Method::from_bytes`: it accepts exactly the non-empty
/// byte strings made of token bytes.
#[verifier::external_body]
fn method_accepted(s: &str) -> (r: bool)
    ensures
        r == is_method_name(encode_utf8(s@)),
{
    hyper::Method::from_bytes(s.as_bytes()).is_ok()
}

/// Why a probe definition was refused.
#[derive(Clone, Copy, Debug, PartialEq, Eq, Structural)]
pub enum RequestError {
    /// The method is not a valid HTTP method name.
    InvalidMethod,
    /// The URL is not a valid URI.
    InvalidUrl,
}

/// One monitored endpoint: the request sent to probe it.
#[derive(Debug)]
pub struct Request {
    /// The URL, as hyper's `Uri` renders it; this text identifies the endpoint.
    pub url: String,
    /// The HTTP method name, one that hyper's `Method` accepts.
    pub method: String,
    /// The raw request body.
    pub body: Vec<u8>,
    /// The request headers, as name and value pairs.
    pub headers: Vec<(String, String)>,
}

impl Request {
    /// A request with an empty body and no headers. The method and the URL
    /// must parse; `try_new` is the form that reports when they do not.
    pub fn new(method: &str, url: &str) -> (r: Request)
        requires
            is_method_name(encode_utf8(method@)),
            uri_form(url@) is Some,
        ensures
            uri_form(url@) == Some(r.url@),
            r.method@ == method@,
            r.body@.len() == 0,
            r.headers@.len() == 0,
    {
        let u = normalize_uri(url).unwrap();
        Request { url: u, method: method.to_owned(), body: Vec::new(), headers: Vec::new() }
    }

    /// A request with an empty body and no headers, or the reason why the
    /// method or the URL was refused (the method is checked first).
    pub fn try_new(method: &str, url: &str) -> (r: Result<Request, RequestError>)
        ensures
            !is_method_name(encode_utf8(method@)) ==> r == Err::<Request, RequestError>(
                RequestError::InvalidMethod,
            ),
            is_method_name(encode_utf8(method@)) && uri_form(url@) is None ==> r == Err::<
                Request,
                RequestError,
            >(RequestError::InvalidUrl),
            is_method_name(encode_utf8(method@)) && uri_form(url@) is Some ==> (r matches Ok(q)
                && uri_form(url@) == Some(q.url@) && q.method@ == method@ && q.body@.len() == 0
                && q.headers@.len() == 0),
    {
        if !method_accepted(method) {
            return Err(RequestError::InvalidMethod);
        }
        if normalize_uri(url).is_none() {
            return Err(RequestError::InvalidUrl);
        }
        Ok(Request::new(method, url))
    }

    /// The same request with `body` as its body.
    pub fn set_body(self, body: Vec<u8>) -> (r: Request)
        ensures
            r.url == self.url,
            r.method == self.method,
            r.body == body,
            r.headers == self.headers,
    {
        Request { body, ..self }
    }

    /// The same request with `headers` as its headers.
    pub fn set_headers(self, headers: Vec<(String, String)>) -> (r: Request)
        ensures
            r.url == self.url,
            r.method == self.method,
            r.body == self.body,
            r.headers == headers,
    {
        Request { headers, ..self }
    }
}

} // verus!
