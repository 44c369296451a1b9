//! HTTP request and response model.
//!
//! Requests carry their URL as the normal form produced by an absolute-URI
//! parse; responses carry plain values: a status code, header pairs, an
//! optional UTF-8 body and a wall-clock duration in milliseconds. The network
//! transport itself lives outside the library.

use vstd::prelude::*;

use crate::strutil::str_eq_str;
use crate::strutil::str_to_chars;
use crate::strutil::chars_to_string;

verus! {

/// The normal form that an absolute-URI parse gives to a URL text: the
/// parse fails, or succeeds with one canonical rendering. The result
/// depends on the text alone.
pub uninterp spec fn url_parse(s: Seq<char>) -> Option<Seq<char>>;

/// A URL in normal form: some text parses to it.
pub open spec fn valid_url(u: Seq<char>) -> bool {
    exists|s: Seq<char>| url_parse(s) == Some(u)
}

/// Relies on url::Url::parse (RFC 3986 absolute URIs) and Url::as_str:
/// the parse and its canonical rendering depend on the text alone.
#[verifier::external_body]
fn url_parse_exec(s: &str) -> (r: Option<String>)
    ensures
        match r {
            Some(u) => url_parse(s@) == Some(u@),
            None => url_parse(s@) is None,
        },
{
    match url::Url::parse(s) {
        Ok(u) => Some(u.as_str().to_owned()),
        Err(_) => None,
    }
}

/// Parses a URL text into its normal form; fails exactly when the text is
/// not an absolute URI.
pub fn parse_url(s: &str) -> (r: Option<String>)
    ensures
        match r {
            Some(u) => url_parse(s@) == Some(u@) && valid_url(u@),
            None => url_parse(s@) is None,
        },
{
    let r = url_parse_exec(s);
    proof {
        if r is Some {
            let u = r->Some_0;
            assert(url_parse(s@) == Some(u@));
        }
    }
    r
}

/// The request body: verbatim text, or a JSON document carried as its
/// serialized text and sent with `Content-Type: application/json`.
#[derive(Debug, Clone)]
pub enum Body {
    Text(String),
    Json(String),
}

/// An HTTP request as authored: a method verb, an absolute URL in normal
/// form, header pairs in authored order, and an optional body.
#[derive(Debug, Clone)]
pub struct HttpRequest {
    pub method: String,
    pub url: String,
    pub headers: Vec<(String, String)>,
    pub body: Option<Body>,
}

/// An HTTP response: status code, header pairs, optional UTF-8 body, the
/// wall-clock duration of the exchange in milliseconds, and the request it
/// answers (kept for rendering).
#[derive(Debug, Clone)]
pub struct HttpResponse {
    pub request: Option<HttpRequest>,
    pub duration_ms: u64,
    pub status: u16,
    pub headers: Vec<(String, String)>,
    pub body: Option<String>,
}

/// Uppercases an ASCII lowercase letter; other characters are unchanged.
pub open spec fn upper_char(c: char) -> char {
    if 'a' <= c && c <= 'z' {
        (c as int - 32) as char
    } else {
        c
    }
}

/// Uppercases each ASCII lowercase letter of a text.
pub open spec fn ascii_upper(s: Seq<char>) -> Seq<char> {
    Seq::new(s.len(), |i: int| upper_char(s[i]))
}

fn upper_char_exec(c: char) -> (r: char)
    ensures
        r == upper_char(c),
{
    match c {
        'a' => 'A',
        'b' => 'B',
        'c' => 'C',
        'd' => 'D',
        'e' => 'E',
        'f' => 'F',
        'g' => 'G',
        'h' => 'H',
        'i' => 'I',
        'j' => 'J',
        'k' => 'K',
        'l' => 'L',
        'm' => 'M',
        'n' => 'N',
        'o' => 'O',
        'p' => 'P',
        'q' => 'Q',
        'r' => 'R',
        's' => 'S',
        't' => 'T',
        'u' => 'U',
        'v' => 'V',
        'w' => 'W',
        'x' => 'X',
        'y' => 'Y',
        'z' => 'Z',
        _ => c,
    }
}

/// Uppercases the ASCII letters of a string, per `ascii_upper`.
pub fn to_ascii_uppercase(s: &str) -> (r: String)
    ensures
        r@ == ascii_upper(s@),
{
    let chars = str_to_chars(s);
    let mut out: Vec<char> = Vec::new();
    let mut i: usize = 0;
    while i < chars.len()
        invariant
            i <= chars@.len(),
            chars@ == s@,
            out@ == ascii_upper(s@).take(i as int),
        decreases chars@.len() - i,
    {
        out.push(upper_char_exec(chars[i]));
        assert(out@ =~= ascii_upper(s@).take(i + 1));
        i = i + 1;
    }
    proof {
        assert(ascii_upper(s@).take(s@.len() as int) =~= ascii_upper(s@));
    }
    chars_to_string(&out)
}

/// The method verbs the transport accepts.
pub open spec fn allowed_method(m: Seq<char>) -> bool {
    ||| m == "GET"@
    ||| m == "POST"@
    ||| m == "PUT"@
    ||| m == "PATCH"@
    ||| m == "DELETE"@
    ||| m == "HEAD"@
    ||| m == "OPTIONS"@
}

/// Decides whether a method verb, as written, is one the transport
/// accepts. The check is exact: callers uppercase first where the spec
/// asks for case-insensitive treatment.
pub fn method_allowed(m: &str) -> (r: bool)
    ensures
        r == allowed_method(m@),
{
    if str_eq_str(m, "GET") {
        true
    } else if str_eq_str(m, "POST") {
        true
    } else if str_eq_str(m, "PUT") {
        true
    } else if str_eq_str(m, "PATCH") {
        true
    } else if str_eq_str(m, "DELETE") {
        true
    } else if str_eq_str(m, "HEAD") {
        true
    } else if str_eq_str(m, "OPTIONS") {
        true
    } else {
        false
    }
}

impl HttpRequest {
    /// A request for a method and URL, with the method uppercased, no
    /// headers and no body.
    pub fn new(method: String, url: String) -> (r: HttpRequest)
        ensures
            r.method@ == ascii_upper(method@),
            r.url == url,
            r.headers@.len() == 0,
            r.body is None,
    {
        HttpRequest {
            method: to_ascii_uppercase(method.as_str()),
            url,
            headers: Vec::new(),
            body: None,
        }
    }

    /// Replaces the body, builder style.
    pub fn body(self, body: Option<Body>) -> (r: HttpRequest)
        ensures
            r.method == self.method,
            r.url == self.url,
            r.headers == self.headers,
            r.body == body,
    {
        HttpRequest { body, ..self }
    }
}

} // verus!
