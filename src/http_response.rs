use vstd::prelude::*;
use vstd::string::*;
use vstd::utf8::encode_utf8;

use crate::text::{append_decimal, chars_of, dec, same_chars};

verus! {

/// The two wire formats a response can be written in.
#[derive(PartialEq, Eq, Structural, Clone, Copy, Debug)]
pub enum HttpVersion {
    Http1_1,
    Http2_0,
}

impl Default for HttpVersion {
    fn default() -> (r: Self)
        ensures
            r == HttpVersion::Http1_1,
    {
        HttpVersion::Http1_1
    }
}

/// A response: version, status code and its text, headers in the order they are written,
/// and an optional body.
#[derive(PartialEq, Clone, Debug)]
pub struct HttpResponse {
    pub version: HttpVersion,
    pub status_code: String,
    pub status_text: String,
    pub headers: Option<Vec<(String, String)>>,
    pub body: Option<String>,
}

/// What a response is, over plain sequences.
pub struct ResponseView {
    pub version: HttpVersion,
    pub code: Seq<char>,
    pub text: Seq<char>,
    pub headers: Option<Seq<(Seq<char>, Seq<char>)>>,
    pub body: Option<Seq<char>>,
}

pub open spec fn pairs_view(h: Seq<(String, String)>) -> Seq<(Seq<char>, Seq<char>)> {
    h.map_values(|p: (String, String)| (p.0@, p.1@))
}

impl View for HttpResponse {
    type V = ResponseView;

    open spec fn view(&self) -> ResponseView {
        ResponseView {
            version: self.version,
            code: self.status_code@,
            text: self.status_text@,
            headers: match self.headers {
                Some(h) => Some(pairs_view(h@)),
                None => None,
            },
            body: match self.body {
                Some(b) => Some(b@),
                None => None,
            },
        }
    }
}

/// The status text of a code; a code outside the table reads "Not Found".
pub open spec fn status_text_of(code: Seq<char>) -> Seq<char> {
    if code == "200"@ {
        "OK"@
    } else if code == "400"@ {
        "Bad Request"@
    } else if code == "404"@ {
        "Not Found"@
    } else if code == "500"@ {
        "Internal Server Error"@
    } else {
        "Not Found"@
    }
}

/// The headers a response gets when none are given.
pub open spec fn default_headers() -> Seq<(Seq<char>, Seq<char>)> {
    seq![("Content-Type"@, "text/html"@)]
}

/// One `key:value\r\n` line per header, in order.
pub open spec fn headers_block(h: Seq<(Seq<char>, Seq<char>)>) -> Seq<char>
    decreases h.len(),
{
    if h.len() == 0 {
        Seq::empty()
    } else {
        headers_block(h.drop_last()) + h.last().0 + ":"@ + h.last().1 + "\r\n"@
    }
}

pub open spec fn headers_text(h: Option<Seq<(Seq<char>, Seq<char>)>>) -> Seq<char> {
    match h {
        Some(h) => headers_block(h),
        None => Seq::empty(),
    }
}

pub open spec fn body_text(b: Option<Seq<char>>) -> Seq<char> {
    match b {
        Some(b) => b,
        None => Seq::empty(),
    }
}

/// The number of bytes of the UTF-8 form of `s`.
pub open spec fn byte_len(s: Seq<char>) -> nat {
    encode_utf8(s).len()
}

/// The length a response states for its body: the body's byte length, as a machine word
/// holds it, or 0 without a body.
pub open spec fn content_length(b: Option<Seq<char>>) -> nat {
    match b {
        Some(b) => (byte_len(b) as usize) as nat,
        None => 0,
    }
}

/// Everything in front of the body's length.
pub open spec fn wire_head(r: ResponseView) -> Seq<char> {
    match r.version {
        HttpVersion::Http1_1 => "HTTP/1.1"@ + " "@ + r.code + " "@ + r.text + "\r\n"@
            + headers_text(r.headers) + "Content-Length: "@,
        HttpVersion::Http2_0 => ":status: "@ + r.code + "\r\n"@ + headers_text(r.headers)
            + "content-length: "@,
    }
}

/// The text a response is written as.
pub open spec fn wire(r: ResponseView) -> Seq<char> {
    wire_head(r) + dec(content_length(r.body)) + "\r\n\r\n"@ + body_text(r.body)
}

/// A failure to write to a sink.
#[derive(PartialEq, Eq, Structural, Clone, Copy, Debug)]
pub enum SendError {
    WriteFailed,
}

/// A destination for response text.
pub trait Sink {
    /// Everything written so far.
    spec fn written(&self) -> Seq<char>;

    /// Writes `text`; on success it is appended to what was written.
    fn write_text(&mut self, text: &str) -> (r: Result<(), SendError>)
        ensures
            r is Ok ==> final(self).written() == old(self).written() + text@,
    ;
}

impl Sink for String {
    open spec fn written(&self) -> Seq<char> {
        self@
    }

    fn write_text(&mut self, text: &str) -> (r: Result<(), SendError>) {
        self.append(text);
        Ok(())
    }
}

/// `s` as an owned string.
fn owned(s: &str) -> (r: String)
    ensures
        r@ == s@,
{
    s.to_owned()
}

impl Default for HttpResponse {
    fn default() -> (r: Self)
        ensures
            r.version == HttpVersion::Http1_1,
            r.status_code@ == "200"@,
            r.status_text@ == "OK"@,
            r.headers is None,
            r.body is None,
    {
        HttpResponse {
            version: HttpVersion::default(),
            status_code: owned("200"),
            status_text: owned("OK"),
            headers: None,
            body: None,
        }
    }
}

/// The status text of a code.
fn status_text_for(code: &String) -> (r: String)
    ensures
        r@ == status_text_of(code@),
{
    let cs = chars_of(code.as_str());
    if same_chars(&cs, &chars_of("200")) {
        owned("OK")
    } else if same_chars(&cs, &chars_of("400")) {
        owned("Bad Request")
    } else if same_chars(&cs, &chars_of("404")) {
        owned("Not Found")
    } else if same_chars(&cs, &chars_of("500")) {
        owned("Internal Server Error")
    } else {
        owned("Not Found")
    }
}

impl HttpResponse {
    /// A response with the status text of its code, and `Content-Type: text/html` as its
    /// only header when no headers are given.
    pub fn new(
        version: HttpVersion,
        status_code: String,
        headers: Option<Vec<(String, String)>>,
        body: Option<String>,
    ) -> (r: HttpResponse)
        ensures
            r.version == version,
            r.status_code == status_code,
            r.status_text@ == status_text_of(status_code@),
            headers is Some ==> r.headers == headers,
            headers is None ==> r.headers is Some && pairs_view(r.headers->0@) == default_headers(),
            r.body == body,
    {
        let mut response = HttpResponse::default();
        response.version = version;
        response.status_text = status_text_for(&status_code);
        response.status_code = status_code;
        response.headers = match headers {
            Some(h) => Some(h),
            None => {
                let mut h: Vec<(String, String)> = Vec::new();
                h.push((owned("Content-Type"), owned("text/html")));
                assert(pairs_view(h@) =~= default_headers());
                Some(h)
            },
        };
        response.body = body;
        response
    }

    /// Writes the response to `write_stream`; a failure of the sink is returned.
    pub fn send_response<W: Sink>(&self, write_stream: &mut W) -> (r: Result<(), SendError>)
        ensures
            r is Ok ==> final(write_stream).written() == old(write_stream).written() + wire(
                self@,
            ),
    {
        let text = self.to_wire();
        write_stream.write_text(text.as_str())
    }

    /// The version token of the status line.
    fn version(&self) -> (r: &str)
        ensures
            r@ == (match self.version {
                HttpVersion::Http1_1 => "HTTP/1.1"@,
                HttpVersion::Http2_0 => "HTTP/2.0"@,
            }),
    {
        match self.version {
            HttpVersion::Http1_1 => "HTTP/1.1",
            HttpVersion::Http2_0 => "HTTP/2.0",
        }
    }

    fn status_code(&self) -> (r: &str)
        ensures
            r@ == self.status_code@,
    {
        self.status_code.as_str()
    }

    fn status_text(&self) -> (r: &str)
        ensures
            r@ == self.status_text@,
    {
        self.status_text.as_str()
    }

    /// The header lines, one `key:value\r\n` per header.
    fn headers(&self) -> (r: String)
        ensures
            r@ == headers_text(self@.headers),
    {
        let mut out = String::new();
        match &self.headers {
            Some(h) => {
                let ghost hv = pairs_view(h@);
                let mut j: usize = 0;
                while j < h.len()
                    invariant
                        j <= h@.len(),
                        hv == pairs_view(h@),
                        out@ == headers_block(hv.take(j as int)),
                    decreases h@.len() - j,
                {
                    out.append(h[j].0.as_str());
                    out.append(":");
                    out.append(h[j].1.as_str());
                    out.append("\r\n");
                    assert(hv.take(j + 1).drop_last() =~= hv.take(j as int));
                    j = j + 1;
                }
                assert(hv.take(j as int) =~= hv);
            },
            None => {
                proof {
                    reveal_strlit("");
                }
                assert(out@ =~= Seq::<char>::empty());
            },
        }
        out
    }

    /// The body, or the empty string without one.
    pub fn body(&self) -> (r: &str)
        ensures
            r@ == body_text(self@.body),
    {
        match &self.body {
            Some(b) => b.as_str(),
            None => {
                proof {
                    reveal_strlit("");
                }
                assert(""@ =~= Seq::<char>::empty());
                ""
            },
        }
    }

    /// The length stated for the body: its byte length, or 0 without a body.
    fn body_length(&self) -> (r: usize)
        ensures
            r as nat == content_length(self@.body),
    {
        match &self.body {
            Some(b) => b.as_str().len(),
            None => 0,
        }
    }

    /// The text the response is written as.
    pub fn to_wire(&self) -> (r: String)
        ensures
            r@ == wire(self@),
    {
        let mut out = String::new();
        proof {
            reveal_strlit("");
        }
        match self.version {
            HttpVersion::Http1_1 => {
                out.append(self.version());
                out.append(" ");
                out.append(self.status_code());
                out.append(" ");
                out.append(self.status_text());
                out.append("\r\n");
                out.append(self.headers().as_str());
                out.append("Content-Length: ");
            },
            HttpVersion::Http2_0 => {
                out.append(":status: ");
                out.append(self.status_code());
                out.append("\r\n");
                out.append(self.headers().as_str());
                out.append("content-length: ");
            },
        }
        assert(out@ =~= wire_head(self@));
        append_decimal(&mut out, self.body_length());
        out.append("\r\n\r\n");
        out.append(self.body());
        assert(out@ =~= wire(self@));
        out
    }
}

impl From<HttpResponse> for String {
    fn from(res: HttpResponse) -> String {
        res.to_wire()
    }
}

impl vstd::std_specs::convert::FromSpecImpl<HttpResponse> for String {
    open spec fn obeys_from_spec() -> bool {
        false
    }

    open spec fn from_spec(res: HttpResponse) -> String {
        arbitrary()
    }
}

/// The status text is a function of the code alone, and every code outside the table
/// (200, 400, 404, 500) reads "Not Found".
pub proof fn law_status_text_fallback(code: Seq<char>)
    requires
        code != "200"@,
        code != "400"@,
        code != "404"@,
        code != "500"@,
    ensures
        status_text_of(code) == "Not Found"@,
{
}

/// The length that a response states is the byte length of its body, or 0 without a body.
pub proof fn law_content_length(r: ResponseView)
    requires
        r.body is Some ==> byte_len(r.body->0) <= usize::MAX,
    ensures
        wire(r) == wire_head(r) + dec(
            match r.body {
                Some(b) => byte_len(b),
                None => 0,
            },
        ) + "\r\n\r\n"@ + body_text(r.body),
{
}

} // verus!
