use vstd::prelude::*;
use vstd::string::*;

use crate::text::{
    chars_of, contains, contains_chars, find_char, find_from, is_ws, lemma_find_from,
    lemma_find_none, lemma_skip_word_run, same_chars, skip_word, skip_word_from, skip_ws,
    skip_ws_from, trim, trim_bounds,
};

verus! {

/// The request method; any token but `GET` and `POST` becomes `Uninitialized`.
#[derive(PartialEq, Eq, Structural, Clone, Copy, Debug)]
pub enum Method {
    Get,
    Post,
    Uninitialized,
}

/// The protocol version; any token but `HTTP/1.1` and `HTTP/2.0` becomes `Uninitialized`.
#[derive(PartialEq, Eq, Structural, Clone, Copy, Debug)]
pub enum Version {
    V1_1,
    V2_0,
    Uninitialized,
}

/// The requested resource: the path token of the request line, as written.
#[derive(PartialEq, Clone, Debug)]
pub enum Resource {
    Path(String),
}

/// The one way in which parsing a request fails.
#[derive(PartialEq, Eq, Structural, Clone, Copy, Debug)]
pub enum ParseError {
    /// A line names a protocol version but holds fewer than three tokens.
    MalformedRequestLine,
}

/// A parsed request. `headers` holds each key once, in the order of first appearance.
#[derive(Debug)]
pub struct HttpRequest {
    pub method: Method,
    pub version: Version,
    pub resource: Resource,
    pub headers: Vec<(String, String)>,
    pub msg_body: String,
}

/// What a request is: its method, version, path, header mapping and body line.
pub struct RequestView {
    pub method: Method,
    pub version: Version,
    pub path: Seq<char>,
    pub headers: Map<Seq<char>, Seq<char>>,
    pub body: Seq<char>,
}

pub open spec fn method_of(t: Seq<char>) -> Method {
    if t == "GET"@ {
        Method::Get
    } else if t == "POST"@ {
        Method::Post
    } else {
        Method::Uninitialized
    }
}

pub open spec fn version_of(t: Seq<char>) -> Version {
    if t == "HTTP/1.1"@ {
        Version::V1_1
    } else if t == "HTTP/2.0"@ {
        Version::V2_0
    } else {
        Version::Uninitialized
    }
}

/// The mapping that a list of pairs stands for; a later pair wins over an earlier one.
pub open spec fn header_map(h: Seq<(String, String)>) -> Map<Seq<char>, Seq<char>>
    decreases h.len(),
{
    if h.len() == 0 {
        Map::empty()
    } else {
        header_map(h.drop_last()).insert(h.last().0@, h.last().1@)
    }
}

pub open spec fn keys_unique(h: Seq<(String, String)>) -> bool {
    forall|i: int, j: int| 0 <= i < j < h.len() ==> h[i].0@ != h[j].0@
}

impl View for HttpRequest {
    type V = RequestView;

    open spec fn view(&self) -> RequestView {
        RequestView {
            method: self.method,
            version: self.version,
            path: match self.resource {
                Resource::Path(p) => p@,
            },
            headers: header_map(self.headers@),
            body: self.msg_body@,
        }
    }
}

impl HttpRequest {
    pub open spec fn wf(&self) -> bool {
        keys_unique(self.headers@)
    }
}

/// Where the `k`-th whitespace-separated token of `s` starts (`s.len()` or more if there is none).
pub open spec fn token_start(s: Seq<char>, k: nat) -> int
    decreases k,
{
    if k == 0 {
        skip_ws(s, 0)
    } else {
        skip_ws(s, skip_word(s, token_start(s, (k - 1) as nat)))
    }
}

/// The `k`-th whitespace-separated token of `s`.
pub open spec fn token(s: Seq<char>, k: nat) -> Seq<char> {
    s.subrange(token_start(s, k), skip_word(s, token_start(s, k)))
}

/// `s` holds at least three tokens.
pub open spec fn has_three_tokens(s: Seq<char>) -> bool {
    token_start(s, 2) < s.len()
}

/// What a request line says: method, path and version, or the failure when a token is missing.
pub open spec fn request_line(s: Seq<char>) -> Result<(Method, Seq<char>, Version), ParseError> {
    if has_three_tokens(s) {
        Ok((method_of(token(s, 0)), token(s, 1), version_of(token(s, 2))))
    } else {
        Err(ParseError::MalformedRequestLine)
    }
}

pub open spec fn is_request_line(line: Seq<char>) -> bool {
    contains(line, "HTTP/1.1"@) || contains(line, "HTTP/2.0"@)
}

pub open spec fn colon_at(line: Seq<char>) -> int {
    find_from(line, ':', 0)
}

/// Key and value of a header line: both sides of the first colon, trimmed; the whole
/// line, trimmed, and an empty value when there is no colon.
pub open spec fn header_line(line: Seq<char>) -> (Seq<char>, Seq<char>) {
    if colon_at(line) < line.len() {
        (
            trim(line.subrange(0, colon_at(line))),
            trim(line.subrange(colon_at(line) + 1, line.len() as int)),
        )
    } else {
        (trim(line), Seq::empty())
    }
}

/// The effect of one line on the request read so far.
pub open spec fn step(acc: RequestView, line: Seq<char>) -> Result<RequestView, ParseError> {
    if is_request_line(line) {
        match request_line(line) {
            Ok((m, p, v)) => Ok(
                RequestView {
                    method: m,
                    version: v,
                    path: p,
                    headers: acc.headers,
                    body: acc.body,
                },
            ),
            Err(e) => Err(e),
        }
    } else if colon_at(line) < line.len() {
        Ok(
            RequestView {
                method: acc.method,
                version: acc.version,
                path: acc.path,
                headers: acc.headers.insert(header_line(line).0, header_line(line).1),
                body: acc.body,
            },
        )
    } else if line.len() == 0 {
        Ok(acc)
    } else {
        Ok(
            RequestView {
                method: acc.method,
                version: acc.version,
                path: acc.path,
                headers: acc.headers,
                body: line,
            },
        )
    }
}

/// Where the line that starts at `i` ends: at the next `'\n'`, or at the end of `s`.
pub open spec fn line_end(s: Seq<char>, i: int) -> int {
    find_from(s, '\n', i)
}

/// The line that starts at `i`, without its `'\n'` and without a `'\r'` just before it.
pub open spec fn line_at(s: Seq<char>, i: int) -> Seq<char> {
    let e = line_end(s, i);
    if e < s.len() && e > i && s[e - 1] == '\r' {
        s.subrange(i, e - 1)
    } else {
        s.subrange(i, e)
    }
}

/// The lines of `s` from position `i` on; a final `'\n'` starts no further line.
pub open spec fn lines_from(s: Seq<char>, i: int) -> Seq<Seq<char>>
    decreases s.len() - i,
{
    if 0 <= i < s.len() {
        // `i <= line_end(s, i)` always holds (see `lemma_find_from`)
        if i <= line_end(s, i) < s.len() {
            seq![line_at(s, i)] + lines_from(s, line_end(s, i) + 1)
        } else {
            seq![line_at(s, i)]
        }
    } else {
        Seq::empty()
    }
}

/// The lines applied in order to `acc`; the first failure ends the reading.
pub open spec fn parse_lines(ls: Seq<Seq<char>>, acc: RequestView) -> Result<RequestView, ParseError>
    decreases ls.len(),
{
    if ls.len() == 0 {
        Ok(acc)
    } else {
        match step(acc, ls[0]) {
            Ok(next) => parse_lines(ls.drop_first(), next),
            Err(e) => Err(e),
        }
    }
}

/// The request before any line is read.
pub open spec fn empty_request() -> RequestView {
    RequestView {
        method: Method::Uninitialized,
        version: Version::Uninitialized,
        path: Seq::empty(),
        headers: Map::empty(),
        body: Seq::empty(),
    }
}

/// The request that the text `s` holds.
pub open spec fn parse_text(s: Seq<char>) -> Result<RequestView, ParseError> {
    parse_lines(lines_from(s, 0), empty_request())
}

impl Method {
    /// The method that a token names.
    pub fn from_token(t: &Vec<char>) -> (r: Method)
        ensures
            r == method_of(t@),
    {
        if same_chars(t, &chars_of("GET")) {
            Method::Get
        } else if same_chars(t, &chars_of("POST")) {
            Method::Post
        } else {
            Method::Uninitialized
        }
    }
}

impl Version {
    /// The version that a token names.
    pub fn from_token(t: &Vec<char>) -> (r: Version)
        ensures
            r == version_of(t@),
    {
        if same_chars(t, &chars_of("HTTP/1.1")) {
            Version::V1_1
        } else if same_chars(t, &chars_of("HTTP/2.0")) {
            Version::V2_0
        } else {
            Version::Uninitialized
        }
    }
}

impl<'a> From<&'a str> for Method {
    fn from(s: &'a str) -> Method {
        Method::from_token(&chars_of(s))
    }
}

impl<'a> vstd::std_specs::convert::FromSpecImpl<&'a str> for Method {
    open spec fn obeys_from_spec() -> bool {
        true
    }

    open spec fn from_spec(s: &'a str) -> Method {
        method_of(s@)
    }
}

impl<'a> From<&'a str> for Version {
    fn from(s: &'a str) -> Version {
        Version::from_token(&chars_of(s))
    }
}

impl<'a> vstd::std_specs::convert::FromSpecImpl<&'a str> for Version {
    open spec fn obeys_from_spec() -> bool {
        true
    }

    open spec fn from_spec(s: &'a str) -> Version {
        version_of(s@)
    }
}

/// The characters `s[from..to]` as a new string.
fn substring(s: &str, from: usize, to: usize) -> (r: String)
    requires
        from <= to <= s@.len(),
    ensures
        r@ == s@.subrange(from as int, to as int),
{
    s.substring_char(from, to).to_owned()
}

/// `s` without whitespace at either end.
fn trimmed(s: &str) -> (r: String)
    ensures
        r@ == trim(s@),
{
    let cs = chars_of(s);
    let (a, b) = trim_bounds(&cs);
    substring(s, a, b)
}

/// Reads the method, resource and version from the first three tokens of a request line.
pub fn process_req_line(s: &str) -> (r: Result<(Method, Resource, Version), ParseError>)
    ensures
        match (r, request_line(s@)) {
            (Ok((m, Resource::Path(p), v)), Ok((sm, sp, sv))) => m == sm && p@ == sp && v == sv,
            (Err(e), Err(se)) => e == se,
            _ => false,
        },
{
    let cs = chars_of(s);
    let a0 = skip_ws_from(&cs, 0);
    let b0 = skip_word_from(&cs, a0);
    let a1 = skip_ws_from(&cs, b0);
    let b1 = skip_word_from(&cs, a1);
    let a2 = skip_ws_from(&cs, b1);
    let b2 = skip_word_from(&cs, a2);
    assert(token_start(s@, 0) == a0);
    assert(token_start(s@, 1) == a1);
    assert(token_start(s@, 2) == a2);
    if a2 >= cs.len() {
        return Err(ParseError::MalformedRequestLine);
    }
    let m = Method::from_token(&crate::text::slice_chars(&cs, a0, b0));
    let v = Version::from_token(&crate::text::slice_chars(&cs, a2, b2));
    Ok((m, Resource::Path(substring(s, a1, b1)), v))
}

/// Splits a header line at its first colon and trims both sides.
pub fn process_header_line(s: &str) -> (r: (String, String))
    ensures
        r.0@ == header_line(s@).0,
        r.1@ == header_line(s@).1,
{
    let cs = chars_of(s);
    let c = find_char(&cs, ':', 0);
    if c < cs.len() {
        let key = substring(s, 0, c);
        let value = substring(s, c + 1, cs.len());
        (trimmed(key.as_str()), trimmed(value.as_str()))
    } else {
        (trimmed(s), String::new())
    }
}

proof fn lemma_header_map_update(h: Seq<(String, String)>, i: int, kv: (String, String))
    requires
        keys_unique(h),
        0 <= i < h.len(),
        h[i].0@ == kv.0@,
    ensures
        header_map(h.update(i, kv)) == header_map(h).insert(kv.0@, kv.1@),
    decreases h.len(),
{
    let u = h.update(i, kv);
    if i == h.len() - 1 {
        assert(u.drop_last() =~= h.drop_last());
        assert(header_map(u) =~= header_map(h).insert(kv.0@, kv.1@));
    } else {
        assert(u.drop_last() =~= h.drop_last().update(i, kv));
        lemma_header_map_update(h.drop_last(), i, kv);
        assert(header_map(u) =~= header_map(h).insert(kv.0@, kv.1@));
    }
}

/// Sets `key` to `value`, replacing an earlier value of the same key in place.
fn insert_header(h: &mut Vec<(String, String)>, key: String, value: String)
    requires
        keys_unique(old(h)@),
    ensures
        keys_unique(final(h)@),
        header_map(final(h)@) == header_map(old(h)@).insert(key@, value@),
{
    let mut j: usize = 0;
    while j < h.len()
        invariant
            j <= h@.len(),
            h@ == old(h)@,
            keys_unique(h@),
            forall|t: int| 0 <= t < j ==> h@[t].0@ != key@,
        decreases h@.len() - j,
    {
        if h[j].0 == key {
            proof {
                lemma_header_map_update(h@, j as int, (key, value));
            }
            h.set(j, (key, value));
            assert(keys_unique(h@)) by {
                assert forall|a: int, b: int| 0 <= a < b < h@.len() implies h@[a].0@ != h@[b].0@ by {
                    assert(old(h)@[a].0@ != old(h)@[b].0@);
                }
            }
            return;
        }
        j = j + 1;
    }
    h.push((key, value));
    assert(h@.drop_last() =~= old(h)@);
}

impl HttpRequest {
    /// The request before any line is read.
    fn empty() -> (r: HttpRequest)
        ensures
            r@ == empty_request(),
            r.wf(),
    {
        let r = HttpRequest {
            method: Method::Uninitialized,
            version: Version::Uninitialized,
            resource: Resource::Path(String::new()),
            headers: Vec::new(),
            msg_body: String::new(),
        };
        assert(r@.path =~= Seq::<char>::empty());
        r
    }

    /// Applies one line of the request text.
    fn read_line(&mut self, line: &str) -> (r: Result<(), ParseError>)
        requires
            old(self).wf(),
        ensures
            final(self).wf(),
            match step(old(self)@, line@) {
                Ok(v) => r is Ok && final(self)@ == v,
                Err(e) => r == Err::<(), ParseError>(e),
            },
    {
        let cs = chars_of(line);
        if contains_chars(&cs, &chars_of("HTTP/1.1")) || contains_chars(&cs, &chars_of("HTTP/2.0")) {
            match process_req_line(line) {
                Ok((m, res, v)) => {
                    self.method = m;
                    self.version = v;
                    self.resource = res;
                    Ok(())
                },
                Err(e) => Err(e),
            }
        } else if find_char(&cs, ':', 0) < cs.len() {
            let (key, value) = process_header_line(line);
            insert_header(&mut self.headers, key, value);
            Ok(())
        } else if cs.len() == 0 {
            Ok(())
        } else {
            self.msg_body = line.to_owned();
            Ok(())
        }
    }

    /// Parses a request text, line by line: a line that names `HTTP/1.1` or `HTTP/2.0`
    /// is the request line, one with a colon a header, an empty line is skipped, and any
    /// other line becomes the body, replacing an earlier body line.
    pub fn parse(raw: &str) -> (r: Result<HttpRequest, ParseError>)
        ensures
            match (r, parse_text(raw@)) {
                (Ok(q), Ok(v)) => q.wf() && q@ == v,
                (Err(e), Err(f)) => e == f,
                _ => false,
            },
    {
        let cs = chars_of(raw);
        let mut req = HttpRequest::empty();
        let mut i: usize = 0;
        while i < cs.len()
            invariant
                i <= cs@.len(),
                cs@ == raw@,
                req.wf(),
                parse_text(raw@) == parse_lines(lines_from(raw@, i as int), req@),
            decreases cs@.len() - i,
        {
            let e = find_char(&cs, '\n', i);
            let hi = if e < cs.len() && e > i && cs[e - 1] == '\r' {
                e - 1
            } else {
                e
            };
            let line = substring(raw, i, hi);
            let ghost ls = lines_from(raw@, i as int);
            proof {
                lemma_find_from(raw@, '\n', i as int);
            }
            assert(ls[0] == line@);
            if e < cs.len() {
                assert(ls.drop_first() =~= lines_from(raw@, e + 1));
            } else {
                assert(ls.drop_first() =~= lines_from(raw@, cs@.len() as int));
            }
            match req.read_line(line.as_str()) {
                Ok(()) => {},
                Err(err) => {
                    return Err(err);
                },
            }
            if e < cs.len() {
                i = e + 1;
            } else {
                i = cs.len();
            }
        }
        Ok(req)
    }
}

/// A line that the reader takes as a header: it names no version and holds a colon.
pub open spec fn is_header_line(line: Seq<char>) -> bool {
    !is_request_line(line) && colon_at(line) < line.len()
}

/// The request read from `ls` after `acc`, when the reading succeeds.
pub open spec fn read_all(ls: Seq<Seq<char>>, acc: RequestView) -> RequestView {
    match parse_lines(ls, acc) {
        Ok(v) => v,
        Err(_) => acc,
    }
}

/// Header lines never fail and touch only the headers. Each key of the lines ends up with the
/// value of the last line that names it, so the mapping is the same for any order of the lines
/// that keeps the last line of each key last; keys that no line names keep their value.
pub proof fn law_headers_last_wins(ls: Seq<Seq<char>>, acc: RequestView)
    requires
        forall|i: int| 0 <= i < ls.len() ==> is_header_line(#[trigger] ls[i]),
    ensures
        parse_lines(ls, acc) is Ok,
        read_all(ls, acc).method == acc.method,
        read_all(ls, acc).version == acc.version,
        read_all(ls, acc).path == acc.path,
        read_all(ls, acc).body == acc.body,
        forall|k: Seq<char>|
            #[trigger] read_all(ls, acc).headers.contains_key(k) <==> (acc.headers.contains_key(k)
                || exists|i: int| 0 <= i < ls.len() && #[trigger] header_line(ls[i]).0 == k),
        forall|i: int|
            0 <= i < ls.len() && (forall|j: int|
                i < j < ls.len() ==> #[trigger] header_line(ls[j]).0 != header_line(ls[i]).0)
                ==> read_all(ls, acc).headers[#[trigger] header_line(ls[i]).0] == header_line(
                ls[i],
            ).1,
        forall|k: Seq<char>|
            acc.headers.contains_key(k) && (forall|i: int|
                0 <= i < ls.len() ==> #[trigger] header_line(ls[i]).0 != k) ==> #[trigger] read_all(
                ls,
                acc,
            ).headers[k] == acc.headers[k],
    decreases ls.len(),
{
    if ls.len() > 0 {
        let rest = ls.drop_first();
        let kv = header_line(ls[0]);
        let next = RequestView {
            method: acc.method,
            version: acc.version,
            path: acc.path,
            headers: acc.headers.insert(kv.0, kv.1),
            body: acc.body,
        };
        assert(is_header_line(ls[0]));
        assert(step(acc, ls[0]) == Ok::<RequestView, ParseError>(next));
        assert forall|i: int| 0 <= i < rest.len() implies is_header_line(#[trigger] rest[i]) by {
            assert(rest[i] == ls[i + 1]);
        }
        law_headers_last_wins(rest, next);
        assert(read_all(ls, acc) == read_all(rest, next));
        let res = read_all(ls, acc);
        assert forall|k: Seq<char>|
            #[trigger] res.headers.contains_key(k) <==> (acc.headers.contains_key(k) || exists|
                i: int,
            | 0 <= i < ls.len() && #[trigger] header_line(ls[i]).0 == k) by {
            if exists|i: int| 0 <= i < rest.len() && #[trigger] header_line(rest[i]).0 == k {
                let i = choose|i: int| 0 <= i < rest.len() && #[trigger] header_line(rest[i]).0 == k;
                assert(header_line(ls[i + 1]).0 == k);
            }
            if exists|i: int| 0 <= i < ls.len() && #[trigger] header_line(ls[i]).0 == k {
                let i = choose|i: int| 0 <= i < ls.len() && #[trigger] header_line(ls[i]).0 == k;
                if i > 0 {
                    assert(header_line(rest[i - 1]).0 == k);
                }
            }
        }
        assert forall|i: int|
            0 <= i < ls.len() && (forall|j: int|
                i < j < ls.len() ==> #[trigger] header_line(ls[j]).0 != header_line(ls[i]).0)
                implies res.headers[#[trigger] header_line(ls[i]).0] == header_line(ls[i]).1 by {
            let k = header_line(ls[i]).0;
            if i > 0 {
                assert forall|j: int| i - 1 < j < rest.len() implies #[trigger] header_line(
                    rest[j],
                ).0 != header_line(rest[i - 1]).0 by {
                    assert(rest[j] == ls[j + 1]);
                }
                assert(rest[i - 1] == ls[i]);
            } else {
                assert forall|j: int| 0 <= j < rest.len() implies #[trigger] header_line(
                    rest[j],
                ).0 != k by {
                    assert(rest[j] == ls[j + 1]);
                }
            }
        }
        assert forall|k: Seq<char>|
            acc.headers.contains_key(k) && (forall|i: int|
                0 <= i < ls.len() ==> #[trigger] header_line(ls[i]).0 != k) implies #[trigger] res.headers[k]
            == acc.headers[k] by {
            assert(header_line(ls[0]).0 != k);
            assert forall|i: int| 0 <= i < rest.len() implies #[trigger] header_line(rest[i]).0 != k by {
                assert(rest[i] == ls[i + 1]);
            }
        }
    }
}

pub open spec fn no_ws(t: Seq<char>) -> bool {
    forall|i: int| 0 <= i < t.len() ==> !is_ws(#[trigger] t[i])
}

proof fn lemma_known_tokens_no_ws(t: Seq<char>)
    requires
        t == "GET"@ || t == "POST"@ || t == "HTTP/1.1"@ || t == "HTTP/2.0"@,
    ensures
        no_ws(t),
        t.len() > 0,
{
    reveal_strlit("GET");
    reveal_strlit("POST");
    reveal_strlit("HTTP/1.1");
    reveal_strlit("HTTP/2.0");
    assert forall|i: int| 0 <= i < t.len() implies !is_ws(#[trigger] t[i]) by {
        if t == "GET"@ {
            assert(t =~= seq!['G', 'E', 'T']);
        } else if t == "POST"@ {
            assert(t =~= seq!['P', 'O', 'S', 'T']);
        } else if t == "HTTP/1.1"@ {
            assert(t =~= seq!['H', 'T', 'T', 'P', '/', '1', '.', '1']);
        } else {
            assert(t =~= seq!['H', 'T', 'T', 'P', '/', '2', '.', '0']);
        }
    }
}

/// Three tokens joined by single spaces read back as those tokens.
proof fn lemma_three_tokens(m: Seq<char>, p: Seq<char>, v: Seq<char>)
    requires
        no_ws(m),
        no_ws(p),
        no_ws(v),
        m.len() > 0,
        p.len() > 0,
        v.len() > 0,
    ensures
        has_three_tokens(m + " "@ + p + " "@ + v),
        token(m + " "@ + p + " "@ + v, 0) == m,
        token(m + " "@ + p + " "@ + v, 1) == p,
        token(m + " "@ + p + " "@ + v, 2) == v,
        forall|k: int|
            0 <= k < (m + " "@ + p + " "@ + v).len() ==> #[trigger] (m + " "@ + p + " "@
                + v)[k] != '\n',
{
    reveal_strlit(" ");
    let s = m + " "@ + p + " "@ + v;
    let i1 = m.len() as int;
    let i2 = i1 + 1 + p.len();
    let i3 = i2 + 1;
    assert(s.len() == i3 + v.len());
    assert forall|k: int| 0 <= k < i1 implies !is_ws(#[trigger] s[k]) by {
        assert(s[k] == m[k]);
    }
    assert forall|k: int| i1 < k < i2 implies !is_ws(#[trigger] s[k]) by {
        assert(s[k] == p[k - i1 - 1]);
    }
    assert forall|k: int| i3 <= k < s.len() implies !is_ws(#[trigger] s[k]) by {
        assert(s[k] == v[k - i3]);
    }
    assert(s[i1] == ' ' && s[i2] == ' ');
    assert forall|k: int| 0 <= k < s.len() implies #[trigger] s[k] != '\n' by {
        if k != i1 && k != i2 {
            assert(!is_ws(s[k]));
        }
    }
    lemma_skip_word_run(s, 0, i1);
    lemma_skip_word_run(s, i1 + 1, i2);
    lemma_skip_word_run(s, i3, s.len() as int);
    assert(!is_ws(s[i1 + 1]));
    assert(!is_ws(s[i3]));
    assert(skip_ws(s, i1 + 1) == i1 + 1);
    assert(skip_ws(s, i1) == i1 + 1);
    assert(skip_ws(s, i3) == i3);
    assert(skip_ws(s, i2) == i3);
    assert(token_start(s, 0) == 0);
    assert(token_start(s, 1) == i1 + 1);
    assert(token_start(s, 2) == i3);
    assert(token(s, 0) =~= m);
    assert(token(s, 1) =~= p);
    assert(token(s, 2) =~= v);
}

/// A request line of a known method, a path and a known version, separated by single
/// spaces, reads back as exactly that method, path and version, with no headers and no body.
pub proof fn law_request_line_round_trip(m: Seq<char>, p: Seq<char>, v: Seq<char>)
    requires
        m == "GET"@ || m == "POST"@,
        v == "HTTP/1.1"@ || v == "HTTP/2.0"@,
        p.len() > 0,
        no_ws(p),
    ensures
        parse_text(m + " "@ + p + " "@ + v) == Ok::<RequestView, ParseError>(
            RequestView {
                method: method_of(m),
                version: version_of(v),
                path: p,
                headers: Map::empty(),
                body: Seq::empty(),
            },
        ),
{
    lemma_known_tokens_no_ws(m);
    lemma_known_tokens_no_ws(v);
    lemma_three_tokens(m, p, v);
    let s = m + " "@ + p + " "@ + v;
    let i3 = s.len() - v.len();
    lemma_find_none(s, '\n', 0);
    assert(s.subrange(0, s.len() as int) =~= s);
    assert(line_at(s, 0) == s);
    assert(lines_from(s, 0) =~= seq![s]);
    assert(s.subrange(i3, i3 + v.len()) =~= v);
    assert(contains(s, v));
    assert(is_request_line(s));
    let r = RequestView {
        method: method_of(m),
        version: version_of(v),
        path: p,
        headers: Map::empty(),
        body: Seq::empty(),
    };
    assert(request_line(s) == Ok::<(Method, Seq<char>, Version), ParseError>((method_of(m), p, version_of(v))));
    assert(step(empty_request(), s) == Ok::<RequestView, ParseError>(r));
    assert(seq![s].drop_first() =~= Seq::<Seq<char>>::empty());
    assert(parse_lines(seq![s], empty_request()) == parse_lines(Seq::empty(), r));
}

} // verus!
