//! Reading one request out of the bytes of a connection.
use vstd::prelude::*;
use vstd::slice::slice_subrange;

use crate::error::ParseError;
use crate::headers::{content_length_name, HttpHeaders};
use crate::method::{is_bodied, method_of_text, HttpMethod};
use crate::request::{body_view, crlf, HttpRequest};
use crate::text::{
    append_bytes, decode_lossy, find_byte, first_at, lacks, lemma_first_at_bounds,
    lemma_first_at_is, lemma_first_at_none, lossy_of, parse_unsigned, trim_of, trim_text,
    unsigned_of, COLON, CR, LF, SP,
};

verus! {

/// What a request holds, as values.
pub struct RequestView {
    pub method: HttpMethod,
    pub uri: Seq<char>,
    pub http_version: Seq<char>,
    pub headers: Map<Seq<char>, Seq<char>>,
    pub body: Option<Seq<u8>>,
}

impl View for HttpRequest {
    type V = RequestView;

    open spec fn view(&self) -> RequestView {
        RequestView {
            method: self.method,
            uri: self.uri@,
            http_version: self.http_version@,
            headers: self.headers@,
            body: body_view(self.body),
        }
    }
}

/// The text of a field: its bytes decoded, then trimmed.
pub open spec fn field(b: Seq<u8>) -> Seq<char> {
    trim_of(lossy_of(b))
}

/// The bytes of the line that ends with the line feed at `e`, without that
/// line feed and without a carriage return before it.
pub open spec fn line_content(d: Seq<u8>, start: int, e: int) -> Seq<u8> {
    if e > start && d[e - 1] == CR {
        d.subrange(start, e - 1)
    } else {
        d.subrange(start, e)
    }
}

/// The request line that starts at `start`: its method, URI and version,
/// and where the next line starts. The line runs to its line feed and holds
/// exactly two single spaces.
pub open spec fn request_line_at(d: Seq<u8>, start: int) -> Result<
    (HttpMethod, Seq<char>, Seq<char>, int),
    ParseError,
> {
    match first_at(d, start, LF) {
        None => Err(ParseError::UnexpectedEnd),
        Some(e) => {
            let line = line_content(d, start, e);
            match first_at(line, 0, SP) {
                None => Err(ParseError::MalformedRequestLine),
                Some(a) => match first_at(line, a + 1, SP) {
                    None => Err(ParseError::MalformedRequestLine),
                    Some(b) => if first_at(line, b + 1, SP).is_some() {
                        Err(ParseError::MalformedRequestLine)
                    } else {
                        match method_of_text(field(line.subrange(0, a))) {
                            None => Err(ParseError::UnknownMethod),
                            Some(m) => Ok(
                                (
                                    m,
                                    field(line.subrange(a + 1, b)),
                                    field(line.subrange(b + 1, line.len() as int)),
                                    e + 1,
                                ),
                            ),
                        }
                    },
                },
            }
        },
    }
}

/// Whether a line is the blank line that ends the headers.
pub open spec fn is_blank_line(line: Seq<u8>) -> bool {
    line.len() >= 2 && line[0] == CR && line[1] == LF
}

/// The headers from `pos` on, added to `acc`, and where the line after the
/// blank line starts. Each line is split at its first colon into a name,
/// lowercased, and a value.
pub open spec fn header_lines_at(d: Seq<u8>, pos: int, acc: Map<Seq<char>, Seq<char>>) -> Result<
    (Map<Seq<char>, Seq<char>>, int),
    ParseError,
>
    decreases d.len() - pos,
{
    match first_at(d, pos, LF) {
        None => Err(ParseError::UnexpectedEnd),
        Some(e) => if e < pos || e >= d.len() {
            Err(ParseError::UnexpectedEnd)
        } else {
            let line = d.subrange(pos, e + 1);
            if is_blank_line(line) {
                Ok((acc, e + 1))
            } else {
                let content = line_content(d, pos, e);
                match first_at(content, 0, COLON) {
                    None => Err(ParseError::MalformedHeader),
                    Some(c) => header_lines_at(
                        d,
                        e + 1,
                        acc.insert(
                            lower_of_field(content.subrange(0, c)),
                            field(content.subrange(c + 1, content.len() as int)),
                        ),
                    ),
                }
            }
        },
    }
}

/// A header name: its field text, lowercased.
pub open spec fn lower_of_field(b: Seq<u8>) -> Seq<char> {
    crate::text::lower_of(field(b))
}

/// The head of the request that starts at `start`: its request line and
/// headers, and where the line after the blank line starts.
pub open spec fn head_at(d: Seq<u8>, start: int) -> Result<
    (HttpMethod, Seq<char>, Seq<char>, Map<Seq<char>, Seq<char>>, int),
    ParseError,
> {
    match request_line_at(d, start) {
        Err(e) => Err(e),
        Ok((m, uri, version, p1)) => match header_lines_at(d, p1, Map::empty()) {
            Err(e) => Err(e),
            Ok((h, p2)) => Ok((m, uri, version, h, p2)),
        },
    }
}

/// The body that starts at `pos`: as many bytes as the `content-length`
/// header of `h` says.
pub open spec fn body_at(d: Seq<u8>, pos: int, h: Map<Seq<char>, Seq<char>>) -> Result<
    Seq<u8>,
    ParseError,
> {
    if !h.contains_key(content_length_name()) {
        Err(ParseError::MissingContentLength)
    } else {
        match unsigned_of(h[content_length_name()]) {
            None => Err(ParseError::InvalidContentLength),
            Some(n) => if pos + n > d.len() {
                Err(ParseError::UnexpectedEnd)
            } else {
                Ok(d.subrange(pos, pos + n))
            },
        }
    }
}

/// The request that starts at `start`, and where it ends. Only a request of a
/// bodied method has a body.
pub open spec fn parse_at(d: Seq<u8>, start: int) -> Result<(RequestView, int), ParseError> {
    match head_at(d, start) {
        Err(e) => Err(e),
        Ok((m, uri, version, h, p2)) => if !is_bodied(m) {
            Ok(
                (
                    RequestView { method: m, uri, http_version: version, headers: h, body: None },
                    p2,
                ),
            )
        } else {
            match body_at(d, p2, h) {
                Err(e) => Err(e),
                Ok(b) => Ok(
                    (
                        RequestView {
                            method: m,
                            uri,
                            http_version: version,
                            headers: h,
                            body: Some(b),
                        },
                        p2 + b.len(),
                    ),
                ),
            }
        },
    }
}

/// The request that a run of bytes begins with.
pub open spec fn parse_request(d: Seq<u8>) -> Result<RequestView, ParseError> {
    match parse_at(d, 0) {
        Ok((v, _)) => Ok(v),
        Err(e) => Err(e),
    }
}

/// The text of the bytes `d[a..b]`, trimmed.
fn field_text(d: &[u8], a: usize, b: usize) -> (r: String)
    requires
        a <= b <= d@.len(),
    ensures
        r@ == field(d@.subrange(a as int, b as int)),
{
    let text = decode_lossy(slice_subrange(d, a, b));
    trim_text(text.as_str())
}

/// Reads the request line that starts at `start`.
fn parse_request_line(d: &[u8], start: usize) -> (r: Result<
    (HttpMethod, String, String, usize),
    ParseError,
>)
    requires
        start <= d@.len(),
    ensures
        match r {
            Ok((m, uri, version, next)) => request_line_at(d@, start as int) == Ok::<
                (HttpMethod, Seq<char>, Seq<char>, int),
                ParseError,
            >((m, uri@, version@, next as int)),
            Err(e) => request_line_at(d@, start as int) == Err::<
                (HttpMethod, Seq<char>, Seq<char>, int),
                ParseError,
            >(e),
        },
{
    let e = match find_byte(d, start, LF) {
        None => return Err(ParseError::UnexpectedEnd),
        Some(e) => e,
    };
    let n = d.len();
    proof {
        lemma_first_at_bounds(d@, start as int, LF);
    }
    assert(e < n);
    let end = if e > start && d[e - 1] == CR {
        e - 1
    } else {
        e
    };
    let line = slice_subrange(d, start, end);
    let a = match find_byte(line, 0, SP) {
        None => return Err(ParseError::MalformedRequestLine),
        Some(a) => a,
    };
    proof {
        lemma_first_at_bounds(line@, 0, SP);
    }
    let b = match find_byte(line, a + 1, SP) {
        None => return Err(ParseError::MalformedRequestLine),
        Some(b) => b,
    };
    proof {
        lemma_first_at_bounds(line@, a + 1, SP);
    }
    if find_byte(line, b + 1, SP).is_some() {
        return Err(ParseError::MalformedRequestLine);
    }
    let name = field_text(line, 0, a);
    let method = match HttpMethod::try_from(name.as_str()) {
        Ok(m) => m,
        Err(err) => return Err(err),
    };
    let uri = field_text(line, a + 1, b);
    let version = field_text(line, b + 1, line.len());
    Ok((method, uri, version, e + 1))
}

/// Reads the header lines from `pos` on into `headers`, up to and including
/// the blank line, and gives the position after it.
fn parse_header_lines(d: &[u8], pos: usize, headers: &mut HttpHeaders) -> (r: Result<
    usize,
    ParseError,
>)
    requires
        pos <= d@.len(),
        old(headers).wf(),
    ensures
        final(headers).wf(),
        match r {
            Ok(next) => header_lines_at(d@, pos as int, old(headers)@) == Ok::<
                (Map<Seq<char>, Seq<char>>, int),
                ParseError,
            >((final(headers)@, next as int)),
            Err(e) => header_lines_at(d@, pos as int, old(headers)@) == Err::<
                (Map<Seq<char>, Seq<char>>, int),
                ParseError,
            >(e),
        },
{
    let mut p = pos;
    while p <= d.len()
        invariant
            pos <= p <= d@.len(),
            headers.wf(),
            header_lines_at(d@, pos as int, old(headers)@) == header_lines_at(
                d@,
                p as int,
                headers@,
            ),
        decreases d@.len() - p,
    {
        let e = match find_byte(d, p, LF) {
            None => return Err(ParseError::UnexpectedEnd),
            Some(e) => e,
        };
        proof {
            lemma_first_at_bounds(d@, p as int, LF);
        }
        let line = slice_subrange(d, p, e + 1);
        if line.len() >= 2 && line[0] == CR && line[1] == LF {
            return Ok(e + 1);
        }
        let end = if e > p && d[e - 1] == CR {
            e - 1
        } else {
            e
        };
        let content = slice_subrange(d, p, end);
        let c = match find_byte(content, 0, COLON) {
            None => return Err(ParseError::MalformedHeader),
            Some(c) => c,
        };
        proof {
            lemma_first_at_bounds(content@, 0, COLON);
        }
        let name = field_text(content, 0, c);
        let value = field_text(content, c + 1, content.len());
        headers.insert(name.as_str(), value.as_str());
        p = e + 1;
    }
    Err(ParseError::UnexpectedEnd)
}

/// Reads the request line and the headers of the request that starts at
/// `start`.
fn parse_request_head(d: &[u8], start: usize) -> (r: Result<
    (HttpMethod, String, String, HttpHeaders, usize),
    ParseError,
>)
    requires
        start <= d@.len(),
    ensures
        match r {
            Ok((m, uri, version, headers, end)) => headers.wf() && end <= d@.len() && head_at(
                d@,
                start as int,
            ) == Ok::<(HttpMethod, Seq<char>, Seq<char>, Map<Seq<char>, Seq<char>>, int), ParseError>(
                (m, uri@, version@, headers@, end as int),
            ),
            Err(e) => head_at(d@, start as int) == Err::<
                (HttpMethod, Seq<char>, Seq<char>, Map<Seq<char>, Seq<char>>, int),
                ParseError,
            >(e),
        },
{
    let (method, uri, http_version, p1) = match parse_request_line(d, start) {
        Ok(parts) => parts,
        Err(e) => return Err(e),
    };
    proof {
        lemma_first_at_bounds(d@, start as int, LF);
    }
    let mut headers = HttpHeaders::new();
    let p2 = match parse_header_lines(d, p1, &mut headers) {
        Ok(p) => p,
        Err(e) => return Err(e),
    };
    proof {
        lemma_header_lines_end(d@, p1 as int, Map::empty());
    }
    Ok((method, uri, http_version, headers, p2))
}

/// Reads the body that starts at `pos`, as long as `headers` says.
fn parse_request_body(d: &[u8], pos: usize, headers: &HttpHeaders) -> (r: Result<
    Vec<u8>,
    ParseError,
>)
    requires
        pos <= d@.len(),
        headers.wf(),
    ensures
        match r {
            Ok(body) => pos + body@.len() <= d@.len() && body_at(d@, pos as int, headers@) == Ok::<
                Seq<u8>,
                ParseError,
            >(body@),
            Err(e) => body_at(d@, pos as int, headers@) == Err::<Seq<u8>, ParseError>(e),
        },
{
    let n = match headers.get("content-length") {
        None => return Err(ParseError::MissingContentLength),
        Some(v) => match parse_unsigned(v.as_str()) {
            None => return Err(ParseError::InvalidContentLength),
            Some(n) => n,
        },
    };
    if n > d.len() - pos {
        return Err(ParseError::UnexpectedEnd);
    }
    let mut body: Vec<u8> = Vec::new();
    append_bytes(&mut body, slice_subrange(d, pos, pos + n));
    Ok(body)
}

/// Reads the request that starts at `start`, and where it ends.
fn parse_request_at(d: &[u8], start: usize) -> (r: Result<(HttpRequest, usize), ParseError>)
    requires
        start <= d@.len(),
    ensures
        match r {
            Ok((req, end)) => req.headers.wf() && end <= d@.len() && parse_at(d@, start as int)
                == Ok::<(RequestView, int), ParseError>((req@, end as int)),
            Err(e) => parse_at(d@, start as int) == Err::<(RequestView, int), ParseError>(e),
        },
{
    let (method, uri, http_version, headers, p2) = match parse_request_head(d, start) {
        Ok(head) => head,
        Err(e) => return Err(e),
    };
    if !method.is_bodied() {
        let req = HttpRequest { method, uri, http_version, headers, body: None };
        return Ok((req, p2));
    }
    let body = match parse_request_body(d, p2, &headers) {
        Ok(b) => b,
        Err(e) => return Err(e),
    };
    let total = d.len();
    assert(p2 + body@.len() <= total);
    let end = p2 + body.len();
    let req = HttpRequest { method, uri, http_version, headers, body: Some(body) };
    Ok((req, end))
}

/// Where the headers end lies within the bytes.
proof fn lemma_header_lines_end(d: Seq<u8>, pos: int, acc: Map<Seq<char>, Seq<char>>)
    requires
        0 <= pos,
    ensures
        match header_lines_at(d, pos, acc) {
            Ok((_, end)) => pos < end <= d.len(),
            Err(_) => true,
        },
    decreases d.len() - pos,
{
    lemma_first_at_bounds(d, pos, LF);
    match first_at(d, pos, LF) {
        None => {},
        Some(e) => {
            if pos <= e < d.len() {
                let line = d.subrange(pos, e + 1);
                if !is_blank_line(line) {
                    let content = line_content(d, pos, e);
                    match first_at(content, 0, COLON) {
                        None => {},
                        Some(c) => {
                            lemma_header_lines_end(
                                d,
                                e + 1,
                                acc.insert(
                                    lower_of_field(content.subrange(0, c)),
                                    field(content.subrange(c + 1, content.len() as int)),
                                ),
                            );
                        },
                    }
                }
            }
        },
    }
}

/// Parses HTTP requests out of a buffer of bytes, one after the other.
pub struct HttpParser {
    reader: Vec<u8>,
    pos: usize,
}

impl HttpParser {
    /// The bytes that the parser reads.
    pub closed spec fn data(&self) -> Seq<u8> {
        self.reader@
    }

    /// Where the next request starts.
    pub closed spec fn position(&self) -> int {
        self.pos as int
    }

    pub closed spec fn wf(&self) -> bool {
        self.pos <= self.reader@.len()
    }

    /// A parser at the start of `reader`.
    pub fn new(reader: &[u8]) -> (r: HttpParser)
        ensures
            r.wf(),
            r.data() == reader@,
            r.position() == 0,
    {
        let mut data: Vec<u8> = Vec::new();
        append_bytes(&mut data, reader);
        HttpParser { reader: data, pos: 0 }
    }

    /// Reads the next request. On success the parser moves to the byte after
    /// it; on failure it stays where it was.
    pub fn parse_http_request(&mut self) -> (r: Result<HttpRequest, ParseError>)
        requires
            old(self).wf(),
        ensures
            final(self).wf(),
            final(self).data() == old(self).data(),
            match r {
                Ok(req) => req.headers.wf() && parse_at(old(self).data(), old(self).position())
                    == Ok::<(RequestView, int), ParseError>((req@, final(self).position())),
                Err(e) => final(self).position() == old(self).position() && parse_at(
                    old(self).data(),
                    old(self).position(),
                ) == Err::<(RequestView, int), ParseError>(e),
            },
    {
        match parse_request_at(self.reader.as_slice(), self.pos) {
            Ok((req, end)) => {
                self.pos = end;
                Ok(req)
            },
            Err(e) => Err(e),
        }
    }
}

/// A header line `name:value` ended by CR LF.
pub open spec fn header_line(name: Seq<u8>, value: Seq<u8>) -> Seq<u8> {
    name + seq![COLON] + value + crlf()
}

/// The header lines of `hs`, in order.
pub open spec fn header_section(hs: Seq<(Seq<u8>, Seq<u8>)>) -> Seq<u8>
    decreases hs.len(),
{
    if hs.len() == 0 {
        Seq::empty()
    } else {
        header_line(hs[0].0, hs[0].1) + header_section(hs.drop_first())
    }
}

/// The headers that reading the lines of `hs` adds to `acc`.
pub open spec fn headers_of(acc: Map<Seq<char>, Seq<char>>, hs: Seq<(Seq<u8>, Seq<u8>)>) -> Map<
    Seq<char>,
    Seq<char>,
>
    decreases hs.len(),
{
    if hs.len() == 0 {
        acc
    } else {
        headers_of(acc.insert(lower_of_field(hs[0].0), field(hs[0].1)), hs.drop_first())
    }
}

/// Header lines that are well formed: no name holds a colon or a line feed,
/// and no value holds a line feed.
pub open spec fn well_formed_headers(hs: Seq<(Seq<u8>, Seq<u8>)>) -> bool {
    forall|i: int|
        0 <= i < hs.len() ==> lacks((#[trigger] hs[i]).0, COLON) && lacks(hs[i].0, LF) && lacks(
            hs[i].1,
            LF,
        )
}

/// A request line made of three fields, then header lines, then the blank line.
pub open spec fn request_head(
    method: Seq<u8>,
    uri: Seq<u8>,
    version: Seq<u8>,
    hs: Seq<(Seq<u8>, Seq<u8>)>,
) -> Seq<u8> {
    method + seq![SP] + uri + seq![SP] + version + crlf() + header_section(hs) + crlf()
}

/// A field of a request line: no space and no line feed.
pub open spec fn is_token(b: Seq<u8>) -> bool {
    lacks(b, SP) && lacks(b, LF)
}

proof fn lemma_header_section(
    pre: Seq<u8>,
    hs: Seq<(Seq<u8>, Seq<u8>)>,
    acc: Map<Seq<char>, Seq<char>>,
    rest: Seq<u8>,
)
    requires
        well_formed_headers(hs),
    ensures
        header_lines_at(pre + header_section(hs) + crlf() + rest, pre.len() as int, acc) == Ok::<
            (Map<Seq<char>, Seq<char>>, int),
            ParseError,
        >((headers_of(acc, hs), pre.len() + header_section(hs).len() + 2 as int)),
    decreases hs.len(),
{
    let s = pre + header_section(hs) + crlf() + rest;
    let p = pre.len() as int;
    if hs.len() == 0 {
        assert(s[p] == CR && s[p + 1] == LF);
        lemma_first_at_is(s, p, p + 1, LF);
        assert(is_blank_line(s.subrange(p, p + 2)));
    } else {
        let n = hs[0].0;
        let v = hs[0].1;
        let tail = hs.drop_first();
        assert(well_formed_headers(tail)) by {
            assert forall|i: int| 0 <= i < tail.len() implies lacks((#[trigger] tail[i]).0, COLON)
                && lacks(tail[i].0, LF) && lacks(tail[i].1, LF) by {
                assert(tail[i] == hs[i + 1]);
            }
        }
        assert(lacks(n, COLON) && lacks(n, LF) && lacks(v, LF)) by {
            assert(hs[0] == (n, v));
        }
        let hl = header_line(n, v);
        let pre2 = pre + hl;
        assert(s =~= pre2 + header_section(tail) + crlf() + rest);
        let e = p + n.len() + 1 + v.len() + 1 as int;
        assert forall|j: int| p <= j < e implies s[j] != LF by {
            assert(s[j] == hl[j - p]);
            if j - p < n.len() {
                assert(hl[j - p] == n[j - p]);
            } else if j - p > n.len() && j - p < n.len() + 1 + v.len() {
                assert(hl[j - p] == v[j - p - n.len() - 1]);
            }
        }
        assert(s[e] == hl[e - p]);
        lemma_first_at_is(s, p, e, LF);
        let line = s.subrange(p, e + 1);
        assert(!is_blank_line(line)) by {
            if n.len() == 0 {
                assert(line[0] == COLON);
            } else if n.len() == 1 {
                assert(line[1] == COLON);
            } else {
                assert(line[1] == n[1]);
            }
        }
        assert(s[e - 1] == CR);
        let content = line_content(s, p, e);
        assert(content =~= n + seq![COLON] + v);
        assert forall|j: int| 0 <= j < n.len() implies content[j] != COLON by {
            assert(content[j] == n[j]);
        }
        lemma_first_at_is(content, 0, n.len() as int, COLON);
        assert(content.subrange(0, n.len() as int) =~= n);
        assert(content.subrange(n.len() + 1 as int, content.len() as int) =~= v);
        lemma_header_section(pre2, tail, acc.insert(lower_of_field(n), field(v)), rest);
        assert(header_section(hs) == hl + header_section(tail));
    }
}

proof fn lemma_request_line(
    mb: Seq<u8>,
    ub: Seq<u8>,
    vb: Seq<u8>,
    tail: Seq<u8>,
    m: HttpMethod,
)
    requires
        is_token(mb),
        is_token(ub),
        is_token(vb),
        method_of_text(field(mb)) == Some(m),
    ensures
        request_line_at(mb + seq![SP] + ub + seq![SP] + vb + crlf() + tail, 0) == Ok::<
            (HttpMethod, Seq<char>, Seq<char>, int),
            ParseError,
        >((m, field(ub), field(vb), mb.len() + ub.len() + vb.len() + 4 as int)),
{
    let line = mb + seq![SP] + ub + seq![SP] + vb;
    let s = line + crlf() + tail;
    assert(s =~= mb + seq![SP] + ub + seq![SP] + vb + crlf() + tail);
    let e = line.len() + 1 as int;
    assert forall|j: int| 0 <= j < e implies s[j] != LF by {
        assert(s[j] == (line + crlf())[j]);
        if j < mb.len() {
            assert(line[j] == mb[j]);
        } else if mb.len() < j < mb.len() + 1 + ub.len() {
            assert(line[j] == ub[j - mb.len() - 1]);
        } else if mb.len() + 1 + ub.len() < j < line.len() {
            assert(line[j] == vb[j - mb.len() - ub.len() - 2]);
        }
    }
    lemma_first_at_is(s, 0, e, LF);
    assert(line_content(s, 0, e) =~= line);
    let a = mb.len() as int;
    let b = mb.len() + 1 + ub.len() as int;
    assert forall|j: int| 0 <= j < a implies line[j] != SP by {
        assert(line[j] == mb[j]);
    }
    lemma_first_at_is(line, 0, a, SP);
    assert forall|j: int| a + 1 <= j < b implies line[j] != SP by {
        assert(line[j] == ub[j - a - 1]);
    }
    lemma_first_at_is(line, a + 1, b, SP);
    assert forall|j: int| b + 1 <= j < line.len() implies line[j] != SP by {
        assert(line[j] == vb[j - b - 1]);
    }
    lemma_first_at_none(line, b + 1, SP);
    assert(line.subrange(0, a) =~= mb);
    assert(line.subrange(a + 1, b) =~= ub);
    assert(line.subrange(b + 1, line.len() as int) =~= vb);
}

/// A well-formed request of a method without a body parses to its method,
/// the trimmed text of its URI and version, and each header under its
/// lowercased, trimmed name with its trimmed value; whatever follows the
/// blank line is left unread.
pub proof fn lemma_parse_request_without_body(
    method: Seq<u8>,
    uri: Seq<u8>,
    version: Seq<u8>,
    hs: Seq<(Seq<u8>, Seq<u8>)>,
    rest: Seq<u8>,
    m: HttpMethod,
)
    requires
        is_token(method),
        is_token(uri),
        is_token(version),
        well_formed_headers(hs),
        method_of_text(field(method)) == Some(m),
        !is_bodied(m),
    ensures
        parse_at(request_head(method, uri, version, hs) + rest, 0) == Ok::<
            (RequestView, int),
            ParseError,
        >(
            (
                RequestView {
                    method: m,
                    uri: field(uri),
                    http_version: field(version),
                    headers: headers_of(Map::empty(), hs),
                    body: None,
                },
                request_head(method, uri, version, hs).len() as int,
            ),
        ),
{
    lemma_parse_head(method, uri, version, hs, rest, m);
}

/// A well-formed request of a bodied method whose `content-length` header
/// gives the length of its body parses to that body, byte for byte; whatever
/// follows the body is left unread.
pub proof fn lemma_parse_request_with_body(
    method: Seq<u8>,
    uri: Seq<u8>,
    version: Seq<u8>,
    hs: Seq<(Seq<u8>, Seq<u8>)>,
    body: Seq<u8>,
    rest: Seq<u8>,
    m: HttpMethod,
)
    requires
        is_token(method),
        is_token(uri),
        is_token(version),
        well_formed_headers(hs),
        method_of_text(field(method)) == Some(m),
        is_bodied(m),
        headers_of(Map::empty(), hs).contains_key(content_length_name()),
        unsigned_of(headers_of(Map::empty(), hs)[content_length_name()]) == Some(body.len()),
    ensures
        parse_at(request_head(method, uri, version, hs) + body + rest, 0) == Ok::<
            (RequestView, int),
            ParseError,
        >(
            (
                RequestView {
                    method: m,
                    uri: field(uri),
                    http_version: field(version),
                    headers: headers_of(Map::empty(), hs),
                    body: Some(body),
                },
                request_head(method, uri, version, hs).len() + body.len() as int,
            ),
        ),
{
    let head = request_head(method, uri, version, hs);
    let d = head + body + rest;
    assert(d =~= head + (body + rest));
    lemma_parse_head(method, uri, version, hs, body + rest, m);
    assert(d.subrange(head.len() as int, head.len() + body.len() as int) =~= body);
}

proof fn lemma_parse_head(
    method: Seq<u8>,
    uri: Seq<u8>,
    version: Seq<u8>,
    hs: Seq<(Seq<u8>, Seq<u8>)>,
    rest: Seq<u8>,
    m: HttpMethod,
)
    requires
        is_token(method),
        is_token(uri),
        is_token(version),
        well_formed_headers(hs),
        method_of_text(field(method)) == Some(m),
    ensures
        request_line_at(request_head(method, uri, version, hs) + rest, 0) == Ok::<
            (HttpMethod, Seq<char>, Seq<char>, int),
            ParseError,
        >((m, field(uri), field(version), method.len() + uri.len() + version.len() + 4 as int)),
        header_lines_at(
            request_head(method, uri, version, hs) + rest,
            method.len() + uri.len() + version.len() + 4 as int,
            Map::empty(),
        ) == Ok::<(Map<Seq<char>, Seq<char>>, int), ParseError>(
            (headers_of(Map::empty(), hs), request_head(method, uri, version, hs).len() as int),
        ),
{
    let line = method + seq![SP] + uri + seq![SP] + version + crlf();
    let d = request_head(method, uri, version, hs) + rest;
    assert(d =~= method + seq![SP] + uri + seq![SP] + version + crlf() + (header_section(hs)
        + crlf() + rest));
    lemma_request_line(method, uri, version, header_section(hs) + crlf() + rest, m);
    assert(d =~= line + header_section(hs) + crlf() + rest);
    lemma_header_section(line, hs, Map::empty(), rest);
}

} // verus!
