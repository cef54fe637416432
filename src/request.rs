//! Requests and responses, and the bytes that each is written as.
use vstd::prelude::*;
use vstd::utf8::encode_utf8;

use crate::headers::{content_length_name, HttpHeaders};
use crate::method::{method_name, HttpMethod};
use crate::status::{is_known_status, status_description, HttpStatusCode};
use crate::text::{
    append_bytes, ascii_chars, decimal_bytes, decimal_text, decode_lossy, digits_value,
    is_digit_char, lemma_decimal_bytes_ascii, lossy_of, push_decimal, unsigned_digits,
    unsigned_of, COLON, CR, LF, SP,
};

verus! {

/// A parsed request. It is read from a connection once, and then only read.
pub struct HttpRequest {
    pub method: HttpMethod,
    pub uri: String,
    pub http_version: String,
    pub headers: HttpHeaders,
    pub body: Option<Vec<u8>>,
}

/// The protocol version that a response names.
pub struct HttpVersion(pub String);

impl HttpVersion {
    /// HTTP/1.1.
    pub fn default() -> (r: HttpVersion)
        ensures
            r.0@ == "HTTP/1.1"@,
    {
        HttpVersion("HTTP/1.1".to_owned())
    }
}

pub open spec fn crlf() -> Seq<u8> {
    seq![CR, LF]
}

/// One line `name: value` for each header, each ended by CR LF, in order.
pub open spec fn header_block(pairs: Seq<(Seq<char>, Seq<char>)>) -> Seq<u8>
    decreases pairs.len(),
{
    if pairs.len() == 0 {
        Seq::empty()
    } else {
        header_block(pairs.drop_last()) + encode_utf8(pairs.last().0) + seq![COLON, SP]
            + encode_utf8(pairs.last().1) + crlf()
    }
}

/// The bytes of a request: its request line, its header lines, a blank line
/// and its body.
pub open spec fn request_bytes(
    method: HttpMethod,
    uri: Seq<char>,
    version: Seq<char>,
    pairs: Seq<(Seq<char>, Seq<char>)>,
    body: Option<Seq<u8>>,
) -> Seq<u8> {
    encode_utf8(method_name(method)) + seq![SP] + encode_utf8(uri) + seq![SP] + encode_utf8(version)
        + crlf() + header_block(pairs) + crlf() + match body {
        Some(b) => b,
        None => Seq::empty(),
    }
}

/// The bytes of a response: its status line, its header lines, a blank line
/// and its body.
pub open spec fn response_bytes(
    version: Seq<char>,
    code: nat,
    pairs: Seq<(Seq<char>, Seq<char>)>,
    body: Option<Seq<u8>>,
) -> Seq<u8> {
    encode_utf8(version) + seq![SP] + decimal_bytes(code) + seq![SP] + encode_utf8(
        status_description(code as i32),
    ) + crlf() + header_block(pairs) + crlf() + match body {
        Some(b) => b,
        None => Seq::empty(),
    }
}

/// The text of a decimal number.
pub open spec fn decimal_chars(n: nat) -> Seq<char> {
    ascii_chars(decimal_bytes(n))
}

proof fn lemma_digits_value_of_decimal(n: nat)
    ensures
        digits_value(decimal_chars(n)) == n,
        forall|i: int|
            0 <= i < decimal_chars(n).len() ==> is_digit_char(#[trigger] decimal_chars(n)[i]),
        decimal_chars(n).len() > 0,
    decreases n,
{
    lemma_decimal_bytes_ascii(n);
    let s = decimal_chars(n);
    let d = n % 10;
    let c = ((48 + d) as u8) as char;
    assert((48 + d) as u8 == 48 + d);
    assert(c as u32 == 48 + d);
    assert(s.last() == c);
    if n >= 10 {
        lemma_digits_value_of_decimal(n / 10);
        assert(s.drop_last() =~= decimal_chars(n / 10));
        assert(digits_value(s) == digits_value(s.drop_last()) * 10 + d);
        assert(n == (n / 10) * 10 + n % 10) by (nonlinear_arith);
        assert forall|i: int| 0 <= i < s.len() implies is_digit_char(#[trigger] s[i]) by {
            if i < s.len() - 1 {
                assert(s[i] == decimal_chars(n / 10)[i]);
            }
        }
    } else {
        assert(s.drop_last() =~= Seq::<char>::empty());
        assert(d == n);
        assert(digits_value(s) == digits_value(s.drop_last()) * 10 + d);
    }
}

/// The `content-length` that a response writes reads back as its body's
/// length.
pub proof fn lemma_content_length_reads_back(n: nat)
    requires
        n <= usize::MAX,
    ensures
        unsigned_of(decimal_chars(n)) == Some(n),
{
    lemma_digits_value_of_decimal(n);
    assert(decimal_chars(n)[0] != '+');
    assert(unsigned_digits(decimal_chars(n)) == decimal_chars(n));
}

/// The headers that a body gives: its length as `content-length`, or no
/// such header where there is no body.
pub open spec fn with_body_length(h: Map<Seq<char>, Seq<char>>, body: Option<Seq<u8>>) -> Map<
    Seq<char>,
    Seq<char>,
> {
    match body {
        Some(b) => h.insert(content_length_name(), decimal_chars(b.len())),
        None => h.remove(content_length_name()),
    }
}

pub open spec fn body_view(body: Option<Vec<u8>>) -> Option<Seq<u8>> {
    match body {
        Some(v) => Some(v@),
        None => None,
    }
}

/// Appends the header lines of `h` to `out`.
fn push_header_block(h: &HttpHeaders, out: &mut Vec<u8>)
    ensures
        final(out)@ == old(out)@ + header_block(h.pairs()),
{
    let n = h.len();
    let mut i: usize = 0;
    while i < n
        invariant
            n == h.pairs().len(),
            i <= n,
            out@ == old(out)@ + header_block(h.pairs().subrange(0, i as int)),
        decreases n - i,
    {
        let (name, value) = h.entry(i);
        let ghost before = out@;
        append_bytes(out, name.as_str().as_bytes());
        out.push(COLON);
        out.push(SP);
        append_bytes(out, value.as_str().as_bytes());
        out.push(CR);
        out.push(LF);
        let ghost p = h.pairs().subrange(0, i + 1);
        assert(p.drop_last() == h.pairs().subrange(0, i as int));
        assert(out@ == before + encode_utf8(p.last().0) + seq![COLON, SP] + encode_utf8(p.last().1)
            + crlf());
        i = i + 1;
    }
    assert(h.pairs().subrange(0, n as int) == h.pairs());
}

/// Appends the body, if any, to `out`.
fn push_body(body: &Option<Vec<u8>>, out: &mut Vec<u8>)
    ensures
        final(out)@ == old(out)@ + match body_view(*body) {
            Some(b) => b,
            None => Seq::empty(),
        },
{
    match body {
        Some(b) => append_bytes(out, b.as_slice()),
        None => {
            assert(out@ == out@ + Seq::<u8>::empty());
        },
    }
}

impl HttpRequest {
    /// The request as it is sent on the wire.
    pub fn to_bytes(&self) -> (r: Vec<u8>)
        ensures
            r@ == request_bytes(
                self.method,
                self.uri@,
                self.http_version@,
                self.headers.pairs(),
                body_view(self.body),
            ),
    {
        let mut out: Vec<u8> = Vec::new();
        append_bytes(&mut out, self.method.as_str().as_bytes());
        out.push(SP);
        append_bytes(&mut out, self.uri.as_str().as_bytes());
        out.push(SP);
        append_bytes(&mut out, self.http_version.as_str().as_bytes());
        out.push(CR);
        out.push(LF);
        push_header_block(&self.headers, &mut out);
        out.push(CR);
        out.push(LF);
        push_body(&self.body, &mut out);
        out
    }

    /// The request as text.
    pub fn to_text(&self) -> (r: String)
        ensures
            r@ == lossy_of(
                request_bytes(
                    self.method,
                    self.uri@,
                    self.http_version@,
                    self.headers.pairs(),
                    body_view(self.body),
                ),
            ),
    {
        let bytes = self.to_bytes();
        decode_lossy(bytes.as_slice())
    }
}

/// A response. Its `content-length` header always gives the length of its
/// body, and is absent when there is no body.
pub struct HttpResponse {
    pub http_version: HttpVersion,
    pub status_code: HttpStatusCode,
    pub headers: HttpHeaders,
    body: Option<Vec<u8>>,
}

impl HttpResponse {
    /// The response's body.
    pub closed spec fn body_spec(&self) -> Option<Seq<u8>> {
        body_view(self.body)
    }

    /// The response's protocol version.
    pub closed spec fn version_spec(&self) -> Seq<char> {
        self.http_version.0@
    }

    /// The response's status code.
    pub closed spec fn code_spec(&self) -> i32 {
        self.status_code.0
    }

    /// The response's headers.
    pub closed spec fn headers_spec(&self) -> Map<Seq<char>, Seq<char>> {
        self.headers@
    }

    /// The response's header lines, in order.
    pub closed spec fn header_pairs(&self) -> Seq<(Seq<char>, Seq<char>)> {
        self.headers.pairs()
    }

    /// The response's header map is well formed.
    pub closed spec fn wf(&self) -> bool {
        self.headers.wf()
    }

    /// A response with the given parts; its `content-length` header is set
    /// from `body`.
    pub fn new(
        http_version: HttpVersion,
        status_code: HttpStatusCode,
        headers: HttpHeaders,
        body: Option<Vec<u8>>,
    ) -> (r: HttpResponse)
        requires
            headers.wf(),
        ensures
            r.version_spec() == http_version.0@,
            r.code_spec() == status_code.0,
            r.wf(),
            r.headers_spec() == with_body_length(headers@, body_view(body)),
            r.body_spec() == body_view(body),
    {
        let mut result = HttpResponse { http_version, status_code, headers, body: None };
        result.set_body(body);
        result
    }

    /// The response's status code.
    pub fn status(&self) -> (r: HttpStatusCode)
        ensures
            r.0 == self.code_spec(),
    {
        self.status_code
    }

    /// The response's body.
    pub fn get_body(&self) -> (r: &Option<Vec<u8>>)
        ensures
            body_view(*r) == self.body_spec(),
    {
        &self.body
    }

    /// Replaces the body, and sets the `content-length` header to its
    /// length, or removes that header when there is no body.
    pub fn set_body(&mut self, body: Option<Vec<u8>>)
        requires
            old(self).wf(),
        ensures
            final(self).version_spec() == old(self).version_spec(),
            final(self).code_spec() == old(self).code_spec(),
            final(self).wf(),
            final(self).headers_spec() == with_body_length(old(self).headers_spec(), body_view(body)),
            final(self).body_spec() == body_view(body),
    {
        match &body {
            Some(data) => {
                let length = decimal_text(data.len());
                self.headers.insert("content-length", length.as_str());
            },
            None => {
                self.headers.unset("content-length");
            },
        }
        self.body = body;
    }

    /// The response as it is sent on the wire.
    pub fn to_bytes(&self) -> (r: Vec<u8>)
        requires
            is_known_status(self.code_spec()),
        ensures
            r@ == response_bytes(
                self.version_spec(),
                self.code_spec() as nat,
                self.header_pairs(),
                self.body_spec(),
            ),
    {
        let mut out: Vec<u8> = Vec::new();
        append_bytes(&mut out, self.http_version.0.as_str().as_bytes());
        out.push(SP);
        push_decimal(self.status_code.0 as usize, &mut out);
        out.push(SP);
        append_bytes(&mut out, self.status_code.description().as_bytes());
        out.push(CR);
        out.push(LF);
        push_header_block(&self.headers, &mut out);
        out.push(CR);
        out.push(LF);
        push_body(&self.body, &mut out);
        out
    }

    /// The response as text.
    pub fn to_text(&self) -> (r: String)
        requires
            is_known_status(self.code_spec()),
        ensures
            r@ == lossy_of(
                response_bytes(
                    self.version_spec(),
                    self.code_spec() as nat,
                    self.header_pairs(),
                    self.body_spec(),
                ),
            ),
    {
        let bytes = self.to_bytes();
        decode_lossy(bytes.as_slice())
    }
}

} // verus!
