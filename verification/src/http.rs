//! HTTP/1.0 requests: the model of a request, and the parser that reads one
//! from the bytes a connection has delivered so far.

use crate::json::{fields_view, json_parse, json_text, member, render, Json, JsonView};
use crate::ledger::{
    after_block, after_transaction, block_gossip, block_reply, block_verdict, getblocks_reply,
    getdata_reply, handle_block_request, handle_getblocks_request, handle_getdata_request,
    handle_inv_request, transaction_gossip, transaction_reply, transaction_verdict, GossipView,
    Handled, Ledger, LedgerView,
};
use crate::peers::{get_known_peers_json, peers_doc, PeerRegistry, RegistryView};
use crate::text::{
    begins_with, chars_of, copy_range, decimal_text, find_char, lines, parse_decimal_usize, pieces,
    position, push_decimal, range_is, ranges_within, read_decimal, split_lines, split_words, trim,
    trim_range, words,
};
use vstd::hash_map::StringHashMap;
use vstd::prelude::*;
use vstd::string::*;
use vstd::utf8::*;

verus! {

/// The method of a request together with the path it asks for.
#[derive(Debug, Clone, PartialEq, Eq)]
pub enum HttpMethod {
    GET(String),
    POST(String),
    PUT(String),
    DELETE(String),
}

/// The four methods that the parser knows.
pub enum MethodKind {
    Get,
    Post,
    Put,
    Delete,
}

/// What an `HttpMethod` stands for.
pub struct HttpMethodView {
    pub kind: MethodKind,
    pub path: Seq<char>,
}

impl View for HttpMethod {
    type V = HttpMethodView;

    open spec fn view(&self) -> HttpMethodView {
        match self {
            HttpMethod::GET(p) => HttpMethodView { kind: MethodKind::Get, path: p@ },
            HttpMethod::POST(p) => HttpMethodView { kind: MethodKind::Post, path: p@ },
            HttpMethod::PUT(p) => HttpMethodView { kind: MethodKind::Put, path: p@ },
            HttpMethod::DELETE(p) => HttpMethodView { kind: MethodKind::Delete, path: p@ },
        }
    }
}

impl HttpMethod {
    /// The path of the request, whatever its method.
    pub fn path(&self) -> (p: &str)
        ensures
            p@ == self@.path,
    {
        match self {
            HttpMethod::GET(p) => p.as_str(),
            HttpMethod::POST(p) => p.as_str(),
            HttpMethod::PUT(p) => p.as_str(),
            HttpMethod::DELETE(p) => p.as_str(),
        }
    }

    /// Whether the method is `POST`.
    pub fn is_post(&self) -> (b: bool)
        ensures
            b == (self@.kind is Post),
    {
        match self {
            HttpMethod::POST(_) => true,
            _ => false,
        }
    }

    /// Whether the method is `GET`.
    pub fn is_get(&self) -> (b: bool)
        ensures
            b == (self@.kind is Get),
    {
        match self {
            HttpMethod::GET(_) => true,
            _ => false,
        }
    }
}

/// A parsed request.
pub struct HttpRequest {
    pub method: HttpMethod,
    pub headers: StringHashMap<String>,
    pub body: String,
    pub remote_addr: Option<String>,
}

/// What an `HttpRequest` stands for.
#[verifier::ext_equal]
pub struct HttpRequestView {
    pub method: HttpMethodView,
    pub headers: Map<Seq<char>, Seq<char>>,
    pub body: Seq<char>,
    pub remote_addr: Option<Seq<char>>,
}

/// The header mapping of a request as texts.
pub open spec fn header_texts(headers: Map<Seq<char>, String>) -> Map<Seq<char>, Seq<char>> {
    headers.map_values(|v: String| v@)
}

impl View for HttpRequest {
    type V = HttpRequestView;

    open spec fn view(&self) -> HttpRequestView {
        HttpRequestView {
            method: self.method@,
            headers: header_texts(self.headers@),
            body: self.body@,
            remote_addr: match self.remote_addr {
                Some(a) => Some(a@),
                None => None,
            },
        }
    }
}

/// Why a buffer is not a request.
#[derive(Debug, Clone, PartialEq, Eq)]
pub enum HttpParseError {
    InvalidUtf8,
    MissingRequestLine,
    InvalidRequestLine,
    UnsupportedMethod(String),
    InvalidHeaderLine,
    MissingContentLength,
    InvalidContentLength,
    ContentLengthMismatch { expected: usize, actual: usize },
    Incomplete,
}

/// What an `HttpParseError` stands for.
pub enum HttpParseErrorView {
    InvalidUtf8,
    MissingRequestLine,
    InvalidRequestLine,
    UnsupportedMethod(Seq<char>),
    InvalidHeaderLine,
    MissingContentLength,
    InvalidContentLength,
    ContentLengthMismatch { expected: usize, actual: usize },
    Incomplete,
}

impl View for HttpParseError {
    type V = HttpParseErrorView;

    open spec fn view(&self) -> HttpParseErrorView {
        match self {
            HttpParseError::InvalidUtf8 => HttpParseErrorView::InvalidUtf8,
            HttpParseError::MissingRequestLine => HttpParseErrorView::MissingRequestLine,
            HttpParseError::InvalidRequestLine => HttpParseErrorView::InvalidRequestLine,
            HttpParseError::UnsupportedMethod(m) => HttpParseErrorView::UnsupportedMethod(m@),
            HttpParseError::InvalidHeaderLine => HttpParseErrorView::InvalidHeaderLine,
            HttpParseError::MissingContentLength => HttpParseErrorView::MissingContentLength,
            HttpParseError::InvalidContentLength => HttpParseErrorView::InvalidContentLength,
            HttpParseError::ContentLengthMismatch { expected, actual } => {
                HttpParseErrorView::ContentLengthMismatch { expected: *expected, actual: *actual }
            },
            HttpParseError::Incomplete => HttpParseErrorView::Incomplete,
        }
    }
}

/// Whether the blank line that ends the head of a request (`\r\n\r\n`) stands at `i`.
pub open spec fn delimiter_at(text: Seq<char>, i: int) -> bool {
    &&& 0 <= i
    &&& i + 4 <= text.len()
    &&& text[i] == '\r'
    &&& text[i + 1] == '\n'
    &&& text[i + 2] == '\r'
    &&& text[i + 3] == '\n'
}

/// Whether the blank line that ends the head of a request stands anywhere in `text`.
pub open spec fn has_delimiter(text: Seq<char>) -> bool {
    exists|i: int| delimiter_at(text, i)
}

/// Whether `i` is where the first delimiter of `text` stands.
pub open spec fn is_first_delimiter(text: Seq<char>, i: int) -> bool {
    delimiter_at(text, i) && forall|j: int| 0 <= j < i ==> !delimiter_at(text, j)
}

/// Where the first delimiter of `text` stands, for a text that has one.
pub open spec fn first_delimiter(text: Seq<char>) -> int {
    choose|i: int| is_first_delimiter(text, i)
}

/// A delimiter with none before it is the first one.
pub proof fn lemma_first_delimiter(text: Seq<char>, i: int)
    requires
        is_first_delimiter(text, i),
    ensures
        has_delimiter(text),
        first_delimiter(text) == i,
{
    let c = first_delimiter(text);
    assert(is_first_delimiter(text, c));
    if c < i {
        assert(!delimiter_at(text, c));
    }
    if i < c {
        assert(!delimiter_at(text, i));
    }
}

/// The method named by the first word of a request line, with the path of the second.
pub open spec fn method_of(name: Seq<char>, path: Seq<char>) -> Option<HttpMethodView> {
    if name == "GET"@ {
        Some(HttpMethodView { kind: MethodKind::Get, path })
    } else if name == "POST"@ {
        Some(HttpMethodView { kind: MethodKind::Post, path })
    } else if name == "PUT"@ {
        Some(HttpMethodView { kind: MethodKind::Put, path })
    } else if name == "DELETE"@ {
        Some(HttpMethodView { kind: MethodKind::Delete, path })
    } else {
        None
    }
}

/// The key and the value of a header line: what stands before and after its
/// first colon, each without the whitespace around it.
pub open spec fn header_entry(line: Seq<char>) -> Option<(Seq<char>, Seq<char>)> {
    let k = position(line, ':');
    if 0 <= k < line.len() {
        Some((trim(line.take(k)), trim(line.skip(k + 1))))
    } else {
        None
    }
}

/// The header mapping of a list of header lines, where each of them has a colon.
/// A key that comes again replaces the earlier one.
pub open spec fn header_map(lines: Seq<Seq<char>>) -> Option<Map<Seq<char>, Seq<char>>>
    decreases lines.len(),
{
    if lines.len() == 0 {
        Some(Map::empty())
    } else {
        match (header_map(lines.drop_last()), header_entry(lines.last())) {
            (Some(m), Some(entry)) => Some(m.insert(entry.0, entry.1)),
            _ => None,
        }
    }
}

/// What is wrong with the body of a request, if anything: a body that is not
/// empty needs a `Content-Length` header that gives its length in bytes.
pub open spec fn body_error(headers: Map<Seq<char>, Seq<char>>, body: Seq<char>) -> Option<
    HttpParseErrorView,
> {
    let actual = encode_utf8(body).len();
    if body.len() == 0 {
        None
    } else if !headers.contains_key("Content-Length"@) {
        Some(HttpParseErrorView::MissingContentLength)
    } else {
        match parse_decimal_usize(headers["Content-Length"@]) {
            None => Some(HttpParseErrorView::InvalidContentLength),
            Some(expected) => if expected == actual {
                None
            } else {
                Some(
                    HttpParseErrorView::ContentLengthMismatch {
                        expected,
                        actual: actual as usize,
                    },
                )
            },
        }
    }
}

/// The method and the headers that the head of a request holds, or the first
/// thing that is wrong with it. The first line is the request line: exactly a
/// method, a path and a version; every other line is a header.
pub open spec fn parse_head(head: Seq<char>) -> Result<
    (HttpMethodView, Map<Seq<char>, Seq<char>>),
    HttpParseErrorView,
> {
    let head_lines = lines(head);
    if head_lines.len() == 0 {
        Err(HttpParseErrorView::MissingRequestLine)
    } else {
        let request_line = words(head_lines[0]);
        if request_line.len() != 3 {
            Err(HttpParseErrorView::InvalidRequestLine)
        } else {
            match method_of(request_line[0], request_line[1]) {
                None => Err(HttpParseErrorView::UnsupportedMethod(request_line[0])),
                Some(method) => match header_map(head_lines.skip(1)) {
                    None => Err(HttpParseErrorView::InvalidHeaderLine),
                    Some(headers) => Ok((method, headers)),
                },
            }
        }
    }
}

/// The request that a text holds, or the first thing that is wrong with it.
/// The head ends at the first blank line; what follows it is the body.
pub open spec fn parse_text(text: Seq<char>) -> Result<HttpRequestView, HttpParseErrorView> {
    if !has_delimiter(text) {
        Err(HttpParseErrorView::Incomplete)
    } else {
        let at = first_delimiter(text);
        let body = text.skip(at + 4);
        match parse_head(text.take(at)) {
            Err(e) => Err(e),
            Ok(head) => match body_error(head.1, body) {
                Some(e) => Err(e),
                None => Ok(
                    HttpRequestView { method: head.0, headers: head.1, body, remote_addr: None },
                ),
            },
        }
    }
}

/// A body is accepted only with its length: where the head of a request is
/// in order and its body is not empty, the request is rejected as
/// `MissingContentLength` without a `Content-Length` header, as
/// `InvalidContentLength` where the header is no number, and as
/// `ContentLengthMismatch`, with the number declared and the number of bytes
/// that came, where the two differ.
pub proof fn law_content_length_enforced(text: Seq<char>)
    requires
        has_delimiter(text),
        parse_head(text.take(first_delimiter(text))) is Ok,
        text.skip(first_delimiter(text) + 4).len() > 0,
    ensures
        ({
            let headers = parse_head(text.take(first_delimiter(text)))->Ok_0.1;
            let actual = encode_utf8(text.skip(first_delimiter(text) + 4)).len();
            if !headers.contains_key("Content-Length"@) {
                parse_text(text) == Err::<HttpRequestView, HttpParseErrorView>(
                    HttpParseErrorView::MissingContentLength,
                )
            } else {
                match parse_decimal_usize(headers["Content-Length"@]) {
                    None => parse_text(text) == Err::<HttpRequestView, HttpParseErrorView>(
                        HttpParseErrorView::InvalidContentLength,
                    ),
                    Some(expected) => if expected == actual {
                        parse_text(text) is Ok
                    } else {
                        parse_text(text) == Err::<HttpRequestView, HttpParseErrorView>(
                            HttpParseErrorView::ContentLengthMismatch {
                                expected,
                                actual: actual as usize,
                            },
                        )
                    },
                }
            }
        }),
{
}

/// The request that a buffer of bytes holds, or the first thing that is wrong with it.
pub open spec fn parse_request(bytes: Seq<u8>) -> Result<HttpRequestView, HttpParseErrorView> {
    if valid_utf8(bytes) {
        parse_text(decode_utf8(bytes))
    } else {
        Err(HttpParseErrorView::InvalidUtf8)
    }
}

/// Until the blank line has arrived, a request is incomplete: what a
/// well-formed request holds up to a character boundary before the end of its
/// first blank line is read as `Incomplete`, whatever it is otherwise.
pub proof fn law_incomplete_before_blank_line(bytes: Seq<u8>, cut: int)
    requires
        valid_utf8(bytes),
        is_char_boundary(bytes, cut),
        has_delimiter(decode_utf8(bytes)) ==> decode_utf8(bytes.take(cut)).len() < first_delimiter(
            decode_utf8(bytes),
        ) + 4,
    ensures
        parse_request(bytes.take(cut)) == Err::<HttpRequestView, HttpParseErrorView>(
            HttpParseErrorView::Incomplete,
        ),
{
    let whole = decode_utf8(bytes);
    let first = bytes.subrange(0, cut);
    let start = decode_utf8(first);
    assert(0 <= cut <= bytes.len()) by {
        reveal_with_fuel(is_char_boundary, 2);
    }
    assert(bytes.take(cut) =~= first);
    valid_utf8_split(bytes, cut);
    decode_utf8_split(bytes, cut);
    if has_delimiter(start) {
        let i = choose|i: int| delimiter_at(start, i);
        assert(delimiter_at(whole, i)) by {
            assert(whole[i] == start[i]);
            assert(whole[i + 1] == start[i + 1]);
            assert(whole[i + 2] == start[i + 2]);
            assert(whole[i + 3] == start[i + 3]);
        }
        lemma_some_delimiter_is_first(whole, i);
        let at = first_delimiter(whole);
        assert(is_first_delimiter(whole, at));
        if i < at {
            assert(!delimiter_at(whole, i));
        }
        assert(start.len() >= i + 4);
        assert(false);
    }
}

/// A text that has a delimiter has a first one.
proof fn lemma_some_delimiter_is_first(text: Seq<char>, i: int)
    requires
        delimiter_at(text, i),
    ensures
        exists|k: int| is_first_delimiter(text, k),
    decreases i,
{
    if forall|j: int| 0 <= j < i ==> !delimiter_at(text, j) {
        assert(is_first_delimiter(text, i));
    } else {
        let j = choose|j: int| 0 <= j < i && delimiter_at(text, j);
        lemma_some_delimiter_is_first(text, j);
    }
}

/// Trusted: `std::str::from_utf8`. It gives the text exactly when the bytes are
/// well-formed UTF-8, and the bytes of that text are then the bytes given.
#[verifier::external_body]
fn text_of_bytes(bytes: &[u8]) -> (r: Option<&str>)
    ensures
        r is Some <==> valid_utf8(bytes@),
        r matches Some(text) ==> text.spec_bytes() == bytes@,
{
    std::str::from_utf8(bytes).ok()
}

/// Where the head of the request ends, if the blank line has arrived.
fn find_delimiter(chars: &[char]) -> (r: Option<usize>)
    ensures
        match r {
            Some(i) => is_first_delimiter(chars@, i as int),
            None => !has_delimiter(chars@),
        },
{
    let n = chars.len();
    if n < 4 {
        return None;
    }
    let mut i: usize = 0;
    while i <= n - 4
        invariant
            4 <= n == chars@.len(),
            0 <= i <= n - 3,
            forall|j: int| 0 <= j < i ==> !delimiter_at(chars@, j),
        decreases n - i,
    {
        if chars[i] == '\r' && chars[i + 1] == '\n' && chars[i + 2] == '\r' && chars[i + 3]
            == '\n' {
            return Some(i);
        }
        i += 1;
    }
    None
}

/// Reads the request line: exactly a method, a path and a version.
fn read_request_line(text: &str, chars: &[char], start: usize, end: usize) -> (r: Result<
    HttpMethod,
    HttpParseError,
>)
    requires
        chars@ == text@,
        start <= end <= chars@.len(),
    ensures
        ({
            let request_line = words(chars@.subrange(start as int, end as int));
            match r {
                Ok(method) => request_line.len() == 3 && method_of(
                    request_line[0],
                    request_line[1],
                ) == Some(method@),
                Err(e) => if request_line.len() != 3 {
                    e@ == HttpParseErrorView::InvalidRequestLine
                } else {
                    &&& method_of(request_line[0], request_line[1]) is None
                    &&& e@ == HttpParseErrorView::UnsupportedMethod(request_line[0])
                },
            }
        }),
{
    let parts = split_words(chars, start, end);
    if parts.len() != 3 {
        return Err(HttpParseError::InvalidRequestLine);
    }
    let name = parts[0];
    let target = parts[1];
    proof {
        let request_line = words(chars@.subrange(start as int, end as int));
        assert(request_line[0] == chars@.subrange(name.0 as int, name.1 as int));
        assert(request_line[1] == chars@.subrange(target.0 as int, target.1 as int));
    }
    let path = copy_range(text, target.0, target.1);
    if range_is(chars, name.0, name.1, "GET") {
        Ok(HttpMethod::GET(path))
    } else if range_is(chars, name.0, name.1, "POST") {
        Ok(HttpMethod::POST(path))
    } else if range_is(chars, name.0, name.1, "PUT") {
        Ok(HttpMethod::PUT(path))
    } else if range_is(chars, name.0, name.1, "DELETE") {
        Ok(HttpMethod::DELETE(path))
    } else {
        Err(HttpParseError::UnsupportedMethod(copy_range(text, name.0, name.1)))
    }
}

/// One line without a colon spoils the whole header mapping.
proof fn lemma_header_map_bad_line(lines: Seq<Seq<char>>, j: int)
    requires
        0 <= j < lines.len(),
        header_entry(lines[j]) is None,
    ensures
        header_map(lines) is None,
    decreases lines.len(),
{
    if j < lines.len() - 1 {
        lemma_header_map_bad_line(lines.drop_last(), j);
    }
}

/// Reads the header lines: all the lines of the head but the first.
fn read_headers(text: &str, chars: &[char], line_ranges: &Vec<(usize, usize)>) -> (r: Option<
    StringHashMap<String>,
>)
    requires
        chars@ == text@,
        line_ranges@.len() >= 1,
        ranges_within(line_ranges@, 0, chars@.len() as int),
    ensures
        match r {
            Some(headers) => header_map(pieces(chars@, line_ranges@).skip(1)) == Some(
                header_texts(headers@),
            ),
            None => header_map(pieces(chars@, line_ranges@).skip(1)) is None,
        },
{
    let mut headers: StringHashMap<String> = StringHashMap::new();
    let n = line_ranges.len();
    let ghost all = pieces(chars@, line_ranges@).skip(1);
    let mut j: usize = 1;
    proof {
        assert(all.take(0) =~= Seq::<Seq<char>>::empty());
        assert(header_texts(headers@) =~= Map::<Seq<char>, Seq<char>>::empty());
    }
    while j < n
        invariant
            chars@ == text@,
            1 <= j <= n == line_ranges@.len(),
            ranges_within(line_ranges@, 0, chars@.len() as int),
            all == pieces(chars@, line_ranges@).skip(1),
            header_map(all.take(j - 1)) == Some(header_texts(headers@)),
        decreases n - j,
    {
        let (a, b) = line_ranges[j];
        let ghost line = chars@.subrange(a as int, b as int);
        proof {
            assert(all[j - 1] == line);
            assert(all.take(j as int).drop_last() =~= all.take(j - 1));
            assert(all.take(j as int).last() == line);
        }
        let k = find_char(chars, a, b, ':');
        if k == b {
            proof {
                lemma_header_map_bad_line(all, j - 1);
            }
            return None;
        }
        let (key_start, key_end) = trim_range(chars, a, k);
        let (value_start, value_end) = trim_range(chars, k + 1, b);
        let key = copy_range(text, key_start, key_end);
        let value = copy_range(text, value_start, value_end);
        proof {
            assert(line.take(k - a) =~= chars@.subrange(a as int, k as int));
            assert(line.skip(k - a + 1) =~= chars@.subrange(k + 1, b as int));
            assert(header_entry(line) == Some((key@, value@)));
            assert(header_texts(headers@.insert(key@, value)) =~= header_texts(headers@).insert(
                key@,
                value@,
            ));
        }
        headers.insert(key, value);
        j += 1;
    }
    proof {
        assert(all.take(n - 1) =~= all);
    }
    Some(headers)
}

/// Checks the body against the `Content-Length` header.
fn check_body(headers: &StringHashMap<String>, body: &str) -> (r: Option<HttpParseError>)
    ensures
        match r {
            Some(e) => body_error(header_texts(headers@), body@) == Some(e@),
            None => body_error(header_texts(headers@), body@) is None,
        },
{
    let actual = body.as_bytes().len();
    proof {
        assert(header_texts(headers@).dom() =~= headers@.dom());
        if body@.len() > 0 {
            vstd::utf8::encode_utf8_first_scalar(body@);
        }
    }
    if actual == 0 {
        proof {
            if body@.len() > 0 {
                assert(encode_utf8(body@).len() > 0);
            }
        }
        return None;
    }
    match headers.get("Content-Length") {
        None => Some(HttpParseError::MissingContentLength),
        Some(value) => {
            let digits = chars_of(value.as_str());
            proof {
                assert(digits@.subrange(0, digits@.len() as int) =~= value@);
                assert(header_texts(headers@)["Content-Length"@] == value@);
            }
            match read_decimal(digits.as_slice(), 0, digits.len()) {
                None => Some(HttpParseError::InvalidContentLength),
                Some(expected) => {
                    if expected == actual {
                        None
                    } else {
                        Some(HttpParseError::ContentLengthMismatch { expected, actual })
                    }
                },
            }
        },
    }
}

impl HttpRequest {
    /// Reads a request from the bytes that have arrived so far.
    ///
    /// `Incomplete` says that the blank line after the head has not arrived
    /// yet: the caller reads on and tries again with the longer buffer. Every other
    /// error is final.
    pub fn try_from(buf: &[u8]) -> (r: Result<HttpRequest, HttpParseError>)
        ensures
            match r {
                Ok(request) => parse_request(buf@) == Ok::<HttpRequestView, HttpParseErrorView>(
                    request@,
                ),
                Err(e) => parse_request(buf@) == Err::<HttpRequestView, HttpParseErrorView>(e@),
            },
    {
        let text = match text_of_bytes(buf) {
            Some(text) => text,
            None => {
                return Err(HttpParseError::InvalidUtf8);
            },
        };
        proof {
            encode_utf8_decode_utf8(text@);
        }
        let chars = chars_of(text);
        let n = chars.len();
        let at = match find_delimiter(chars.as_slice()) {
            Some(at) => at,
            None => {
                return Err(HttpParseError::Incomplete);
            },
        };
        proof {
            assert(delimiter_at(chars@, at as int));
            assert(at + 4 <= n);
            lemma_first_delimiter(text@, at as int);
            assert(chars@.subrange(0, at as int) =~= text@.take(at as int));
            assert(chars@.subrange(at + 4, chars@.len() as int) =~= text@.skip(at + 4));
        }
        let line_ranges = split_lines(chars.as_slice(), 0, at);
        if line_ranges.len() == 0 {
            return Err(HttpParseError::MissingRequestLine);
        }
        let first = line_ranges[0];
        proof {
            assert(lines(text@.take(at as int))[0] == chars@.subrange(
                first.0 as int,
                first.1 as int,
            ));
        }
        let method = match read_request_line(text, chars.as_slice(), first.0, first.1) {
            Ok(method) => method,
            Err(e) => {
                return Err(e);
            },
        };
        let headers = match read_headers(text, chars.as_slice(), &line_ranges) {
            Some(headers) => headers,
            None => {
                return Err(HttpParseError::InvalidHeaderLine);
            },
        };
        let body = text.substring_char(at + 4, n);
        match check_body(&headers, body) {
            Some(e) => Err(e),
            None => {
                let request = HttpRequest {
                    method,
                    headers,
                    body: body.to_owned(),
                    remote_addr: None,
                };
                proof {
                    assert(request@ =~= HttpRequestView {
                        method: method@,
                        headers: header_texts(headers@),
                        body: text@.skip(at + 4),
                        remote_addr: None,
                    });
                }
                Ok(request)
            },
        }
    }
}

/// What a request asks for.
#[derive(Debug, Clone, Copy, PartialEq, Eq)]
pub enum Route {
    /// `GET /addr`: the known peers.
    Addr,
    /// `GET /getblocks`: hashes of blocks.
    GetBlocks,
    /// `GET /getdata`: one block.
    GetData,
    /// `POST /inv`: the submission of a transaction.
    Inv,
    /// `POST /block`: the submission of a block.
    Block,
    /// Anything else: the node says that it is there.
    Status,
}

/// The route of a request: the first of the routes, in the order of `Route`,
/// whose method is that of the request and whose path the request's path begins with.
pub open spec fn route(method: HttpMethodView) -> Route {
    if method.kind is Get && "/addr"@.is_prefix_of(method.path) {
        Route::Addr
    } else if method.kind is Get && "/getblocks"@.is_prefix_of(method.path) {
        Route::GetBlocks
    } else if method.kind is Get && "/getdata"@.is_prefix_of(method.path) {
        Route::GetData
    } else if method.kind is Post && "/inv"@.is_prefix_of(method.path) {
        Route::Inv
    } else if method.kind is Post && "/block"@.is_prefix_of(method.path) {
        Route::Block
    } else {
        Route::Status
    }
}

/// Finds the route of a request.
pub fn find_route(method: &HttpMethod) -> (r: Route)
    ensures
        r == route(method@),
{
    let path = chars_of(method.path());
    if method.is_get() && begins_with(path.as_slice(), "/addr") {
        Route::Addr
    } else if method.is_get() && begins_with(path.as_slice(), "/getblocks") {
        Route::GetBlocks
    } else if method.is_get() && begins_with(path.as_slice(), "/getdata") {
        Route::GetData
    } else if method.is_post() && begins_with(path.as_slice(), "/inv") {
        Route::Inv
    } else if method.is_post() && begins_with(path.as_slice(), "/block") {
        Route::Block
    } else {
        Route::Status
    }
}

/// The reply to a request that has no route of its own.
pub open spec fn status_doc() -> JsonView {
    JsonView::Object(
        seq![
            ("status"@, JsonView::Text("ok"@)),
            ("message"@, JsonView::Text("P2P node active"@)),
        ],
    )
}

/// The response that carries a body: always status 200 of HTTP/1.0, with the
/// length of the body in bytes and its type, JSON.
pub open spec fn response_text(body: Seq<char>) -> Seq<char> {
    "HTTP/1.0 200 OK\r\nContent-Length: "@ + decimal_text(encode_utf8(body).len())
        + "\r\nContent-Type: application/json\r\n\r\n"@ + body
}

/// Writes the response that carries a body.
pub fn frame_response(body: &str) -> (text: String)
    ensures
        text@ == response_text(body@),
{
    let length = body.as_bytes().len();
    let mut text = "HTTP/1.0 200 OK\r\nContent-Length: ".to_owned();
    push_decimal(&mut text, length as u64);
    text.append("\r\nContent-Type: application/json\r\n\r\n");
    text.append(body);
    text
}

/// The body of the reply to a request.
pub open spec fn reply_body(
    ledger: LedgerView,
    registry: RegistryView,
    request: HttpRequestView,
) -> Seq<char> {
    let parsed = json_parse(request.body);
    match route(request.method) {
        Route::Addr => json_text(peers_doc(registry.known)),
        Route::GetBlocks => json_text(getblocks_reply(ledger, request.method.path)),
        Route::GetData => json_text(getdata_reply(ledger, request.method.path)),
        Route::Inv => json_text(transaction_reply(transaction_verdict(ledger, parsed), parsed)),
        Route::Block => json_text(block_reply(block_verdict(ledger, parsed), parsed)),
        Route::Status => json_text(status_doc()),
    }
}

/// What a request makes the node pass on to its peers: what it submitted, if
/// that was accepted.
pub open spec fn reply_gossip(ledger: LedgerView, request: HttpRequestView) -> Option<GossipView> {
    let parsed = json_parse(request.body);
    match route(request.method) {
        Route::Inv => transaction_gossip(transaction_verdict(ledger, parsed), parsed),
        Route::Block => block_gossip(block_verdict(ledger, parsed), parsed),
        _ => None,
    }
}

/// The ledger after a request: only a submission can change it.
pub open spec fn ledger_after(
    before: LedgerView,
    request: HttpRequestView,
    after: LedgerView,
) -> bool {
    let parsed = json_parse(request.body);
    match route(request.method) {
        Route::Inv => after_transaction(before, parsed, after),
        Route::Block => after_block(before, parsed, after),
        _ => after == before,
    }
}

/// The answers of the node.
pub struct HttpResponse;

impl HttpResponse {
    /// Answers a request: routes it, lets the ledger or the registry handle
    /// it, and frames the reply. The result holds the whole response, and what
    /// is to be passed on to the peers once it is sent.
    pub fn respond(ledger: &mut Ledger, registry: &PeerRegistry, req: &HttpRequest) -> (out:
        Handled)
        ensures
            out.reply@ == response_text(reply_body(old(ledger)@, registry@, req@)),
            out.gossip_view() == reply_gossip(old(ledger)@, req@),
            ledger_after(old(ledger)@, req@, final(ledger)@),
    {
        let path = req.method.path();
        let handled = match find_route(&req.method) {
            Route::Addr => Handled { reply: get_known_peers_json(registry), gossip: None },
            Route::GetBlocks => Handled {
                reply: handle_getblocks_request(ledger, path),
                gossip: None,
            },
            Route::GetData => Handled { reply: handle_getdata_request(ledger, path), gossip: None },
            Route::Inv => handle_inv_request(ledger, req.body.as_str()),
            Route::Block => handle_block_request(ledger, req.body.as_str()),
            Route::Status => {
                let fields = vec![
                    member("status", Json::text("ok")),
                    member("message", Json::text("P2P node active")),
                ];
                proof {
                    assert(fields_view(fields@) =~= status_doc()->Object_0);
                }
                Handled { reply: render(&Json::object(fields)), gossip: None }
            },
        };
        Handled { reply: frame_response(handled.reply.as_str()), gossip: handled.gossip }
    }
}

} // verus!
