//! HTTP/1.x: methods, versions and connection types, header parsing from
//! the matches of the header search, chunked transfer coding, request
//! configuration and the bookkeeping of partly consumed read buffers.
use crate::config::{check_config, config_acceptable, find_option, first_named, option_name, ConfigName, ConfigOption};
use crate::error::{CoreErrorKind, ErrKind, Error};
use crate::text::{decimal, to_decimal, contains_seq, parse_unsigned, spec_parse_unsigned, str_contains, str_equals, utf8_str};
use vstd::prelude::*;

verus! {

/// An HTTP request method.
#[derive(Clone, Copy, Debug, PartialEq, Eq, Structural)]
pub enum HttpMethod {
    Get,
    Post,
    Head,
    Put,
    Delete,
    Options,
    Connect,
    Trace,
    Patch,
    Unknown,
}

/// An HTTP protocol version.
#[derive(Clone, Copy, Debug, PartialEq, Eq, Structural)]
pub enum HttpVersion {
    Http10,
    Http11,
    Other,
    Unknown,
}

/// The value of a `Connection` header.
#[derive(Clone, Copy, Debug, PartialEq, Eq, Structural)]
pub enum HttpConnectionType {
    KeepAlive,
    Close,
    Unknown,
}

/// The name by which a method is written in a request line (nothing for
/// `Unknown`).
pub open spec fn method_name(m: HttpMethod) -> Seq<char> {
    match m {
        HttpMethod::Get => "GET"@,
        HttpMethod::Post => "POST"@,
        HttpMethod::Head => "HEAD"@,
        HttpMethod::Put => "PUT"@,
        HttpMethod::Delete => "DELETE"@,
        HttpMethod::Options => "OPTIONS"@,
        HttpMethod::Connect => "CONNECT"@,
        HttpMethod::Trace => "TRACE"@,
        HttpMethod::Patch => "PATCH"@,
        HttpMethod::Unknown => Seq::empty(),
    }
}

/// The method a name denotes; names are case sensitive.
pub open spec fn method_of(s: Seq<char>) -> HttpMethod {
    if s == "GET"@ {
        HttpMethod::Get
    } else if s == "POST"@ {
        HttpMethod::Post
    } else if s == "HEAD"@ {
        HttpMethod::Head
    } else if s == "PUT"@ {
        HttpMethod::Put
    } else if s == "DELETE"@ {
        HttpMethod::Delete
    } else if s == "OPTIONS"@ {
        HttpMethod::Options
    } else if s == "CONNECT"@ {
        HttpMethod::Connect
    } else if s == "TRACE"@ {
        HttpMethod::Trace
    } else if s == "PATCH"@ {
        HttpMethod::Patch
    } else {
        HttpMethod::Unknown
    }
}

/// The name of a version as written in a request line.
pub open spec fn version_name(v: HttpVersion) -> Seq<char> {
    match v {
        HttpVersion::Http10 => "HTTP/1.0"@,
        HttpVersion::Http11 => "HTTP/1.1"@,
        _ => Seq::empty(),
    }
}

/// The version a name denotes. `HTTP/2.0` is served as HTTP/1.1.
pub open spec fn version_of(s: Seq<char>) -> HttpVersion {
    if s == "HTTP/1.1"@ {
        HttpVersion::Http11
    } else if s == "HTTP/1.0"@ {
        HttpVersion::Http10
    } else if s == "HTTP/2.0"@ {
        HttpVersion::Http11
    } else {
        HttpVersion::Unknown
    }
}

/// The value of a `Connection` header for a connection type.
pub open spec fn connection_type_name(c: HttpConnectionType) -> Seq<char> {
    match c {
        HttpConnectionType::KeepAlive => "keep-alive"@,
        HttpConnectionType::Close => "close"@,
        HttpConnectionType::Unknown => Seq::empty(),
    }
}

/// The connection type a header value denotes.
pub open spec fn connection_type_of(s: Seq<char>) -> HttpConnectionType {
    if s == "keep-alive"@ {
        HttpConnectionType::KeepAlive
    } else if s == "close"@ {
        HttpConnectionType::Close
    } else {
        HttpConnectionType::Unknown
    }
}

fn method_of_str(s: &str) -> (r: HttpMethod)
    ensures
        r == method_of(s@),
{
    if str_equals(s, "GET") {
        HttpMethod::Get
    } else if str_equals(s, "POST") {
        HttpMethod::Post
    } else if str_equals(s, "HEAD") {
        HttpMethod::Head
    } else if str_equals(s, "PUT") {
        HttpMethod::Put
    } else if str_equals(s, "DELETE") {
        HttpMethod::Delete
    } else if str_equals(s, "OPTIONS") {
        HttpMethod::Options
    } else if str_equals(s, "CONNECT") {
        HttpMethod::Connect
    } else if str_equals(s, "TRACE") {
        HttpMethod::Trace
    } else if str_equals(s, "PATCH") {
        HttpMethod::Patch
    } else {
        HttpMethod::Unknown
    }
}

fn version_of_str(s: &str) -> (r: HttpVersion)
    ensures
        r == version_of(s@),
{
    if str_equals(s, "HTTP/1.1") {
        HttpVersion::Http11
    } else if str_equals(s, "HTTP/1.0") {
        HttpVersion::Http10
    } else if str_equals(s, "HTTP/2.0") {
        HttpVersion::Http11
    } else {
        HttpVersion::Unknown
    }
}

fn connection_type_of_str(s: &str) -> (r: HttpConnectionType)
    ensures
        r == connection_type_of(s@),
{
    if str_equals(s, "keep-alive") {
        HttpConnectionType::KeepAlive
    } else if str_equals(s, "close") {
        HttpConnectionType::Close
    } else {
        HttpConnectionType::Unknown
    }
}

impl From<String> for HttpMethod {
    fn from(method: String) -> (r: HttpMethod) {
        method_of_str(method.as_str())
    }
}

impl vstd::std_specs::convert::FromSpecImpl<String> for HttpMethod {
    open spec fn obeys_from_spec() -> bool {
        true
    }

    open spec fn from_spec(method: String) -> HttpMethod {
        method_of(method@)
    }
}

impl From<String> for HttpVersion {
    fn from(version: String) -> (r: HttpVersion) {
        version_of_str(version.as_str())
    }
}

impl vstd::std_specs::convert::FromSpecImpl<String> for HttpVersion {
    open spec fn obeys_from_spec() -> bool {
        true
    }

    open spec fn from_spec(version: String) -> HttpVersion {
        version_of(version@)
    }
}

impl From<String> for HttpConnectionType {
    fn from(ctype: String) -> (r: HttpConnectionType) {
        connection_type_of_str(ctype.as_str())
    }
}

impl vstd::std_specs::convert::FromSpecImpl<String> for HttpConnectionType {
    open spec fn obeys_from_spec() -> bool {
        true
    }

    open spec fn from_spec(ctype: String) -> HttpConnectionType {
        connection_type_of(ctype@)
    }
}

impl HttpMethod {
    /// The name of the method as written in a request line; `None` for
    /// `Unknown`, which has no name.
    pub fn name(&self) -> (r: Option<&'static str>)
        ensures
            r is None <==> *self == HttpMethod::Unknown,
            r matches Some(s) ==> s@ == method_name(*self),
    {
        match self {
            HttpMethod::Get => Some("GET"),
            HttpMethod::Post => Some("POST"),
            HttpMethod::Head => Some("HEAD"),
            HttpMethod::Put => Some("PUT"),
            HttpMethod::Delete => Some("DELETE"),
            HttpMethod::Options => Some("OPTIONS"),
            HttpMethod::Connect => Some("CONNECT"),
            HttpMethod::Trace => Some("TRACE"),
            HttpMethod::Patch => Some("PATCH"),
            HttpMethod::Unknown => None,
        }
    }
}

/// Reading back the name of a known method gives the method.
pub proof fn law_method_name_round_trip(m: HttpMethod)
    requires
        m != HttpMethod::Unknown,
    ensures
        method_of(method_name(m)) == m,
{
    reveal_strlit("GET");
    reveal_strlit("POST");
    reveal_strlit("HEAD");
    reveal_strlit("PUT");
    reveal_strlit("DELETE");
    reveal_strlit("OPTIONS");
    reveal_strlit("CONNECT");
    reveal_strlit("TRACE");
    reveal_strlit("PATCH");
    assert("GET"@[0] == 'G' && "POST"@[0] == 'P' && "HEAD"@[0] == 'H' && "PUT"@[0] == 'P');
    assert("DELETE"@[0] == 'D' && "OPTIONS"@[0] == 'O' && "CONNECT"@[0] == 'C');
    assert("TRACE"@[0] == 'T' && "PATCH"@[0] == 'P');
    assert("GET"@.len() == 3 && "POST"@.len() == 4 && "HEAD"@.len() == 4 && "PUT"@.len() == 3);
    assert("DELETE"@.len() == 6 && "OPTIONS"@.len() == 7 && "CONNECT"@.len() == 7);
    assert("TRACE"@.len() == 5 && "PATCH"@.len() == 5);
}

/// Reading back the name of HTTP/1.0 or HTTP/1.1 gives the version.
pub proof fn law_version_name_round_trip(v: HttpVersion)
    requires
        v == HttpVersion::Http10 || v == HttpVersion::Http11,
    ensures
        version_of(version_name(v)) == v,
{
    reveal_strlit("HTTP/1.1");
    reveal_strlit("HTTP/1.0");
    assert("HTTP/1.1"@[7] == '1' && "HTTP/1.0"@[7] == '0');
}

/// Reading back the value of a known connection type gives the type.
pub proof fn law_connection_type_round_trip(c: HttpConnectionType)
    requires
        c != HttpConnectionType::Unknown,
    ensures
        connection_type_of(connection_type_name(c)) == c,
{
    reveal_strlit("keep-alive");
    reveal_strlit("close");
    assert("keep-alive"@.len() == 10 && "close"@.len() == 5);
}

/// The pattern ids of the header search.
pub const PATTERN_TERMINATION: usize = 0;
pub const PATTERN_HEADER: usize = 1;
pub const PATTERN_CONTENT_LENGTH: usize = 2;
pub const PATTERN_SERVER: usize = 3;
pub const PATTERN_TRANSFER_ENCODING: usize = 4;
pub const PATTERN_GET: usize = 5;
pub const PATTERN_POST: usize = 6;

/// A match of the header search: the pattern that matched and the span it
/// covers (`end` is one past the last byte).
#[derive(Clone, Copy, Debug, PartialEq, Eq, Structural)]
pub struct HeaderMatch {
    pub id: usize,
    pub start: usize,
    pub end: usize,
}

/// The parsed head of a request or response.
#[derive(Clone, Debug)]
pub struct HttpHeaders {
    pub headers: Vec<(String, String)>,
    pub content_length: usize,
    pub end_headers: usize,
    pub chunked: bool,
    pub method: HttpMethod,
    pub uri: String,
    pub version: HttpVersion,
}

/// The mathematical value of parsed headers.
pub struct HeadersView {
    pub headers: Seq<(Seq<char>, Seq<char>)>,
    pub content_length: usize,
    pub end_headers: usize,
    pub chunked: bool,
    pub method: HttpMethod,
    pub uri: Seq<char>,
    pub version: HttpVersion,
}

impl View for HttpHeaders {
    type V = HeadersView;

    open spec fn view(&self) -> HeadersView {
        HeadersView {
            headers: self.headers@.map_values(|p: (String, String)| (p.0@, p.1@)),
            content_length: self.content_length,
            end_headers: self.end_headers,
            chunked: self.chunked,
            method: self.method,
            uri: self.uri@,
            version: self.version,
        }
    }
}

/// Headers before anything was parsed.
pub open spec fn empty_headers() -> HeadersView {
    HeadersView {
        headers: Seq::empty(),
        content_length: 0,
        end_headers: 0,
        chunked: false,
        method: HttpMethod::Unknown,
        uri: Seq::empty(),
        version: HttpVersion::Unknown,
    }
}

impl HttpHeaders {
    /// Headers before anything was parsed.
    pub fn new() -> (r: HttpHeaders)
        ensures
            r@ == empty_headers(),
    {
        let r = HttpHeaders {
            headers: Vec::new(),
            content_length: 0,
            end_headers: 0,
            chunked: false,
            method: HttpMethod::Unknown,
            uri: String::new(),
            version: HttpVersion::Unknown,
        };
        assert(r@.headers =~= Seq::<(Seq<char>, Seq<char>)>::empty());
        r
    }
}

/// Why the headers could not be parsed.
#[derive(Clone, Copy, Debug, PartialEq, Eq, Structural)]
pub enum HeaderFault {
    /// A match spans something that cannot be a header (`IllegalState`).
    IllegalState,
    /// A name, value or URI is not UTF-8 (`Utf8`).
    Utf8,
    /// A `Content-Length` is not a number that fits (`Parse`).
    Parse,
    /// A complete head without a known method (`Http`).
    BadRequest,
}

/// The error that reports a fault.
pub open spec fn fault_error(e: Error, f: HeaderFault) -> bool {
    match f {
        HeaderFault::IllegalState => e.spec_kind() is IllegalState,
        HeaderFault::Utf8 => e.spec_kind() matches ErrKind::Core(CoreErrorKind::Utf8(_)),
        HeaderFault::Parse => e.spec_kind() matches ErrKind::Core(CoreErrorKind::Parse(_)),
        HeaderFault::BadRequest => e.spec_kind() is Http,
    }
}

/// Where a scan of the head stands.
pub enum HeaderScan {
    /// The scan would index past the end of the buffer: no head can be
    /// built from these matches.
    Stuck,
    /// Parsing failed.
    Fault(HeaderFault),
    /// The buffer does not hold the whole head yet.
    Partial,
    /// Matches are being read: the headers so far and whether the end of
    /// the head was seen.
    Going(HeadersView, bool),
    /// The whole head was parsed.
    Done(HeadersView),
}

/// A carriage return or a line feed.
pub open spec fn is_eol(b: u8) -> bool {
    b == 13 || b == 10
}

/// The first index from `i` on that holds a line end, or the length of
/// `data` when there is none.
pub open spec fn eol_from(data: Seq<u8>, i: int) -> int
    decreases data.len() - i,
{
    if i >= data.len() {
        data.len() as int
    } else if is_eol(data[i]) {
        i
    } else {
        eol_from(data, i + 1)
    }
}

/// The first index from `i` on that holds a space or a line end, or the
/// length of `data` when there is none.
pub open spec fn word_end_from(data: Seq<u8>, i: int) -> int
    decreases data.len() - i,
{
    if i >= data.len() {
        data.len() as int
    } else if data[i] == 32 || is_eol(data[i]) {
        i
    } else {
        word_end_from(data, i + 1)
    }
}

proof fn lemma_eol_from_bounds(data: Seq<u8>, i: int)
    requires
        0 <= i,
    ensures
        i <= eol_from(data, i) || i > data.len(),
        eol_from(data, i) <= data.len(),
        eol_from(data, i) < data.len() ==> is_eol(data[eol_from(data, i)]),
        forall|k: int| i <= k < eol_from(data, i) ==> !is_eol(#[trigger] data[k]),
    decreases data.len() - i,
{
    if i < data.len() && !is_eol(data[i]) {
        lemma_eol_from_bounds(data, i + 1);
    }
}

proof fn lemma_word_end_from_bounds(data: Seq<u8>, i: int)
    requires
        0 <= i,
    ensures
        i <= word_end_from(data, i) || i > data.len(),
        word_end_from(data, i) <= data.len(),
    decreases data.len() - i,
{
    if i < data.len() && !(data[i] == 32 || is_eol(data[i])) {
        lemma_word_end_from_bounds(data, i + 1);
    }
}

/// The text the bytes `data[start..end]` encode, when they are UTF-8.
pub open spec fn text_of(data: Seq<u8>, start: int, end: int) -> Option<Seq<char>> {
    let b = data.subrange(start, end);
    if vstd::utf8::valid_utf8(b) {
        Some(vstd::utf8::decode_utf8(b))
    } else {
        None
    }
}

/// The value of a header whose name the match `m` ends with: the text up to
/// the end of the line; nothing while the line end is not in the buffer.
pub open spec fn header_value_scan(data: Seq<u8>, m: HeaderMatch) -> Result<
    Option<Seq<char>>,
    HeaderFault,
> {
    let start = m.end as int;
    let end = eol_from(data, start);
    if end >= data.len() {
        Ok(None)
    } else if start >= end {
        Err(HeaderFault::IllegalState)
    } else {
        match text_of(data, start, end) {
            Some(t) => Ok(Some(t)),
            None => Err(HeaderFault::Utf8),
        }
    }
}

/// The name of the header that the match `m` covers: the match without its
/// leading line end and its trailing `": "`.
pub open spec fn header_name_scan(data: Seq<u8>, m: HeaderMatch) -> Result<Seq<char>, HeaderFault> {
    let start = m.start + 2;
    let end = if m.end >= 2 {
        m.end - 2
    } else {
        0
    };
    if start >= end || end >= data.len() {
        Err(HeaderFault::IllegalState)
    } else {
        match text_of(data, start, end) {
            Some(t) => Ok(t),
            None => Err(HeaderFault::Utf8),
        }
    }
}

fn find_eol(data: &[u8], start: usize) -> (r: usize)
    ensures
        r == eol_from(data@, start as int),
{
    let len = data.len();
    let mut i = start;
    if i >= len {
        return len;
    }
    while i < len
        invariant
            len == data@.len(),
            start <= i <= len,
            eol_from(data@, start as int) == eol_from(data@, i as int),
        decreases len - i,
    {
        if data[i] == 13 || data[i] == 10 {
            return i;
        }
        i = i + 1;
    }
    i
}

fn find_word_end(data: &[u8], start: usize) -> (r: usize)
    ensures
        r == word_end_from(data@, start as int),
{
    let len = data.len();
    let mut i = start;
    if i >= len {
        return len;
    }
    while i < len
        invariant
            len == data@.len(),
            start <= i <= len,
            word_end_from(data@, start as int) == word_end_from(data@, i as int),
        decreases len - i,
    {
        if data[i] == 32 || data[i] == 13 || data[i] == 10 {
            return i;
        }
        i = i + 1;
    }
    i
}

fn text_between(data: &[u8], start: usize, end: usize) -> (r: Option<String>)
    requires
        start <= end <= data@.len(),
    ensures
        match text_of(data@, start as int, end as int) {
            Some(t) => r matches Some(s) && s@ == t,
            None => r is None,
        },
{
    let b = vstd::slice::slice_subrange(data, start, end);
    match utf8_str(b) {
        Some(t) => Some(String::from_str(t)),
        None => None,
    }
}

fn utf8_error() -> (e: Error)
    ensures
        fault_error(e, HeaderFault::Utf8),
{
    Error::base(CoreErrorKind::Utf8(String::from_str("invalid utf-8 sequence")))
}

fn illegal_index_error() -> (e: Error)
    ensures
        fault_error(e, HeaderFault::IllegalState),
{
    Error::new(ErrKind::IllegalState(String::from_str("invalid index returned from search")))
}

/// The value of the header that the match `m` ends with, read by the server:
/// `Ok(None)` while the line end is not in the buffer yet.
pub fn header_value(data: &[u8], m: HeaderMatch) -> (r: Result<Option<String>, Error>)
    ensures
        match header_value_scan(data@, m) {
            Ok(None) => r matches Ok(None),
            Ok(Some(t)) => r matches Ok(Some(s)) && s@ == t,
            Err(f) => r matches Err(e) && fault_error(e, f),
        },
{
    let start = m.end;
    let end = find_eol(data, start);
    proof {
        lemma_eol_from_bounds(data@, start as int);
    }
    if end >= data.len() {
        Ok(None)
    } else if start >= end {
        Err(illegal_index_error())
    } else {
        match text_between(data, start, end) {
            Some(s) => Ok(Some(s)),
            None => Err(utf8_error()),
        }
    }
}

/// The name of the header that the match `m` covers.
pub fn header_name(data: &[u8], m: HeaderMatch) -> (r: Result<String, Error>)
    requires
        m.start + 2 <= usize::MAX,
    ensures
        match header_name_scan(data@, m) {
            Ok(t) => r matches Ok(s) && s@ == t,
            Err(f) => r matches Err(e) && fault_error(e, f),
        },
{
    let start = m.start + 2;
    let end = m.end.saturating_sub(2);
    if start >= end || end >= data.len() {
        Err(illegal_index_error())
    } else {
        match text_between(data, start, end) {
            Some(s) => Ok(s),
            None => Err(utf8_error()),
        }
    }
}

/// How reading the value of the header that `m` ends with ends the scan, if
/// it does: a missing line end leaves the server waiting for more data and
/// makes the client index past its buffer.
pub open spec fn value_blocks(data: Seq<u8>, m: HeaderMatch, server: bool) -> Option<HeaderScan> {
    match header_value_scan(data, m) {
        Ok(None) => Some(
            if server {
                HeaderScan::Partial
            } else {
                HeaderScan::Stuck
            },
        ),
        Err(f) => Some(HeaderScan::Fault(f)),
        Ok(Some(_)) => None,
    }
}

/// The value read for the header that `m` ends with.
pub open spec fn value_text(data: Seq<u8>, m: HeaderMatch) -> Seq<char> {
    match header_value_scan(data, m) {
        Ok(Some(t)) => t,
        _ => Seq::empty(),
    }
}

/// The bytes of the value of the header that `m` ends with.
pub open spec fn value_bytes(data: Seq<u8>, m: HeaderMatch) -> Seq<u8> {
    data.subrange(m.end as int, eol_from(data, m.end as int))
}

/// Reading one match into the headers `h` (`term` says whether the end of
/// the head was seen). The server also takes the method from the matches.
pub open spec fn scan_step(data: Seq<u8>, m: HeaderMatch, h: HeadersView, term: bool, server: bool) -> HeaderScan {
    if m.id == PATTERN_TERMINATION {
        HeaderScan::Going(HeadersView { end_headers: m.end, ..h }, true)
    } else if m.id == PATTERN_HEADER {
        if m.start + 2 > usize::MAX {
            HeaderScan::Stuck
        } else {
            match header_name_scan(data, m) {
                Err(f) => HeaderScan::Fault(f),
                Ok(name) => match value_blocks(data, m, server) {
                    Some(stop) => stop,
                    None => HeaderScan::Going(
                        HeadersView { headers: h.headers.push((name, value_text(data, m))), ..h },
                        term,
                    ),
                },
            }
        }
    } else if m.id == PATTERN_CONTENT_LENGTH {
        match value_blocks(data, m, server) {
            Some(stop) => stop,
            None => match spec_parse_unsigned(value_bytes(data, m), 10) {
                Some(n) => if n <= usize::MAX {
                    HeaderScan::Going(HeadersView { content_length: n as usize, ..h }, term)
                } else {
                    HeaderScan::Fault(HeaderFault::Parse)
                },
                None => HeaderScan::Fault(HeaderFault::Parse),
            },
        }
    } else if m.id == PATTERN_TRANSFER_ENCODING {
        match value_blocks(data, m, server) {
            Some(stop) => stop,
            None => HeaderScan::Going(
                HeadersView { chunked: h.chunked || contains_seq(value_text(data, m), "chunked"@), ..h },
                term,
            ),
        }
    } else if server && m.id == PATTERN_GET {
        HeaderScan::Going(HeadersView { method: HttpMethod::Get, ..h }, term)
    } else if server && m.id == PATTERN_POST {
        HeaderScan::Going(HeadersView { method: HttpMethod::Post, ..h }, term)
    } else {
        HeaderScan::Going(h, term)
    }
}

/// The scan after reading the first `n` matches of `ms`.
pub open spec fn scan_prefix(data: Seq<u8>, ms: Seq<HeaderMatch>, n: nat, server: bool) -> HeaderScan
    decreases n,
{
    if n == 0 {
        HeaderScan::Going(empty_headers(), false)
    } else {
        match scan_prefix(data, ms, (n - 1) as nat, server) {
            HeaderScan::Going(h, term) => scan_step(data, ms[n - 1], h, term, server),
            other => other,
        }
    }
}

proof fn lemma_scan_stops(data: Seq<u8>, ms: Seq<HeaderMatch>, i: nat, n: nat, server: bool)
    requires
        i <= n,
        !(scan_prefix(data, ms, i, server) is Going),
    ensures
        scan_prefix(data, ms, n, server) == scan_prefix(data, ms, i, server),
    decreases n - i,
{
    if i < n {
        lemma_scan_stops(data, ms, i, (n - 1) as nat, server);
    }
}

/// The bytes of `HTTP/1.` followed by the digit `last`.
pub open spec fn http_version_bytes(last: u8) -> Seq<u8> {
    seq![72u8, 84u8, 84u8, 80u8, 47u8, 49u8, 46u8, last]
}

/// The request line of a complete head: the URI after the method and its
/// space, up to a space or a line end, and the version after it, up to the
/// line end.
pub open spec fn request_line_scan(data: Seq<u8>, h: HeadersView) -> HeaderScan {
    if h.method == HttpMethod::Unknown {
        HeaderScan::Fault(HeaderFault::BadRequest)
    } else {
        let start: int = if h.method == HttpMethod::Get {
            4
        } else {
            5
        };
        let uri_end = word_end_from(data, start);
        if uri_end >= data.len() {
            HeaderScan::Stuck
        } else {
            match text_of(data, start, uri_end) {
                None => HeaderScan::Fault(HeaderFault::Utf8),
                Some(uri) => {
                    let vstart = uri_end + 1;
                    let vend = eol_from(data, vstart);
                    if vend >= data.len() {
                        HeaderScan::Stuck
                    } else {
                        let vb = data.subrange(vstart, vend);
                        let version = if vb == http_version_bytes(48) {
                            HttpVersion::Http10
                        } else if vb == http_version_bytes(49) {
                            HttpVersion::Http11
                        } else if vend > vstart {
                            HttpVersion::Other
                        } else {
                            h.version
                        };
                        HeaderScan::Done(HeadersView { uri, version, ..h })
                    }
                },
            }
        }
    }
}

/// What the server reads from the head of a request in `data`, given the
/// matches of the header search.
pub open spec fn server_head_scan(data: Seq<u8>, ms: Seq<HeaderMatch>) -> HeaderScan {
    match scan_prefix(data, ms, ms.len(), true) {
        HeaderScan::Going(h, true) => request_line_scan(data, h),
        HeaderScan::Going(h, false) => HeaderScan::Partial,
        other => other,
    }
}

/// The bytes of a request line: the method's name, a space, the URI, a
/// space, the version, and a line end.
pub open spec fn request_line(method: Seq<u8>, uri: Seq<u8>, version: Seq<u8>) -> Seq<u8> {
    method + seq![32u8] + uri + seq![32u8] + version + seq![13u8, 10u8]
}

proof fn lemma_word_end_at(data: Seq<u8>, i: int, j: int)
    requires
        0 <= i <= j < data.len(),
        forall|k: int| i <= k < j ==> data[k] != 32 && !is_eol(#[trigger] data[k]),
        data[j] == 32 || is_eol(data[j]),
    ensures
        word_end_from(data, i) == j,
    decreases j - i,
{
    if i < j {
        lemma_word_end_at(data, i + 1, j);
    }
}

proof fn lemma_eol_at(data: Seq<u8>, i: int, j: int)
    requires
        0 <= i <= j < data.len(),
        forall|k: int| i <= k < j ==> !is_eol(#[trigger] data[k]),
        is_eol(data[j]),
    ensures
        eol_from(data, i) == j,
    decreases j - i,
{
    if i < j {
        lemma_eol_at(data, i + 1, j);
    }
}

/// The server reads a request's URI between the first and the second space
/// of its request line, and its version after the second space, for POST as
/// for GET, whatever follows the line: given the match of the method and of
/// the end of the head, the head is done, with that method, that URI and
/// that version.
pub proof fn law_request_line(
    post: bool,
    uri: Seq<u8>,
    version: Seq<u8>,
    rest: Seq<u8>,
    m: HeaderMatch,
    t: HeaderMatch,
)
    requires
        forall|k: int| 0 <= k < uri.len() ==> #[trigger] uri[k] != 32 && !is_eol(uri[k]),
        forall|k: int| 0 <= k < version.len() ==> !is_eol(#[trigger] version[k]),
        vstd::utf8::valid_utf8(uri),
        m.id == if post {
            PATTERN_POST
        } else {
            PATTERN_GET
        },
        t.id == PATTERN_TERMINATION,
    ensures
        ({
            let name = if post {
                seq![80u8, 79u8, 83u8, 84u8]
            } else {
                seq![71u8, 69u8, 84u8]
            };
            let data = request_line(name, uri, version) + rest;
            let s = server_head_scan(data, seq![m, t]);
            &&& s is Done
            &&& s->Done_0.method == if post {
                HttpMethod::Post
            } else {
                HttpMethod::Get
            }
            &&& s->Done_0.uri == vstd::utf8::decode_utf8(uri)
            &&& version == http_version_bytes(49) ==> s->Done_0.version == HttpVersion::Http11
            &&& version == http_version_bytes(48) ==> s->Done_0.version == HttpVersion::Http10
            &&& s->Done_0.end_headers == t.end
        }),
{
    let name = if post {
        seq![80u8, 79u8, 83u8, 84u8]
    } else {
        seq![71u8, 69u8, 84u8]
    };
    let data = request_line(name, uri, version) + rest;
    let ms = seq![m, t];
    let meth = if post {
        HttpMethod::Post
    } else {
        HttpMethod::Get
    };
    let h1 = HeadersView { method: meth, ..empty_headers() };
    assert(scan_prefix(data, ms, 1, true) == HeaderScan::Going(h1, false)) by {
        assert(scan_prefix(data, ms, 0, true) == HeaderScan::Going(empty_headers(), false));
        assert(ms[0] == m);
    }
    let h2 = HeadersView { end_headers: t.end, ..h1 };
    assert(scan_prefix(data, ms, 2, true) == HeaderScan::Going(h2, true)) by {
        assert(ms[1] == t);
    }
    assert(ms.len() == 2);
    let start: int = name.len() as int + 1;
    let ue: int = start + uri.len();
    let vs: int = ue + 1;
    let ve: int = vs + version.len();
    assert(data.len() == ve + 2 + rest.len());
    assert forall|k: int| start <= k < ue implies data[k] != 32 && !is_eol(#[trigger] data[k]) by {
        assert(data[k] == uri[k - start]);
    }
    assert(data[ue] == 32);
    lemma_word_end_at(data, start, ue);
    assert(data.subrange(start, ue) =~= uri);
    assert forall|k: int| vs <= k < ve implies !is_eol(#[trigger] data[k]) by {
        assert(data[k] == version[k - vs]);
    }
    assert(data[ve] == 13);
    lemma_eol_at(data, vs, ve);
    assert(data.subrange(vs, ve) =~= version);
}

/// What the client reads from the head of a response in `data`, given the
/// matches of the header search.
pub open spec fn client_head_scan(data: Seq<u8>, ms: Seq<HeaderMatch>) -> HeaderScan {
    match scan_prefix(data, ms, ms.len(), false) {
        HeaderScan::Going(h, true) => HeaderScan::Done(h),
        HeaderScan::Going(h, false) => HeaderScan::Partial,
        other => other,
    }
}

/// `r` is what a finished scan `s` reports.
pub open spec fn scan_reported(s: HeaderScan, r: Result<Option<HttpHeaders>, Error>) -> bool {
    match s {
        HeaderScan::Done(v) => r matches Ok(Some(h)) && h@ == v,
        HeaderScan::Partial => r matches Ok(None),
        HeaderScan::Fault(f) => r matches Err(e) && fault_error(e, f),
        _ => false,
    }
}

fn is_http_version(data: &[u8], start: usize, end: usize, last: u8) -> (r: bool)
    requires
        start <= end <= data@.len(),
    ensures
        r == (data@.subrange(start as int, end as int) == http_version_bytes(last)),
{
    if end - start != 8 {
        assert(http_version_bytes(last).len() == 8);
        return false;
    }
    let r = data[start] == 72 && data[start + 1] == 84 && data[start + 2] == 84 && data[start + 3]
        == 80 && data[start + 4] == 47 && data[start + 5] == 49 && data[start + 6] == 46 && data[start
        + 7] == last;
    assert(r ==> data@.subrange(start as int, end as int) =~= http_version_bytes(last));
    assert(data@.subrange(start as int, end as int) == http_version_bytes(last) ==> r) by {
        if data@.subrange(start as int, end as int) == http_version_bytes(last) {
            let b = data@.subrange(start as int, end as int);
            assert(b[0] == 72 && b[1] == 84 && b[2] == 84 && b[3] == 80);
            assert(b[4] == 47 && b[5] == 49 && b[6] == 46 && b[7] == last);
        }
    }
    r
}

/// Reads the matches of the header search over `data` in order.
fn scan_matches(data: &[u8], matches: &[HeaderMatch], server: bool) -> (r: Result<
    Option<(HttpHeaders, bool)>,
    Error,
>)
    requires
        !(scan_prefix(data@, matches@, matches@.len(), server) is Stuck),
    ensures
        match scan_prefix(data@, matches@, matches@.len(), server) {
            HeaderScan::Going(v, term) => r matches Ok(Some((h, t))) && h@ == v && t == term,
            HeaderScan::Partial => r matches Ok(None),
            HeaderScan::Fault(f) => r matches Err(e) && fault_error(e, f),
            _ => false,
        },
{
    let n = matches.len();
    let mut h = HttpHeaders::new();
    let mut term = false;
    let mut i: usize = 0;
    while i < n
        invariant
            n == matches@.len(),
            i <= n,
            scan_prefix(data@, matches@, i as nat, server) == HeaderScan::Going(h@, term),
            !(scan_prefix(data@, matches@, n as nat, server) is Stuck),
        decreases n - i,
    {
        let m = matches[i];
        let ghost next = scan_prefix(data@, matches@, (i + 1) as nat, server);
        assert(next == scan_step(data@, m, h@, term, server));
        proof {
            if !(next is Going) {
                lemma_scan_stops(data@, matches@, (i + 1) as nat, n as nat, server);
            }
        }
        if m.id == PATTERN_TERMINATION {
            h.end_headers = m.end;
            term = true;
        } else if m.id == PATTERN_HEADER {
            let name = match header_name(data, m) {
                Ok(s) => s,
                Err(e) => return Err(e),
            };
            let value = match header_value(data, m) {
                Ok(Some(s)) => s,
                Ok(None) => return Ok(None),
                Err(e) => return Err(e),
            };
            let ghost old_h = h@;
            h.headers.push((name, value));
            assert(h@.headers =~= old_h.headers.push((name@, value@)));
        } else if m.id == PATTERN_CONTENT_LENGTH {
            match header_value(data, m) {
                Ok(Some(_)) => {},
                Ok(None) => return Ok(None),
                Err(e) => return Err(e),
            }
            let end = find_eol(data, m.end);
            proof {
                lemma_eol_from_bounds(data@, m.end as int);
            }
            match parse_unsigned(data, m.end, end, 10) {
                Some(v) => {
                    h.content_length = v;
                },
                None => {
                    return Err(
                        Error::base(
                            CoreErrorKind::Parse(String::from_str("invalid digit found in string")),
                        ),
                    );
                },
            }
        } else if m.id == PATTERN_TRANSFER_ENCODING {
            let value = match header_value(data, m) {
                Ok(Some(s)) => s,
                Ok(None) => return Ok(None),
                Err(e) => return Err(e),
            };
            if str_contains(value.as_str(), "chunked") {
                h.chunked = true;
            }
        } else if server && m.id == PATTERN_GET {
            h.method = HttpMethod::Get;
        } else if server && m.id == PATTERN_POST {
            h.method = HttpMethod::Post;
        }
        i = i + 1;
    }
    Ok(Some((h, term)))
}

/// Parses the head of a request that the server received, from the matches
/// of the header search over `data`: `Ok(None)` while the head is not
/// complete.
pub fn build_server_headers(data: &[u8], matches: &[HeaderMatch]) -> (r: Result<
    Option<HttpHeaders>,
    Error,
>)
    requires
        !(server_head_scan(data@, matches@) is Stuck),
    ensures
        scan_reported(server_head_scan(data@, matches@), r),
{
    let (mut h, term) = match scan_matches(data, matches, true) {
        Ok(Some(p)) => p,
        Ok(None) => return Ok(None),
        Err(e) => return Err(e),
    };
    if !term {
        return Ok(None);
    }
    if h.method == HttpMethod::Unknown {
        return Err(Error::new(ErrKind::Http(String::from_str("bad request"))));
    }
    let start: usize = if h.method == HttpMethod::Get {
        4
    } else {
        5
    };
    let uri_end = find_word_end(data, start);
    proof {
        lemma_word_end_from_bounds(data@, start as int);
    }
    assert(server_head_scan(data@, matches@) == request_line_scan(data@, h@));
    assert(uri_end < data@.len());
    let len = data.len();
    assert(uri_end < len);
    let uri = match text_between(data, start, uri_end) {
        Some(s) => s,
        None => return Err(utf8_error()),
    };
    let vstart = uri_end + 1;
    let vend = find_eol(data, vstart);
    proof {
        lemma_eol_from_bounds(data@, vstart as int);
    }
    h.uri = uri;
    if is_http_version(data, vstart, vend, 48) {
        h.version = HttpVersion::Http10;
    } else if is_http_version(data, vstart, vend, 49) {
        h.version = HttpVersion::Http11;
    } else if vend > vstart {
        h.version = HttpVersion::Other;
    }
    Ok(Some(h))
}

/// Parses the head of a response that the client received, from the
/// matches of the header search over `data`: `Ok(None)` while the head is
/// not complete.
pub fn build_client_headers(data: &[u8], matches: &[HeaderMatch]) -> (r: Result<
    Option<HttpHeaders>,
    Error,
>)
    requires
        !(client_head_scan(data@, matches@) is Stuck),
    ensures
        scan_reported(client_head_scan(data@, matches@), r),
{
    match scan_matches(data, matches, false) {
        Ok(Some((h, term))) => if term {
            Ok(Some(h))
        } else {
            Ok(None)
        },
        Ok(None) => Ok(None),
        Err(e) => Err(e),
    }
}

/// What to drop from the read buffers of a connection after a request or
/// response was handled.
#[derive(Clone, Copy, Debug, PartialEq, Eq, Structural)]
pub enum ClearAction {
    /// Everything that was read.
    All,
    /// The first `n` bytes of what was read.
    Through(usize),
    /// Nothing.
    Nothing,
}

/// The server, after handling the head it found in `data_len` bytes: a
/// clear point at the end of the data drops everything, any other non-zero
/// clear point drops up to it.
pub fn server_clear_action(data_len: usize, clear_point: usize) -> (r: ClearAction)
    ensures
        r == if clear_point == data_len {
            ClearAction::All
        } else if clear_point != 0 {
            ClearAction::Through(clear_point)
        } else {
            ClearAction::Nothing
        },
{
    if clear_point == data_len {
        ClearAction::All
    } else if clear_point != 0 {
        ClearAction::Through(clear_point)
    } else {
        ClearAction::Nothing
    }
}

/// The client, after handling a response whose body starts `offset` bytes
/// into the `data_len` bytes read and takes `clear_point` bytes of them:
/// when that is all of the data everything is dropped; otherwise the bytes
/// up to it, the head of `end_headers` bytes and its final line end are.
pub fn client_clear_action(data_len: usize, offset: usize, clear_point: usize, end_headers: usize) -> (r:
    ClearAction)
    requires
        offset + clear_point + end_headers + 2 <= usize::MAX,
    ensures
        r == if data_len == clear_point + offset {
            ClearAction::All
        } else if clear_point + offset != 0 {
            ClearAction::Through((clear_point + offset + end_headers + 2) as usize)
        } else {
            ClearAction::Nothing
        },
{
    if data_len == clear_point + offset {
        ClearAction::All
    } else if clear_point + offset != 0 {
        ClearAction::Through(clear_point + offset + end_headers + 2)
    } else {
        ClearAction::Nothing
    }
}

/// How dropping the first `clear_point` bytes of a connection's read buffers
/// is done: the offset at which the data left starts in its first slab, and
/// the index of the last chunk to free, if any.
#[derive(Clone, Copy, Debug, PartialEq, Eq, Structural)]
pub struct ClearPlan {
    pub offset: usize,
    pub clear_through: Option<usize>,
}

/// Plans dropping the first `clear_point` bytes of data read into
/// `chunk_count` slabs of `slab_size` bytes, of which four hold the link to
/// the next slab. Whole slabs before the one the clear point falls in are
/// freed; a clear point beyond the chunks read is an `Http` error.
pub fn clear_plan(clear_point: usize, slab_size: usize, chunk_count: usize) -> (r: Result<
    ClearPlan,
    Error,
>)
    requires
        slab_size > 4,
    ensures
        ({
            let per: int = slab_size - 4;
            let cp: int = clear_point as int;
            let th: int = if cp / per >= 1 {
                cp / per - 1
            } else {
                0
            };
            if cp < per {
                r matches Ok(p) && p == ClearPlan { offset: (cp % per) as usize, clear_through: None }
            } else if th >= chunk_count {
                r matches Err(e) && e.spec_kind() is Http
            } else {
                r matches Ok(p) && p == ClearPlan {
                    offset: (cp % per) as usize,
                    clear_through: Some(th as usize),
                }
            }
        }),
{
    let per = slab_size - 4;
    let offset = clear_point % per;
    if clear_point >= per {
        let th = (clear_point / per).saturating_sub(1);
        if th >= chunk_count {
            return Err(Error::new(ErrKind::Http(String::from_str("clear chunk had unexpected value"))));
        }
        Ok(ClearPlan { offset, clear_through: Some(th) })
    } else {
        Ok(ClearPlan { offset, clear_through: None })
    }
}

/// What the client does with a response body, given its head and the
/// `data_len` bytes read from the start of the head.
#[derive(Clone, Copy, Debug, PartialEq, Eq, Structural)]
pub enum BodyAction {
    /// Not all of the body is there: wait, dropping nothing.
    Wait,
    /// The body is the bytes from `start` up to `end`; they and the head
    /// are dropped afterwards.
    Whole { start: usize, end: usize },
    /// The body is chunked and starts at `start`.
    Chunked { start: usize },
}

/// Decides what the client does with the body of a response: the head and
/// the declared content length must be there, unless the body is chunked.
pub fn client_body_action(headers: &HttpHeaders, data_len: usize) -> (r: BodyAction)
    ensures
        r == if headers.content_length + headers.end_headers > data_len {
            BodyAction::Wait
        } else if !headers.chunked {
            BodyAction::Whole {
                start: headers.end_headers,
                end: (headers.end_headers + headers.content_length) as usize,
            }
        } else {
            BodyAction::Chunked { start: headers.end_headers }
        },
{
    if headers.content_length > data_len || headers.end_headers > data_len - headers.content_length {
        BodyAction::Wait
    } else if !headers.chunked {
        BodyAction::Whole {
            start: headers.end_headers,
            end: headers.end_headers + headers.content_length,
        }
    } else {
        BodyAction::Chunked { start: headers.end_headers }
    }
}

/// The head of the response in which the server streams a file: status
/// line, `Server` and `Date` headers, and chunked transfer coding.
pub open spec fn file_response_head_spec(server: Seq<char>, date: Seq<char>) -> Seq<char> {
    "HTTP/1.1 200 OK\r\nServer: "@ + server + "\r\nDate: "@ + date
        + "\r\nTransfer-Encoding: chunked\r\n\r\n"@
}

/// The head of the response in which the server streams a file.
pub fn file_response_head(server: &str, date: &str) -> (r: String)
    ensures
        r@ == file_response_head_spec(server@, date@),
{
    let mut r = String::from_str("HTTP/1.1 200 OK\r\nServer: ");
    r.append(server);
    r.append("\r\nDate: ");
    r.append(date);
    r.append("\r\nTransfer-Encoding: chunked\r\n\r\n");
    r
}

/// `chrono::Utc::now()` formatted as `%a, %d %h %C%y %H:%M:%S GMT`. The
/// text depends on the clock, so nothing is stated of it.
#[verifier::external_body]
fn http_date_now() -> String {
    chrono::Utc::now().format("%a, %d %h %C%y %H:%M:%S GMT").to_string()
}

/// The head of the response in which the server streams a file, dated now.
pub fn file_response_head_now(server: &str) -> (r: String)
    ensures
        exists|date: Seq<char>| r@ == file_response_head_spec(server@, date),
{
    let date = http_date_now();
    file_response_head(server, date.as_str())
}

/// The user agent a request announces unless configured otherwise.
pub const DEFAULT_USER_AGENT: &'static str = "BitcoinMW/0.1.0";

/// The body of a request or response: bytes in memory, or a file that is
/// read elsewhere.
pub struct HttpContentReader {
    content_file: Option<String>,
    content_data: Vec<u8>,
    content_data_offset: usize,
}

impl HttpContentReader {
    #[verifier::type_invariant]
    spec fn offset_in_data(self) -> bool {
        self.content_data_offset <= self.content_data@.len()
    }

    /// The file the body is read from, if it is in a file.
    pub closed spec fn spec_content_file(&self) -> Option<Seq<char>> {
        match self.content_file {
            Some(f) => Some(f@),
            None => None,
        }
    }

    /// The bytes of the body in memory that were not read yet.
    pub closed spec fn unread(&self) -> Seq<u8> {
        self.content_data@.subrange(self.content_data_offset as int, self.content_data@.len() as int)
    }

    /// A body held in `content_data`, or in the file `content_file`; not
    /// both (`IllegalArgument`).
    pub fn new(content_data: Vec<u8>, content_file: Option<String>) -> (r: Result<HttpContentReader, Error>)
        ensures
            content_data@.len() > 0 && content_file is Some <==> r is Err,
            r matches Err(e) ==> e.spec_kind() is IllegalArgument,
            r matches Ok(c) ==> c.unread() == content_data@ && c.spec_content_file() == match content_file {
                Some(f) => Some(f@),
                None => None::<Seq<char>>,
            },
    {
        if content_data.len() > 0 && content_file.is_some() {
            return Err(
                Error::new(
                    ErrKind::IllegalArgument(
                        String::from_str("content_data must be 0 length if content is set"),
                    ),
                ),
            );
        }
        let r = HttpContentReader { content_file, content_data, content_data_offset: 0 };
        assert(r.unread() =~= r.content_data@);
        Ok(r)
    }

    /// The file the body is read from, if it is in a file.
    pub fn content_file(&self) -> (r: &Option<String>)
        ensures
            match *r {
                Some(f) => self.spec_content_file() == Some(f@),
                None => self.spec_content_file() is None,
            },
    {
        &self.content_file
    }

    /// Reads at most `max` bytes of the body in memory: the next bytes not
    /// read yet, as many as there are up to `max`.
    pub fn read(&mut self, max: usize) -> (r: Vec<u8>)
        ensures
            r@.len() == if max < old(self).unread().len() {
                max as int
            } else {
                old(self).unread().len() as int
            },
            old(self).unread() == r@ + final(self).unread(),
            final(self).spec_content_file() == old(self).spec_content_file(),
    {
        proof {
            use_type_invariant(&*self);
        }
        let off = self.content_data_offset;
        let len = self.content_data.len();
        let available = len - off;
        let n = if max < available {
            max
        } else {
            available
        };
        let mut out: Vec<u8> = Vec::new();
        let mut i: usize = 0;
        while i < n
            invariant
                off + n <= len,
                len == self.content_data@.len(),
                i <= n,
                out@ == self.content_data@.subrange(off as int, off + i),
            decreases n - i,
        {
            out.push(self.content_data[off + i]);
            assert(out@ =~= self.content_data@.subrange(off as int, off + i + 1));
            i = i + 1;
        }
        self.content_data_offset = off + n;
        assert(old(self).unread() =~= out@ + self.unread());
        out
    }
}

/// Reading a body in memory to its end, in reads of any sizes, gives back
/// the bytes it was made with: each read takes the next unread bytes.
pub proof fn law_content_reads(before: Seq<u8>, got: Seq<u8>, after: Seq<u8>, more: Seq<u8>, rest: Seq<u8>)
    requires
        before == got + after,
        after == more + rest,
    ensures
        before == (got + more) + rest,
{
    assert(before =~= (got + more) + rest);
}

/// The names a request may be configured with.
pub open spec fn request_option_names() -> Seq<ConfigName> {
    seq![
        ConfigName::HttpContentFile,
        ConfigName::HttpContentData,
        ConfigName::HttpAccept,
        ConfigName::HttpHeader,
        ConfigName::HttpTimeoutMillis,
        ConfigName::HttpMeth,
        ConfigName::HttpVers,
        ConfigName::HttpConnection,
        ConfigName::HttpRequestUrl,
        ConfigName::HttpRequestUri,
        ConfigName::HttpUserAgent,
    ]
}

/// The text an option holds, if it holds text.
pub open spec fn option_text(o: ConfigOption) -> Seq<char> {
    match o {
        ConfigOption::HttpContentFile(s) => s@,
        ConfigOption::HttpAccept(s) => s@,
        ConfigOption::HttpMeth(s) => s@,
        ConfigOption::HttpVers(s) => s@,
        ConfigOption::HttpConnection(s) => s@,
        ConfigOption::HttpRequestUrl(s) => s@,
        ConfigOption::HttpRequestUri(s) => s@,
        ConfigOption::HttpUserAgent(s) => s@,
        _ => Seq::empty(),
    }
}

/// The text of the first option named `n`, or `default`.
pub open spec fn text_or(opts: Seq<ConfigOption>, n: ConfigName, default: Seq<char>) -> Seq<char> {
    match first_named(opts, n) {
        Some(i) => option_text(opts[i]),
        None => default,
    }
}

/// The headers that the options configure, in order.
pub open spec fn configured_headers(opts: Seq<ConfigOption>) -> Seq<(Seq<char>, Seq<char>)>
    decreases opts.len(),
{
    if opts.len() == 0 {
        Seq::empty()
    } else {
        let prev = configured_headers(opts.drop_last());
        match opts.last() {
            ConfigOption::HttpHeader(p) => prev.push((p.0@, p.1@)),
            _ => prev,
        }
    }
}

/// The bytes of the first `HttpContentData` option, or nothing.
pub open spec fn configured_data(opts: Seq<ConfigOption>) -> Seq<u8> {
    match first_named(opts, ConfigName::HttpContentData) {
        Some(i) => match opts[i] {
            ConfigOption::HttpContentData(d) => d@,
            _ => Seq::empty(),
        },
        None => Seq::empty(),
    }
}

/// The timeout the options configure, or zero.
pub open spec fn configured_timeout(opts: Seq<ConfigOption>) -> u64 {
    match first_named(opts, ConfigName::HttpTimeoutMillis) {
        Some(i) => match opts[i] {
            ConfigOption::HttpTimeoutMillis(t) => t,
            _ => 0,
        },
        None => 0,
    }
}

/// An empty text stands for "not set".
pub open spec fn unless_empty(s: Seq<char>) -> Option<Seq<char>> {
    if s.len() == 0 {
        None
    } else {
        Some(s)
    }
}

/// A request to be sent by the client.
pub struct HttpRequest {
    guid: u128,
    request_url: Option<String>,
    request_uri: Option<String>,
    user_agent: String,
    accept: String,
    headers: Vec<(String, String)>,
    timeout_millis: u64,
    method: HttpMethod,
    version: HttpVersion,
    connection_type: HttpConnectionType,
    content: HttpContentReader,
}

/// The mathematical value of a request.
pub struct RequestView {
    pub guid: u128,
    pub request_url: Option<Seq<char>>,
    pub request_uri: Option<Seq<char>>,
    pub user_agent: Seq<char>,
    pub accept: Seq<char>,
    pub headers: Seq<(Seq<char>, Seq<char>)>,
    pub timeout_millis: u64,
    pub method: HttpMethod,
    pub version: HttpVersion,
    pub connection_type: HttpConnectionType,
    pub content_file: Option<Seq<char>>,
    pub content: Seq<u8>,
}

/// Why a request could not be built.
#[derive(Clone, Copy, Debug, PartialEq, Eq, Structural)]
pub enum RequestFault {
    /// An option a request does not take, or one given twice (`Configuration`).
    Configuration,
    /// Both a content file and content data, or an unknown version, method
    /// or connection type (`IllegalArgument`).
    IllegalArgument,
}

/// The request the options describe, with the identifier `guid`: options
/// other than those of a request, and options other than headers given
/// twice, are refused; so are a content file together with content data,
/// and a version, method or connection type that is not known. Unset
/// options take their defaults: accept `*/*`, no timeout, `HTTP/1.1`,
/// `GET`, `close` and the library's user agent.
pub open spec fn request_spec(opts: Seq<ConfigOption>, guid: u128) -> Result<RequestView, RequestFault> {
    let file = match first_named(opts, ConfigName::HttpContentFile) {
        Some(i) => Some(option_text(opts[i])),
        None => None,
    };
    let data = configured_data(opts);
    let version = version_of(text_or(opts, ConfigName::HttpVers, "HTTP/1.1"@));
    let method = method_of(text_or(opts, ConfigName::HttpMeth, "GET"@));
    let connection_type = connection_type_of(text_or(opts, ConfigName::HttpConnection, "close"@));
    if !config_acceptable(opts, request_option_names(), seq![ConfigName::HttpHeader]) {
        Err(RequestFault::Configuration)
    } else if file is Some && data.len() > 0 {
        Err(RequestFault::IllegalArgument)
    } else if version == HttpVersion::Unknown || method == HttpMethod::Unknown || connection_type
        == HttpConnectionType::Unknown {
        Err(RequestFault::IllegalArgument)
    } else {
        Ok(
            RequestView {
                guid,
                request_url: unless_empty(text_or(opts, ConfigName::HttpRequestUrl, Seq::empty())),
                request_uri: unless_empty(text_or(opts, ConfigName::HttpRequestUri, Seq::empty())),
                user_agent: text_or(opts, ConfigName::HttpUserAgent, DEFAULT_USER_AGENT@),
                accept: text_or(opts, ConfigName::HttpAccept, "*/*"@),
                headers: configured_headers(opts),
                timeout_millis: configured_timeout(opts),
                method,
                version,
                connection_type,
                content_file: file,
                content: data,
            },
        )
    }
}

fn text_option_or(opts: &[ConfigOption], n: ConfigName, default: &str) -> (r: String)
    ensures
        r@ == text_or(opts@, n, default@),
{
    match find_option(opts, n) {
        Some(i) => {
            assert(text_or(opts@, n, default@) == option_text(opts@[i as int]));
            match &opts[i] {
            ConfigOption::HttpContentFile(s) => s.clone(),
            ConfigOption::HttpAccept(s) => s.clone(),
            ConfigOption::HttpMeth(s) => s.clone(),
            ConfigOption::HttpVers(s) => s.clone(),
            ConfigOption::HttpConnection(s) => s.clone(),
            ConfigOption::HttpRequestUrl(s) => s.clone(),
            ConfigOption::HttpRequestUri(s) => s.clone(),
            ConfigOption::HttpUserAgent(s) => s.clone(),
            _ => String::new(),
        }},
        None => String::from_str(default),
    }
}

fn headers_of(opts: &[ConfigOption]) -> (r: Vec<(String, String)>)
    ensures
        r@.map_values(|p: (String, String)| (p.0@, p.1@)) == configured_headers(opts@),
{
    let n = opts.len();
    let mut out: Vec<(String, String)> = Vec::new();
    let mut i: usize = 0;
    while i < n
        invariant
            n == opts@.len(),
            i <= n,
            out@.map_values(|p: (String, String)| (p.0@, p.1@)) == configured_headers(opts@.take(i as int)),
        decreases n - i,
    {
        let ghost before = out@.map_values(|p: (String, String)| (p.0@, p.1@));
        assert(opts@.take(i + 1).drop_last() =~= opts@.take(i as int));
        assert(opts@.take(i + 1).last() == opts@[i as int]);
        match &opts[i] {
            ConfigOption::HttpHeader(p) => {
                out.push((p.0.clone(), p.1.clone()));
                assert(out@.map_values(|p: (String, String)| (p.0@, p.1@)) =~= before.push((p.0@, p.1@)));
            },
            _ => {},
        }
        i = i + 1;
    }
    assert(opts@.take(n as int) =~= opts@);
    out
}

impl HttpRequest {
    /// The mathematical value of this request.
    pub closed spec fn spec_view(&self) -> RequestView {
        RequestView {
            guid: self.guid,
            request_url: match self.request_url {
                Some(s) => Some(s@),
                None => None,
            },
            request_uri: match self.request_uri {
                Some(s) => Some(s@),
                None => None,
            },
            user_agent: self.user_agent@,
            accept: self.accept@,
            headers: self.headers@.map_values(|p: (String, String)| (p.0@, p.1@)),
            timeout_millis: self.timeout_millis,
            method: self.method,
            version: self.version,
            connection_type: self.connection_type,
            content_file: self.content.spec_content_file(),
            content: self.content.unread(),
        }
    }

    /// Builds the request that the options describe, with the identifier
    /// `guid` (see `request_spec`).
    pub fn build(opts: &[ConfigOption], guid: u128) -> (r: Result<HttpRequest, Error>)
        ensures
            match request_spec(opts@, guid) {
                Ok(v) => r matches Ok(q) && q.spec_view() == v,
                Err(RequestFault::Configuration) => r matches Err(e) && e.spec_kind() is Configuration,
                Err(RequestFault::IllegalArgument) => r matches Err(e) && e.spec_kind() is IllegalArgument,
            },
    {
        let allowed = vec![
            ConfigName::HttpContentFile,
            ConfigName::HttpContentData,
            ConfigName::HttpAccept,
            ConfigName::HttpHeader,
            ConfigName::HttpTimeoutMillis,
            ConfigName::HttpMeth,
            ConfigName::HttpVers,
            ConfigName::HttpConnection,
            ConfigName::HttpRequestUrl,
            ConfigName::HttpRequestUri,
            ConfigName::HttpUserAgent,
        ];
        let dupes = vec![ConfigName::HttpHeader];
        assert(allowed@ =~= request_option_names());
        assert(dupes@ =~= seq![ConfigName::HttpHeader]);
        match check_config(opts, allowed.as_slice(), dupes.as_slice()) {
            Ok(()) => {},
            Err(e) => return Err(e),
        }
        let file = match find_option(opts, ConfigName::HttpContentFile) {
            Some(_) => Some(text_option_or(opts, ConfigName::HttpContentFile, "")),
            None => None,
        };
        let data: Vec<u8> = match find_option(opts, ConfigName::HttpContentData) {
            Some(i) => match &opts[i] {
                ConfigOption::HttpContentData(d) => d.clone(),
                _ => Vec::new(),
            },
            None => Vec::new(),
        };
        assert(data@ == configured_data(opts@));
        if file.is_some() && data.len() > 0 {
            return Err(
                Error::new(
                    ErrKind::IllegalArgument(
                        String::from_str("HttpContentFile and HttpContentData may not both be set"),
                    ),
                ),
            );
        }
        let headers = headers_of(opts);
        let accept = text_option_or(opts, ConfigName::HttpAccept, "*/*");
        let timeout_millis: u64 = match find_option(opts, ConfigName::HttpTimeoutMillis) {
            Some(i) => match &opts[i] {
                ConfigOption::HttpTimeoutMillis(t) => *t,
                _ => 0,
            },
            None => 0,
        };
        let version = version_of_str(text_option_or(opts, ConfigName::HttpVers, "HTTP/1.1").as_str());
        let method = method_of_str(text_option_or(opts, ConfigName::HttpMeth, "GET").as_str());
        let connection_type = connection_type_of_str(
            text_option_or(opts, ConfigName::HttpConnection, "close").as_str(),
        );
        let user_agent = text_option_or(opts, ConfigName::HttpUserAgent, DEFAULT_USER_AGENT);
        let url = text_option_or(opts, ConfigName::HttpRequestUrl, "");
        let uri = text_option_or(opts, ConfigName::HttpRequestUri, "");
        proof {
            reveal_strlit("");
        }
        let request_url = if url.as_str().unicode_len() == 0 {
            None
        } else {
            Some(url)
        };
        let request_uri = if uri.as_str().unicode_len() == 0 {
            None
        } else {
            Some(uri)
        };
        if version == HttpVersion::Unknown {
            return Err(
                Error::new(
                    ErrKind::IllegalArgument(
                        String::from_str("Unknown HttpVersion specified. Allowed values are: HTTP/1.0 and HTTP/1.1"),
                    ),
                ),
            );
        }
        if method == HttpMethod::Unknown {
            return Err(
                Error::new(
                    ErrKind::IllegalArgument(
                        String::from_str(
                            "Unknown HttpMethod specified. Allowed values are: GET/POST/HEAD/PUT/DELETE/OPTIONS/CONNECT/TRACE/PATCH",
                        ),
                    ),
                ),
            );
        }
        if connection_type == HttpConnectionType::Unknown {
            return Err(
                Error::new(
                    ErrKind::IllegalArgument(
                        String::from_str("Unknown HttpConnectionType specified. Allowed values are: close/keep-alive"),
                    ),
                ),
            );
        }
        let content = match HttpContentReader::new(data, file) {
            Ok(c) => c,
            Err(e) => return Err(e),
        };
        Ok(
            HttpRequest {
                guid,
                request_url,
                request_uri,
                user_agent,
                accept,
                headers,
                timeout_millis,
                method,
                version,
                connection_type,
                content,
            },
        )
    }

    /// The URL to send the request to, if set.
    pub fn request_url(&self) -> (r: &Option<String>)
        ensures
            match *r {
                Some(s) => self.spec_view().request_url == Some(s@),
                None => self.spec_view().request_url is None,
            },
    {
        &self.request_url
    }

    /// The URI to request, if set.
    pub fn request_uri(&self) -> (r: &Option<String>)
        ensures
            match *r {
                Some(s) => self.spec_view().request_uri == Some(s@),
                None => self.spec_view().request_uri is None,
            },
    {
        &self.request_uri
    }

    /// The user agent the request announces.
    pub fn user_agent(&self) -> (r: &String)
        ensures
            r@ == self.spec_view().user_agent,
    {
        &self.user_agent
    }

    /// The media types the request accepts.
    pub fn accept(&self) -> (r: &String)
        ensures
            r@ == self.spec_view().accept,
    {
        &self.accept
    }

    /// The extra headers of the request, in order.
    pub fn headers(&self) -> (r: &Vec<(String, String)>)
        ensures
            r@.map_values(|p: (String, String)| (p.0@, p.1@)) == self.spec_view().headers,
    {
        &self.headers
    }

    /// The method of the request.
    pub fn method(&self) -> (r: &HttpMethod)
        ensures
            *r == self.spec_view().method,
    {
        &self.method
    }

    /// The protocol version of the request.
    pub fn version(&self) -> (r: &HttpVersion)
        ensures
            *r == self.spec_view().version,
    {
        &self.version
    }

    /// The timeout of the request in milliseconds (zero for none).
    pub fn timeout_millis(&self) -> (r: u64)
        ensures
            r == self.spec_view().timeout_millis,
    {
        self.timeout_millis
    }

    /// The connection type of the request.
    pub fn connection_type(&self) -> (r: &HttpConnectionType)
        ensures
            *r == self.spec_view().connection_type,
    {
        &self.connection_type
    }

    /// The identifier of the request.
    pub fn guid(&self) -> (r: u128)
        ensures
            r == self.spec_view().guid,
    {
        self.guid
    }

    /// The body of the request.
    pub fn http_content_reader(&mut self) -> (r: &mut HttpContentReader)
        ensures
            r.unread() == old(self).spec_view().content,
            r.spec_content_file() == old(self).spec_view().content_file,
            final(self).spec_view() == (RequestView {
                content: final(r).unread(),
                content_file: final(r).spec_content_file(),
                ..old(self).spec_view()
            }),
    {
        &mut self.content
    }
}

/// A response received by the client.
pub struct HttpResponse {
    headers: Vec<(String, String)>,
    code: u16,
    status_text: String,
    version: HttpVersion,
    content: HttpContentReader,
}

impl HttpResponse {
    /// A response with the given head, whose body is `content` or the file
    /// `content_file`; not both (`IllegalArgument`).
    pub fn new(
        headers: Vec<(String, String)>,
        code: u16,
        status_text: String,
        version: HttpVersion,
        content_file: Option<String>,
        content: Vec<u8>,
    ) -> (r: Result<HttpResponse, Error>)
        ensures
            content@.len() > 0 && content_file is Some <==> r is Err,
            r matches Err(e) ==> e.spec_kind() is IllegalArgument,
            r matches Ok(resp) ==> resp.spec_headers() == headers@.map_values(
                |p: (String, String)| (p.0@, p.1@),
            ) && resp.spec_code() == code && resp.spec_status_text() == status_text@
                && resp.spec_version() == version && resp.spec_content() == content@,
    {
        let content = match HttpContentReader::new(content, content_file) {
            Ok(c) => c,
            Err(e) => return Err(e),
        };
        Ok(HttpResponse { headers, code, status_text, version, content })
    }

    /// The headers of the response.
    pub closed spec fn spec_headers(&self) -> Seq<(Seq<char>, Seq<char>)> {
        self.headers@.map_values(|p: (String, String)| (p.0@, p.1@))
    }

    /// The status code of the response.
    pub closed spec fn spec_code(&self) -> u16 {
        self.code
    }

    /// The status text of the response.
    pub closed spec fn spec_status_text(&self) -> Seq<char> {
        self.status_text@
    }

    /// The protocol version of the response.
    pub closed spec fn spec_version(&self) -> HttpVersion {
        self.version
    }

    /// The bytes of the body in memory not read yet.
    pub closed spec fn spec_content(&self) -> Seq<u8> {
        self.content.unread()
    }

    /// The headers of the response.
    pub fn headers(&self) -> (r: &Vec<(String, String)>)
        ensures
            r@.map_values(|p: (String, String)| (p.0@, p.1@)) == self.spec_headers(),
    {
        &self.headers
    }

    /// The status code of the response.
    pub fn code(&self) -> (r: u16)
        ensures
            r == self.spec_code(),
    {
        self.code
    }

    /// The status text of the response.
    pub fn status_text(&self) -> (r: &String)
        ensures
            r@ == self.spec_status_text(),
    {
        &self.status_text
    }

    /// The protocol version of the response.
    pub fn version(&self) -> (r: &HttpVersion)
        ensures
            *r == self.spec_version(),
    {
        &self.version
    }

    /// The body of the response.
    pub fn http_content_reader(&mut self) -> (r: &mut HttpContentReader)
        ensures
            r.unread() == old(self).spec_content(),
            final(self).spec_content() == final(r).unread(),
            final(self).spec_headers() == old(self).spec_headers(),
            final(self).spec_code() == old(self).spec_code(),
            final(self).spec_status_text() == old(self).spec_status_text(),
            final(self).spec_version() == old(self).spec_version(),
    {
        &mut self.content
    }
}

/// `rand::random::<u128>()`: a random identifier. Nothing is stated of it.
#[verifier::external_body]
fn random_guid() -> u128 {
    rand::random::<u128>()
}

impl HttpRequest {
    /// Builds the request that the options describe, with a random
    /// identifier.
    pub fn new(opts: &[ConfigOption]) -> (r: Result<HttpRequest, Error>)
        ensures
            exists|guid: u128|
                match #[trigger] request_spec(opts@, guid) {
                    Ok(v) => r matches Ok(q) && q.spec_view() == v,
                    Err(RequestFault::Configuration) => r matches Err(e) && e.spec_kind() is Configuration,
                    Err(RequestFault::IllegalArgument) => r matches Err(e) && e.spec_kind() is IllegalArgument,
                },
    {
        let guid = random_guid();
        HttpRequest::build(opts, guid)
    }
}

/// The text of an optional string.
pub open spec fn opt_text(o: Option<String>) -> Option<Seq<char>> {
    match o {
        Some(s) => Some(s@),
        None => None,
    }
}

/// What `url::Url::parse` makes of `s`: its host, port (when not the
/// default of the scheme), path and query; nothing when `s` is not a URL.
pub uninterp spec fn url_parts_of(s: Seq<char>) -> Option<(Option<Seq<char>>, Option<u16>, Seq<char>, Option<Seq<char>>)>;

/// The parts of the URL `s`: `url::Url::parse`, then `host_str`, `port`,
/// `path` and `query` of the result. The result is named by `url_parts_of`.
#[verifier::external_body]
fn parse_url(s: &str) -> (r: Option<(Option<String>, Option<u16>, String, Option<String>)>)
    ensures
        match url_parts_of(s@) {
            None => r is None,
            Some((host, port, path, query)) => r matches Some((h, p, pa, q)) && opt_text(h) == host && p
                == port && pa@ == path && opt_text(q) == query,
        },
{
    match url::Url::parse(s) {
        Ok(u) => Some(
            (u.host_str().map(|h| h.to_string()), u.port(), u.path().to_string(), u.query().map(|q| q.to_string())),
        ),
        Err(_) => None,
    }
}

/// Where a request is sent: the host, port (80 unless the URL says
/// otherwise) and URI (path and query) of its URL. A request without a URL,
/// or whose URL has no host, is an `IllegalArgument` error; a URL that does
/// not parse is a `Parse` error.
pub open spec fn send_target_spec(url: Option<Seq<char>>) -> Result<(Seq<char>, u16, Seq<char>), RequestFault> {
    match url {
        None => Err(RequestFault::IllegalArgument),
        Some(u) => match url_parts_of(u) {
            None => Err(RequestFault::Configuration),
            Some((host, port, path, query)) => match host {
                None => Err(RequestFault::IllegalArgument),
                Some(h) => Ok(
                    (
                        h,
                        match port {
                            Some(p) => p,
                            None => 80,
                        },
                        path + match query {
                            Some(q) => q,
                            None => Seq::empty(),
                        },
                    ),
                ),
            },
        },
    }
}

/// Where the client sends `request` (see `send_target_spec`, in which a URL
/// that does not parse is reported as `Configuration`; the error returned
/// for it is `Parse`).
pub fn send_target(request: &HttpRequest) -> (r: Result<(String, u16, String), Error>)
    ensures
        match send_target_spec(request.spec_view().request_url) {
            Ok((h, p, u)) => r matches Ok((rh, rp, ru)) && rh@ == h && rp == p && ru@ == u,
            Err(RequestFault::IllegalArgument) => r matches Err(e) && e.is_illegal_argument(),
            Err(RequestFault::Configuration) => r matches Err(e) && e.is_parse(),
        },
{
    let url = match request.request_url() {
        Some(u) => u,
        None => {
            return Err(
                Error::new(
                    ErrKind::IllegalArgument(
                        String::from_str("requests must have a request_url to send via HttpClient.send()"),
                    ),
                ),
            );
        },
    };
    let (host, port, path, query) = match parse_url(url.as_str()) {
        Some(p) => p,
        None => {
            return Err(Error::base(CoreErrorKind::Parse(String::from_str("invalid url"))));
        },
    };
    let host = match host {
        Some(h) => h,
        None => {
            return Err(Error::new(ErrKind::IllegalArgument(String::from_str("specified url had no host"))));
        },
    };
    let port = match port {
        Some(p) => p,
        None => 80,
    };
    let mut uri = path;
    match query {
        Some(q) => uri.append(q.as_str()),
        None => {},
    }
    proof {
        reveal_strlit("");
    }
    Ok((host, port, uri))
}

/// The request line and headers the client sends.
pub open spec fn request_head_spec(method: HttpMethod, uri: Seq<char>, host: Seq<char>, port: u16) -> Seq<char> {
    method_name(method) + " "@ + uri + " HTTP/1.1\r\nHost: "@ + host + ":"@ + decimal(port as nat)
        + "\r\nConnection: close\r\n\r\n"@
}

/// The request line and headers the client sends for a request with the
/// method `method` to `uri` on `host`:`port`.
pub fn request_head(method: HttpMethod, uri: &str, host: &str, port: u16) -> (r: String)
    requires
        method != HttpMethod::Unknown,
    ensures
        r@ == request_head_spec(method, uri@, host@, port),
{
    let name = match method.name() {
        Some(n) => n,
        None => "",
    };
    let mut r = String::from_str(name);
    r.append(" ");
    r.append(uri);
    r.append(" HTTP/1.1\r\nHost: ");
    r.append(host);
    r.append(":");
    let p = to_decimal(port as u64);
    r.append(p.as_str());
    r.append("\r\nConnection: close\r\n\r\n");
    r
}

} // verus!
