//! The host side of the `Http` capability: what is sent for a request, and how
//! the reply is read.
//!
//! One synchronous HTTP/1.1 exchange serves one request. A transport failure is
//! an `HttpError`; an HTTP status of any kind is a response. Connecting, sending
//! and receiving are the caller's work.

use vstd::prelude::*;
use vstd::utf8::{decode_utf8, encode_utf8, valid_utf8};

use crate::abi::{
    alloc_enum_string, alloc_enum_tag, alloc_pair, alloc_string, areas, bytes_at, enum_string,
    pair_area, push_block, read_string_bytes, read_u32, result_area, tag_area, text_area,
    word_at, write_result, Area, Block, Fail, Word, MAX_TEXT,
};
use crate::scan::{
    after_white, after_word, find_char, find_last, find_text, index_of, index_of_text, int_of,
    last_after, lower, lowered, part, port_of, read_int, read_port, skip_white, skip_word, text_of,
    trim, trimmed,
};
use crate::strings::{chars_of, decimal, owned, push_decimal, same};

verus! {

/// The tags of the variants of `HttpError`, in declaration order.
pub const ERR_INVALID_URL: u32 = 0;

pub const ERR_CONNECT_FAILED: u32 = 1;

pub const ERR_TIMEOUT: u32 = 2;

pub const ERR_TOO_LARGE: u32 = 3;

pub const ERR_NON_UTF8_BODY: u32 = 4;

pub const ERR_PROTOCOL: u32 = 5;

/// The most bytes of a reply that are read.
pub const MAX_BODY: usize = 33554432;

/// What bytes say as text, with a replacement character for what is not UTF-8.
pub uninterp spec fn lossy(bytes: Seq<u8>) -> Seq<char>;

/// `String::from_utf8_lossy` of the standard library: the text of the bytes, with
/// U+FFFD in place of what is not UTF-8. The result depends on the bytes alone.
#[verifier::external_body]
pub(crate) fn lossy_text(bytes: &Vec<u8>) -> (r: String)
    ensures
        r@ == lossy(bytes@),
        valid_utf8(bytes@) ==> r@ == decode_utf8(bytes@),
{
    String::from_utf8_lossy(bytes).into_owned()
}

/// `String::from_utf8` of the standard library: the text of the bytes, if they
/// are UTF-8.
#[verifier::external_body]
pub(crate) fn exact_text(bytes: Vec<u8>) -> (r: Option<String>)
    ensures
        match r {
            Some(text) => valid_utf8(bytes@) && text@ == decode_utf8(bytes@),
            None => !valid_utf8(bytes@),
        },
{
    String::from_utf8(bytes).ok()
}

/// A `Request`, read out of memory.
#[derive(Debug)]
pub struct HostRequest {
    pub method: String,
    pub url: String,
    pub headers: Vec<(String, String)>,
    pub body: Vec<u8>,
}

/// A transport failure.
#[derive(Debug)]
pub enum ReqError {
    InvalidUrl(String),
    ConnectFailed(String),
    Timeout,
    TooLarge,
    NonUtf8Body,
    Protocol(String),
}

/// What a [`ReqError`] says.
pub enum Failure {
    InvalidUrl(Seq<char>),
    ConnectFailed(Seq<char>),
    Timeout,
    TooLarge,
    NonUtf8Body,
    Protocol(Seq<char>),
}

impl ReqError {
    pub open spec fn view(&self) -> Failure {
        match self {
            ReqError::InvalidUrl(m) => Failure::InvalidUrl(m@),
            ReqError::ConnectFailed(m) => Failure::ConnectFailed(m@),
            ReqError::Timeout => Failure::Timeout,
            ReqError::TooLarge => Failure::TooLarge,
            ReqError::NonUtf8Body => Failure::NonUtf8Body,
            ReqError::Protocol(m) => Failure::Protocol(m@),
        }
    }
}

/// A reply that has been read.
#[derive(Debug)]
pub struct HostResponse {
    pub status: i32,
    pub headers: Vec<(String, String)>,
    pub body: String,
}

/// What header lines say.
pub open spec fn pairs(s: Seq<(String, String)>) -> Seq<(Seq<char>, Seq<char>)> {
    s.map_values(|h: (String, String)| (h.0@, h.1@))
}

/// What a [`HostResponse`] says.
#[verifier::ext_equal]
pub struct Reply {
    pub status: i32,
    pub headers: Seq<(Seq<char>, Seq<char>)>,
    pub body: Seq<char>,
}

impl HostResponse {
    pub open spec fn view(&self) -> Reply {
        Reply { status: self.status, headers: pairs(self.headers@), body: self.body@ }
    }
}

/// A parsed URL.
#[derive(Debug)]
pub struct Url {
    pub scheme: String,
    pub host: String,
    pub port: u16,
    /// The path plus an optional `?query`.
    pub target: String,
    pub default_port: bool,
}

/// What a [`Url`] says.
#[verifier::ext_equal]
pub struct Address {
    pub scheme: Seq<char>,
    pub host: Seq<char>,
    pub port: u16,
    pub target: Seq<char>,
    pub default_port: bool,
}

impl Url {
    pub open spec fn view(&self) -> Address {
        Address {
            scheme: self.scheme@,
            host: self.host@,
            port: self.port,
            target: self.target@,
            default_port: self.default_port,
        }
    }
}

/// The value of the `host` header.
pub open spec fn host_text(a: Address) -> Seq<char> {
    if a.default_port {
        a.host
    } else {
        a.host + ":"@ + decimal(a.port as nat)
    }
}

impl Url {
    /// The value of the `host` header: the host, plus the port where it is not
    /// the default one.
    pub fn host_header(&self) -> (r: String)
        ensures
            r@ == host_text(self@),
    {
        let mut out = self.host.clone();
        if !self.default_port {
            out.push_str(":");
            push_decimal(&mut out, self.port as u64);
        }
        out
    }
}

/// The address that a URL names, if it names one.
pub open spec fn address_of(url: Seq<char>) -> Option<Address> {
    let i = index_of_text(url, "://"@, 0);
    let scheme = lowered(url.subrange(0, i));
    let rest = url.subrange(i + 3, url.len() as int);
    let j = index_of(rest, '/', 0);
    let authority = rest.subrange(0, j);
    let target = if j < rest.len() {
        rest.subrange(j, rest.len() as int)
    } else {
        "/"@
    };
    let usual: u16 = if scheme == "https"@ {
        443
    } else {
        80
    };
    let colon = last_after(authority, ':', authority.len());
    if i >= url.len() || (scheme != "http"@ && scheme != "https"@) || authority.len() == 0 {
        None
    } else if colon == 0 {
        Some(Address { scheme, host: authority, port: usual, target, default_port: true })
    } else {
        match port_of(authority.subrange(colon as int, authority.len() as int)) {
            Some(port) => Some(
                Address {
                    scheme,
                    host: authority.subrange(0, colon - 1),
                    port,
                    target,
                    default_port: port == usual,
                },
            ),
            None => None,
        }
    }
}

/// Parses a URL.
pub fn parse_url(url: &str) -> (r: Result<Url, ReqError>)
    ensures
        match r {
            Ok(u) => address_of(url@) == Some(u@),
            Err(e) => address_of(url@) is None && e@ == Failure::InvalidUrl(url@),
        },
{
    let s = chars_of(url);
    let mark = chars_of("://");
    proof {
        reveal_strlit("://");
        assert("://"@.len() == 3);
    }
    let i: usize = find_text(&s, &mark, 0);
    if i >= s.len() {
        return Err(ReqError::InvalidUrl(owned(url)));
    }
    let scheme = text_of(&lower(&part(&s, 0, i)));
    let https = same(scheme.as_str(), "https");
    if !same(scheme.as_str(), "http") && !https {
        return Err(ReqError::InvalidUrl(owned(url)));
    }
    let rest = part(&s, i + 3, s.len());
    let j: usize = find_char(&rest, '/', 0);
    let authority = part(&rest, 0, j);
    let target = if j < rest.len() {
        text_of(&part(&rest, j, rest.len()))
    } else {
        owned("/")
    };
    if authority.len() == 0 {
        return Err(ReqError::InvalidUrl(owned(url)));
    }
    let usual: u16 = if https {
        443
    } else {
        80
    };
    let colon: usize = find_last(&authority, ':');
    if colon == 0 {
        let host = text_of(&authority);
        return Ok(Url { scheme, host, port: usual, target, default_port: true });
    }
    match read_port(&part(&authority, colon, authority.len())) {
        Some(port) => {
            let host = text_of(&part(&authority, 0, colon - 1));
            Ok(Url { scheme, host, port, target, default_port: port == usual })
        },
        None => Err(ReqError::InvalidUrl(owned(url))),
    }
}

/// Whether the host supplies a header itself.
pub open spec fn is_supplied(name: Seq<char>) -> bool {
    name == "host"@ || name == "content-length"@ || name == "connection"@
}

/// The lines of the first `n` headers, after `out`.
pub open spec fn header_lines(out: Seq<char>, s: Seq<(Seq<char>, Seq<char>)>, n: nat) -> Seq<char>
    decreases n,
{
    if n == 0 {
        out
    } else {
        let before = header_lines(out, s, (n - 1) as nat);
        let name = lowered(s[n - 1].0);
        if is_supplied(name) {
            before
        } else {
            before + name + ": "@ + s[n - 1].1 + "\r\n"@
        }
    }
}

/// What is sent before the body.
pub open spec fn head_text(method: Seq<char>, a: Address, headers: Seq<(Seq<char>, Seq<char>)>, size: nat) -> Seq<
    char,
> {
    header_lines(
        method + " "@ + a.target + " HTTP/1.1\r\n"@ + "host: "@ + host_text(a) + "\r\n"@
            + "content-length: "@ + decimal(size) + "\r\n"@ + "connection: close\r\n"@,
        headers,
        headers.len(),
    ) + "\r\n"@
}

fn push_headers(out: &mut String, s: &Vec<(String, String)>)
    ensures
        final(out)@ == header_lines(old(out)@, pairs(s@), s@.len()),
{
    let ghost all = pairs(s@);
    let mut i: usize = 0;
    while i < s.len()
        invariant
            i <= s.len(),
            all == pairs(s@),
            out@ == header_lines(old(out)@, all, i as nat),
        decreases s.len() - i,
    {
        assert(all[i as int] == (s@[i as int].0@, s@[i as int].1@));
        let name = text_of(&lower(&chars_of(s[i].0.as_str())));
        if !(same(name.as_str(), "host") || same(name.as_str(), "content-length") || same(
            name.as_str(),
            "connection",
        )) {
            out.push_str(name.as_str());
            out.push_str(": ");
            out.push_str(s[i].1.as_str());
            out.push_str("\r\n");
        }
        i += 1;
    }
}

/// What is sent before the body of a request. The host supplies `host`,
/// `content-length` and `connection` itself.
pub fn request_head(request: &HostRequest, url: &Url) -> (r: String)
    ensures
        r@ == head_text(
            request.method@,
            url@,
            pairs(request.headers@),
            request.body@.len(),
        ),
{
    let mut out = request.method.clone();
    out.push_str(" ");
    out.push_str(url.target.as_str());
    out.push_str(" HTTP/1.1\r\n");
    out.push_str("host: ");
    let host = url.host_header();
    out.push_str(host.as_str());
    out.push_str("\r\n");
    out.push_str("content-length: ");
    push_decimal(&mut out, request.body.len() as u64);
    out.push_str("\r\n");
    out.push_str("connection: close\r\n");
    push_headers(&mut out, &request.headers);
    assert(pairs(request.headers@).len() == request.headers@.len());
    out.push_str("\r\n");
    out
}

/// What to connect to for a request, and what to send first. A connection over
/// `https` is refused: the host provides no TLS.
pub fn prepare(request: &HostRequest) -> (r: Result<(Url, String), ReqError>)
    ensures
        match (r, address_of(request.url@)) {
            (Ok((url, head)), Some(a)) => {
                &&& a.scheme != "https"@
                &&& url@ == a
                &&& head@ == head_text(
                    request.method@,
                    a,
                    pairs(request.headers@),
                    request.body@.len(),
                )
            },
            (Err(e), Some(a)) => a.scheme == "https"@ && e@ == Failure::ConnectFailed(
                "https is not supported by the built-in runner"@,
            ),
            (Err(e), None) => e@ == Failure::InvalidUrl(request.url@),
            (Ok(_), None) => false,
        },
{
    let url = match parse_url(request.url.as_str()) {
        Ok(url) => url,
        Err(e) => {
            return Err(e);
        },
    };
    if same(url.scheme.as_str(), "https") {
        return Err(
            ReqError::ConnectFailed(owned("https is not supported by the built-in runner")),
        );
    }
    let head = request_head(request, &url);
    Ok((url, head))
}

/// The error for a host whose name has no address.
pub fn unresolved(host: &str) -> (r: ReqError)
    ensures
        r@ == Failure::ConnectFailed("cannot resolve `"@ + host@ + "`"@),
{
    let mut message = owned("cannot resolve `");
    message.push_str(host);
    message.push_str("`");
    ReqError::ConnectFailed(message)
}

/// Whether `n` more bytes of a reply can be taken after `len`.
pub fn accept(len: usize, n: usize) -> (r: Result<(), ReqError>)
    ensures
        match r {
            Ok(_) => len + n <= MAX_BODY,
            Err(e) => len + n > MAX_BODY && e@ == Failure::TooLarge,
        },
{
    if len > MAX_BODY || n > MAX_BODY - len {
        Err(ReqError::TooLarge)
    } else {
        Ok(())
    }
}

/// What kind of I/O error occurred.
#[derive(Debug, Clone, Copy, PartialEq, Eq, Structural)]
pub enum IoKind {
    TimedOut,
    WouldBlock,
    NotFound,
    PermissionDenied,
    Other,
}

/// The failure that an error while connecting is.
pub fn map_connect_error(kind: IoKind, message: String) -> (r: ReqError)
    ensures
        r@ == match kind {
            IoKind::TimedOut => Failure::Timeout,
            _ => Failure::ConnectFailed(message@),
        },
{
    match kind {
        IoKind::TimedOut => ReqError::Timeout,
        _ => ReqError::ConnectFailed(message),
    }
}

/// The failure that an error while sending or receiving is.
pub fn map_io_error(kind: IoKind, message: String) -> (r: ReqError)
    ensures
        r@ == match kind {
            IoKind::TimedOut | IoKind::WouldBlock => Failure::Timeout,
            _ => Failure::Protocol(message@),
        },
{
    match kind {
        IoKind::TimedOut | IoKind::WouldBlock => ReqError::Timeout,
        _ => ReqError::Protocol(message),
    }
}

/// Whether the headers end at an index: an empty line follows.
pub open spec fn ends_headers(raw: Seq<u8>, i: int) -> bool {
    0 <= i && i + 4 <= raw.len() && raw[i] == 13 && raw[i + 1] == 10 && raw[i + 2] == 13 && raw[i
        + 3] == 10
}

/// Where the headers end, from `i` on.
pub open spec fn headers_end(raw: Seq<u8>, i: int) -> Option<int>
    decreases raw.len() - i,
{
    if i < 0 || i + 4 > raw.len() {
        None
    } else if ends_headers(raw, i) {
        Some(i)
    } else {
        headers_end(raw, i + 1)
    }
}

/// The lines of a text, from index `i` on. They end with a carriage return and a
/// newline.
pub open spec fn lines_from(s: Seq<char>, i: int) -> Seq<Seq<char>>
    decreases s.len() + 2 - i,
{
    if i < 0 || i > s.len() {
        Seq::empty()
    } else {
        let end = index_of_text(s, "\r\n"@, i);
        if end >= s.len() || end < i {
            seq![s.subrange(i, s.len() as int)]
        } else {
            seq![s.subrange(i, end)] + lines_from(s, end + 2)
        }
    }
}

/// The status that a status line gives: the second of its words.
pub open spec fn status_of(line: Seq<char>) -> Option<i32> {
    let from = skip_white(line, skip_word(line, skip_white(line, 0)));
    if from < line.len() {
        int_of(line.subrange(from, skip_word(line, from)))
    } else {
        None
    }
}

/// The header that a line gives. Names are in lower case.
pub open spec fn header_of(line: Seq<char>) -> Option<(Seq<char>, Seq<char>)> {
    let i = index_of(line, ':', 0);
    if i < line.len() {
        Some(
            (
                lowered(trimmed(line.subrange(0, i))),
                trimmed(line.subrange(i + 1, line.len() as int)),
            ),
        )
    } else {
        None
    }
}

/// The headers that the lines from 1 to `n` give.
pub open spec fn headers_of(lines: Seq<Seq<char>>, n: nat) -> Seq<(Seq<char>, Seq<char>)>
    decreases n,
{
    if n <= 1 {
        Seq::empty()
    } else {
        let before = headers_of(lines, (n - 1) as nat);
        match header_of(lines[n - 1]) {
            Some(h) => before.push(h),
            None => before,
        }
    }
}

/// What a reply says, or why it cannot be read.
pub open spec fn reply_of(raw: Seq<u8>) -> Result<Reply, Failure> {
    match headers_end(raw, 0) {
        None => Err(Failure::Protocol("no header terminator"@)),
        Some(split) => {
            let head = raw.subrange(0, split);
            let body = raw.subrange(split + 4, raw.len() as int);
            if !valid_utf8(head) {
                Err(Failure::Protocol("non-UTF-8 headers"@))
            } else {
                let lines = lines_from(decode_utf8(head), 0);
                match status_of(lines[0]) {
                    None => Err(Failure::Protocol("bad status line: "@ + lines[0])),
                    Some(status) => if valid_utf8(body) {
                        Ok(
                            Reply {
                                status,
                                headers: headers_of(lines, lines.len()),
                                body: decode_utf8(body),
                            },
                        )
                    } else {
                        Err(Failure::NonUtf8Body)
                    },
                }
            }
        },
    }
}

fn find_headers_end(raw: &Vec<u8>) -> (r: Option<usize>)
    ensures
        headers_end(raw@, 0) == match r {
            Some(i) => Some(i as int),
            None => None,
        },
        r matches Some(i) ==> i + 4 <= raw@.len(),
{
    let n: usize = raw.len();
    if n < 4 {
        return None;
    }
    let mut i: usize = 0;
    while i <= n - 4
        invariant
            n == raw@.len(),
            4 <= n,
            i <= n - 3,
            headers_end(raw@, 0) == headers_end(raw@, i as int),
        decreases n - i,
    {
        if raw[i] == 13 && raw[i + 1] == 10 && raw[i + 2] == 13 && raw[i + 3] == 10 {
            return Some(i);
        }
        i += 1;
    }
    None
}

fn bytes_part(s: &Vec<u8>, i: usize, j: usize) -> (r: Vec<u8>)
    requires
        i <= j <= s@.len(),
    ensures
        r@ == s@.subrange(i as int, j as int),
{
    let mut out: Vec<u8> = Vec::new();
    let mut k: usize = i;
    while k < j
        invariant
            i <= k <= j <= s@.len(),
            out@ == s@.subrange(i as int, k as int),
        decreases j - k,
    {
        out.push(s[k]);
        assert(out@ =~= s@.subrange(i as int, k + 1));
        k += 1;
    }
    out
}

/// What lists of characters hold.
pub open spec fn contents(s: Seq<Vec<char>>) -> Seq<Seq<char>> {
    s.map_values(|v: Vec<char>| v@)
}

fn split_lines(s: &Vec<char>) -> (r: Vec<Vec<char>>)
    ensures
        contents(r@) == lines_from(s@, 0),
        r@.len() > 0,
{
    let mark = chars_of("\r\n");
    proof {
        reveal_strlit("\r\n");
        assert("\r\n"@.len() == 2);
    }
    let ghost all = lines_from(s@, 0);
    let mut out: Vec<Vec<char>> = Vec::new();
    let mut i: usize = 0;
    assert(contents(out@) + lines_from(s@, 0) =~= all);
    while i <= s.len()
        invariant_except_break
            i <= s@.len(),
            mark@ == "\r\n"@,
            mark@.len() == 2,
            all == lines_from(s@, 0),
            contents(out@) + lines_from(s@, i as int) == all,
        ensures
            contents(out@) == all,
            out@.len() > 0,
        decreases s@.len() - i,
    {
        let ghost before = contents(out@);
        let end: usize = find_text(s, &mark, i);
        if end >= s.len() {
            let line = part(s, i, s.len());
            out.push(line);
            proof {
                assert(contents(out@) =~= before.push(line@));
                assert(contents(out@) =~= before + lines_from(s@, i as int));
            }
            break;
        }
        let line = part(s, i, end);
        out.push(line);
        proof {
            assert(contents(out@) =~= before.push(line@));
            assert(before + lines_from(s@, i as int) =~= contents(out@) + lines_from(
                s@,
                end + 2,
            ));
        }
        i = end + 2;
    }
    out
}

fn read_status(line: &Vec<char>) -> (r: Option<i32>)
    ensures
        r == status_of(line@),
{
    let from: usize = after_white(line, after_word(line, after_white(line, 0)));
    if from < line.len() {
        read_int(&part(line, from, after_word(line, from)))
    } else {
        None
    }
}

fn read_header(line: &Vec<char>) -> (r: Option<(String, String)>)
    ensures
        header_of(line@) == match r {
            Some(h) => Some((h.0@, h.1@)),
            None => None,
        },
{
    let i: usize = find_char(line, ':', 0);
    if i < line.len() {
        let name = text_of(&lower(&trim(&part(line, 0, i))));
        let value = text_of(&trim(&part(line, i + 1, line.len())));
        Some((name, value))
    } else {
        None
    }
}

fn read_header_lines(lines: &Vec<Vec<char>>) -> (r: Vec<(String, String)>)
    requires
        lines@.len() > 0,
    ensures
        pairs(r@) == headers_of(contents(lines@), lines@.len()),
{
    let ghost all = contents(lines@);
    let mut out: Vec<(String, String)> = Vec::new();
    let mut i: usize = 1;
    assert(pairs(out@) =~= Seq::<(Seq<char>, Seq<char>)>::empty());
    while i < lines.len()
        invariant
            1 <= i <= lines.len(),
            all == contents(lines@),
            pairs(out@) == headers_of(all, i as nat),
        decreases lines.len() - i,
    {
        assert(all[i as int] == lines@[i as int]@);
        let ghost before = pairs(out@);
        if let Some(h) = read_header(&lines[i]) {
            out.push(h);
            assert(pairs(out@) =~= before.push((h.0@, h.1@)));
        }
        i += 1;
    }
    out
}

/// Reads a reply.
pub fn parse_response(raw: &Vec<u8>) -> (r: Result<HostResponse, ReqError>)
    ensures
        match r {
            Ok(reply) => reply_of(raw@) == Ok::<Reply, Failure>(reply@),
            Err(e) => reply_of(raw@) == Err::<Reply, Failure>(e@),
        },
{
    let split: usize = match find_headers_end(raw) {
        Some(i) => i,
        None => {
            return Err(ReqError::Protocol(owned("no header terminator")));
        },
    };
    let head = match exact_text(bytes_part(raw, 0, split)) {
        Some(text) => text,
        None => {
            return Err(ReqError::Protocol(owned("non-UTF-8 headers")));
        },
    };
    let lines = split_lines(&chars_of(head.as_str()));
    assert(contents(lines@)[0] == lines@[0]@);
    let status: i32 = match read_status(&lines[0]) {
        Some(status) => status,
        None => {
            let mut message = owned("bad status line: ");
            let line = text_of(&lines[0]);
            message.push_str(line.as_str());
            return Err(ReqError::Protocol(message));
        },
    };
    let headers = read_header_lines(&lines);
    assert(contents(lines@).len() == lines@.len());
    let n: usize = raw.len();
    assert(split + 4 <= n);
    match exact_text(bytes_part(raw, split + 4, n)) {
        Some(body) => Ok(HostResponse { status, headers, body }),
        None => Err(ReqError::NonUtf8Body),
    }
}

/// The method that a tag stands for.
pub open spec fn method_text(tag: u32) -> Seq<char> {
    if tag == 1 {
        "HEAD"@
    } else if tag == 2 {
        "POST"@
    } else if tag == 3 {
        "PUT"@
    } else if tag == 4 {
        "DELETE"@
    } else if tag == 5 {
        "PATCH"@
    } else if tag == 6 {
        "OPTIONS"@
    } else {
        "GET"@
    }
}

/// The method that a tag stands for.
pub fn method_name(tag: u32) -> (r: &'static str)
    ensures
        r@ == method_text(tag),
{
    match tag {
        1 => "HEAD",
        2 => "POST",
        3 => "PUT",
        4 => "DELETE",
        5 => "PATCH",
        6 => "OPTIONS",
        _ => "GET",
    }
}

/// The text of the string that the slot at an offset points at.
pub open spec fn text_via(mem: Seq<u8>, at: int) -> Result<Seq<char>, Fail> {
    match word_at(mem, at) {
        Err(f) => Err(f),
        Ok(ptr) => match bytes_at(mem, ptr as int) {
            Err(f) => Err(f),
            Ok(bytes) => Ok(lossy(bytes)),
        },
    }
}

/// Header `i` of the array at an offset.
pub open spec fn header_at(mem: Seq<u8>, list: int, i: int) -> Result<(Seq<char>, Seq<char>), Fail> {
    match word_at(mem, list + 4 + i * 4) {
        Err(f) => Err(f),
        Ok(ptr) => match text_via(mem, ptr as int) {
            Err(f) => Err(f),
            Ok(name) => match text_via(mem, ptr + 8) {
                Err(f) => Err(f),
                Ok(value) => Ok((name, value)),
            },
        },
    }
}

/// The first `n` headers of the array at an offset.
pub open spec fn headers_at(mem: Seq<u8>, list: int, n: nat) -> Result<
    Seq<(Seq<char>, Seq<char>)>,
    Fail,
>
    decreases n,
{
    if n == 0 {
        Ok(Seq::empty())
    } else {
        match headers_at(mem, list, (n - 1) as nat) {
            Err(f) => Err(f),
            Ok(before) => match header_at(mem, list, n - 1) {
                Err(f) => Err(f),
                Ok(h) => Ok(before.push(h)),
            },
        }
    }
}

/// What a [`HostRequest`] says.
#[verifier::ext_equal]
pub struct Asked {
    pub method: Seq<char>,
    pub url: Seq<char>,
    pub headers: Seq<(Seq<char>, Seq<char>)>,
    pub body: Seq<u8>,
}

impl HostRequest {
    pub open spec fn view(&self) -> Asked {
        Asked {
            method: self.method@,
            url: self.url@,
            headers: pairs(self.headers@),
            body: self.body@,
        }
    }
}

/// The `Request` record at an offset: method, URL, headers and body.
pub open spec fn request_at(mem: Seq<u8>, at: int) -> Result<Asked, Fail> {
    match (word_at(mem, at), word_at(mem, at + 8), word_at(mem, at + 16), word_at(mem, at + 24)) {
        (Ok(method), Ok(url), Ok(headers), Ok(body)) => match word_at(mem, method as int) {
            Err(f) => Err(f),
            Ok(tag) => match bytes_at(mem, url as int) {
                Err(f) => Err(f),
                Ok(address) => match bytes_at(mem, body as int) {
                    Err(f) => Err(f),
                    Ok(sent) => match word_at(mem, headers as int) {
                        Err(f) => Err(f),
                        Ok(count) => match headers_at(mem, headers as int, count as nat) {
                            Err(f) => Err(f),
                            Ok(list) => Ok(
                                Asked {
                                    method: method_text(tag),
                                    url: lossy(address),
                                    headers: list,
                                    body: sent,
                                },
                            ),
                        },
                    },
                },
            },
        },
        _ => Err(Fail::Word),
    }
}

fn read_text_via(mem: &[u8], ptr: usize, more: usize) -> (r: Result<String, Fail>)
    ensures
        match r {
            Ok(text) => text_via(mem@, ptr + more) == Ok::<Seq<char>, Fail>(text@),
            Err(f) => text_via(mem@, ptr + more) == Err::<Seq<char>, Fail>(f),
        },
{
    match read_u32(mem, ptr, more) {
        Err(f) => Err(f),
        Ok(at) => match read_string_bytes(mem, at as usize) {
            Err(f) => Err(f),
            Ok(bytes) => Ok(lossy_text(&bytes)),
        },
    }
}

fn read_headers(mem: &[u8], list: usize, count: u32) -> (r: Result<Vec<(String, String)>, Fail>)
    requires
        list <= u32::MAX,
    ensures
        match r {
            Ok(s) => headers_at(mem@, list as int, count as nat) == Ok::<
                Seq<(Seq<char>, Seq<char>)>,
                Fail,
            >(pairs(s@)),
            Err(f) => headers_at(mem@, list as int, count as nat) == Err::<
                Seq<(Seq<char>, Seq<char>)>,
                Fail,
            >(f),
        },
{
    let mut out: Vec<(String, String)> = Vec::new();
    let mut i: u32 = 0;
    assert(pairs(out@) =~= Seq::<(Seq<char>, Seq<char>)>::empty());
    while i < count
        invariant
            i <= count,
            list <= u32::MAX,
            headers_at(mem@, list as int, i as nat) == Ok::<Seq<(Seq<char>, Seq<char>)>, Fail>(
                pairs(out@),
            ),
        decreases count - i,
    {
        let ghost before = pairs(out@);
        let offset: u64 = 4 + i as u64 * 4;
        let n: usize = mem.len();
        let found = if offset > n as u64 {
            Err(Fail::Word)
        } else {
            read_u32(mem, list, offset as usize)
        };
        assert(found == word_at(mem@, list + 4 + i * 4));
        let ptr: usize = match found {
            Ok(ptr) => ptr as usize,
            Err(f) => {
                proof {
                    lemma_headers_fail(mem@, list as int, i as nat, count as nat, f);
                }
                return Err(f);
            },
        };
        let name = match read_text_via(mem, ptr, 0) {
            Ok(name) => name,
            Err(f) => {
                proof {
                    lemma_headers_fail(mem@, list as int, i as nat, count as nat, f);
                }
                return Err(f);
            },
        };
        let value = match read_text_via(mem, ptr, 8) {
            Ok(value) => value,
            Err(f) => {
                proof {
                    lemma_headers_fail(mem@, list as int, i as nat, count as nat, f);
                }
                return Err(f);
            },
        };
        out.push((name, value));
        assert(pairs(out@) =~= before.push((name@, value@)));
        i += 1;
    }
    Ok(out)
}

proof fn lemma_headers_fail(mem: Seq<u8>, list: int, i: nat, n: nat, f: Fail)
    requires
        i < n,
        headers_at(mem, list, i) is Ok,
        header_at(mem, list, i as int) == Err::<(Seq<char>, Seq<char>), Fail>(f),
    ensures
        headers_at(mem, list, n) == Err::<Seq<(Seq<char>, Seq<char>)>, Fail>(f),
    decreases n,
{
    if i + 1 < n {
        lemma_headers_fail(mem, list, i, (n - 1) as nat, f);
    }
}

/// Reads the `Request` record at an offset.
pub fn read_request(mem: &[u8], ptr: usize) -> (r: Result<HostRequest, Fail>)
    ensures
        match r {
            Ok(request) => request_at(mem@, ptr as int) == Ok::<Asked, Fail>(request@),
            Err(f) => request_at(mem@, ptr as int) == Err::<Asked, Fail>(f),
        },
{
    let (method, url, headers, body): (usize, usize, usize, usize) = match (
        read_u32(mem, ptr, 0),
        read_u32(mem, ptr, 8),
        read_u32(mem, ptr, 16),
        read_u32(mem, ptr, 24),
    ) {
        (Ok(a), Ok(b), Ok(c), Ok(d)) => (a as usize, b as usize, c as usize, d as usize),
        _ => {
            return Err(Fail::Word);
        },
    };
    let tag: u32 = match read_u32(mem, method, 0) {
        Ok(tag) => tag,
        Err(f) => {
            return Err(f);
        },
    };
    let address = match read_string_bytes(mem, url) {
        Ok(bytes) => bytes,
        Err(f) => {
            return Err(f);
        },
    };
    let sent = match read_string_bytes(mem, body) {
        Ok(bytes) => bytes,
        Err(f) => {
            return Err(f);
        },
    };
    let count: u32 = match read_u32(mem, headers, 0) {
        Ok(count) => count,
        Err(f) => {
            return Err(f);
        },
    };
    match read_headers(mem, headers, count) {
        Ok(list) => Ok(
            HostRequest {
                method: owned(method_name(tag)),
                url: lossy_text(&address),
                headers: list,
                body: sent,
            },
        ),
        Err(f) => Err(f),
    }
}

/// Whether a text fits in memory.
pub open spec fn text_fits(s: Seq<char>) -> bool {
    encode_utf8(s).len() <= MAX_TEXT
}

/// Whether headers fit in memory.
pub open spec fn headers_fit(s: Seq<(Seq<char>, Seq<char>)>) -> bool {
    s.len() <= 536870910 && forall|i: int|
        0 <= i < s.len() ==> text_fits((#[trigger] s[i]).0) && text_fits(s[i].1)
}

/// Whether a reply fits in memory.
pub open spec fn reply_fits(r: Reply) -> bool {
    headers_fit(r.headers) && text_fits(r.body)
}

/// The blocks of the first `n` headers, after `out`.
pub open spec fn header_areas(out: Seq<Area>, s: Seq<(Seq<char>, Seq<char>)>, n: nat) -> Seq<Area>
    decreases n,
{
    if n == 0 {
        out
    } else {
        let before = header_areas(out, s, (n - 1) as nat);
        let at = before.len();
        before.push(text_area(encode_utf8(s[n - 1].0))).push(
            text_area(encode_utf8(s[n - 1].1)),
        ).push(pair_area(Word::Pointer(at as usize), Word::Pointer((at + 1) as usize)))
    }
}

/// The words of an array of `n` pointers. Element `i` is the block at
/// `first + 3 * i + 2`, behind those of its two strings.
pub open spec fn array_words(n: nat, first: int) -> Seq<(u32, Word)> {
    seq![(0u32, Word::Number(n as u32))] + Seq::new(
        n,
        |i: int| ((4 + 4 * i) as u32, Word::Pointer((first + 3 * i + 2) as usize)),
    )
}

/// The blocks of a `Response` record, after `out`: the headers, their array, the
/// body, and the record of the status, the array and the body.
pub open spec fn response_areas(out: Seq<Area>, r: Reply) -> Seq<Area> {
    let listed = header_areas(out, r.headers, r.headers.len());
    let n = r.headers.len();
    let array = listed.push(
        Area {
            size: (4 + 4 * n) as u32,
            words: array_words(n, out.len() as int),
            bytes: Seq::empty(),
        },
    );
    let body = array.push(text_area(encode_utf8(r.body)));
    body.push(
        Area {
            size: 24,
            words: seq![
                (0u32, Word::Number(unsigned(r.status))),
                (8u32, Word::Pointer((body.len() - 2) as usize)),
                (16u32, Word::Pointer((body.len() - 1) as usize)),
            ],
            bytes: Seq::empty(),
        },
    )
}

/// A number with its sign bit as an ordinary one.
pub open spec fn unsigned(n: i32) -> u32 {
    if n < 0 {
        (n + 4294967296) as u32
    } else {
        n as u32
    }
}

/// The blocks of an `HttpError`, after `out`.
pub open spec fn failure_areas(out: Seq<Area>, e: Failure) -> Seq<Area> {
    match e {
        Failure::InvalidUrl(m) => enum_string(out, ERR_INVALID_URL, encode_utf8(m)),
        Failure::ConnectFailed(m) => enum_string(out, ERR_CONNECT_FAILED, encode_utf8(m)),
        Failure::Protocol(m) => enum_string(out, ERR_PROTOCOL, encode_utf8(m)),
        Failure::Timeout => out.push(tag_area(ERR_TIMEOUT)),
        Failure::TooLarge => out.push(tag_area(ERR_TOO_LARGE)),
        Failure::NonUtf8Body => out.push(tag_area(ERR_NON_UTF8_BODY)),
    }
}

/// Whether a failure's message fits in memory.
pub open spec fn failure_fits(e: Failure) -> bool {
    match e {
        Failure::InvalidUrl(m) => text_fits(m),
        Failure::ConnectFailed(m) => text_fits(m),
        Failure::Protocol(m) => text_fits(m),
        _ => true,
    }
}

/// A text in UTF-8.
pub fn bytes_of(s: &str) -> (r: Vec<u8>)
    ensures
        r@ == encode_utf8(s@),
{
    vstd::slice::slice_to_vec(s.as_bytes())
}

fn write_headers(out: &mut Vec<Block>, s: &Vec<(String, String)>)
    requires
        headers_fit(pairs(s@)),
        old(out)@.len() + 3 * s@.len() <= usize::MAX,
    ensures
        areas(final(out)@) == header_areas(areas(old(out)@), pairs(s@), s@.len()),
        final(out)@.len() == old(out)@.len() + 3 * s@.len(),
{
    let ghost all = pairs(s@);
    let ghost first = areas(out@);
    let mut i: usize = 0;
    while i < s.len()
        invariant
            i <= s.len(),
            all == pairs(s@),
            headers_fit(all),
            areas(out@) == header_areas(first, all, i as nat),
            out@.len() == old(out)@.len() + 3 * i,
            old(out)@.len() + 3 * s@.len() <= usize::MAX,
        decreases s.len() - i,
    {
        assert(all[i as int] == (s@[i as int].0@, s@[i as int].1@));
        assert(text_fits(all[i as int].0) && text_fits(all[i as int].1));
        let at: usize = out.len();
        assert(areas(out@).len() == at);
        alloc_string(out, bytes_of(s[i].0.as_str()));
        alloc_string(out, bytes_of(s[i].1.as_str()));
        alloc_pair(out, Word::Pointer(at), Word::Pointer(at + 1));
        proof {
            assert(areas(out@).len() == out@.len());
            let before = header_areas(first, all, i as nat);
            assert(before.len() == at);
        }
        i += 1;
    }
}

fn array_block(n: usize, first: usize) -> (r: Block)
    requires
        n <= 536870910,
        first + 3 * n <= usize::MAX,
    ensures
        r@ == (Area {
            size: (4 + 4 * n) as u32,
            words: array_words(n as nat, first as int),
            bytes: Seq::empty(),
        }),
{
    let mut words: Vec<(u32, Word)> = Vec::new();
    words.push((0, Word::Number(n as u32)));
    let mut i: usize = 0;
    while i < n
        invariant
            i <= n <= 536870910,
            first + 3 * n <= usize::MAX,
            words@.len() == i + 1,
            forall|k: int| 0 <= k < i + 1 ==> #[trigger] words@[k] == array_words(
                n as nat,
                first as int,
            )[k],
        decreases n - i,
    {
        words.push(((4 + 4 * i) as u32, Word::Pointer(first + 3 * i + 2)));
        i += 1;
    }
    let b = Block { size: (4 + 4 * n) as u32, words, bytes: Vec::new() };
    assert(b.words@ =~= array_words(n as nat, first as int));
    assert(b.bytes@ =~= Seq::<u8>::empty());
    b
}

/// Lays out a `Response` record.
pub fn write_response(out: &mut Vec<Block>, response: &HostResponse)
    requires
        reply_fits(response@),
        old(out)@.len() + 3 * response.headers@.len() + 3 <= usize::MAX,
    ensures
        areas(final(out)@) == response_areas(areas(old(out)@), response@),
{
    let first: usize = out.len();
    let n: usize = response.headers.len();
    assert(response@.headers.len() == n);
    assert(areas(out@).len() == first);
    write_headers(out, &response.headers);
    push_block(out, array_block(n, first));
    alloc_string(out, bytes_of(response.body.as_str()));
    assert(areas(out@).len() == out@.len());
    let at: usize = out.len();
    let mut words: Vec<(u32, Word)> = Vec::new();
    let status: u32 = if response.status < 0 {
        (response.status as i64 + 4294967296) as u32
    } else {
        response.status as u32
    };
    words.push((0, Word::Number(status)));
    words.push((8, Word::Pointer(at - 2)));
    words.push((16, Word::Pointer(at - 1)));
    let b = Block { size: 24, words, bytes: Vec::new() };
    assert(b.words@ =~= seq![
        (0u32, Word::Number(unsigned(response.status))),
        (8u32, Word::Pointer((at - 2) as usize)),
        (16u32, Word::Pointer((at - 1) as usize)),
    ]);
    assert(b.bytes@ =~= Seq::<u8>::empty());
    push_block(out, b);
}

/// Lays out an `HttpError`.
pub fn write_error(out: &mut Vec<Block>, e: &ReqError)
    requires
        failure_fits(e@),
    ensures
        areas(final(out)@) == failure_areas(areas(old(out)@), e@),
{
    match e {
        ReqError::InvalidUrl(m) => alloc_enum_string(out, ERR_INVALID_URL, bytes_of(m.as_str())),
        ReqError::ConnectFailed(m) => alloc_enum_string(
            out,
            ERR_CONNECT_FAILED,
            bytes_of(m.as_str()),
        ),
        ReqError::Protocol(m) => alloc_enum_string(out, ERR_PROTOCOL, bytes_of(m.as_str())),
        ReqError::Timeout => alloc_enum_tag(out, ERR_TIMEOUT),
        ReqError::TooLarge => alloc_enum_tag(out, ERR_TOO_LARGE),
        ReqError::NonUtf8Body => alloc_enum_tag(out, ERR_NON_UTF8_BODY),
    }
}

/// Whether a reply fits in memory.
pub fn response_fits(response: &HostResponse) -> (r: bool)
    ensures
        r == reply_fits(response@),
{
    let ghost all = pairs(response.headers@);
    assert(all.len() == response.headers@.len());
    if response.headers.len() > 536870910 {
        return false;
    }
    if bytes_of(response.body.as_str()).len() > MAX_TEXT {
        return false;
    }
    let mut i: usize = 0;
    while i < response.headers.len()
        invariant
            i <= response.headers.len(),
            all == pairs(response.headers@),
            all.len() == response.headers@.len(),
            forall|k: int| 0 <= k < i ==> text_fits((#[trigger] all[k]).0) && text_fits(all[k].1),
        decreases response.headers.len() - i,
    {
        let h = &response.headers[i];
        assert(all[i as int] == (h.0@, h.1@));
        if bytes_of(h.0.as_str()).len() > MAX_TEXT || bytes_of(h.1.as_str()).len() > MAX_TEXT {
            return false;
        }
        i += 1;
    }
    true
}

/// Whether a failure's message fits in memory.
pub fn error_fits(e: &ReqError) -> (r: bool)
    ensures
        r == failure_fits(e@),
{
    match e {
        ReqError::InvalidUrl(m) => bytes_of(m.as_str()).len() <= MAX_TEXT,
        ReqError::ConnectFailed(m) => bytes_of(m.as_str()).len() <= MAX_TEXT,
        ReqError::Protocol(m) => bytes_of(m.as_str()).len() <= MAX_TEXT,
        _ => true,
    }
}

/// What a call of `request` answers: the cell of a result with a `Response` or an
/// `HttpError`. Nothing where it does not fit in memory.
pub fn answer(outcome: &Result<HostResponse, ReqError>) -> (r: Option<Vec<Block>>)
    ensures
        match (r, *outcome) {
            (Some(blocks), Ok(response)) => {
                let value = response_areas(Seq::empty(), response@);
                &&& reply_fits(response@)
                &&& areas(blocks@) == value.push(
                    result_area(true, Word::Pointer((value.len() - 1) as usize)),
                )
            },
            (Some(blocks), Err(e)) => {
                let value = failure_areas(Seq::empty(), e@);
                &&& failure_fits(e@)
                &&& areas(blocks@) == value.push(
                    result_area(false, Word::Pointer((value.len() - 1) as usize)),
                )
            },
            (None, Ok(response)) => !reply_fits(response@),
            (None, Err(e)) => !failure_fits(e@),
        },
{
    let mut out: Vec<Block> = Vec::new();
    assert(areas(out@) =~= Seq::<Area>::empty());
    match outcome {
        Ok(response) => {
            if !response_fits(response) {
                return None;
            }
            assert(pairs(response.headers@).len() == response.headers@.len());
            write_response(&mut out, response);
            assert(areas(out@).len() == out@.len());
            write_result(&mut out, true);
        },
        Err(e) => {
            if !error_fits(e) {
                return None;
            }
            write_error(&mut out, e);
            assert(areas(out@).len() == out@.len());
            write_result(&mut out, false);
        },
    }
    Some(out)
}

} // verus!
