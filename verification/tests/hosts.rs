//! The host side of a running module.

use emela::abi::{read_string_bytes, read_u32, writes, Block, Fail, Word};
use emela::files::{
    answer_failed, answer_opened, answer_read, answer_written, read_size, FileTable, FsError,
    READ_CAP,
};
use emela::http::{
    accept, answer, map_connect_error, map_io_error, method_name, parse_response, parse_url,
    prepare, read_request, unresolved, HostRequest, HostResponse, IoKind, ReqError, MAX_BODY,
};

/// Allocates blocks one behind the other and fills them in.
fn run(blocks: Vec<Block>) -> (Vec<u8>, usize) {
    let mut mem = vec![0u8; 16];
    let mut addresses: Vec<u32> = vec![];
    for block in blocks {
        let address = mem.len() as u32;
        mem.resize(mem.len() + block.size as usize, 0);
        for write in writes(block, address, &addresses) {
            let at = write.at as usize;
            mem[at..at + write.bytes.len()].copy_from_slice(&write.bytes);
        }
        addresses.push(address);
    }
    (mem, *addresses.last().expect("a block") as usize)
}

fn word(mem: &[u8], at: usize) -> u32 {
    read_u32(mem, at, 0).expect("a word")
}

fn text(mem: &[u8], at: usize) -> String {
    String::from_utf8(read_string_bytes(mem, word(mem, at) as usize).expect("a string")).unwrap()
}

#[test]
fn words_are_little_endian_and_checked() {
    let mem = [1u8, 2, 3, 4, 5];
    assert_eq!(read_u32(&mem, 0, 0), Ok(0x04030201));
    assert_eq!(read_u32(&mem, 0, 1), Ok(0x05040302));
    assert_eq!(read_u32(&mem, 1, 1), Err(Fail::Word));
    assert_eq!(read_u32(&mem, usize::MAX, 8), Err(Fail::Word));
    assert_eq!(read_u32(&[], 0, 0), Err(Fail::Word));
    let mem = [2u8, 0, 0, 0, 7, 8];
    assert_eq!(read_string_bytes(&mem, 0), Ok(vec![7, 8]));
    assert_eq!(read_string_bytes(&mem[..5], 0), Err(Fail::Text));
    assert_eq!(read_string_bytes(&mem[..3], 0), Err(Fail::Word));
}

#[test]
fn pointers_are_filled_in() {
    let block = Block {
        size: 16,
        words: vec![(0, Word::Number(9)), (8, Word::Pointer(1))],
        bytes: vec![],
    };
    let all = writes(block, 100, &vec![40, 80]);
    let found: Vec<(u64, Vec<u8>)> = all.into_iter().map(|w| (w.at, w.bytes)).collect();
    assert_eq!(
        found,
        vec![
            (100, vec![9, 0, 0, 0]),
            (108, vec![80, 0, 0, 0]),
            (104, vec![]),
        ]
    );
}

#[test]
fn urls_are_parsed() {
    let u = parse_url("HTTP://example.com:8080/a/b?c=d").unwrap();
    assert_eq!(u.scheme, "http");
    assert_eq!(u.host, "example.com");
    assert_eq!(u.port, 8080);
    assert_eq!(u.target, "/a/b?c=d");
    assert_eq!(u.host_header(), "example.com:8080");
    let u = parse_url("https://h").unwrap();
    assert_eq!((u.port, u.target.as_str()), (443, "/"));
    assert_eq!(u.host_header(), "h");
    let u = parse_url("http://h:80").unwrap();
    assert!(u.default_port);
    assert_eq!(parse_url("http://h:+81/").unwrap().port, 81);
    for bad in [
        "no scheme",
        "ftp://h/",
        "http:///x",
        "http://h:x/",
        "http://h:65536/",
        "http://h:/",
        "",
    ] {
        let Err(ReqError::InvalidUrl(message)) = parse_url(bad) else {
            panic!("{bad}");
        };
        assert_eq!(message, bad);
    }
}

fn ask(url: &str) -> HostRequest {
    HostRequest {
        method: "POST".to_string(),
        url: url.to_string(),
        headers: vec![
            ("Host".to_string(), "mine".to_string()),
            ("X-One".to_string(), "1".to_string()),
        ],
        body: vec![1, 2, 3],
    }
}

#[test]
fn requests_are_sent_with_the_headers_of_the_host() {
    let (url, head) = prepare(&ask("http://h:81/x")).unwrap();
    assert_eq!(url.host, "h");
    assert_eq!(
        head,
        "POST /x HTTP/1.1\r\nhost: h:81\r\ncontent-length: 3\r\nconnection: close\r\nx-one: 1\r\n\r\n"
    );
    let Err(ReqError::ConnectFailed(message)) = prepare(&ask("https://h/")) else {
        panic!("expected a refusal");
    };
    assert_eq!(message, "https is not supported by the built-in runner");
    assert!(matches!(prepare(&ask("h")), Err(ReqError::InvalidUrl(_))));
    assert!(
        matches!(unresolved("h"), ReqError::ConnectFailed(m) if m == "cannot resolve `h`")
    );
    assert!(accept(MAX_BODY, 0).is_ok());
    assert!(matches!(accept(MAX_BODY, 1), Err(ReqError::TooLarge)));
    assert!(matches!(accept(1, usize::MAX), Err(ReqError::TooLarge)));
}

#[test]
fn replies_are_parsed() {
    let r = parse_response(
        &b"HTTP/1.1 404 Not Found\r\nContent-Type:  text/plain \r\nno colon\r\n\r\nb\xc3\xa9"
            .to_vec(),
    )
    .unwrap();
    assert_eq!(r.status, 404);
    assert_eq!(
        r.headers,
        vec![("content-type".to_string(), "text/plain".to_string())]
    );
    assert_eq!(r.body, "b\u{e9}");
    let failure = |raw: &[u8]| match parse_response(&raw.to_vec()) {
        Err(ReqError::Protocol(m)) => m,
        Err(ReqError::NonUtf8Body) => "body".to_string(),
        _ => panic!("expected a failure"),
    };
    assert_eq!(failure(b"HTTP/1.1 200 OK\r\n"), "no header terminator");
    assert_eq!(failure(b"\xff\r\n\r\n"), "non-UTF-8 headers");
    assert_eq!(failure(b"HTTP/1.1\r\n\r\n"), "bad status line: HTTP/1.1");
    assert_eq!(failure(b"a 99999999999\r\n\r\n"), "bad status line: a 99999999999");
    assert_eq!(failure(b"a 1\r\n\r\n\xff"), "body");
    assert_eq!(parse_response(&b"a -5\r\n\r\n".to_vec()).unwrap().status, -5);
}

#[test]
fn io_errors_become_transport_failures() {
    let m = || "m".to_string();
    assert!(matches!(map_connect_error(IoKind::TimedOut, m()), ReqError::Timeout));
    assert!(matches!(
        map_connect_error(IoKind::WouldBlock, m()),
        ReqError::ConnectFailed(_)
    ));
    assert!(matches!(map_io_error(IoKind::WouldBlock, m()), ReqError::Timeout));
    assert!(matches!(map_io_error(IoKind::Other, m()), ReqError::Protocol(_)));
    let names: Vec<&str> = (0..8).map(method_name).collect();
    assert_eq!(
        names,
        vec!["GET", "HEAD", "POST", "PUT", "DELETE", "PATCH", "OPTIONS", "GET"]
    );
}

#[test]
fn answers_can_be_read_back() {
    let (mem, cell) = run(answer(&Ok(HostResponse {
        status: 200,
        headers: vec![
            ("a".to_string(), "1".to_string()),
            ("b".to_string(), "2".to_string()),
        ],
        body: "ok".to_string(),
    }))
    .expect("it fits"));
    assert_eq!(word(&mem, cell), 1);
    let record = word(&mem, cell + 8) as usize;
    assert_eq!(word(&mem, record), 200);
    let list = word(&mem, record + 8) as usize;
    assert_eq!(word(&mem, list), 2);
    let second = word(&mem, list + 8) as usize;
    assert_eq!(text(&mem, second), "b");
    assert_eq!(text(&mem, second + 8), "2");
    assert_eq!(text(&mem, record + 16), "ok");

    let (mem, cell) = run(answer(&Err(ReqError::Protocol("bad".to_string()))).expect("it fits"));
    assert_eq!(word(&mem, cell), 0);
    let error = word(&mem, cell + 8) as usize;
    assert_eq!(word(&mem, error), 5);
    assert_eq!(text(&mem, error + 8), "bad");
    let (mem, cell) = run(answer(&Err(ReqError::TooLarge)).expect("it fits"));
    assert_eq!(word(&mem, word(&mem, cell + 8) as usize), 3);
}

fn put(mem: &mut Vec<u8>, bytes: &[u8]) -> u32 {
    let at = mem.len() as u32;
    mem.extend_from_slice(&(bytes.len() as u32).to_le_bytes());
    mem.extend_from_slice(bytes);
    at
}

fn slots(mem: &mut Vec<u8>, values: &[u32]) -> u32 {
    let at = mem.len() as u32;
    for v in values {
        mem.extend_from_slice(&v.to_le_bytes());
        mem.extend_from_slice(&[0; 4]);
    }
    at
}

#[test]
fn requests_are_read_out_of_memory() {
    let mut mem = vec![0u8; 8];
    let name = put(&mut mem, b"A");
    let value = put(&mut mem, b"\xff");
    let header = slots(&mut mem, &[name, value]);
    let list = mem.len() as u32;
    mem.extend_from_slice(&1u32.to_le_bytes());
    mem.extend_from_slice(&header.to_le_bytes());
    let method = slots(&mut mem, &[3]);
    let url = put(&mut mem, b"http://h/");
    let body = put(&mut mem, b"\x00\xff");
    let record = slots(&mut mem, &[method, url, list, body]);
    let r = read_request(&mem, record as usize).unwrap();
    assert_eq!(r.method, "PUT");
    assert_eq!(r.url, "http://h/");
    // What is not UTF-8 is replaced in headers, and kept in the body.
    assert_eq!(r.headers, vec![("A".to_string(), "\u{fffd}".to_string())]);
    assert_eq!(r.body, vec![0, 0xff]);
    assert!(matches!(
        read_request(&mem[..mem.len() - 8], record as usize),
        Err(Fail::Word)
    ));
}

#[test]
fn file_handles_are_given_once() {
    let mut t = FileTable::new();
    assert_eq!(t.insert(), Some(0));
    assert_eq!(t.insert(), Some(1));
    assert!(t.is_open(0));
    t.close(0);
    t.close(0);
    assert!(!t.is_open(0));
    assert!(t.is_open(1));
    assert_eq!(t.insert(), Some(2));
    assert_eq!(read_size(-1), 0);
    assert_eq!(read_size(10), 10);
    assert_eq!(read_size(i32::MAX), READ_CAP as usize);
}

#[test]
fn file_operations_answer_with_results() {
    let (mem, cell) = run(answer_opened(7));
    assert_eq!(word(&mem, cell), 1);
    assert_eq!(word(&mem, word(&mem, cell + 8) as usize), 7);
    let (mem, cell) = run(answer_read(vec![1, 2]));
    assert_eq!(
        read_string_bytes(&mem, word(&mem, cell + 8) as usize),
        Ok(vec![1, 2])
    );
    let (mem, cell) = run(answer_written());
    assert_eq!((word(&mem, cell), word(&mem, cell + 8)), (1, 0));
    for (error, tag, message) in [
        (
            FsError::from_io(IoKind::NotFound, "m".to_string(), "a.txt"),
            0,
            "a.txt",
        ),
        (
            FsError::from_io(IoKind::PermissionDenied, "m".to_string(), "a.txt"),
            1,
            "m",
        ),
        (FsError::from_io(IoKind::Other, "m".to_string(), "a.txt"), 2, "m"),
        (FsError::io("w".to_string()), 2, "w"),
        (FsError::bad_handle(), 2, "bad file handle"),
    ] {
        let (mem, cell) = run(answer_failed(&error).expect("it fits"));
        assert_eq!(word(&mem, cell), 0);
        let at = word(&mem, cell + 8) as usize;
        assert_eq!(word(&mem, at), tag);
        assert_eq!(text(&mem, at + 8), message);
    }
}
