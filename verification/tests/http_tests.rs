use p2p::http::{
    find_route, frame_response, HttpMethod, HttpParseError, HttpRequest, HttpResponse, Route,
};
use p2p::http_server::{bind_address, Connection, Step, DEFAULT_PORT, WORKER_POOL_SIZE};
use p2p::ledger::{add_block_at, get_all_block_hashes, Gossip, Ledger};
use p2p::peers::{add_peer, PeerRegistry};

fn parsed(buf: &[u8]) -> HttpRequest {
    match HttpRequest::try_from(buf) {
        Ok(request) => request,
        Err(e) => panic!("rejected: {:?}", e),
    }
}

fn rejected(buf: &[u8]) -> HttpParseError {
    match HttpRequest::try_from(buf) {
        Ok(_) => panic!("accepted"),
        Err(e) => e,
    }
}

fn header(request: &HttpRequest, key: &str) -> Option<String> {
    request.headers.get(key).cloned()
}

/// The outcome of reading a buffer, in plain values: method, path, headers in
/// the order of their keys, body; or the error.
type Outcome = Result<(String, String, Vec<(String, String)>, String), HttpParseError>;

fn method_name(method: &HttpMethod) -> &'static str {
    match method {
        HttpMethod::GET(_) => "GET",
        HttpMethod::POST(_) => "POST",
        HttpMethod::PUT(_) => "PUT",
        HttpMethod::DELETE(_) => "DELETE",
    }
}

fn outcome(buf: &[u8], keys: &[String]) -> Outcome {
    match HttpRequest::try_from(buf) {
        Err(e) => Err(e),
        Ok(request) => {
            let mut headers = Vec::new();
            for key in keys {
                if let Some(value) = request.headers.get(key) {
                    headers.push((key.to_string(), value.clone()));
                }
            }
            assert_eq!(request.headers.len(), headers.len(), "a header that was not expected");
            assert_eq!(request.remote_addr, None);
            Ok((
                method_name(&request.method).to_string(),
                request.method.path().to_string(),
                headers,
                request.body,
            ))
        }
    }
}

/// The same reading, written with the string functions of the standard library.
fn expected(buf: &[u8]) -> Outcome {
    let text = match std::str::from_utf8(buf) {
        Ok(text) => text,
        Err(_) => return Err(HttpParseError::InvalidUtf8),
    };
    let (head, body) = match text.split_once("\r\n\r\n") {
        Some(parts) => parts,
        None => return Err(HttpParseError::Incomplete),
    };
    let mut lines = head.lines();
    let request_line = match lines.next() {
        Some(line) => line,
        None => return Err(HttpParseError::MissingRequestLine),
    };
    let words: Vec<&str> = request_line.split_whitespace().collect();
    if words.len() != 3 {
        return Err(HttpParseError::InvalidRequestLine);
    }
    match words[0] {
        "GET" | "POST" | "PUT" | "DELETE" => {}
        other => return Err(HttpParseError::UnsupportedMethod(other.to_string())),
    }
    let mut map = std::collections::BTreeMap::new();
    for line in lines {
        match line.split_once(':') {
            Some((key, value)) => {
                map.insert(key.trim().to_string(), value.trim().to_string());
            }
            None => return Err(HttpParseError::InvalidHeaderLine),
        }
    }
    if !body.is_empty() {
        let declared = match map.get("Content-Length") {
            Some(value) => value,
            None => return Err(HttpParseError::MissingContentLength),
        };
        let expected = match declared.parse::<usize>() {
            Ok(n) => n,
            Err(_) => return Err(HttpParseError::InvalidContentLength),
        };
        if expected != body.len() {
            return Err(HttpParseError::ContentLengthMismatch { expected, actual: body.len() });
        }
    }
    let headers = map.into_iter().collect();
    Ok((words[0].to_string(), words[1].to_string(), headers, body.to_string()))
}

/// Checks that a buffer is read as the standard string functions read it, and
/// says whether it holds a request.
fn agrees(buf: &[u8]) -> bool {
    let wanted = expected(buf);
    let keys: Vec<String> = match &wanted {
        Ok(request) => request.2.iter().map(|entry| entry.0.clone()).collect(),
        Err(_) => Vec::new(),
    };
    let got = outcome(buf, &keys);
    assert_eq!(got, wanted, "{:?}", String::from_utf8_lossy(buf));
    got.is_ok()
}

#[test]
fn get_without_headers() {
    let request = parsed(b"GET /addr HTTP/1.0\r\n\r\n");
    assert_eq!(request.method, HttpMethod::GET("/addr".to_string()));
    assert_eq!(request.method.path(), "/addr");
    assert_eq!(request.headers.len(), 0);
    assert_eq!(request.body, "");
    assert_eq!(request.remote_addr, None);
}

#[test]
fn post_with_headers_and_body() {
    let request = parsed(
        b"POST /block HTTP/1.0\r\nHost: example\r\nContent-Length: 5\r\nX-Empty:\r\n\r\nhello",
    );
    assert_eq!(request.method, HttpMethod::POST("/block".to_string()));
    assert_eq!(request.body, "hello");
    assert_eq!(header(&request, "Host"), Some("example".to_string()));
    assert_eq!(header(&request, "Content-Length"), Some("5".to_string()));
    assert_eq!(header(&request, "X-Empty"), Some("".to_string()));
    assert_eq!(header(&request, "host"), None);
    assert_eq!(request.headers.len(), 3);
}

#[test]
fn every_known_method_is_read() {
    assert_eq!(parsed(b"GET /a v\r\n\r\n").method, HttpMethod::GET("/a".to_string()));
    assert_eq!(parsed(b"POST /b v\r\n\r\n").method, HttpMethod::POST("/b".to_string()));
    assert_eq!(parsed(b"PUT /c v\r\n\r\n").method, HttpMethod::PUT("/c".to_string()));
    assert_eq!(parsed(b"DELETE /d v\r\n\r\n").method, HttpMethod::DELETE("/d".to_string()));
    assert!(HttpMethod::GET("/".to_string()).is_get());
    assert!(!HttpMethod::GET("/".to_string()).is_post());
    assert!(HttpMethod::POST("/".to_string()).is_post());
    assert!(!HttpMethod::PUT("/".to_string()).is_get());
    assert_eq!(HttpMethod::DELETE("/x/y".to_string()).path(), "/x/y");
}

#[test]
fn incomplete_until_the_blank_line() {
    assert_eq!(rejected(b""), HttpParseError::Incomplete);
    assert_eq!(rejected(b"GET / HTTP/1.0"), HttpParseError::Incomplete);
    assert_eq!(rejected(b"GET / HTTP/1.0\r\n"), HttpParseError::Incomplete);
    assert_eq!(rejected(b"GET / HTTP/1.0\r\n\r"), HttpParseError::Incomplete);
    assert_eq!(rejected(b"GET / HTTP/1.0\n\n"), HttpParseError::Incomplete);
    assert_eq!(rejected(b"nonsense without end"), HttpParseError::Incomplete);
}

#[test]
fn invalid_utf8_is_rejected_first() {
    assert_eq!(rejected(b"GET /\xff HTTP/1.0\r\n\r\n"), HttpParseError::InvalidUtf8);
    assert_eq!(rejected(b"\xc3"), HttpParseError::InvalidUtf8);
    assert_eq!(rejected(b"GET / HTTP/1.0\r\n\r\n\xe2\x82"), HttpParseError::InvalidUtf8);
    assert_eq!(rejected(b"\xed\xa0\x80\r\n\r\n"), HttpParseError::InvalidUtf8);
    assert_eq!(rejected(b"\xc0\x80\r\n\r\n"), HttpParseError::InvalidUtf8);
}

#[test]
fn missing_request_line() {
    assert_eq!(rejected(b"\r\n\r\n"), HttpParseError::MissingRequestLine);
    assert_eq!(rejected(b"\r\n\r\nbody"), HttpParseError::MissingRequestLine);
}

#[test]
fn request_line_needs_exactly_three_words() {
    assert_eq!(rejected(b"GET\r\n\r\n"), HttpParseError::InvalidRequestLine);
    assert_eq!(rejected(b"GET /\r\n\r\n"), HttpParseError::InvalidRequestLine);
    assert_eq!(rejected(b"   \r\n\r\n"), HttpParseError::InvalidRequestLine);
    assert_eq!(rejected(b"\n\r\n\r\n"), HttpParseError::InvalidRequestLine);
    assert_eq!(rejected(b"GET / HTTP/1.0 extra\r\n\r\n"), HttpParseError::InvalidRequestLine);
    assert_eq!(rejected(b"BREW / HTCPCP extra\r\n\r\n"), HttpParseError::InvalidRequestLine);
    let request = parsed(b"  GET \t /x\x0b\x0cHTTP/1.0  \r\n\r\n");
    assert_eq!(request.method, HttpMethod::GET("/x".to_string()));
    let request = parsed("GET\u{a0}/y\u{3000}v\r\n\r\n".as_bytes());
    assert_eq!(request.method, HttpMethod::GET("/y".to_string()));
}

#[test]
fn unknown_method_is_named() {
    assert_eq!(
        rejected(b"PATCH / HTTP/1.0\r\n\r\n"),
        HttpParseError::UnsupportedMethod("PATCH".to_string())
    );
    assert_eq!(
        rejected(b"get / HTTP/1.0\r\n\r\n"),
        HttpParseError::UnsupportedMethod("get".to_string())
    );
    assert_eq!(
        rejected(b"GETS / HTTP/1.0\r\nbad header\r\n\r\n"),
        HttpParseError::UnsupportedMethod("GETS".to_string())
    );
}

#[test]
fn header_line_needs_a_colon() {
    assert_eq!(rejected(b"GET / HTTP/1.0\r\nHost\r\n\r\n"), HttpParseError::InvalidHeaderLine);
    assert_eq!(
        rejected(b"GET / HTTP/1.0\r\nA: b\r\n\nC: d\r\n\r\n"),
        HttpParseError::InvalidHeaderLine
    );
    assert_eq!(
        rejected(b"GET / HTTP/1.0\r\nA: b\r\nnone\r\n\r\nbody"),
        HttpParseError::InvalidHeaderLine
    );
}

#[test]
fn header_keys_and_values_are_trimmed() {
    let request = parsed(b"GET / HTTP/1.0\r\n  Key \t:  some value  \r\nA:b:c\r\n: lonely\r\n\r\n");
    assert_eq!(header(&request, "Key"), Some("some value".to_string()));
    assert_eq!(header(&request, "A"), Some("b:c".to_string()));
    assert_eq!(header(&request, ""), Some("lonely".to_string()));
    assert_eq!(request.headers.len(), 3);
    let request = parsed("GET / v\r\n\u{2003}K\u{a0}:\u{85}v\u{2028}\r\n\r\n".as_bytes());
    assert_eq!(header(&request, "K"), Some("v".to_string()));
}

#[test]
fn later_header_replaces_earlier() {
    let request = parsed(b"GET / HTTP/1.0\r\nK: one\r\nL: x\r\nK : two\r\n\r\n");
    assert_eq!(header(&request, "K"), Some("two".to_string()));
    assert_eq!(header(&request, "L"), Some("x".to_string()));
    assert_eq!(request.headers.len(), 2);
}

#[test]
fn lines_end_with_or_without_carriage_return() {
    let request = parsed(b"GET / HTTP/1.0\nA: 1\r\nB: 2\n\r\n\r\n");
    assert_eq!(header(&request, "A"), Some("1".to_string()));
    assert_eq!(header(&request, "B"), Some("2".to_string()));
    assert_eq!(request.headers.len(), 2);
    assert_eq!(request.body, "");
    let request = parsed(b"GET / HTTP/1.0\r\nA: 1\r\r\n\r\n");
    assert_eq!(header(&request, "A"), Some("1".to_string()));
}

#[test]
fn body_needs_content_length() {
    assert_eq!(
        rejected(b"POST /inv HTTP/1.0\r\n\r\nbody"),
        HttpParseError::MissingContentLength
    );
    assert_eq!(
        rejected(b"POST /inv HTTP/1.0\r\ncontent-length: 4\r\n\r\nbody"),
        HttpParseError::MissingContentLength
    );
    assert_eq!(
        rejected(b"POST /inv HTTP/1.0\r\nHost: x\r\n\r\n\r\n"),
        HttpParseError::MissingContentLength
    );
    let request = parsed(b"POST /inv HTTP/1.0\r\nHost: x\r\n\r\n");
    assert_eq!(request.body, "");
    let request = parsed(b"POST /inv HTTP/1.0\r\nContent-Length: 99\r\n\r\n");
    assert_eq!(request.body, "");
    let request = parsed(b"POST /inv HTTP/1.0\r\nContent-Length: junk\r\n\r\n");
    assert_eq!(request.body, "");
}

#[test]
fn content_length_must_be_a_number() {
    for value in ["abc", "", "-1", "1.0", "0x10", "1 2", "+", "++1", "+-1", "12a", "٣", "１"] {
        let text = format!("POST /inv HTTP/1.0\r\nContent-Length: {}\r\n\r\nbody", value);
        assert_eq!(rejected(text.as_bytes()), HttpParseError::InvalidContentLength);
    }
    let huge = "POST / v\r\nContent-Length: 99999999999999999999999999\r\n\r\nbody";
    assert_eq!(rejected(huge.as_bytes()), HttpParseError::InvalidContentLength);
    for value in ["4", "+4", "004", " 4 ", "+0004"] {
        let text = format!("POST /inv HTTP/1.0\r\nContent-Length:{}\r\n\r\nbody", value);
        assert_eq!(parsed(text.as_bytes()).body, "body");
    }
}

#[test]
fn content_length_must_match_the_body() {
    assert_eq!(
        rejected(b"POST /inv HTTP/1.0\r\nContent-Length: 10\r\n\r\nbody"),
        HttpParseError::ContentLengthMismatch { expected: 10, actual: 4 }
    );
    assert_eq!(
        rejected(b"POST /inv HTTP/1.0\r\nContent-Length: 3\r\n\r\nbody"),
        HttpParseError::ContentLengthMismatch { expected: 3, actual: 4 }
    );
    assert_eq!(
        rejected(b"POST /inv HTTP/1.0\r\nContent-Length: 0\r\n\r\nb"),
        HttpParseError::ContentLengthMismatch { expected: 0, actual: 1 }
    );
    let max = format!("POST / v\r\nContent-Length: {}\r\n\r\nbody", usize::MAX);
    assert_eq!(
        rejected(max.as_bytes()),
        HttpParseError::ContentLengthMismatch { expected: usize::MAX, actual: 4 }
    );
}

#[test]
fn body_length_counts_bytes() {
    let request = parsed("POST / v\r\nContent-Length: 7\r\n\r\nh\u{e9}ll\u{f6}".as_bytes());
    assert_eq!(request.body, "h\u{e9}ll\u{f6}");
    assert_eq!(
        rejected("POST / v\r\nContent-Length: 4\r\n\r\nh\u{e9}ll".as_bytes()),
        HttpParseError::ContentLengthMismatch { expected: 4, actual: 5 }
    );
    let request = parsed("POST / v\r\nContent-Length: 4\r\n\r\n\u{1f600}".as_bytes());
    assert_eq!(request.body, "\u{1f600}");
}

#[test]
fn body_starts_after_the_first_blank_line() {
    let request = parsed(b"POST / v\r\nContent-Length: 9\r\n\r\na\r\n\r\nb\r\n\n");
    assert_eq!(request.body, "a\r\n\r\nb\r\n\n");
    assert_eq!(
        rejected(b"GET / v\r\n\r\n\r\n"),
        HttpParseError::MissingContentLength
    );
}

#[test]
fn reading_agrees_with_the_standard_string_functions() {
    let pieces = [
        "GET", "POST", "PUT", "DELETE", "PATCH", " ", "\t", "\u{a0}", "/x", "v", "\r\n", "\n",
        "\r", ":", "A", "K", "Content-Length", "3", "+3", "x", "\u{e9}",
    ];
    let endings = ["", "\r\n\r\n", "\r\n\r\nabc", "\r\n\r\n\u{e9}x", "\r\n\r\n\r\n\r\n"];
    let heads = [
        "GET /x v", "POST /x v\r\nContent-Length: 3", "PUT /x v\r\nContent-Length:+3\r\nA: x",
        "", "DELETE /x v\r\nK: 1",
    ];
    let mut checked = 0u32;
    let mut accepted = 0u32;
    for head in heads {
        for a in pieces {
            for b in pieces {
                for c in pieces {
                    for end in endings {
                        let text = format!("{}{}{}{}{}", head, a, b, c, end);
                        if agrees(text.as_bytes()) {
                            accepted += 1;
                        }
                        checked += 1;
                    }
                }
            }
        }
    }
    assert_eq!(checked, 5 * 21 * 21 * 21 * 5);
    assert!(accepted > 1000);
    assert!(accepted < checked / 2);
}

#[test]
fn reading_agrees_on_truncated_and_damaged_requests() {
    let whole = "POST /inv HTTP/1.0\r\nHost: a\u{e9}\r\nContent-Length: 14\r\nX:\u{3000}y \r\n\r\n{\"hash\":\"\u{20ac}\"}";
    let bytes = whole.as_bytes();
    assert!(agrees(bytes));
    for cut in 0..bytes.len() {
        agrees(&bytes[..cut]);
        let mut damaged = bytes.to_vec();
        for replacement in [b' ', b':', b'\n', b'\r', 0xff, b'0'] {
            damaged[cut] = replacement;
            agrees(&damaged);
        }
    }
}

#[test]
fn partial_reads_give_the_same_request() {
    let whole: &[u8] =
        b"POST /block HTTP/1.0\r\nHost: node\r\nContent-Length: 32\r\n\r\n{\"hash\":\"abc\",\"content\":\"hello\"}";
    let head_end = whole.len() - 32;
    for cut in 1..head_end {
        let mut connection = Connection::new();
        match connection.receive(&whole[..cut]) {
            Step::ReadMore => {}
            _ => panic!("not waiting after {} bytes", cut),
        }
        match connection.receive(&whole[cut..]) {
            Step::Respond(request) => {
                let direct = parsed(whole);
                assert_eq!(request.method, direct.method);
                assert_eq!(request.body, direct.body);
                assert_eq!(request.headers.len(), 2);
                assert_eq!(header(&request, "Host"), header(&direct, "Host"));
                assert_eq!(header(&request, "Content-Length"), Some("32".to_string()));
            }
            _ => panic!("no request after the second read at {}", cut),
        }
    }
    let mut connection = Connection::new();
    for (i, byte) in whole[..head_end].iter().enumerate() {
        match connection.receive(&[*byte]) {
            Step::ReadMore => assert!(i + 1 < head_end),
            Step::Respond(request) => {
                assert_eq!(i + 1, head_end);
                assert_eq!(request.method, HttpMethod::POST("/block".to_string()));
                assert_eq!(request.body, "");
            }
            Step::Reject(e) => panic!("rejected {:?}", e),
            Step::Closed => panic!("closed"),
        }
    }
}

#[test]
fn connection_steps() {
    let mut connection = Connection::new();
    assert!(matches!(connection.receive(b""), Step::Closed));
    assert!(matches!(connection.receive(b"GET /addr"), Step::ReadMore));
    assert!(matches!(connection.receive(b""), Step::Closed));
    match connection.receive(b" HTTP/1.0\r\n\r\n") {
        Step::Respond(request) => assert_eq!(request.method, HttpMethod::GET("/addr".to_string())),
        _ => panic!("no request"),
    }
    let mut connection = Connection::new();
    assert!(matches!(connection.receive(b"GET /addr HTTP/1.0\r\nbad"), Step::ReadMore));
    assert!(matches!(
        connection.receive(b" line\r\n\r\n"),
        Step::Reject(HttpParseError::InvalidHeaderLine)
    ));
    let mut connection = Connection::new();
    assert!(matches!(
        connection.receive(b"POST / v\r\nContent-Length: 5\r\n\r\nhel"),
        Step::Reject(HttpParseError::ContentLengthMismatch { expected: 5, actual: 3 })
    ));
    let mut connection = Connection::new();
    assert!(matches!(connection.receive(b"\xe2\x82"), Step::Reject(HttpParseError::InvalidUtf8)));
}

#[test]
fn response_is_framed() {
    assert_eq!(
        frame_response("{}"),
        "HTTP/1.0 200 OK\r\nContent-Length: 2\r\nContent-Type: application/json\r\n\r\n{}"
    );
    assert_eq!(
        frame_response(""),
        "HTTP/1.0 200 OK\r\nContent-Length: 0\r\nContent-Type: application/json\r\n\r\n"
    );
    assert_eq!(
        frame_response("h\u{e9}llo world"),
        "HTTP/1.0 200 OK\r\nContent-Length: 12\r\nContent-Type: application/json\r\n\r\nh\u{e9}llo world"
    );
    let long = "x".repeat(1234);
    assert!(frame_response(&long).starts_with("HTTP/1.0 200 OK\r\nContent-Length: 1234\r\n"));
}

#[test]
fn routes_go_by_method_and_prefix() {
    let get = |p: &str| find_route(&HttpMethod::GET(p.to_string()));
    let post = |p: &str| find_route(&HttpMethod::POST(p.to_string()));
    assert_eq!(get("/addr"), Route::Addr);
    assert_eq!(get("/address/book"), Route::Addr);
    assert_eq!(get("/getblocks"), Route::GetBlocks);
    assert_eq!(get("/getblocks/abc"), Route::GetBlocks);
    assert_eq!(get("/getdata/abc"), Route::GetData);
    assert_eq!(get("/getdata"), Route::GetData);
    assert_eq!(post("/inv"), Route::Inv);
    assert_eq!(post("/inventory"), Route::Inv);
    assert_eq!(post("/block"), Route::Block);
    assert_eq!(post("/blocks/1"), Route::Block);
    assert_eq!(get("/inv"), Route::Status);
    assert_eq!(get("/block"), Route::Status);
    assert_eq!(post("/addr"), Route::Status);
    assert_eq!(post("/getblocks"), Route::Status);
    assert_eq!(post("/getdata/abc"), Route::Status);
    assert_eq!(get("/"), Route::Status);
    assert_eq!(get(""), Route::Status);
    assert_eq!(get("/add"), Route::Status);
    assert_eq!(get("addr"), Route::Status);
    assert_eq!(get("/ADDR"), Route::Status);
    assert_eq!(find_route(&HttpMethod::PUT("/block".to_string())), Route::Status);
    assert_eq!(find_route(&HttpMethod::DELETE("/addr".to_string())), Route::Status);
}

fn framed(body: &str) -> String {
    format!(
        "HTTP/1.0 200 OK\r\nContent-Length: {}\r\nContent-Type: application/json\r\n\r\n{}",
        body.len(),
        body
    )
}

#[test]
fn node_answers_every_route() {
    let mut ledger = Ledger::new();
    let mut registry = PeerRegistry::new();
    add_peer(&mut registry, "1.2.3.4".to_string(), 5000);
    add_block_at(&mut ledger, "g", "genesis", 1);

    let out = HttpResponse::respond(&mut ledger, &registry, &parsed(b"GET /addr HTTP/1.0\r\n\r\n"));
    assert_eq!(out.reply, framed(r#"{"count":1,"peers":[{"ip":"1.2.3.4","port":5000}]}"#));
    assert_eq!(out.gossip, None);

    let out =
        HttpResponse::respond(&mut ledger, &registry, &parsed(b"GET /getblocks HTTP/1.0\r\n\r\n"));
    assert_eq!(out.reply, framed(r#"{"blocks":["g"],"count":1}"#));

    let out =
        HttpResponse::respond(&mut ledger, &registry, &parsed(b"GET /getdata/g HTTP/1.0\r\n\r\n"));
    assert_eq!(out.reply, framed(r#"{"content":"genesis","found":true,"hash":"g","timestamp":1}"#));

    let out = HttpResponse::respond(
        &mut ledger,
        &registry,
        &parsed(b"POST /inv HTTP/1.0\r\nContent-Length: 23\r\n\r\n{\"hash\":\"t\",\"data\":\"d\"}"),
    );
    assert_eq!(out.reply, framed(r#"{"message":"Transaction accepted","status":1}"#));
    assert_eq!(
        out.gossip,
        Some(Gossip::Transaction { hash: "t".to_string(), data: "d".to_string() })
    );

    let out = HttpResponse::respond(
        &mut ledger,
        &registry,
        &parsed(b"GET /inv HTTP/1.0\r\nContent-Length: 23\r\n\r\n{\"hash\":\"u\",\"data\":\"d\"}"),
    );
    assert_eq!(out.reply, framed(r#"{"message":"P2P node active","status":"ok"}"#));
    assert_eq!(out.gossip, None);

    let out = HttpResponse::respond(&mut ledger, &registry, &parsed(b"PUT /x HTTP/1.0\r\n\r\n"));
    assert_eq!(out.reply, framed(r#"{"message":"P2P node active","status":"ok"}"#));

    let out = HttpResponse::respond(&mut ledger, &registry, &parsed(b"POST /block HTTP/1.0\r\n\r\n"));
    assert_eq!(
        out.reply,
        framed(
            r#"{"errcode":3,"errmsg":"JSON parse error: EOF while parsing a value at line 1 column 0","status":0}"#
        )
    );
    assert_eq!(get_all_block_hashes(&ledger), vec!["g".to_string()]);
}

#[test]
fn block_posted_twice_is_accepted_once() {
    let mut ledger = Ledger::new();
    let registry = PeerRegistry::new();
    let request: &[u8] =
        b"POST /block HTTP/1.0\r\nContent-Length: 32\r\n\r\n{\"hash\":\"abc\",\"content\":\"hello\"}";
    let first = HttpResponse::respond(&mut ledger, &registry, &parsed(request));
    assert_eq!(first.reply, framed(r#"{"message":"Block accepted","status":1}"#));
    assert_eq!(
        first.gossip,
        Some(Gossip::Block { hash: "abc".to_string(), content: "hello".to_string() })
    );
    let second = HttpResponse::respond(&mut ledger, &registry, &parsed(request));
    assert_eq!(
        second.reply,
        framed(r#"{"errcode":1,"errmsg":"Block already exists","status":0}"#)
    );
    assert_eq!(second.gossip, None);
    assert_eq!(get_all_block_hashes(&ledger), vec!["abc".to_string()]);
}

#[test]
fn node_listens_on_every_interface() {
    assert_eq!(bind_address(5000), "0.0.0.0:5000");
    assert_eq!(bind_address(DEFAULT_PORT), "0.0.0.0:5000");
    assert_eq!(bind_address(1), "0.0.0.0:1");
    assert_eq!(WORKER_POOL_SIZE, 20);
}

#[test]
fn bytes_beyond_unicode_are_rejected() {
    assert_eq!(rejected(b"GET / v\r\n\r\n\xf4\x90\x80\x80"), HttpParseError::InvalidUtf8);
    assert_eq!(rejected(b"GET / v\r\n\r\n\xf5\x80\x80\x80"), HttpParseError::InvalidUtf8);
    assert_eq!(rejected(b"GET / v\r\n\r\n\xf8\x88\x80\x80\x80"), HttpParseError::InvalidUtf8);
    assert_eq!(rejected(b"GET / v\r\n\r\n\x80"), HttpParseError::InvalidUtf8);
    assert_eq!(rejected(b"GET / v\r\n\r\n\xe0\x80\x80"), HttpParseError::InvalidUtf8);
    assert_eq!(
        rejected(b"GET / v\r\n\r\n\xf4\x8f\xbf\xbf"),
        HttpParseError::MissingContentLength
    );
    assert_eq!(
        rejected(b"GET / v\r\n\r\n\xed\x9f\xbf\xee\x80\x80"),
        HttpParseError::MissingContentLength
    );
}
