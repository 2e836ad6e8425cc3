use bmw::chunked::{chunk_frame, decode_chunked, last_chunk};
use bmw::config::ConfigOption;
use bmw::error::{CoreErrorKind, ErrKind};
use bmw::http::{
    build_client_headers, build_server_headers, clear_plan, client_body_action,
    client_clear_action, file_response_head, header_name, header_value, request_head,
    send_target, server_clear_action, BodyAction, ClearAction, ClearPlan, HeaderMatch,
    HttpConnectionType, HttpContentReader, HttpMethod, HttpRequest, HttpResponse, HttpVersion,
    DEFAULT_USER_AGENT, PATTERN_CONTENT_LENGTH, PATTERN_GET, PATTERN_HEADER, PATTERN_POST,
    PATTERN_TERMINATION, PATTERN_TRANSFER_ENCODING,
};

fn read_all(r: &mut HttpContentReader) -> Vec<u8> {
    let mut out = vec![];
    loop {
        let chunk = r.read(2);
        if chunk.is_empty() {
            break;
        }
        out.extend(chunk);
    }
    out
}

#[test]
fn test_http_request() {
    let path = "/tmp/foo.txt".to_string();
    let config = vec![ConfigOption::HttpContentFile(path.clone())];
    let mut request = HttpRequest::new(&config).unwrap();
    assert_eq!(request.http_content_reader().content_file(), &Some(path.clone()));

    let config = vec![ConfigOption::HttpContentData(vec![b'a', b'b', b'c'])];
    let mut request = HttpRequest::new(&config).unwrap();
    assert_eq!(read_all(request.http_content_reader()), b"abc".to_vec());

    let config = vec![];
    let mut request = HttpRequest::new(&config).unwrap();
    assert_eq!(read_all(request.http_content_reader()), b"".to_vec());
    assert_eq!(request.guid(), request.guid());

    // test defaults + request_uri
    let config = vec![ConfigOption::HttpRequestUri("/test.rsp".to_string())];
    let request = HttpRequest::new(&config).unwrap();
    assert_eq!(request.request_url(), &None);
    assert_eq!(request.request_uri(), &Some("/test.rsp".to_string()));
    assert_eq!(request.version(), &HttpVersion::Http11);
    assert_eq!(request.method(), &HttpMethod::Get);
    assert_eq!(request.connection_type(), &HttpConnectionType::Close);
    assert_eq!(request.accept(), &"*/*".to_string());
    assert_eq!(request.timeout_millis(), 0);
    assert_eq!(request.user_agent(), &DEFAULT_USER_AGENT.to_string());

    // with all configurations + request_url
    let config = vec![
        ConfigOption::HttpRequestUrl("http://www.example.com".to_string()),
        ConfigOption::HttpAccept("otherval".to_string()),
        ConfigOption::HttpHeader(("test1".to_string(), "value".to_string())),
        ConfigOption::HttpHeader(("test2".to_string(), "value2".to_string())),
        ConfigOption::HttpTimeoutMillis(1234),
        ConfigOption::HttpContentData(b"111".to_vec()),
        ConfigOption::HttpUserAgent("myagent".to_string()),
        ConfigOption::HttpMeth("DELETE".to_string()),
        ConfigOption::HttpVers("HTTP/1.0".to_string()),
        ConfigOption::HttpConnection("keep-alive".to_string()),
    ];
    let mut request = HttpRequest::new(&config).unwrap();
    assert_eq!(request.accept(), &"otherval".to_string());
    assert_eq!(request.timeout_millis(), 1234);
    assert_eq!(request.request_uri(), &None);
    assert_eq!(request.request_url(), &Some("http://www.example.com".to_string()));
    assert_eq!(request.method(), &HttpMethod::Delete);
    assert_eq!(request.user_agent(), &"myagent".to_string());
    assert_eq!(request.version(), &HttpVersion::Http10);
    assert_eq!(request.connection_type(), &HttpConnectionType::KeepAlive);
    assert_eq!(
        request.headers(),
        &vec![
            ("test1".to_string(), "value".to_string()),
            ("test2".to_string(), "value2".to_string())
        ]
    );
    assert_eq!(read_all(request.http_content_reader()), b"111".to_vec());

    // cannot have both content file and data
    let config = vec![
        ConfigOption::HttpContentFile(path),
        ConfigOption::HttpContentData(vec![b'0']),
    ];
    assert!(HttpRequest::new(&config).is_err());

    // invalid version
    let config = vec![ConfigOption::HttpVers("kasdjlkajlf".to_string())];
    assert!(HttpRequest::new(&config).is_err());
}

#[test]
fn test_http_response() {
    let mut response = HttpResponse::new(
        vec![
            ("test1".to_string(), "v1".to_string()),
            ("test2".to_string(), "v2".to_string()),
        ],
        123,
        "OK".to_string(),
        HttpVersion::Http10,
        None,
        b"test".to_vec(),
    )
    .unwrap();
    assert_eq!(
        response.headers(),
        &vec![
            ("test1".to_string(), "v1".to_string()),
            ("test2".to_string(), "v2".to_string()),
        ]
    );
    assert_eq!(response.code(), 123);
    assert_eq!(response.status_text(), &"OK".to_string());
    assert_eq!(response.version(), &HttpVersion::Http10);
    assert_eq!(read_all(response.http_content_reader()), b"test".to_vec());
}

#[test]
fn request_configuration_errors() {
    let e = HttpRequest::build(&[ConfigOption::EvhThreads(1)], 1).err().unwrap();
    assert!(matches!(e.kind(), ErrKind::Configuration(_)));
    let dup = [
        ConfigOption::HttpAccept("a".to_string()),
        ConfigOption::HttpAccept("b".to_string()),
    ];
    assert!(matches!(
        HttpRequest::build(&dup, 1).err().unwrap().kind(),
        ErrKind::Configuration(_)
    ));
    let e = HttpRequest::build(&[ConfigOption::HttpMeth("FETCH".to_string())], 1).err().unwrap();
    assert!(matches!(e.kind(), ErrKind::IllegalArgument(_)));
    let e = HttpRequest::build(&[ConfigOption::HttpConnection("open".to_string())], 1).err().unwrap();
    assert!(matches!(e.kind(), ErrKind::IllegalArgument(_)));
    let r = HttpRequest::build(&[ConfigOption::HttpVers("HTTP/2.0".to_string())], 42).unwrap();
    assert_eq!(r.version(), &HttpVersion::Http11);
    assert_eq!(r.guid(), 42);
    assert!(HttpContentReader::new(vec![1], Some("f".to_string())).is_err());
}

#[test]
fn method_names_round_trip() {
    for m in [
        HttpMethod::Get,
        HttpMethod::Post,
        HttpMethod::Head,
        HttpMethod::Put,
        HttpMethod::Delete,
        HttpMethod::Options,
        HttpMethod::Connect,
        HttpMethod::Trace,
        HttpMethod::Patch,
    ] {
        let name = m.name().unwrap();
        assert_eq!(HttpMethod::from(name.to_string()), m);
    }
    assert_eq!(HttpMethod::Unknown.name(), None);
    assert_eq!(HttpMethod::from("get".to_string()), HttpMethod::Unknown);
    assert_eq!(HttpVersion::from("HTTP/1.0".to_string()), HttpVersion::Http10);
    assert_eq!(HttpVersion::from("HTTP/2.0".to_string()), HttpVersion::Http11);
    assert_eq!(HttpVersion::from("HTTP/3".to_string()), HttpVersion::Unknown);
    assert_eq!(
        HttpConnectionType::from("keep-alive".to_string()),
        HttpConnectionType::KeepAlive
    );
    assert_eq!(HttpConnectionType::from("x".to_string()), HttpConnectionType::Unknown);
}

fn m(id: usize, start: usize, end: usize) -> HeaderMatch {
    HeaderMatch { id, start, end }
}

#[test]
fn server_parses_a_request_head() {
    let data = b"GET /index.html HTTP/1.1\r\nHost: x\r\nContent-Length: 12\r\n\r\n";
    let matches = [
        m(PATTERN_GET, 0, 4),
        m(PATTERN_HEADER, 24, 32),
        m(PATTERN_CONTENT_LENGTH, 33, 51),
        m(PATTERN_TERMINATION, 53, 57),
    ];
    let h = build_server_headers(data, &matches).unwrap().unwrap();
    assert_eq!(h.method, HttpMethod::Get);
    assert_eq!(h.uri, "/index.html".to_string());
    assert_eq!(h.version, HttpVersion::Http11);
    assert_eq!(h.headers, vec![("Host".to_string(), "x".to_string())]);
    assert_eq!(h.content_length, 12);
    assert_eq!(h.end_headers, 57);
    assert!(!h.chunked);
}

#[test]
fn server_head_without_termination_is_partial() {
    let data = b"POST /a HTTP/1.0\r\nHost: x";
    let matches = [m(PATTERN_POST, 0, 5)];
    assert!(build_server_headers(data, &matches).unwrap().is_none());
    let matches = [m(PATTERN_POST, 0, 5), m(PATTERN_HEADER, 16, 24)];
    assert!(build_server_headers(data, &matches).unwrap().is_none());
}

#[test]
fn server_head_without_method_is_bad_request() {
    let data = b"FOO / HTTP/1.1\r\n\r\n";
    let e = build_server_headers(data, &[m(PATTERN_TERMINATION, 14, 18)])
        .err()
        .unwrap();
    assert!(matches!(e.kind(), ErrKind::Http(_)));
}

#[test]
fn client_parses_a_response_head() {
    let data = b"HTTP/1.1 200 OK\r\nTransfer-Encoding: chunked\r\n\r\n";
    let matches = [
        m(PATTERN_TRANSFER_ENCODING, 15, 36),
        m(PATTERN_TERMINATION, 43, 47),
    ];
    let h = build_client_headers(data, &matches).unwrap().unwrap();
    assert!(h.chunked);
    assert_eq!(h.end_headers, 47);
    assert_eq!(client_body_action(&h, 47), BodyAction::Chunked { start: 47 });
}

#[test]
fn bad_content_length_is_a_parse_error() {
    let data = b"HTTP/1.1 200 OK\r\nContent-Length: abc\r\n\r\n";
    let e = build_client_headers(data, &[m(PATTERN_CONTENT_LENGTH, 15, 33)])
        .err()
        .unwrap();
    assert!(matches!(e.kind(), ErrKind::Core(CoreErrorKind::Parse(_))));
}

#[test]
fn header_name_and_value_checks() {
    let data = b"\r\nKey: v\r\n";
    assert_eq!(header_name(data, m(PATTERN_HEADER, 0, 7)).unwrap(), "Key".to_string());
    assert_eq!(header_value(data, m(PATTERN_HEADER, 0, 7)).unwrap(), Some("v".to_string()));
    assert!(matches!(
        header_name(data, m(PATTERN_HEADER, 0, 3)).err().unwrap().kind(),
        ErrKind::IllegalState(_)
    ));
    assert_eq!(header_value(b"\r\nKey: v", m(PATTERN_HEADER, 0, 7)).unwrap(), None);
    assert!(matches!(
        header_value(b"\r\nKey: \r\n", m(PATTERN_HEADER, 0, 7)).err().unwrap().kind(),
        ErrKind::IllegalState(_)
    ));
    assert!(matches!(
        header_value(b"\r\nKey: \xff\r\n", m(PATTERN_HEADER, 0, 7)).err().unwrap().kind(),
        ErrKind::Core(CoreErrorKind::Utf8(_))
    ));
}

#[test]
fn chunked_round_trip() {
    let mut body = vec![];
    body.extend(chunk_frame(b"hello "));
    body.extend(chunk_frame(&[b'x'; 26]));
    body.extend(last_chunk());
    assert_eq!(&body[0..3], b"6\r\n");
    assert_eq!(&body[11..15], b"1A\r\n");
    let d = decode_chunked(&body).unwrap();
    let mut expected = b"hello ".to_vec();
    expected.extend([b'x'; 26]);
    assert_eq!(d.content, expected);
    assert!(d.complete);
    assert_eq!(d.clear_point, body.len());
}

#[test]
fn chunked_partial_and_errors() {
    let d = decode_chunked(b"5\r\nhel").unwrap();
    assert!(!d.complete);
    assert_eq!(d.clear_point, 0);
    assert!(d.content.is_empty());
    let d = decode_chunked(b"3\r\nabc\r\n0\r\n").unwrap();
    assert_eq!(d.content, b"abc".to_vec());
    assert!(!d.complete);
    assert_eq!(d.clear_point, 9);
    let e = decode_chunked(b"zz\r\nabc\r\n").err().unwrap();
    assert!(matches!(e.kind(), ErrKind::Core(CoreErrorKind::Parse(_))));
    let e = decode_chunked(b"\xff\r\n").err().unwrap();
    assert!(matches!(e.kind(), ErrKind::Core(CoreErrorKind::Utf8(_))));
}

#[test]
fn clearing_decisions() {
    assert_eq!(server_clear_action(10, 10), ClearAction::All);
    assert_eq!(server_clear_action(10, 4), ClearAction::Through(4));
    assert_eq!(server_clear_action(10, 0), ClearAction::Nothing);
    assert_eq!(client_clear_action(20, 5, 15, 40), ClearAction::All);
    assert_eq!(client_clear_action(30, 5, 15, 40), ClearAction::Through(62));
    assert_eq!(client_clear_action(30, 0, 0, 40), ClearAction::Nothing);
    assert_eq!(
        clear_plan(10, 104, 3).unwrap(),
        ClearPlan { offset: 10, clear_through: None }
    );
    assert_eq!(
        clear_plan(250, 104, 3).unwrap(),
        ClearPlan { offset: 50, clear_through: Some(1) }
    );
    assert!(matches!(
        clear_plan(500, 104, 3).err().unwrap().kind(),
        ErrKind::Http(_)
    ));
}

#[test]
fn body_decisions() {
    let mut h = bmw::http::HttpHeaders::new();
    h.end_headers = 10;
    h.content_length = 5;
    assert_eq!(client_body_action(&h, 12), BodyAction::Wait);
    assert_eq!(client_body_action(&h, 15), BodyAction::Whole { start: 10, end: 15 });
}

#[test]
fn response_and_request_heads() {
    assert_eq!(
        file_response_head("srv", "Mon, 01 Jan 2024 00:00:00 GMT"),
        "HTTP/1.1 200 OK\r\nServer: srv\r\nDate: Mon, 01 Jan 2024 00:00:00 GMT\r\nTransfer-Encoding: chunked\r\n\r\n".to_string()
    );
    assert_eq!(
        request_head(HttpMethod::Post, "/x?y=1", "h.com", 8080),
        "POST /x?y=1 HTTP/1.1\r\nHost: h.com:8080\r\nConnection: close\r\n\r\n".to_string()
    );
}

#[test]
fn send_target_of_a_url() {
    let r = HttpRequest::build(
        &[ConfigOption::HttpRequestUrl("http://example.com:9000/a/b?q=1".to_string())],
        1,
    )
    .unwrap();
    assert_eq!(
        send_target(&r).unwrap(),
        ("example.com".to_string(), 9000, "/a/bq=1".to_string())
    );
    let r = HttpRequest::build(&[ConfigOption::HttpRequestUrl("http://example.com".to_string())], 1)
        .unwrap();
    assert_eq!(send_target(&r).unwrap(), ("example.com".to_string(), 80, "/".to_string()));
    let r = HttpRequest::build(&[], 1).unwrap();
    assert!(matches!(send_target(&r).err().unwrap().kind(), ErrKind::IllegalArgument(_)));
    let r = HttpRequest::build(&[ConfigOption::HttpRequestUrl("not a url".to_string())], 1).unwrap();
    assert!(matches!(
        send_target(&r).err().unwrap().kind(),
        ErrKind::Core(CoreErrorKind::Parse(_))
    ));
}
