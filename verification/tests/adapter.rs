use ipfs_api_backend_http_req::backend::{ApiRequest, HttpReqBackend, Method};
use ipfs_api_backend_http_req::error::{ApiError, Error};
use ipfs_api_backend_http_req::multipart::{decode_form, encode_form, Form, Part};
use ipfs_api_backend_http_req::payload::parse_api_error;
use ipfs_api_backend_http_req::response::{
    error_from_body, flatten_chunks, is_success, normalize_outcome, stream_step, BodyRead,
    StreamStep, TransportOutcome,
};
use ipfs_api_backend_http_req::uri::target_url;

#[test]
fn version_request_constructs_target() {
    let bk = HttpReqBackend::build_with_base_uri("http://localhost:5001".to_string()).unwrap();
    let req = ApiRequest {
        method: Method::Post,
        path: "/api/v0/version".to_string(),
        query: String::new(),
    };
    let t = bk.build_base_request(&req, None).unwrap();
    assert_eq!(t.url, "http://localhost:5001/api/v0/version");
    assert_eq!(t.method, Method::Post);
    assert!(t.headers.is_empty());
    assert!(t.body.is_empty());
}

#[test]
fn version_success_normalizes_to_status_and_bytes() {
    let chunks = vec![b"{\"Version\":\"0.1.0\"}".to_vec()];
    let out = normalize_outcome(TransportOutcome::Delivered {
        status: 200,
        read: BodyRead::Complete { chunks },
    });
    let (status, body) = out.unwrap();
    assert_eq!(status, 200);
    assert_eq!(body, b"{\"Version\":\"0.1.0\"}".to_vec());
}

#[test]
fn failure_status_yields_api_error() {
    let body = b"{\"Message\":\"bad request\",\"Code\":0}".to_vec();
    match stream_step(500, BodyRead::Complete { chunks: vec![body] }) {
        StreamStep::Fail { error: Error::Api { error } } => {
            assert_eq!(error.message, b"bad request".to_vec());
            assert_eq!(error.code, 0);
        }
        _ => panic!("expected an api error, not a transport error"),
    }
}

#[test]
fn connection_refused_is_transport_error() {
    let out = normalize_outcome(TransportOutcome::Failed {
        message: "connection refused".to_string(),
    });
    match out {
        Err(Error::Transport { message }) => assert_eq!(message, "connection refused"),
        _ => panic!("expected a transport error"),
    }
}

#[test]
fn chunked_failure_body_is_fully_read() {
    let whole = b"{\"Message\":\"bad gateway\",\"Code\":7}".to_vec();
    let chunks = vec![whole[..5].to_vec(), whole[5..20].to_vec(), whole[20..].to_vec()];
    match stream_step(502, BodyRead::Complete { chunks }) {
        StreamStep::Fail { error: Error::Api { error } } => {
            assert_eq!(error.message, b"bad gateway".to_vec());
            assert_eq!(error.code, 7);
        }
        _ => panic!("expected an api error built from the whole body"),
    }
}

#[test]
fn success_stream_hands_chunks_back_untouched() {
    let chunks = vec![b"abc".to_vec(), b"def".to_vec()];
    match stream_step(200, BodyRead::Complete { chunks: chunks.clone() }) {
        StreamStep::Deliver { chunks: out } => assert_eq!(out, chunks),
        _ => panic!("expected the body to be handed to the decoder"),
    }
}

#[test]
fn interrupted_drain_masks_api_error() {
    match stream_step(500, BodyRead::Interrupted { message: "connection reset".to_string() }) {
        StreamStep::Fail { error: Error::Transport { message } } => {
            assert_eq!(message, "connection reset")
        }
        _ => panic!("a failed drain must surface as a transport error"),
    }
}

#[test]
fn multipart_round_trip() {
    let form = Form {
        boundary: "XBOUNDX".to_string(),
        parts: vec![
            Part { name: b"chunker".to_vec(), content: b"size-262144".to_vec() },
            Part { name: b"file".to_vec(), content: vec![0, 13, 10, 45, 1, 255, 13, 10] },
        ],
    };
    let body = encode_form(&form).unwrap();
    let parts = decode_form(&body, &b"XBOUNDX".to_vec()).unwrap();
    assert_eq!(parts.len(), 2);
    assert_eq!(parts[0].name, b"chunker".to_vec());
    assert_eq!(parts[0].content, b"size-262144".to_vec());
    assert_eq!(parts[1].name, b"file".to_vec());
    assert_eq!(parts[1].content, vec![0, 13, 10, 45, 1, 255, 13, 10]);
}

#[test]
fn multipart_exact_encoding() {
    let form = Form {
        boundary: "XYZ".to_string(),
        parts: vec![Part { name: b"a".to_vec(), content: b"hi".to_vec() }],
    };
    let body = encode_form(&form).unwrap();
    let expected =
        b"--XYZ\r\nContent-Disposition: form-data; name=\"a\"\r\n\r\nhi\r\n--XYZ--\r\n".to_vec();
    assert_eq!(body, expected);
}

#[test]
fn multipart_rejects_content_holding_delimiter() {
    let form = Form {
        boundary: "XYZ".to_string(),
        parts: vec![Part { name: b"a".to_vec(), content: b"xx\r\n--XYZ yy".to_vec() }],
    };
    match encode_form(&form) {
        Err(Error::Construction { .. }) => {}
        _ => panic!("content holding the delimiter must be rejected"),
    }
}

#[test]
fn multipart_rejects_bad_boundary() {
    let form = Form {
        boundary: "bad boundary".to_string(),
        parts: vec![Part { name: b"a".to_vec(), content: b"x".to_vec() }],
    };
    match encode_form(&form) {
        Err(Error::Construction { .. }) => {}
        _ => panic!("a boundary with a space must be rejected"),
    }
}

#[test]
fn multipart_form_request_carries_content_type() {
    let bk = HttpReqBackend::build_with_base_uri("http://localhost:5001".to_string()).unwrap();
    let req = ApiRequest {
        method: Method::Post,
        path: "/api/v0/add".to_string(),
        query: String::new(),
    };
    let form = Form {
        boundary: "XYZ".to_string(),
        parts: vec![Part { name: b"file".to_vec(), content: b"hello".to_vec() }],
    };
    let t = bk.build_base_request(&req, Some(&form)).unwrap();
    assert_eq!(t.headers.len(), 1);
    assert_eq!(t.headers[0].0, "Content-Type");
    assert_eq!(t.headers[0].1, "multipart/form-data; boundary=XYZ");
    assert_eq!(t.body, encode_form(&form).unwrap());
}

#[test]
fn multipart_rejects_name_holding_quote() {
    let form = Form {
        boundary: "XYZ".to_string(),
        parts: vec![Part { name: b"a\"b".to_vec(), content: b"x".to_vec() }],
    };
    match encode_form(&form) {
        Err(Error::Construction { .. }) => {}
        _ => panic!("a field name with a quote must be rejected"),
    }
}

#[test]
fn non_ascii_target_is_construction_error() {
    let bk = HttpReqBackend::build_with_base_uri("http://localhost:5001".to_string()).unwrap();
    let req = ApiRequest {
        method: Method::Post,
        path: "/h\u{e9}llo".to_string(),
        query: String::new(),
    };
    match bk.build_base_request(&req, None) {
        Err(Error::Construction { .. }) => {}
        _ => panic!("a target the transport's parser cannot take is rejected"),
    }
}

#[test]
fn decode_rejects_unframed_body() {
    assert!(decode_form(&b"garbage".to_vec(), &b"XYZ".to_vec()).is_none());
}

#[test]
fn empty_base_is_config_error() {
    match HttpReqBackend::build_with_base_uri(String::new()) {
        Err(Error::Config { uri }) => assert_eq!(uri, ""),
        _ => panic!("the transport's parser rejects an empty uri"),
    }
}

#[test]
fn non_ascii_base_is_config_error() {
    match HttpReqBackend::build_with_base_uri("http://h\u{e9}llo".to_string()) {
        Err(Error::Config { .. }) => {}
        _ => panic!("a non-ascii base endpoint is rejected"),
    }
}

#[test]
fn target_url_appends_query() {
    assert_eq!(
        target_url("http://localhost:5001", "/api/v0/cat", "arg=QmAbc"),
        "http://localhost:5001/api/v0/cat?arg=QmAbc"
    );
    assert_eq!(
        target_url("http://localhost:5001", "/api/v0/version", ""),
        "http://localhost:5001/api/v0/version"
    );
}

#[test]
fn header_lookup_ignores_ascii_case_and_takes_first() {
    let headers = vec![
        ("Content-Type".to_string(), "text/plain".to_string()),
        ("content-type".to_string(), "other".to_string()),
    ];
    assert_eq!(
        HttpReqBackend::get_header(&headers, "CONTENT-TYPE"),
        Some("text/plain".to_string())
    );
    assert_eq!(HttpReqBackend::get_header(&headers, "X-Missing"), None);
}

#[test]
fn payload_parser_accepts_reordered_and_extra_members() {
    let body = b" {\"Type\":\"error\",\"Code\":42,\"Message\":\"oops\"} ".to_vec();
    let e = parse_api_error(&body).unwrap();
    assert_eq!(e.message, b"oops".to_vec());
    assert_eq!(e.code, 42);
}

#[test]
fn payload_parser_unescapes_quotes_and_backslashes() {
    let body = b"{\"Message\":\"a\\\"b\\\\c\",\"Code\":1}".to_vec();
    let e = parse_api_error(&body).unwrap();
    assert_eq!(e.message, b"a\"b\\c".to_vec());
    assert_eq!(e.code, 1);
}

#[test]
fn payload_parser_rejects_incomplete_or_malformed_bodies() {
    assert!(parse_api_error(&b"{\"Message\":\"x\"}".to_vec()).is_none());
    assert!(parse_api_error(&b"plain text".to_vec()).is_none());
    assert!(parse_api_error(&b"{\"Message\":\"x\",\"Code\":18446744073709551616}".to_vec())
        .is_none());
    assert!(parse_api_error(&b"{\"Message\":\"x\",\"Code\":1} trailing".to_vec()).is_none());
}

#[test]
fn unparseable_failure_body_is_uncategorized() {
    match error_from_body(b"gateway timeout".to_vec()) {
        Error::Uncategorized { body } => assert_eq!(body, b"gateway timeout".to_vec()),
        _ => panic!("a plain-text failure body stays uncategorized"),
    }
}

#[test]
fn api_error_converts_into_unified_error() {
    let e = Error::from(ApiError { message: b"m".to_vec(), code: 3 });
    match e {
        Error::Api { error } => {
            assert_eq!(error.message, b"m".to_vec());
            assert_eq!(error.code, 3);
        }
        _ => panic!("conversion lands in the api variant"),
    }
    assert!(!Error::from(ApiError { message: vec![], code: 0 }).is_transport());
    assert!(Error::Transport { message: "x".to_string() }.is_transport());
}

#[test]
fn flatten_concatenates_chunks() {
    let chunks = vec![b"ab".to_vec(), Vec::new(), b"c".to_vec()];
    assert_eq!(flatten_chunks(&chunks), b"abc".to_vec());
    assert_eq!(flatten_chunks(&Vec::new()), Vec::<u8>::new());
}

#[test]
fn status_classes() {
    assert!(is_success(200));
    assert!(is_success(299));
    assert!(!is_success(199));
    assert!(!is_success(300));
    assert!(!is_success(500));
}

#[test]
fn default_backend_targets_local_daemon() {
    assert_eq!(HttpReqBackend::default().base, "http://localhost:5001");
}

#[test]
fn method_names() {
    assert_eq!(Method::Get.name(), "GET");
    assert_eq!(Method::Post.name(), "POST");
    assert_eq!(Method::Put.name(), "PUT");
    assert_eq!(Method::Head.name(), "HEAD");
    assert_eq!(Method::Delete.name(), "DELETE");
    assert_eq!(Method::Options.name(), "OPTIONS");
    assert_eq!(Method::Patch.name(), "PATCH");
}
