use airouter_proxy::headers::{
    connection_lists_header, does_key_fit, is_bearer_key, is_connection_named, is_hop_by_hop,
    is_request_skipped, passes_authorization, request_headers, response_headers, BROWSER_UA,
};
use reqwest::header::HeaderMap;

fn header(name: &str, value: &[u8]) -> (String, Vec<u8>) {
    (name.to_string(), value.to_vec())
}

fn values(headers: &HeaderMap, name: &str) -> Vec<Vec<u8>> {
    headers
        .get_all(name)
        .iter()
        .map(|value| value.as_bytes().to_vec())
        .collect()
}

#[test]
fn hop_by_hop_headers_are_known() {
    for name in [
        "connection",
        "keep-alive",
        "proxy-authenticate",
        "proxy-authorization",
        "te",
        "trailer",
        "transfer-encoding",
        "upgrade",
    ] {
        assert!(is_hop_by_hop(name), "{name}");
        assert!(is_request_skipped(name), "{name}");
    }
    for name in ["host", "content-length"] {
        assert!(!is_hop_by_hop(name), "{name}");
        assert!(is_request_skipped(name), "{name}");
    }
    for name in ["", "accept", "te2", "TE", "content-type"] {
        assert!(!is_request_skipped(name), "{name}");
    }
}

#[test]
fn connection_values_list_headers() {
    assert!(connection_lists_header("x-hop", "x-hop"));
    assert!(connection_lists_header("close, X-Hop ,te", "x-hop"));
    assert!(connection_lists_header("\u{a0}x-hop\u{2003}", "X-HOP"));
    assert!(connection_lists_header("a,,b", ""));
    assert!(connection_lists_header("", ""));
    assert!(!connection_lists_header("x-hop2", "x-hop"));
    assert!(!connection_lists_header("x- hop", "x-hop"));
    assert!(!connection_lists_header("", "x"));
    assert!(!connection_lists_header("\u{200b}x", "x"));
    assert!(!connection_lists_header("É", "é"));
    assert!(is_connection_named(&["close", "a, b"], "B"));
    assert!(!is_connection_named(&["close", "a, b"], "c"));
    assert!(!is_connection_named(&[], "c"));
}

#[test]
fn client_headers_are_filtered_and_completed() {
    let headers = vec![
        header("content-type", b"application/json"),
        header("connection", b"x-client-hop"),
        header("x-client-hop", b"secret"),
        header("te", b"trailers"),
        header("host", b"proxy.invalid"),
        header("content-length", b"33"),
        header("x-request-id", b"request-42"),
        header("user-agent", b"curl/8"),
        header("accept-encoding", b"gzip, br"),
        header("x-many", b"one"),
        header("x-many", b"two"),
        header("bad name", b"x"),
        header("x-bad-value", b"a\nb"),
        header("X-Upper", b"caf\xe9"),
    ];
    let out = request_headers(&headers, &Some("test-key".to_string())).unwrap();
    assert_eq!(values(&out, "authorization"), vec![b"Bearer test-key".to_vec()]);
    assert_eq!(values(&out, "user-agent"), vec![BROWSER_UA.as_bytes().to_vec()]);
    assert_eq!(values(&out, "accept-encoding"), vec![b"identity".to_vec()]);
    assert_eq!(values(&out, "content-type"), vec![b"application/json".to_vec()]);
    assert_eq!(values(&out, "x-request-id"), vec![b"request-42".to_vec()]);
    assert_eq!(values(&out, "x-many"), vec![b"one".to_vec(), b"two".to_vec()]);
    assert_eq!(values(&out, "x-upper"), vec![b"caf\xe9".to_vec()]);
    for name in [
        "connection",
        "x-client-hop",
        "te",
        "host",
        "content-length",
        "x-bad-value",
    ] {
        assert!(!out.contains_key(name), "{name}");
    }
    assert_eq!(out.len(), 8);
}

#[test]
fn the_browser_is_a_desktop_chrome() {
    assert_eq!(
        BROWSER_UA,
        "Mozilla/5.0 (Macintosh; Intel Mac OS X 10_15_7) AppleWebKit/537.36 (KHTML, like Gecko) Chrome/136.0.0.0 Safari/537.36"
    );
}

#[test]
fn a_client_authorization_wins() {
    let own = vec![header("authorization", b"Basic a"), header("authorization", b"Basic b")];
    let key = Some("test-key".to_string());
    assert!(passes_authorization(&own));
    let out = request_headers(&own, &key).unwrap();
    assert_eq!(values(&out, "authorization"), vec![b"Basic a".to_vec(), b"Basic b".to_vec()]);
    let out = request_headers(&own, &None).unwrap();
    assert_eq!(values(&out, "authorization").len(), 2);
    let out = request_headers(&vec![], &None).unwrap();
    assert!(!out.contains_key("authorization"));
    assert_eq!(out.len(), 2);
    let dropped = vec![
        header("connection", b"Authorization"),
        header("authorization", b"Basic a"),
    ];
    assert!(!passes_authorization(&dropped));
    let out = request_headers(&dropped, &key).unwrap();
    assert_eq!(values(&out, "authorization"), vec![b"Bearer test-key".to_vec()]);
}

#[test]
fn a_connection_value_that_is_not_text_lists_nothing() {
    let headers = vec![header("connection", b"x-hop\xff"), header("x-hop", b"1")];
    let out = request_headers(&headers, &None).unwrap();
    assert_eq!(values(&out, "x-hop"), vec![b"1".to_vec()]);
}

#[test]
fn keys_must_fit_a_header() {
    assert!(is_bearer_key("sk-example"));
    assert!(is_bearer_key("clé"));
    assert!(!is_bearer_key("a\nb"));
    assert!(!is_bearer_key("a\u{7f}b"));
}

#[test]
fn a_bad_key_matters_only_where_it_is_sent() {
    let bad = Some("a\nb".to_string());
    let own = vec![header("authorization", b"Basic a")];
    assert!(does_key_fit(&own, &bad));
    assert!(!does_key_fit(&vec![], &bad));
    assert!(does_key_fit(&vec![], &Some("test-key".to_string())));
    assert!(does_key_fit(&vec![], &None));
    let out = request_headers(&own, &bad).unwrap();
    assert_eq!(values(&out, "authorization"), vec![b"Basic a".to_vec()]);
}

#[test]
fn joined_values_list_what_either_lists() {
    for name in ["a", "B", "c", "", "a,b"] {
        for (left, right) in [("A , x", "b"), ("", "c"), ("a", "")] {
            assert_eq!(
                connection_lists_header(&format!("{left},{right}"), name),
                connection_lists_header(left, name) || connection_lists_header(right, name)
            );
        }
        assert_eq!(
            connection_lists_header("A, b", name),
            connection_lists_header("a, b", name)
        );
    }
}

#[test]
fn very_many_headers_are_refused() {
    let many = |count: usize| -> Vec<(String, Vec<u8>)> {
        (0..count).map(|i| header(&format!("x-{i}"), b"v")).collect()
    };
    assert_eq!(request_headers(&many(6551), &None).unwrap().len(), 6553);
    assert!(request_headers(&many(24575), &None).is_none());
    let same = |count: usize| vec![header("x-same", b"v"); count];
    let out = request_headers(&same(24574), &Some("test-key".to_string())).unwrap();
    assert_eq!(values(&out, "x-same").len(), 24574);
    assert!(request_headers(&same(24575), &None).is_none());
    let mut dropped = many(6551);
    dropped.extend(vec![header("te", b"trailers"); 10000]);
    assert_eq!(request_headers(&dropped, &None).unwrap().len(), 6553);
}

#[test]
fn upstream_headers_are_filtered() {
    let headers = vec![
        header("connection", b"x-upstream-hop"),
        header("x-upstream-hop", b"secret"),
        header("content-encoding", b"gzip"),
        header("x-upstream", b"ok"),
        header("content-type", b"application/json"),
        header("content-length", b"11"),
        header("transfer-encoding", b"chunked"),
        header("set-cookie", b"a"),
        header("set-cookie", b"b"),
        header("x-bad", b"\x01"),
    ];
    assert_eq!(
        response_headers(&headers),
        vec![
            header("content-encoding", b"gzip"),
            header("x-upstream", b"ok"),
            header("content-type", b"application/json"),
            header("set-cookie", b"a"),
            header("set-cookie", b"b"),
        ]
    );
}
