use airouter_proxy::config::Cfg;
use airouter_proxy::json::parse_json;
use airouter_proxy::proxy::{
    proxy, request_path, response_status, upstream_request, upstream_url, Action, Event, Stage,
    BODY_LIMIT,
};
use airouter_proxy::rewrite::{patch_pairs, rename_pairs};
use airouter_proxy::startup::{listening_line, startup_lines};

fn test_cfg(upstream: &str) -> Cfg {
    Cfg {
        port: 8080,
        upstream: upstream.to_string(),
        rename: rename_pairs(&parse_json(r#"{"max_tokens": "max_completion_tokens"}"#).unwrap()),
        patch: patch_pairs(&parse_json(r#"{"reasoning_effort": "high"}"#).unwrap()),
        debug: false,
        api_key: Some("test-key".to_string()),
        limit: None,
        queue_timeout: 30,
    }
}

fn header(name: &str, value: &[u8]) -> (String, Vec<u8>) {
    (name.to_string(), value.to_vec())
}

#[test]
fn a_request_is_made_for_the_upstream() {
    let cfg = test_cfg("http://127.0.0.1:9");
    let out = upstream_request(
        &cfg,
        Some("/v1/chat/completions?probe=1"),
        &vec![header("x-request-id", b"request-42"), header("te", b"trailers")],
        br#"{"model":"demo","max_tokens":128}"#,
    )
    .unwrap();
    assert_eq!(out.url, "http://127.0.0.1:9/v1/chat/completions?probe=1");
    assert_eq!(out.headers.get("x-request-id").unwrap(), "request-42");
    assert_eq!(out.headers.get("authorization").unwrap(), "Bearer test-key");
    assert!(out.headers.get("te").is_none());
    assert_eq!(
        out.body.as_deref(),
        Some(&br#"{"max_completion_tokens":128,"model":"demo","reasoning_effort":"high"}"#[..])
    );
    let out = upstream_request(&cfg, None, &vec![], b"plain").unwrap();
    assert_eq!(out.url, "http://127.0.0.1:9/");
    assert_eq!(out.body, None);
}

#[test]
fn paths_and_addresses() {
    assert_eq!(request_path(Some("/a?b=c")), "/a?b=c");
    assert_eq!(request_path(None), "/");
    assert_eq!(upstream_url("https://u/base", "/a?b"), "https://u/base/a?b");
    assert_eq!(BODY_LIMIT, 16 << 20);
}

#[test]
fn statuses_have_three_digits() {
    assert_eq!(response_status(201), 201);
    assert_eq!(response_status(100), 100);
    assert_eq!(response_status(999), 999);
    assert_eq!(response_status(99), 502);
    assert_eq!(response_status(1000), 502);
}

#[test]
fn without_a_limit_a_request_is_sent_at_once() {
    let (stage, action) = proxy(None, 30, Stage::Arrived, Event::Start).unwrap();
    assert_eq!(stage, Stage::Sent { slot: false });
    assert!(matches!(action, Action::Send));
}

#[test]
fn with_a_limit_a_request_waits_for_its_slot() {
    let (stage, action) = proxy(Some(2), 7, Stage::Arrived, Event::Start).unwrap();
    assert_eq!(stage, Stage::Queued);
    assert!(matches!(action, Action::Queue(7)));
    let (stage, action) = proxy(Some(2), 7, stage, Event::Granted).unwrap();
    assert_eq!(stage, Stage::Sent { slot: true });
    assert!(matches!(action, Action::Send));
    let headers = vec![header("content-length", b"2"), header("x-upstream", b"ok")];
    let (stage, action) = proxy(Some(2), 7, stage, Event::Answered(201, headers)).unwrap();
    assert_eq!(stage, Stage::Streaming { slot: true });
    match action {
        Action::Stream(status, kept) => {
            assert_eq!(status, 201);
            assert_eq!(kept, vec![header("x-upstream", b"ok")]);
        }
        _ => panic!("not streamed"),
    }
    let (stage, action) = proxy(Some(2), 7, stage, Event::Ended).unwrap();
    assert_eq!(stage, Stage::Done);
    assert!(matches!(action, Action::Release));
    assert!(proxy(Some(2), 7, stage, Event::Ended).is_none());
}

#[test]
fn a_request_that_waits_in_vain_is_refused() {
    for (seconds, body) in [
        (30, "concurrency limit: queued 30s without a slot"),
        (0, "concurrency limit: queued 0ns without a slot"),
    ] {
        let (stage, action) = proxy(Some(1), seconds, Stage::Queued, Event::TimedOut).unwrap();
        assert_eq!(stage, Stage::Done);
        match action {
            Action::Answer(reply) => {
                assert_eq!(reply.status, 503);
                assert_eq!(reply.content_type, "text/plain");
                assert_eq!(reply.retry_after, Some("5"));
                assert_eq!(reply.body, body);
            }
            _ => panic!("not answered"),
        }
        assert!(proxy(Some(1), seconds, stage, Event::Granted).is_none());
    }
}

#[test]
fn an_upstream_that_cannot_be_reached_is_a_bad_gateway() {
    let event = Event::Failed("connection refused".to_string());
    let (stage, action) = proxy(None, 30, Stage::Sent { slot: false }, event).unwrap();
    assert_eq!(stage, Stage::Done);
    match action {
        Action::Answer(reply) => {
            assert_eq!(reply.status, 502);
            assert_eq!(reply.content_type, "text/plain");
            assert_eq!(reply.retry_after, None);
            assert_eq!(reply.body, "upstream error: connection refused");
        }
        _ => panic!("not answered"),
    }
}

#[test]
fn events_out_of_place_are_not_taken() {
    assert!(proxy(Some(1), 1, Stage::Arrived, Event::Granted).is_none());
    assert!(proxy(Some(1), 1, Stage::Queued, Event::Start).is_none());
    assert!(proxy(Some(1), 1, Stage::Sent { slot: true }, Event::TimedOut).is_none());
}

#[test]
fn the_slots_are_never_more_than_the_limit() {
    let limit: usize = 2;
    let mut stages = vec![Stage::Arrived; 4];
    let mut peak: usize = 0;
    for round in 0..40usize {
        let i = round % stages.len();
        let busy = stages
            .iter()
            .filter(|stage| matches!(stage, Stage::Sent { .. } | Stage::Streaming { .. }))
            .count();
        peak = peak.max(busy);
        assert!(busy <= limit);
        let event = match stages[i] {
            Stage::Arrived => Event::Start,
            Stage::Queued if busy < limit => Event::Granted,
            Stage::Sent { .. } => Event::Answered(200, vec![]),
            Stage::Streaming { .. } => Event::Ended,
            _ => continue,
        };
        stages[i] = proxy(Some(2), 30, stages[i], event).unwrap().0;
    }
    assert_eq!(peak, limit);
    assert!(stages.iter().all(|stage| *stage == Stage::Done));
}

#[test]
fn the_configuration_is_shown() {
    let mut cfg = test_cfg("http://u");
    cfg.patch = patch_pairs(&parse_json(r#"{"stream": null, "n": 1.50}"#).unwrap());
    assert_eq!(
        startup_lines(&cfg),
        vec![
            "rename: max_tokens -> max_completion_tokens",
            "patch: n = 1.5",
            "patch: stream = <removed>",
        ]
    );
    cfg.rename = vec![];
    cfg.patch = vec![];
    cfg.limit = Some(12);
    assert_eq!(startup_lines(&cfg), vec!["concurrency: 12 (queue timeout 30s)"]);
    assert_eq!(
        listening_line(&cfg),
        "listening on http://127.0.0.1:8080  ->  http://u"
    );
}
