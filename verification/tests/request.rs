use cup::config::{Config, Context, RegistryConfig};
use cup::http::{
    body_error, judge_failure, judge_response, sent_headers, Failure, RequestMethod,
    TransportError, Verdict,
};
use cup::request::{
    get_protocol, link_target, parse_link, parse_www_authenticate, to_bearer_string, NextPage,
};

const URL: &str = "https://registry-1.docker.io/v2/library/alpine/manifests/latest";

fn refused(verdict: Verdict) -> String {
    match verdict {
        Verdict::Refuse(message) => message,
        other => panic!("expected a refusal, got {:?}", other),
    }
}

#[test]
fn methods_have_names() {
    assert_eq!(RequestMethod::GET.as_str(), "GET");
    assert_eq!(RequestMethod::HEAD.as_str(), "HEAD");
}

/// A status of exactly 400 is a failed request: its body is an error page, not a manifest.
#[test]
fn a_400_is_an_error_not_a_successful_response() {
    let result = judge_response(RequestMethod::HEAD, URL, 400, "400 Bad Request", false);
    assert_ne!(
        result,
        Verdict::Accept,
        "a 400 should be surfaced as an error, got status {:?}",
        result
    );
    assert_eq!(
        refused(result),
        format!("HEAD {}: Unexpected error: Received status code 400 Bad Request", URL)
    );
}

/// One unexpected answer is an error of one request.
#[test]
fn an_unhandled_error_status_does_not_kill_the_process() {
    let result = judge_response(RequestMethod::HEAD, URL, 418, "418 I'm a teapot", false);
    assert_ne!(
        result,
        Verdict::Accept,
        "an unhandled error status should be surfaced as an error, got status {:?}",
        result
    );
}

#[test]
fn statuses_below_400_are_accepted() {
    for status in [200, 204, 301, 399] {
        assert_eq!(judge_response(RequestMethod::GET, URL, status, "", false), Verdict::Accept);
    }
}

#[test]
fn a_401_is_accepted_by_those_who_look_for_it() {
    assert_eq!(
        judge_response(RequestMethod::GET, URL, 401, "401 Unauthorized", true),
        Verdict::Accept
    );
    assert_eq!(
        refused(judge_response(RequestMethod::GET, URL, 401, "401 Unauthorized", false)),
        format!("GET {}: Unauthorized! Please configure authentication for this registry or if you have already done so, please make sure it is correct.", URL)
    );
}

#[test]
fn known_error_statuses_have_their_messages() {
    assert_eq!(
        refused(judge_response(RequestMethod::GET, URL, 404, "404 Not Found", true)),
        format!("GET {}: Not found!", URL)
    );
    assert_eq!(
        refused(judge_response(RequestMethod::GET, URL, 403, "403 Forbidden", false)),
        format!("GET {}: Forbidden! If you've configured authentication for this registry, make sure it is correct. Otherwise there is a chance that the registry is down and a proxy is returning an error.", URL)
    );
    assert_eq!(
        refused(judge_response(RequestMethod::HEAD, URL, 503, "503 Service Unavailable", false)),
        format!("HEAD {}: The registry is currently unavailabile (returned status code 503 Service Unavailable).", URL)
    );
    assert_eq!(
        refused(judge_response(RequestMethod::HEAD, URL, 502, "502 Bad Gateway", false)),
        format!("HEAD {}: The registry is currently unavailabile (returned status code 502 Bad Gateway).", URL)
    );
    assert_eq!(
        refused(judge_response(RequestMethod::GET, URL, 429, "429 Too Many Requests", false)),
        format!("GET {}: Rate limited by the registry (returned status code 429). Skipping this check.", URL)
    );
}

#[test]
fn other_failed_gets_are_explained_by_their_body() {
    assert_eq!(
        judge_response(RequestMethod::GET, URL, 500, "500 Internal Server Error", false),
        Verdict::RefuseWithBody
    );
    assert_eq!(
        body_error(RequestMethod::GET, URL, "out of disk"),
        format!("GET {}: Unexpected error: out of disk", URL)
    );
}

fn transport(connect: bool, timeout: bool, middleware: bool) -> TransportError {
    TransportError { connect, timeout, middleware, text: "builder error".to_string() }
}

#[test]
fn requests_without_a_response() {
    let judge = |error: TransportError| judge_failure(RequestMethod::GET, URL, &error);
    assert_eq!(
        judge(transport(true, true, true)),
        Failure::Report(format!("GET {}: Connection failed!", URL))
    );
    assert_eq!(
        judge(transport(false, true, true)),
        Failure::Report(format!("GET {}: Connection timed out!", URL))
    );
    assert_eq!(
        judge(transport(false, false, true)),
        Failure::Report(format!("GET {}: Connection failed after 3 retries!", URL))
    );
    assert_eq!(
        judge(transport(false, false, false)),
        Failure::Fatal(format!("GET {}: Unexpected error: builder error", URL))
    );
}

#[test]
fn only_headers_with_a_value_are_sent() {
    let headers = vec![
        ("Accept".to_string(), Some("application/json".to_string())),
        ("Authorization".to_string(), None),
    ];
    assert_eq!(
        sent_headers(&headers),
        vec![("Accept".to_string(), "application/json".to_string())]
    );
}

#[test]
fn plain_http_only_where_it_is_configured() {
    let mut config = Config::new();
    config.registries.insert(
        "localhost:5000".to_string(),
        RegistryConfig { insecure: true, ..Default::default() },
    );
    config.registries.insert("ghcr.io".to_string(), RegistryConfig::default());
    let ctx = Context { config };
    assert_eq!(get_protocol("localhost:5000", &ctx), "http");
    assert_eq!(get_protocol("ghcr.io", &ctx), "https");
    assert_eq!(get_protocol("quay.io", &ctx), "https");
}

#[test]
fn tokens_are_presented_as_bearer() {
    assert_eq!(to_bearer_string(Some("abc")), Some("Bearer abc".to_string()));
    assert_eq!(to_bearer_string(None), None);
}

#[test]
fn challenges_lead_to_an_address() {
    assert_eq!(
        parse_www_authenticate(
            "Bearer realm=\"https://auth.docker.io/token\",service=\"registry.docker.io\""
        ),
        Some("https://auth.docker.io/token?&service=registry.docker.io".to_string())
    );
    assert_eq!(
        parse_www_authenticate("Bearer realm=https://a/token, service=b"),
        Some("https://a/token?&service=b".to_string())
    );
    assert_eq!(parse_www_authenticate("Basic realm=\"x\""), None);
}

#[test]
fn links_are_read_between_angle_brackets() {
    assert_eq!(
        link_target("</v2/a/tags/list?last=b&n=100>; rel=\"next\""),
        Some("/v2/a/tags/list?last=b&n=100".to_string())
    );
    assert_eq!(link_target("no link"), None);
    assert_eq!(link_target("<unclosed"), None);
}

#[test]
fn links_are_resolved_against_the_page() {
    let page = "https://ghcr.io/v2/a/tags/list";
    let link = |text: &str| parse_link(&Some(text.to_string()), page);
    assert_eq!(
        link("</v2/a/tags/list?last=b>; rel=\"next\""),
        NextPage::At("https://ghcr.io/v2/a/tags/list?last=b".to_string())
    );
    assert_eq!(
        link("<https://quay.io/next>; rel=\"next\""),
        NextPage::At("https://quay.io/next".to_string())
    );
    assert_eq!(link("rel=\"next\""), NextPage::Unreadable);
    assert_eq!(link("<https://[>"), NextPage::Unreadable);
    assert_eq!(parse_link(&None, page), NextPage::Last);
}

#[test]
fn credentials_belong_to_a_registry() {
    let mut config = Config::new();
    config.registries.insert(
        "ghcr.io".to_string(),
        RegistryConfig { authentication: Some("dXNlcg==".to_string()), ..Default::default() },
    );
    let ctx = Context { config };
    assert_eq!(ctx.credentials_for("ghcr.io"), Some("dXNlcg==".to_string()));
    assert_eq!(ctx.credentials_for("quay.io"), None);
    assert!(!ctx.is_ignored("ghcr.io"));
}

#[test]
fn an_instance_replaces_one_of_the_same_name() {
    let mut config = Config::new();
    assert!(config.servers.list().is_empty());
    config.servers.insert("stalled".to_string(), "http://a".to_string());
    config.servers.insert("nas".to_string(), "http://b".to_string());
    config.servers.insert("stalled".to_string(), "http://c".to_string());
    assert_eq!(
        config.servers.list(),
        &vec![
            ("stalled".to_string(), "http://c".to_string()),
            ("nas".to_string(), "http://b".to_string()),
        ]
    );
}
