use prin::dispatch::conclude;
use prin::dispatch::dispatch;
use prin::dispatch::Decision;
use prin::request::append_query;
use prin::request::IncomingRequest;
use prin::response::bad_gateway;
use prin::response::fallback;
use prin::response::relay;
use prin::response::Failure;
use prin::response::ProxyResponse;
use prin::response::Upstream;
use prin::response::STATUS_BAD_GATEWAY;
use prin::response::STATUS_OK;
use prin::table::RoutingTable;

fn table(rules: &[(&str, &str)]) -> RoutingTable {
    let mut t = RoutingTable::new();
    for (prefix, target) in rules {
        t.insert(prefix.to_string(), target.to_string()).unwrap();
    }
    t
}

fn get(path: &str, query: Option<&str>) -> IncomingRequest {
    IncomingRequest {
        method: "GET".to_string(),
        path: path.to_string(),
        query: query.map(|q| q.to_string()),
        headers: vec![("host".to_string(), "localhost:8000".to_string())],
    }
}

#[test]
fn status_constants() {
    assert_eq!(STATUS_OK, 200);
    assert_eq!(STATUS_BAD_GATEWAY, 502);
}

#[test]
fn append_query_adds_a_question_mark_and_the_query() {
    assert_eq!(append_query("/users".to_string(), &Some("id=5".to_string())), "/users?id=5");
    assert_eq!(append_query("/users".to_string(), &Some(String::new())), "/users?");
    assert_eq!(append_query("/users".to_string(), &Some("a=1&b=?".to_string())), "/users?a=1&b=?");
    assert_eq!(append_query("/users".to_string(), &None), "/users");
    assert_eq!(append_query(String::new(), &None), "");
}

#[test]
fn request_uri_is_path_and_query() {
    assert_eq!(get("/api/users", Some("id=5")).uri(), "/api/users?id=5");
    assert_eq!(get("/api/users", None).uri(), "/api/users");
}

#[test]
fn describe_without_headers() {
    let request = IncomingRequest {
        method: "POST".to_string(),
        path: "/submit".to_string(),
        query: None,
        headers: vec![],
    };
    assert_eq!(request.describe(), "Request { method: POST, uri: /submit, headers: {} }");
}

#[test]
fn describe_with_one_header() {
    assert_eq!(
        get("/anything", Some("x=1")).describe(),
        "Request { method: GET, uri: /anything?x=1, headers: {\"host\": \"localhost:8000\"} }"
    );
}

#[test]
fn describe_with_several_headers() {
    let request = IncomingRequest {
        method: "GET".to_string(),
        path: "/".to_string(),
        query: None,
        headers: vec![
            ("host".to_string(), "example.org".to_string()),
            ("accept".to_string(), "*/*".to_string()),
            ("x-empty".to_string(), String::new()),
        ],
    };
    assert_eq!(
        request.describe(),
        "Request { method: GET, uri: /, headers: {\"host\": \"example.org\", \"accept\": \"*/*\", \"x-empty\": \"\"} }"
    );
}

#[test]
fn fallback_is_200_with_the_dump() {
    let request = get("/anything", None);
    let response = fallback(&request);
    assert_eq!(response.status, 200);
    assert_eq!(response.failure, Failure::RouteMiss);
    assert_eq!(response.body, request.describe());
    assert!(response.body.contains("GET"));
    assert!(response.body.contains("/anything"));
    assert!(response.body.contains("host"));
    assert!(response.body.contains("localhost:8000"));
}

#[test]
fn bad_gateway_is_502_and_empty() {
    for failure in [Failure::UpstreamUnreachable, Failure::MalformedRewrittenUri] {
        let response = bad_gateway(failure);
        assert_eq!(response.status, 502);
        assert_eq!(response.body, "");
        assert_eq!(response.failure, failure);
    }
}

#[test]
fn relay_passes_an_answer_on() {
    match relay(Upstream::Answered(vec![1u8, 2, 3])) {
        ProxyResponse::Relayed(answer) => assert_eq!(answer, vec![1u8, 2, 3]),
        ProxyResponse::Local(_) => panic!("an answer must be passed on"),
    }
}

#[test]
fn relay_turns_a_failure_into_502() {
    match relay::<Vec<u8>>(Upstream::Failed) {
        ProxyResponse::Local(response) => {
            assert_eq!(response.status, 502);
            assert_eq!(response.body, "");
            assert_eq!(response.failure, Failure::UpstreamUnreachable);
        }
        ProxyResponse::Relayed(_) => panic!("nothing came to pass on"),
    }
}

#[test]
fn relay_turns_a_timeout_into_502() {
    match relay::<Vec<u8>>(Upstream::TimedOut) {
        ProxyResponse::Local(response) => {
            assert_eq!(response.status, 502);
            assert_eq!(response.body, "");
            assert_eq!(response.failure, Failure::UpstreamUnreachable);
        }
        ProxyResponse::Relayed(_) => panic!("nothing came to pass on"),
    }
}

#[test]
fn scenario_forward_with_query() {
    let t = table(&[("/api", "http://localhost:3000")]);
    match dispatch(&get("/api/users", Some("id=5")), &t) {
        Decision::Forward(forward) => {
            assert_eq!(forward.target, "http://localhost:3000");
            assert_eq!(forward.uri_text, "http://localhost:3000/users?id=5");
            assert_eq!(forward.uri.to_string(), "http://localhost:3000/users?id=5");
            assert_eq!(forward.uri.path(), "/users");
            assert_eq!(forward.uri.query(), Some("id=5"));
            assert_eq!(forward.uri.host(), Some("localhost"));
            assert_eq!(forward.uri.port_u16(), Some(3000));
        }
        Decision::Respond(_) => panic!("the rule applies"),
    }
}

#[test]
fn scenario_empty_table_falls_back() {
    let t = RoutingTable::new();
    match dispatch(&get("/anything", None), &t) {
        Decision::Respond(response) => {
            assert_eq!(response.status, 200);
            assert_eq!(response.failure, Failure::RouteMiss);
            assert!(response.body.contains("/anything"));
        }
        Decision::Forward(_) => panic!("no rule applies"),
    }
}

#[test]
fn scenario_unreachable_target_is_502() {
    let t = table(&[("/svc", "http://10.0.0.1:9999")]);
    match dispatch(&get("/svc/x", None), &t) {
        Decision::Forward(forward) => {
            assert_eq!(forward.uri_text, "http://10.0.0.1:9999/x");
            assert_eq!(forward.uri.to_string(), "http://10.0.0.1:9999/x");
        }
        Decision::Respond(_) => panic!("the rule applies"),
    }
    match relay::<String>(Upstream::Failed) {
        ProxyResponse::Local(response) => {
            assert_eq!(response.status, 502);
            assert!(response.body.is_empty());
        }
        ProxyResponse::Relayed(_) => panic!("nothing came to pass on"),
    }
}

#[test]
fn scenario_longest_prefix_is_forwarded_to() {
    let t = table(&[("/a", "http://first:1"), ("/ab", "http://second:2")]);
    match dispatch(&get("/ab/x", None), &t) {
        Decision::Forward(forward) => {
            assert_eq!(forward.target, "http://second:2");
            assert_eq!(forward.uri_text, "http://second:2/x");
        }
        Decision::Respond(_) => panic!("a rule applies"),
    }
}

#[test]
fn dispatch_keeps_the_fallback_for_unmatched_paths() {
    let t = table(&[("/api", "http://localhost:3000")]);
    let request = get("/other", Some("q=1"));
    match dispatch(&request, &t) {
        Decision::Respond(response) => {
            assert_eq!(response.status, 200);
            assert_eq!(
                response.body,
                "Request { method: GET, uri: /other?q=1, headers: {\"host\": \"localhost:8000\"} }"
            );
        }
        Decision::Forward(_) => panic!("no rule applies"),
    }
}

#[test]
fn dispatch_refuses_an_address_that_does_not_parse() {
    let t = table(&[("/bad", "http://exa mple.org"), ("/none", "")]);
    match dispatch(&get("/bad/x", None), &t) {
        Decision::Respond(response) => {
            assert_eq!(response.status, 502);
            assert_eq!(response.body, "");
            assert_eq!(response.failure, Failure::MalformedRewrittenUri);
        }
        Decision::Forward(_) => panic!("the address has a space in it"),
    }
    match dispatch(&get("/none", None), &t) {
        Decision::Respond(response) => {
            assert_eq!(response.status, 502);
            assert_eq!(response.failure, Failure::MalformedRewrittenUri);
        }
        Decision::Forward(_) => panic!("the address is empty"),
    }
}

#[test]
fn dispatch_parses_the_rewritten_address() {
    let t = table(&[("/api", "http://localhost:3000")]);
    match dispatch(&get("/api", None), &t) {
        Decision::Forward(forward) => {
            assert_eq!(forward.uri_text, "http://localhost:3000");
            assert_eq!(forward.uri.scheme_str(), Some("http"));
            assert_eq!(forward.uri.path(), "/");
            assert_eq!(forward.uri.query(), None);
        }
        Decision::Respond(_) => panic!("the rule applies"),
    }
}

#[test]
fn conclude_follows_the_parser() {
    let text = "http://localhost:3000/users";
    match conclude("http://localhost:3000".to_string(), text.to_string(), text.parse::<hyper::Uri>()) {
        Decision::Forward(forward) => {
            assert_eq!(forward.target, "http://localhost:3000");
            assert_eq!(forward.uri_text, text);
            assert_eq!(forward.uri, text.parse::<hyper::Uri>().unwrap());
        }
        Decision::Respond(_) => panic!("the address parses"),
    }
    let broken = "http://[::1";
    match conclude("http://[::1".to_string(), broken.to_string(), broken.parse::<hyper::Uri>()) {
        Decision::Respond(response) => {
            assert_eq!(response.status, 502);
            assert_eq!(response.body, "");
            assert_eq!(response.failure, Failure::MalformedRewrittenUri);
        }
        Decision::Forward(_) => panic!("the address does not parse"),
    }
}

#[test]
fn dispatching_twice_gives_the_same_decision() {
    let t = table(&[("/a", "http://first:1"), ("/ab", "http://second:2"), ("/bad", "http://a b")]);
    for (path, query) in [("/ab/x", Some("k=v")), ("/a", None), ("/zzz", None), ("/bad/x", None)] {
        let request = get(path, query);
        match (dispatch(&request, &t), dispatch(&request, &t)) {
            (Decision::Forward(one), Decision::Forward(two)) => {
                assert_eq!(one.target, two.target);
                assert_eq!(one.uri_text, two.uri_text);
                assert_eq!(one.uri, two.uri);
            }
            (Decision::Respond(one), Decision::Respond(two)) => assert_eq!(one, two),
            _ => panic!("two decisions for one request differ"),
        }
    }
}

#[test]
fn query_is_appended_unchanged() {
    let t = table(&[("/api", "http://localhost:3000")]);
    match dispatch(&get("/api/search", Some("q=a%20b&lang=en")), &t) {
        Decision::Forward(forward) => {
            assert_eq!(forward.uri_text, "http://localhost:3000/search?q=a%20b&lang=en");
            assert_eq!(forward.uri.query(), Some("q=a%20b&lang=en"));
        }
        Decision::Respond(_) => panic!("the rule applies"),
    }
    match dispatch(&get("/api", Some("")), &t) {
        Decision::Forward(forward) => assert_eq!(forward.uri_text, "http://localhost:3000?"),
        Decision::Respond(_) => panic!("the rule applies"),
    }
}
