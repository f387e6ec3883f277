use bitdex::relay::auth::{check, check_bearer, subtle_eq, AuthDecision, Header, PeerAddr};
use bitdex::relay::capture::{
    gz_name, log_name, next_action, rotation_plan, write_event_line, write_lagged_line, CapPlan, CaptureAction,
    CaptureFile, CaptureInput,
};
use bitdex::relay::channel::{ChannelRegistry, RelayEvent};
use bitdex::relay::check_startup;
use bitdex::relay::config::{
    default_admin_token_env, default_capture_dir, default_file_mode, default_gzip_after_rotate, default_keep_alive,
    default_max_body_bytes, default_max_total_bytes, default_methods, default_metrics_path, default_rotate_bytes,
    AuthMode, CaptureConfig, ChannelConfig, ConfigError, EmitConfig, FsyncPolicy, RelayConfig, ResponseConfig,
    RouteConfig,
};
use bitdex::relay::route::{
    allowed_methods, build_response, client_ip, emit, gate_request, lowered_headers, Accepted, Emission, Gate,
};
use bitdex::relay::sse::{stream_item, subscribe, StreamInput, StreamItem, Subscription};
use bitdex::relay::template::{push_json_escaped, render, RenderOutcome, TemplateContext};
use bitdex::relay::RelayError;

const OUTSIDE: PeerAddr = PeerAddr::V4(8, 8, 8, 8);
const HERE: PeerAddr = PeerAddr::V4(127, 0, 0, 1);
const HERE_V6: PeerAddr = PeerAddr::V6(1);

fn hdr(name: &str, value: &str) -> Vec<Header> {
    vec![Header { name: name.to_string(), text: Some(value.to_string()) }]
}

fn denied(decision: AuthDecision) -> &'static str {
    match decision {
        AuthDecision::Deny(why) => why,
        AuthDecision::Allow => panic!("expected a refusal"),
    }
}

#[test]
fn none_always_allows() {
    assert_eq!(check(AuthMode::Open, &vec![], OUTSIDE, None), AuthDecision::Allow);
}

#[test]
fn bearer_requires_token_and_header() {
    assert!(matches!(check(AuthMode::Bearer, &vec![], HERE, Some("t")), AuthDecision::Deny(_)));
    let h = hdr("authorization", "Bearer t");
    assert_eq!(check(AuthMode::Bearer, &h, OUTSIDE, Some("t")), AuthDecision::Allow);
}

#[test]
fn bearer_rejects_wrong_token() {
    let h = hdr("authorization", "Bearer wrong");
    assert!(matches!(check(AuthMode::Bearer, &h, OUTSIDE, Some("t")), AuthDecision::Deny(_)));
}

#[test]
fn loopback_or_bearer_loopback_bypasses() {
    assert_eq!(check(AuthMode::LoopbackOrBearer, &vec![], HERE, Some("t")), AuthDecision::Allow);
    assert_eq!(check(AuthMode::LoopbackOrBearer, &vec![], HERE_V6, Some("t")), AuthDecision::Allow);
}

#[test]
fn loopback_or_bearer_external_requires_token() {
    assert!(matches!(check(AuthMode::LoopbackOrBearer, &vec![], OUTSIDE, Some("t")), AuthDecision::Deny(_)));
    let h = hdr("authorization", "Bearer t");
    assert_eq!(check(AuthMode::LoopbackOrBearer, &h, OUTSIDE, Some("t")), AuthDecision::Allow);
}

#[test]
fn xff_header_does_not_bypass() {
    let h = hdr("x-forwarded-for", "1.2.3.4");
    assert!(matches!(check(AuthMode::Bearer, &h, OUTSIDE, Some("t")), AuthDecision::Deny(_)));
}

#[test]
fn refusals_say_why() {
    assert_eq!(denied(check_bearer(&hdr("authorization", "Bearer t"), None)), "admin token not configured");
    assert_eq!(denied(check_bearer(&vec![], Some("t"))), "authorization header required");
    let broken = vec![Header { name: "authorization".to_string(), text: None }];
    assert_eq!(denied(check_bearer(&broken, Some("t"))), "authorization header malformed");
    assert_eq!(denied(check_bearer(&hdr("authorization", "Basic t"), Some("t"))), "expected `Bearer <token>`");
    assert_eq!(denied(check_bearer(&hdr("authorization", "Bearer x"), Some("t"))), "invalid token");
}

#[test]
fn bytes_are_compared_whole() {
    assert!(subtle_eq(b"token", b"token"));
    assert!(!subtle_eq(b"token", b"tokem"));
    assert!(!subtle_eq(b"token", b"toke"));
    assert!(subtle_eq(b"", b""));
}

fn capture() -> CaptureConfig {
    CaptureConfig {
        enabled: false,
        dir: default_capture_dir(),
        rotate_bytes: default_rotate_bytes(),
        gzip_after_rotate: default_gzip_after_rotate(),
        max_total_bytes: default_max_total_bytes(),
        fsync: FsyncPolicy::PerRotation,
        file_mode: default_file_mode(),
    }
}

fn config(channels: &[(&str, usize)], routes: Vec<RouteConfig>) -> RelayConfig {
    RelayConfig {
        listen: "127.0.0.1:3000".to_string(),
        metrics_path: default_metrics_path(),
        admin_token_env: default_admin_token_env(),
        max_body_bytes: default_max_body_bytes(),
        channels: channels
            .iter()
            .map(|(name, capacity)| {
                let keep_alive_seconds = default_keep_alive();
                (name.to_string(), ChannelConfig { capacity: *capacity, keep_alive_seconds })
            })
            .collect(),
        routes,
        capture: capture(),
    }
}

fn route(path: &str, methods: &[&str]) -> RouteConfig {
    RouteConfig {
        path: path.to_string(),
        methods: methods.iter().map(|m| m.to_string()).collect(),
        auth: AuthMode::Open,
        max_body_bytes: None,
        emit: None,
        response: None,
    }
}

fn emitting(path: &str, channel: &str, payload: &str) -> RouteConfig {
    RouteConfig {
        emit: Some(EmitConfig { channel: channel.to_string(), payload: payload.to_string() }),
        ..route(path, &["POST"])
    }
}

#[test]
fn parses_minimal_config() {
    let cfg = config(&[("queries", 100)], vec![emitting("/q", "queries", "{}")]);
    assert!(cfg.validate().is_ok());
    assert_eq!(cfg.routes.len(), 1);
    assert_eq!(cfg.channels.len(), 1);
}

#[test]
fn rejects_unknown_channel() {
    let cfg = config(&[("a", 1)], vec![emitting("/q", "missing", "{}")]);
    assert!(cfg.validate().is_err());
}

#[test]
fn rejects_duplicate_route() {
    let cfg = config(&[("a", 1)], vec![route("/q", &["POST"]), route("/q", &["POST"])]);
    assert!(cfg.validate().is_err());
}

#[test]
fn rejects_zero_capacity() {
    let cfg = config(&[("a", 0)], vec![]);
    assert!(cfg.validate().is_err());
}

#[test]
fn requires_bearer_detects() {
    let bearer = RouteConfig { auth: AuthMode::Bearer, ..route("/x", &["GET"]) };
    let cfg = config(&[("a", 1)], vec![bearer]);
    assert!(cfg.validate().is_ok());
    assert!(cfg.requires_bearer());
}

#[test]
fn the_same_path_may_take_other_methods() {
    let cfg = config(&[("a", 1)], vec![route("/q", &["POST"]), route("/q", &["GET"])]);
    assert!(cfg.validate().is_ok());
    let twice = config(&[("a", 1)], vec![route("/q", &["POST"]), route("/q", &["GET", "post"])]);
    assert!(twice.validate().is_err());
}

#[test]
fn configurations_are_refused_for_what_is_wrong() {
    let why = |cfg: RelayConfig| match cfg.validate() {
        Err(ConfigError::Validation(what)) => what,
        other => panic!("expected a refusal, got {other:?}"),
    };
    assert_eq!(why(config(&[], vec![])), "at least one channel must be defined");
    assert_eq!(why(config(&[("a", 0)], vec![])), "channel 'a' has capacity = 0; must be > 0");
    let twice = vec![route("/q", &["post"]), route("/q", &["POST"])];
    assert_eq!(why(config(&[("a", 1)], twice)), "duplicate route: POST /q");
    let lost = vec![emitting("/q", "b", "{}")];
    assert_eq!(why(config(&[("a", 1)], lost)), "route /q emits to unknown channel 'b'");
    let response = Some(ResponseConfig { status: 600, headers: vec![], body: None });
    let odd = vec![RouteConfig { response, ..route("/q", &[]) }];
    assert_eq!(why(config(&[("a", 1)], odd)), "route /q response.status = 600 out of range");
}

#[test]
fn config_errors_are_written_out() {
    let read = ConfigError::Read("/etc/r.yaml".to_string(), "gone".to_string());
    assert_eq!(read.to_text(), "read /etc/r.yaml: gone");
    let parse = ConfigError::Parse("/etc/r.yaml".to_string(), "bad".to_string());
    assert_eq!(parse.to_text(), "parse /etc/r.yaml: bad");
}

#[test]
fn a_needed_token_has_to_be_there() {
    let bearer = RouteConfig { auth: AuthMode::LoopbackOrBearer, ..route("/x", &["GET"]) };
    let cfg = config(&[("a", 1)], vec![bearer]);
    assert!(check_startup(&cfg, true).is_ok());
    match check_startup(&cfg, false) {
        Err(e) => assert_eq!(
            e.to_text(),
            format!("admin bearer required but env var '{}' is unset", default_admin_token_env())
        ),
        Ok(()) => panic!("expected a refusal"),
    }
    assert!(matches!(check_startup(&config(&[("a", 0)], vec![]), true), Err(RelayError::Config(_))));
    assert_eq!(RelayError::Bind("in use".to_string()).to_text(), "bind error: in use");
}

#[test]
fn allocates_monotonic_seq_ids() {
    let mut reg = ChannelRegistry::from_config(&config(&[("a", 4)], vec![]));
    let i = reg.position("a").unwrap();
    assert_eq!(reg.next_seq(i), 1);
    assert_eq!(reg.next_seq(i), 2);
    assert_eq!(reg.next_seq(i), 3);
    assert_eq!(reg.get("a").unwrap().last_seq, 3);
    assert!(reg.get("b").is_none());
    assert_eq!(reg.names(), vec!["a".to_string()]);
}

fn ctx<'a>(
    body: &'a [u8],
    paths: &'a Vec<(String, String)>,
    headers: &'a Vec<(String, String)>,
    ip: &'a str,
) -> TemplateContext<'a> {
    TemplateContext {
        seq_id: 42,
        ts_ms: 1_700_000_000_000,
        body,
        path_params: paths,
        headers,
        client_ip: ip,
    }
}

fn pairs(items: &[(&str, &str)]) -> Vec<(String, String)> {
    items.iter().map(|(a, b)| (a.to_string(), b.to_string())).collect()
}

#[test]
fn expands_basic_tokens() {
    let mut out = String::new();
    let rc = render("{seq_id}-{ts_ms}", &ctx(b"{}", &vec![], &vec![], "127.0.0.1"), &mut out);
    assert_eq!(out, "42-1700000000000");
    assert_eq!(rc, RenderOutcome::Complete);
}

#[test]
fn expands_body_json() {
    let mut out = String::new();
    render(r#"{"body":{body|json}}"#, &ctx(br#"{"a":1}"#, &vec![], &vec![], ""), &mut out);
    assert_eq!(out, r#"{"body":{"a":1}}"#);
}

#[test]
fn body_json_parse_error_emits_null() {
    let mut out = String::new();
    let rc = render("{body|json}", &ctx(b"not-json", &vec![], &vec![], ""), &mut out);
    assert_eq!(out, "null");
    assert_eq!(rc, RenderOutcome::ParseErrorEmittedNull);
}

#[test]
fn path_token_json_escapes_quote() {
    let mut out = String::new();
    let p = pairs(&[("name", r#"hello"world"#)]);
    render(r#""{path.name}""#, &ctx(b"{}", &p, &vec![], ""), &mut out);
    assert_eq!(out, r#""hello\"world""#);
}

#[test]
fn header_token_handles_missing() {
    let mut out = String::new();
    render(r#"x-{header.x-missing}-y"#, &ctx(b"{}", &vec![], &vec![], ""), &mut out);
    assert_eq!(out, "x--y");
}

#[test]
fn unknown_token_left_literal() {
    let mut out = String::new();
    render("{unknown_token}", &ctx(b"{}", &vec![], &vec![], ""), &mut out);
    assert_eq!(out, "{unknown_token}");
}

#[test]
fn client_ip_escaped() {
    let mut out = String::new();
    render(r#""{client_ip}""#, &ctx(b"{}", &vec![], &vec![], "127.\n0.0.1"), &mut out);
    assert_eq!(out, r#""127.\n0.0.1""#);
}

#[test]
fn bodies_are_written_compactly() {
    let mut out = String::new();
    render("{body|json}", &ctx(b" { \"b\" : [1, 2.50] ,\n \"a\": \"x\" } ", &vec![], &vec![], ""), &mut out);
    assert_eq!(out, r#"{"a":"x","b":[1,2.5]}"#);
}

#[test]
fn headers_and_texts_beyond_ascii_come_through() {
    let mut out = String::new();
    let h = pairs(&[("x-user", "zoë")]);
    render("→{header.x-user}←", &ctx(b"{}", &vec![], &h, ""), &mut out);
    assert_eq!(out, "→zoë←");
}

#[test]
fn control_characters_are_escaped() {
    let mut out = String::new();
    push_json_escaped(&mut out, "a\"b\\c\nd\te\u{1}f\u{8}\u{c}\r");
    assert_eq!(out, "a\\\"b\\\\c\\nd\\te\\u0001f\\b\\f\\r");
}

fn event(seq_id: u64) -> RelayEvent {
    RelayEvent { seq_id, ts_ms: 1_000 + seq_id, channel: "ops".to_string(), payload: format!(r#"{{"i":{seq_id}}}"#) }
}

#[test]
fn events_are_written_as_lines() {
    let line = write_event_line(&event(2));
    assert_eq!(line, "{\"_received_at_ms\":1002,\"channel\":\"ops\",\"seq_id\":2,\"payload\":{\"i\":2}}\n");
    let parsed: serde_json::Value = serde_json::from_str(&line).unwrap();
    assert_eq!(parsed["channel"].as_str(), Some("ops"));
    assert_eq!(parsed["payload"]["i"].as_u64(), Some(2));
    assert_eq!(write_lagged_line("o\"p", 7), "{\"_lagged\":7,\"channel\":\"o\\\"p\"}\n");
}

#[test]
fn files_are_changed_when_they_are_full() {
    let (action, held) = next_action(0, &CaptureInput::Event(event(1)), "ops", 256);
    let len = write_event_line(&event(1)).len() as u64;
    assert!(matches!(action, CaptureAction::Append { rotate: false, .. }));
    assert_eq!(held, len);
    let (action, held) = next_action(256 - len, &CaptureInput::Event(event(1)), "ops", 256);
    assert!(matches!(action, CaptureAction::Append { rotate: true, .. }));
    assert_eq!(held, 0);
    let (action, held) = next_action(9, &CaptureInput::Lagged(3), "ops", 256);
    match action {
        CaptureAction::Append { line, rotate } => {
            assert_eq!(line, write_lagged_line("ops", 3));
            assert!(!rotate);
            assert_eq!(held, 9 + line.len() as u64);
        }
        CaptureAction::Finish => panic!("expected a line"),
    }
    let (action, held) = next_action(9, &CaptureInput::Ended, "ops", 256);
    assert!(matches!(action, CaptureAction::Finish));
    assert_eq!(held, 9);
}

#[test]
fn files_are_named_after_their_moment() {
    assert_eq!(log_name("ops", 1_700_000_000, 42), "ops-1700000000-000000042.log");
    assert_eq!(gz_name("/c/ops-1.log"), "/c/ops-1.log.gz");
}

#[test]
fn rotation_does_what_is_configured() {
    let plan = rotation_plan(&capture());
    assert!(plan.fsync);
    assert!(plan.compress);
    assert_eq!(plan.cap, Some(default_max_total_bytes()));
    let bare = CaptureConfig { fsync: FsyncPolicy::Never, gzip_after_rotate: false, max_total_bytes: 0, ..capture() };
    let plan = rotation_plan(&bare);
    assert!(!plan.fsync && !plan.compress && plan.cap.is_none());
}

fn file(name: &str, len: u64, modified: u128) -> CaptureFile {
    CaptureFile { name: name.to_string(), len, modified }
}

#[test]
fn the_oldest_files_go_until_enough_is_gone() {
    let files = vec![file("b.gz", 200, 200), file("c.gz", 200, 300), file("a.gz", 200, 100), file("note.txt", 9, 1)];
    let mut plan = CapPlan::start(files, 350);
    assert_eq!(plan.over, 250);
    let first = plan.next_deletion().unwrap();
    assert_eq!(plan.files[first].name, "a.gz");
    plan.deleted(200);
    let second = plan.next_deletion().unwrap();
    assert_eq!(plan.files[second].name, "b.gz");
    plan.deleted(200);
    assert!(plan.next_deletion().is_none());
}

#[test]
fn logs_go_only_where_nothing_else_is_left() {
    let mut plan = CapPlan::start(vec![file("a.log", 500, 1), file("b.gz", 10, 2), file("c.log", 5, 3)], 100);
    let mut gone = vec![];
    while let Some(i) = plan.next_deletion() {
        gone.push(plan.files[i].name.clone());
        plan.deleted(plan.files[i].len);
    }
    assert_eq!(gone, vec!["b.gz", "a.log"]);
    assert!(CapPlan::start(vec![file("a.gz", 5, 1)], 5).next_deletion().is_none());
}

#[test]
fn methods_are_taken_in_upper_case() {
    let methods = vec!["post".to_string(), "b ad".to_string(), "GET".to_string()];
    assert_eq!(allowed_methods(&methods), vec!["POST".to_string(), "GET".to_string()]);
    assert_eq!(default_methods(), vec!["POST".to_string()]);
}

#[test]
fn requests_are_refused_in_order() {
    let r = RouteConfig { auth: AuthMode::Bearer, max_body_bytes: Some(10), ..route("/q", &["POST"]) };
    let allowed = allowed_methods(&r.methods);
    let gate = |method: &str, headers: &Vec<Header>, len: usize| {
        gate_request(&r, &allowed, method, headers, OUTSIDE, Some("t"), len, 5)
    };
    assert!(matches!(gate("GET", &vec![], 11), Gate::MethodNotAllowed));
    assert!(matches!(gate("POST", &vec![], 11), Gate::Unauthorized("authorization header required")));
    let good = hdr("authorization", "Bearer t");
    assert!(matches!(gate("POST", &good, 11), Gate::TooLarge));
    assert!(matches!(gate("POST", &good, 10), Gate::Pass));
    let open = route("/q", &["POST"]);
    assert!(matches!(gate_request(&open, &allowed, "POST", &vec![], OUTSIDE, None, 6, 5), Gate::TooLarge));
}

#[test]
fn the_first_hop_is_the_client() {
    assert_eq!(client_ip(&hdr("x-forwarded-for", " 1.2.3.4 , 5.6.7.8"), "9.9.9.9"), "1.2.3.4");
    assert_eq!(client_ip(&hdr("x-forwarded-for", " , 5.6.7.8"), "9.9.9.9"), "9.9.9.9");
    assert_eq!(client_ip(&vec![], "9.9.9.9"), "9.9.9.9");
}

#[test]
fn events_carry_what_the_template_asks_for() {
    let r = emitting("/q/{name}", "ops", r#"{"n":{seq_id},"p":"{path.name}","ip":"{client_ip}","b":{body|json}}"#);
    let mut reg = ChannelRegistry::from_config(&config(&[("ops", 4)], vec![]));
    let params = pairs(&[("name", "x")]);
    let headers = hdr("x-forwarded-for", "1.2.3.4");
    let request = Accepted { ts_ms: 5, body: b"{ }", path_params: &params, headers: &headers, peer: "9.9.9.9" };
    assert!(matches!(emit(&r, &mut reg, 0, false, &request), Emission::Skipped));
    match emit(&r, &mut reg, 1, false, &request) {
        Emission::Event { event, parse_error } => {
            assert_eq!(event.seq_id, 1);
            assert_eq!(event.ts_ms, 5);
            assert_eq!(event.channel, "ops");
            assert_eq!(event.payload, r#"{"n":1,"p":"x","ip":"1.2.3.4","b":{}}"#);
            assert!(!parse_error);
        }
        other => panic!("expected an event, got {other:?}"),
    }
    let broken = Accepted { body: b"{", ..request };
    assert!(matches!(emit(&r, &mut reg, 0, true, &broken), Emission::Event { parse_error: true, .. }));
    assert!(matches!(emit(&route("/q", &[]), &mut reg, 1, true, &broken), Emission::Nothing));
    assert_eq!(lowered_headers(&headers), pairs(&[("x-forwarded-for", "1.2.3.4")]));
}

#[test]
fn answers_leave_out_what_cannot_be_sent() {
    let response = ResponseConfig {
        status: 202,
        headers: pairs(&[("x-ok", "yes"), ("bad name", "x"), ("x-bad", "a\nb")]),
        body: Some("done".to_string()),
    };
    let answer = build_response(&Some(response));
    assert_eq!(answer.status, 202);
    assert_eq!(answer.headers, pairs(&[("x-ok", "yes")]));
    assert_eq!(answer.body, "done");
    let odd = ResponseConfig { status: 7, headers: vec![], body: None };
    assert_eq!(build_response(&Some(odd)).status, 500);
    let none = build_response(&None);
    assert_eq!((none.status, none.body.as_str()), (200, ""));
}

#[test]
fn subscribers_show_the_token() {
    let reg = ChannelRegistry::from_config(&config(&[("a", 4), ("b", 4)], vec![]));
    let good = hdr("authorization", "Bearer t");
    assert!(matches!(subscribe(&good, Some("t"), &reg, "b"), Subscription::Accepted(1)));
    assert!(matches!(subscribe(&vec![], Some("t"), &reg, "b"), Subscription::Unauthorized(_)));
    match subscribe(&good, Some("t"), &reg, "c") {
        Subscription::Unknown(what) => assert_eq!(what, "unknown channel 'c'"),
        other => panic!("expected a refusal, got {other:?}"),
    }
    match stream_item(StreamInput::Event(event(3))) {
        StreamItem::Event { id, data } => {
            assert_eq!(id, "3");
            assert_eq!(data, r#"{"i":3}"#);
        }
        other => panic!("expected an event, got {other:?}"),
    }
    assert!(matches!(stream_item(StreamInput::Lagged(4)), StreamItem::Comment(text) if text == "lagged 4"));
}
