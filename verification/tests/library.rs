use devknife_core::engine::http::{
    parse_graphql_base_url, parse_http_base_url, parse_http_response, percent_encode,
};
use devknife_core::engine::new_run_id;
use devknife_core::engine::runner::select_json_path_value;
use devknife_core::report::plan_lines;
use devknife_core::{
    load_environment_yaml, load_workflow_yaml, plan_workflow, validate_workflow_environment,
    EngineError, ExecutionLimits, ExecutionPolicy, HttpRequest, JsonPathSelector, JsonValue, LoadError, ParseError,
    RunProgress, RunStatus, Runner, RuntimeEnvironment, StrMap, TraceEntryKind,
};

const MIXED: &str = r#"
name: mixed
seed_events:
  - type: go
handlers:
  - on: go
    effects:
      - type: rest
        base_url: http://localhost:18101
        method: GET
        path: /a
      - type: graphql
        base_url: http://localhost:18102/graphql
        query: "{ a }"
"#;

const READS: &str = r#"
name: reads
seed_events:
  - type: go
handlers:
  - on: go
    effects:
      - type: record
        message: hello
      - type: rest
        base_url: http://localhost:18101
        method: GET
        path: /a
"#;

fn start(policy: ExecutionPolicy, text: &str) -> RunProgress {
    let workflow = load_workflow_yaml(text).expect("workflow parses");
    let runner = Runner::with_environment_and_policy(
        ExecutionLimits::default(),
        RuntimeEnvironment::default(),
        policy,
    );
    runner.run(&workflow, "run-law", &Vec::new())
}

fn refusal(progress: RunProgress) -> Option<String> {
    match progress {
        RunProgress::Finished(report) if report.status == RunStatus::Failed => {
            assert_eq!(report.trace.len(), 2);
            report.failure.map(|failure| failure.message)
        }
        _ => None,
    }
}

#[test]
fn deny_write_refuses_the_first_write_capability_in_effect_order() {
    assert_eq!(
        refusal(start(ExecutionPolicy::deny_write(), MIXED)).as_deref(),
        Some("execution policy denies write capability network.graphql; approve it to run this workflow")
    );
}

#[test]
fn approving_the_listed_write_capability_lets_the_run_start() {
    let progress = start(ExecutionPolicy::allow_capabilities(vec!["network.graphql".to_string()]), MIXED);
    match progress {
        RunProgress::Awaiting(request) => {
            assert_eq!(request.method, "GET");
            assert_eq!(request.path_and_query, "/a");
        }
        RunProgress::Finished(report) => panic!("run should wait for its request: {:?}", report.failure),
    }
    let other = start(ExecutionPolicy::allow_capabilities(vec!["aws.sqs.send".to_string()]), MIXED);
    assert!(refusal(other).is_some());
}

#[test]
fn allow_all_refuses_nothing_and_reads_are_never_refused() {
    assert!(matches!(start(ExecutionPolicy::allow_all(), MIXED), RunProgress::Awaiting(_)));
    assert!(matches!(start(ExecutionPolicy::deny_write(), READS), RunProgress::Awaiting(_)));
}

#[test]
fn plan_lists_what_the_policy_checks() {
    let workflow = load_workflow_yaml(MIXED).expect("workflow parses");
    let plan = plan_workflow(&workflow);
    let policy = ExecutionPolicy::deny_write();
    let denied: Vec<&str> = plan
        .required_capabilities
        .iter()
        .filter(|capability| !policy.allows(capability))
        .map(|capability| capability.id.as_str())
        .collect();
    assert_eq!(denied, vec!["network.graphql"]);
}

#[test]
fn plan_lines_render_capabilities_and_effects() {
    let workflow = load_workflow_yaml(MIXED).expect("workflow parses");
    let lines = plan_lines(&plan_workflow(&workflow));
    assert_eq!(
        lines,
        vec![
            "Workflow: mixed",
            "Version: devknife.workflow/v1alpha1",
            "",
            "Required capabilities:",
            "- network.graphql [write]: Call a GraphQL endpoint.",
            "- network.http.read [read]: Call a REST HTTP endpoint.",
            "",
            "Effects:",
            "- handlers[0].effects[0] on go: rest (network.http.read)",
            "- handlers[0].effects[1] on go: graphql (network.graphql)",
        ]
    );

    let empty = load_workflow_yaml("name: empty\nseed_events:\n  - type: go\n").expect("workflow parses");
    let lines = plan_lines(&plan_workflow(&empty));
    assert_eq!(lines[4], "- none");
    assert_eq!(lines[7], "- none");
}

#[test]
fn engine_error_messages() {
    let cases = vec![
        (EngineError::MaxEventCountExceeded { limit: 20 }, "max event count exceeded: limit is 20"),
        (EngineError::MaxStepCountExceeded { limit: 3 }, "max step count exceeded: limit is 3"),
        (EngineError::MaxDepthExceeded { limit: 100 }, "max event depth exceeded: limit is 100"),
        (
            EngineError::CapabilityDenied { capability: "aws.sqs.send".to_string() },
            "execution policy denies write capability aws.sqs.send; approve it to run this workflow",
        ),
        (
            EngineError::MissingRestServiceBinding { service: "rest".to_string() },
            "missing REST service binding for 'rest'",
        ),
        (EngineError::MissingRestBaseUrl, "REST effect requires service or base_url"),
        (
            EngineError::UnsupportedRestBaseUrl { base_url: "ftp://x".to_string() },
            "unsupported REST base URL 'ftp://x': only http:// URLs are supported in this phase",
        ),
        (
            EngineError::RestRequestBuild { operation: "GET /a".to_string(), message: "bad".to_string() },
            "failed to build REST request for GET /a: bad",
        ),
        (
            EngineError::RestRequestFailed { operation: "GET /a".to_string(), message: "refused".to_string() },
            "failed to execute REST operation GET /a: refused",
        ),
        (
            EngineError::RestEmissionPathMissing { event_type: "e".to_string(), path: "$.id".to_string() },
            "failed to emit REST event e: JSONPath '$.id' did not match",
        ),
        (
            EngineError::RestEmissionPathInvalid {
                event_type: "e".to_string(),
                path: "id".to_string(),
                message: "syntax".to_string(),
            },
            "failed to emit REST event e: JSONPath 'id' is invalid: syntax",
        ),
        (
            EngineError::MissingGraphqlServiceBinding { service: "gql".to_string() },
            "missing GraphQL service binding for 'gql'",
        ),
        (EngineError::MissingGraphqlBaseUrl, "GraphQL effect requires service or base_url"),
        (
            EngineError::UnsupportedGraphqlBaseUrl { base_url: "https://x".to_string() },
            "unsupported GraphQL base URL 'https://x': only http:// URLs are supported in this phase",
        ),
        (
            EngineError::GraphqlRequestBuild { operation: "Q".to_string(), message: "bad".to_string() },
            "failed to build GraphQL request for Q: bad",
        ),
        (
            EngineError::GraphqlRequestFailed { operation: "Q".to_string(), message: "down".to_string() },
            "failed to execute GraphQL operation Q: down",
        ),
        (
            EngineError::GraphqlEmissionPathMissing { event_type: "e".to_string(), path: "$.data".to_string() },
            "failed to emit GraphQL event e: JSONPath '$.data' did not match",
        ),
        (
            EngineError::GraphqlEmissionPathInvalid {
                event_type: "e".to_string(),
                path: "x".to_string(),
                message: "m".to_string(),
            },
            "failed to emit GraphQL event e: JSONPath 'x' is invalid: m",
        ),
    ];
    for (error, text) in cases {
        assert_eq!(error.message(), text);
    }
}

#[test]
fn load_error_messages() {
    let parse = LoadError::Parse(ParseError { message: "oops".to_string(), line: None, column: None });
    assert_eq!(parse.message(), "failed to parse workflow YAML: oops");
    let validation = LoadError::Validation("workflow name is required".to_string());
    assert_eq!(validation.message(), "workflow validation failed: workflow name is required");

    match load_workflow_yaml("name: [") {
        Err(LoadError::Parse(error)) => assert!(error.location().is_some()),
        other => panic!("expected a parse error, got {other:?}"),
    }
    match load_workflow_yaml("name: x\nunknown: 1\n") {
        Err(LoadError::Parse(error)) => assert_eq!(error.location(), None),
        other => panic!("expected a parse error, got {other:?}"),
    }
}

#[test]
fn environment_validation_messages() {
    let blank_url = load_environment_yaml("services:\n  api:\n    base_url: ' '\n");
    assert_eq!(
        blank_url.map(|_| ()).map_err(|error| error.message()),
        Err("workflow validation failed: environment service api.base_url is required".to_string())
    );
    let empty_secret = load_environment_yaml("secret_refs:\n  token: ''\n");
    assert_eq!(
        empty_secret.map(|_| ()).map_err(|error| error.message()),
        Err("workflow validation failed: environment secret reference 'token' must not be empty".to_string())
    );
    let good = load_environment_yaml("name: local\nvalues:\n  region: eu\n").expect("environment loads");
    assert_eq!(good.name.as_deref(), Some("local"));
    assert_eq!(good.values.get("region").map(|value| value.as_str()), Some("eu"));
}

#[test]
fn missing_bindings_are_listed_in_order() {
    let workflow = load_workflow_yaml(
        r#"
name: bindings
seed_events:
  - type: go
    payload:
      token: "{{ secret.api_token }}"
handlers:
  - on: go
    effects:
      - type: rest
        service: zeta
        method: GET
        path: "/items/{{ env.item }}"
"#,
    )
    .expect("workflow parses");
    let result = validate_workflow_environment(&workflow, &RuntimeEnvironment::default());
    match result {
        Err(LoadError::Validation(message)) => assert_eq!(
            message,
            "missing environment bindings: secret 'api_token', service 'zeta', value 'item'"
        ),
        other => panic!("expected missing bindings, got {other:?}"),
    }
}

#[test]
fn percent_encoding_keeps_unreserved_ascii() {
    let encoded: String = percent_encode("a b/é~_-.").into_iter().collect();
    assert_eq!(encoded, "a%20b%2F%C3%A9~_-.");
}

#[test]
fn base_urls_split_into_parts() {
    let url = parse_http_base_url("http://localhost:8080/").ok().expect("valid URL");
    assert_eq!((url.origin.as_str(), url.host.as_str(), url.port), ("http://localhost:8080", "localhost", 8080));
    let default_port = parse_http_base_url("http://example.test").ok().expect("valid URL");
    assert_eq!(default_port.port, 80);
    match parse_http_base_url("https://example.test") {
        Err(error) => assert_eq!(
            error.message(),
            "unsupported REST base URL 'https://example.test': only http:// URLs are supported in this phase"
        ),
        Ok(_) => panic!("https must be refused"),
    }
    match parse_http_base_url("http://host:port") {
        Err(error) => assert_eq!(
            error.message(),
            "unsupported REST base URL 'http://host:port (invalid digit found in string)': only http:// URLs are supported in this phase"
        ),
        Ok(_) => panic!("a bad port must be refused"),
    }
    let graphql = parse_graphql_base_url("http://localhost:18102").ok().expect("valid URL");
    assert_eq!(graphql.path, "/graphql");
    assert_eq!(graphql.url, "http://localhost:18102/graphql");
    let custom = parse_graphql_base_url("http://localhost:18102/api/gql").ok().expect("valid URL");
    assert_eq!(custom.url, "http://localhost:18102/api/gql");
}

#[test]
fn http_responses_are_read() {
    let raw = b"HTTP/1.1 201 Created\r\nContent-Type: application/json\r\n\r\n{\"id\":7}";
    let response = parse_http_response("POST /items", raw).ok().expect("response parses");
    assert_eq!(response.status, 201);
    assert_eq!(format!("{:?}", response.body), format!("{:?}", devknife_core::RestBody::Json { value: JsonValue::parse("{\"id\":7}").unwrap() }));

    match parse_http_response("POST /items", b"HTTP/1.1 200 OK\r\n") {
        Err(error) => assert_eq!(error.message(), "failed to execute REST operation POST /items: malformed HTTP response"),
        Ok(_) => panic!("a response without a blank line is malformed"),
    }
    match parse_http_response("GET /", b"HTTP/1.1\r\n\r\n") {
        Err(error) => assert_eq!(error.message(), "failed to execute REST operation GET /: missing HTTP status code"),
        Ok(_) => panic!("a status line without a code is malformed"),
    }
}

#[test]
fn wire_text_counts_body_bytes() {
    let request = HttpRequest {
        operation: "POST /items".to_string(),
        method: "POST".to_string(),
        host: "localhost".to_string(),
        port: 8080,
        path_and_query: "/items?x=1".to_string(),
        headers: vec![("x-id".to_string(), "7".to_string())],
        body: Some("{\"name\":\"é\"}".to_string()),
        content_type: "application/json".to_string(),
        url: "http://localhost:8080/items?x=1".to_string(),
    };
    assert_eq!(
        request.wire_text(),
        "POST /items?x=1 HTTP/1.1\r\nHost: localhost\r\nConnection: close\r\nAccept: application/json\r\nx-id: 7\r\nContent-Type: application/json\r\nContent-Length: 13\r\n\r\n{\"name\":\"é\"}"
    );
}

#[test]
fn jsonpath_queries_select_values() {
    let document = JsonValue::parse("{\"items\":[{\"id\":1},{\"id\":2}],\"name\":\"x\"}").expect("JSON parses");
    let select = |from: &str| select_json_path_value(&document, &JsonPathSelector { from: from.to_string() });
    assert_eq!(select("$.items[*].id"), Ok(Some(JsonValue::parse("[1,2]").unwrap())));
    assert_eq!(select("$.name"), Ok(Some(JsonValue::String("x".to_string()))));
    assert_eq!(select("$.missing"), Ok(None));
    assert!(select("items.id").is_err_and(|message| message.starts_with("failed to parse JSONPath 'items.id': ")));
}

#[test]
fn json_text_round_trips() {
    let value = JsonValue::parse("{\"a\":[1,\"x\",true,null]}").expect("JSON parses");
    assert_eq!(value.to_json_text(), "{\"a\":[1,\"x\",true,null]}");
    assert_eq!(value.get("a"), JsonValue::parse("[1,\"x\",true,null]"));
    assert_eq!(value.get("b"), None);
    assert_eq!(JsonValue::parse("{"), None);
}

#[test]
fn run_ids_are_version_four_uuids() {
    let first = new_run_id();
    let second = new_run_id();
    assert_ne!(first, second);
    let chars: Vec<char> = first.chars().collect();
    assert_eq!(chars.len(), 36);
    for (index, character) in chars.iter().enumerate() {
        if [8, 13, 18, 23].contains(&index) {
            assert_eq!(*character, '-');
        } else {
            assert!(character.is_ascii_hexdigit() && !character.is_ascii_uppercase());
        }
    }
    assert_eq!(chars[14], '4');
}

#[test]
fn string_maps_keep_keys_sorted_and_unique() {
    let mut map: StrMap<u32> = StrMap::new();
    assert_eq!(map.insert("b".to_string(), 1), None);
    assert_eq!(map.insert("a".to_string(), 2), None);
    assert_eq!(map.insert("b".to_string(), 3), Some(1));
    assert_eq!(map.len(), 2);
    assert_eq!(map.get("b"), Some(&3));
    assert!(map.contains_key("a"));
    assert!(!map.contains_key("c"));
    let keys: Vec<&str> = map.entries().iter().map(|(key, _)| key.as_str()).collect();
    assert_eq!(keys, vec!["a", "b"]);
}

#[test]
fn events_are_handled_in_queue_order_by_matching_handlers() {
    let workflow = load_workflow_yaml(
        r#"
name: fifo
seed_events:
  - type: a
  - type: b
handlers:
  - on: a
    effects:
      - type: emit
        event_type: c
        payload: {}
      - type: record
        message: after-c
  - on: b
    effects:
      - type: emit
        event_type: d
        payload:
          n: 1
  - on: a
    effects:
      - type: record
        message: second-a
"#,
    )
    .expect("workflow parses");
    let report = match Runner::default().run(&workflow, "run-fifo", &Vec::new()) {
        RunProgress::Finished(report) => report,
        RunProgress::Awaiting(_) => panic!("no request is expected"),
    };
    assert_eq!(report.status, RunStatus::Succeeded);
    let steps: Vec<String> = report
        .trace
        .iter()
        .filter_map(|entry| match &entry.kind {
            TraceEntryKind::EventDequeued { event } => Some(format!("dequeue {}", event.event_type)),
            TraceEntryKind::HandlerMatched { handler_index, .. } => Some(format!("handler {handler_index}")),
            TraceEntryKind::EffectExecuted { handler_index, effect_index, .. } => {
                Some(format!("effect {handler_index}.{effect_index}"))
            }
            TraceEntryKind::HandlerSkipped { on, .. } => Some(format!("skip {on}")),
            _ => None,
        })
        .collect();
    let mut ids: Vec<&str> = report.trace.iter().map(|entry| entry.id.as_str()).collect();
    assert_eq!(ids[0], "trace-1");
    ids.sort();
    ids.dedup();
    assert_eq!(ids.len(), report.trace.len());
    assert_eq!(
        steps,
        vec![
            "dequeue a", "handler 0", "effect 0.0", "effect 0.1", "handler 2", "effect 2.0",
            "dequeue b", "handler 1", "effect 1.0",
            "dequeue c", "skip c",
            "dequeue d", "skip d",
        ]
    );
}

#[test]
fn secret_templates_resolve_and_are_redacted_from_reports() {
    let workflow = load_workflow_yaml(
        r#"
name: secrets
seed_events:
  - type: go
handlers:
  - on: go
    effects:
      - type: rest
        service: api
        method: GET
        path: "/items?key={{ secret.token }}"
"#,
    )
    .expect("workflow parses");
    let mut services = StrMap::new();
    services.insert("api".to_string(), devknife_core::ServiceBinding { base_url: "http://localhost:18101".to_string() });
    let mut secret_refs = StrMap::new();
    secret_refs.insert("token".to_string(), "s3cr3t".to_string());
    let environment = RuntimeEnvironment { services, secret_refs, ..RuntimeEnvironment::default() };
    assert!(validate_workflow_environment(&workflow, &environment).is_ok());
    let runner = Runner::with_environment_and_policy(ExecutionLimits::default(), environment, ExecutionPolicy::allow_all());
    let request = match runner.run(&workflow, "run-secret", &Vec::new()) {
        RunProgress::Awaiting(request) => request,
        RunProgress::Finished(report) => panic!("the request is expected first: {:?}", report.failure),
    };
    assert_eq!(request.path_and_query, "/items?key=s3cr3t");
    assert_eq!(request.url, "http://localhost:18101/items?key=[redacted]");
    let reply = devknife_core::HttpReply::Received(b"HTTP/1.1 200 OK\r\ncontent-type: application/json\r\n\r\n{}".to_vec());
    let report = match runner.run(&workflow, "run-secret", &vec![reply]) {
        RunProgress::Finished(report) => report,
        RunProgress::Awaiting(_) => panic!("the run has its reply"),
    };
    assert_eq!(report.status, RunStatus::Succeeded);
    let text = format!("{:?}", report);
    assert!(!text.contains("s3cr3t"));
    assert!(text.contains("[redacted]"));
}

#[test]
fn missing_secret_reference_fails_the_effect() {
    let workflow = load_workflow_yaml(
        "name: s\nseed_events:\n  - type: go\nhandlers:\n  - on: go\n    effects:\n      - type: rest\n        base_url: http://localhost:1\n        method: GET\n        path: \"/{{ secret.none }}\"\n",
    )
    .expect("workflow parses");
    let report = match Runner::default().run(&workflow, "run-s", &Vec::new()) {
        RunProgress::Finished(report) => report,
        RunProgress::Awaiting(_) => panic!("the request cannot be built"),
    };
    assert_eq!(report.status, RunStatus::Failed);
    assert!(report.failure.unwrap().message.contains("secret reference 'none' was not found"));
}

#[test]
fn runs_without_http_effects_finish_with_no_replies() {
    let progress = Runner::default().run(&load_workflow_yaml(READS.replace("      - type: rest\n        base_url: http://localhost:18101\n        method: GET\n        path: /a\n", "").as_str()).expect("workflow parses"), "run-r", &Vec::new());
    assert!(matches!(progress, RunProgress::Finished(_)));
}

#[test]
fn runs_given_as_many_replies_as_steps_finish() {
    let workflow = load_workflow_yaml(READS).expect("workflow parses");
    let limits = ExecutionLimits { max_events: 10, max_steps: 3, max_depth: 10 };
    let runner = Runner::new(limits);
    let reply = devknife_core::HttpReply::Received(b"HTTP/1.1 200 OK\r\ncontent-type: application/json\r\n\r\n{}".to_vec());
    let replies = vec![reply.clone(), reply.clone(), reply];
    match runner.run(&workflow, "run-steps", &replies) {
        RunProgress::Finished(report) => assert_eq!(report.status, RunStatus::Succeeded),
        RunProgress::Awaiting(_) => panic!("a run with a reply for every step finishes"),
    }
    assert!(matches!(runner.run(&workflow, "run-steps", &Vec::new()), RunProgress::Awaiting(_)));
}

#[test]
fn new_runner_is_the_runner_of_the_default_environment() {
    let limits = ExecutionLimits { max_events: 4, max_steps: 9, max_depth: 2 };
    let plain = Runner::new(limits);
    let defaulted = Runner::with_environment(limits, RuntimeEnvironment::default());
    assert_eq!((plain.limits.max_events, plain.limits.max_steps, plain.limits.max_depth), (defaulted.limits.max_events, defaulted.limits.max_steps, defaulted.limits.max_depth));
    assert_eq!(plain.policy.allow_all_writes, defaulted.policy.allow_all_writes);
    assert!(plain.policy.allowed_capabilities.is_empty() && defaulted.policy.allowed_capabilities.is_empty());
    assert_eq!(plain.environment.name, defaulted.environment.name);
    assert_eq!(plain.environment.services.len(), 0);
    assert_eq!(defaulted.environment.services.len(), 0);
    assert_eq!(plain.environment.secret_refs.len(), defaulted.environment.secret_refs.len());
}
