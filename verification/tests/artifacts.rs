use devknife_core::{
    artifact_name, environment_summary, is_yaml_path, summarize_environment, summarize_workflow,
    validate_workflow_source, workflow_summary, workflow_validation, LoadError, ParseError,
};

const PLANNED: &str = r#"
version: devknife.workflow/v1alpha1
name: planned
seed_events:
  - type: workflow.started
  - type: workflow.resumed
handlers:
  - on: workflow.started
    effects:
      - type: rest
        base_url: http://localhost:18101
        method: GET
        path: /health
      - type: rest
        base_url: http://localhost:18101
        method: GET
        path: /ready
  - on: workflow.resumed
    effects:
      - type: sqs_receive
        endpoint_url: http://localhost:18104
        queue_url: http://localhost:18104/100010001000/devknife-workflow-input
        delete_on_success: true
"#;

#[test]
fn workflow_validation_reports_yaml_locations() {
    let result = validate_workflow_source("name: [".to_string());

    assert!(!result.valid);
    assert_eq!(result.kind, Some("syntax"));
    assert!(result.line.is_some());
    assert!(result.column.is_some());
}

#[test]
fn workflow_validation_distinguishes_semantic_errors() {
    let result = validate_workflow_source("name: ''".to_string());

    assert!(!result.valid);
    assert_eq!(result.kind, Some("semantic"));
    assert!(result.message.contains("workflow name is required"));
    assert_eq!(result.line, None);
}

#[test]
fn valid_workflow_source_is_reported_valid() {
    let result = validate_workflow_source(PLANNED.to_string());

    assert!(result.valid);
    assert_eq!(result.kind, None);
    assert_eq!(result.message, "Workflow is valid.");
    assert_eq!((result.line, result.column), (None, None));
}

#[test]
fn validation_of_a_parse_error_keeps_its_place() {
    let located = workflow_validation(Err(LoadError::Parse(ParseError {
        message: "bad indentation".to_string(),
        line: Some(3),
        column: Some(7),
    })));
    assert_eq!(located.kind, Some("syntax"));
    assert_eq!(located.message, "bad indentation");
    assert_eq!((located.line, located.column), (Some(3), Some(7)));

    let half = workflow_validation(Err(LoadError::Parse(ParseError {
        message: "no place".to_string(),
        line: Some(3),
        column: None,
    })));
    assert_eq!((half.line, half.column), (None, None));

    let semantic = workflow_validation(Err(LoadError::Validation("handler 0 has no effects".to_string())));
    assert_eq!(semantic.kind, Some("semantic"));
    assert_eq!(semantic.message, "handler 0 has no effects");
}

#[test]
fn yaml_paths_are_recognised_by_extension() {
    assert!(is_yaml_path("examples/workflows/workflow.yml"));
    assert!(is_yaml_path("/repo/examples/environments/environment.yaml"));
    assert!(is_yaml_path("nested/dir/name.yaml/"));
    assert!(is_yaml_path("a.b.yaml"));
    assert!(!is_yaml_path("examples/workflows/workflow.json"));
    assert!(!is_yaml_path("examples/workflows/workflow.YAML"));
    assert!(!is_yaml_path(".yaml"));
    assert!(!is_yaml_path("dir/.."));
    assert!(!is_yaml_path("/"));
    assert!(!is_yaml_path("yaml"));
}

#[test]
fn artifact_names_are_file_stems() {
    assert_eq!(artifact_name("/tmp/x/broken.workflow.yaml", "workflow"), "broken.workflow");
    assert_eq!(artifact_name("plain", "workflow"), "plain");
    assert_eq!(artifact_name("dir/.hidden", "workflow"), ".hidden");
    assert_eq!(artifact_name("dir/name.yaml/.", "workflow"), "name");
    assert_eq!(artifact_name("dir/..", "environment"), "environment");
    assert_eq!(artifact_name("", "environment"), "environment");
}

#[test]
fn invalid_artifacts_produce_error_summaries() {
    let workflow = summarize_workflow(
        "/tmp/artifacts/broken.workflow.yaml",
        "broken.workflow.yaml".to_string(),
        Ok("name: [".to_string()),
    );
    let environment = summarize_environment(
        "/tmp/artifacts/broken.environment.yaml",
        "broken.environment.yaml".to_string(),
        Ok("services: [".to_string()),
    );

    assert!(!workflow.valid);
    assert_eq!(workflow.name, "broken.workflow");
    assert_eq!(workflow.version, "invalid");
    assert!(workflow
        .validation_error
        .as_deref()
        .is_some_and(|message| message.starts_with("failed to parse workflow YAML: ")));
    assert_eq!(workflow.path, "broken.workflow.yaml");
    assert!(!environment.valid);
    assert_eq!(environment.name, "broken.environment");
    assert!(environment.validation_error.is_some());
}

#[test]
fn unreadable_artifacts_show_the_read_error() {
    let workflow = summarize_workflow(
        "examples/workflows/gone.yaml",
        "examples/workflows/gone.yaml".to_string(),
        Err("failed to read workflow: not found".to_string()),
    );
    assert!(!workflow.valid);
    assert_eq!(workflow.name, "gone");
    assert_eq!(
        workflow.validation_error.as_deref(),
        Some("failed to read workflow: not found")
    );
    assert_eq!(
        (workflow.seed_event_count, workflow.handler_count, workflow.effect_count, workflow.capability_count),
        (0, 0, 0, 0)
    );

    let environment = environment_summary("envs/local.yaml", "envs/local.yaml".to_string(), Err("denied".to_string()));
    assert_eq!(environment.name, "local");
    assert_eq!(environment.validation_error.as_deref(), Some("denied"));
}

#[test]
fn valid_workflow_summary_counts_seeds_handlers_effects_and_capabilities() {
    let summary = summarize_workflow(
        "examples/workflows/planned.yaml",
        "examples/workflows/planned.yaml".to_string(),
        Ok(PLANNED.to_string()),
    );
    assert!(summary.valid);
    assert_eq!(summary.name, "planned");
    assert_eq!(summary.version, "devknife.workflow/v1alpha1");
    assert_eq!(summary.validation_error, None);
    assert_eq!(summary.seed_event_count, 2);
    assert_eq!(summary.handler_count, 2);
    assert_eq!(summary.effect_count, 3);
    // network.http.read twice, aws.sqs.receive and aws.sqs.delete: three distinct ids.
    assert_eq!(summary.capability_count, 3);
}

#[test]
fn environment_summary_uses_its_name_or_the_file_stem() {
    let named = summarize_environment(
        "examples/environments/local.yaml",
        "examples/environments/local.yaml".to_string(),
        Ok("name: staging\nservices:\n  api:\n    base_url: http://localhost:1\nvalues:\n  a: b\n  c: d\nsecret_refs:\n  token: env:TOKEN\n".to_string()),
    );
    assert!(named.valid);
    assert_eq!(named.name, "staging");
    assert_eq!((named.service_count, named.value_count, named.secret_count), (1, 2, 1));

    let unnamed = summarize_environment(
        "examples/environments/local.yaml",
        "local.yaml".to_string(),
        Ok("values:\n  a: b\n".to_string()),
    );
    assert!(unnamed.valid);
    assert_eq!(unnamed.name, "local");
    assert_eq!(unnamed.path, "local.yaml");
    assert_eq!((unnamed.service_count, unnamed.value_count, unnamed.secret_count), (0, 1, 0));
}

#[test]
fn environment_validation_errors_show_in_summaries() {
    let summary = summarize_environment(
        "examples/environments/bad.yaml",
        "bad.yaml".to_string(),
        Ok("services:\n  api:\n    base_url: '  '\n".to_string()),
    );
    assert!(!summary.valid);
    assert_eq!(summary.name, "bad");
    assert_eq!(
        summary.validation_error.as_deref(),
        Some("workflow validation failed: environment service api.base_url is required")
    );
}
