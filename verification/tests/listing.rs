use devknife_core::{
    is_trace_file_name, is_valid_run_id, list_in_order, newest_runs, run_summary,
    workflow_summary, environment_summary, RunReport, RunStatus, RunSummary, RUN_HISTORY_LIMIT,
};

fn run(id: &str, modified_at_unix_ms: u128) -> RunSummary {
    RunSummary {
        run_id: id.to_string(),
        workflow_name: "w".to_string(),
        status: RunStatus::Succeeded,
        trace_entry_count: 2,
        modified_at_unix_ms,
    }
}

#[test]
fn workflows_are_listed_by_name_keeping_ties_in_order() {
    let names = ["zeta", "alpha", "mid", "alpha", "Beta"];
    let summaries = names
        .iter()
        .enumerate()
        .map(|(index, name)| {
            let mut summary = workflow_summary(
                &format!("examples/workflows/{index}.yaml"),
                format!("{index}.yaml"),
                Err("unreadable".to_string()),
            );
            summary.name = name.to_string();
            summary
        })
        .collect::<Vec<_>>();
    let listed = list_in_order(summaries);
    let order: Vec<(&str, &str)> =
        listed.iter().map(|summary| (summary.name.as_str(), summary.path.as_str())).collect();
    assert_eq!(
        order,
        vec![("Beta", "4.yaml"), ("alpha", "1.yaml"), ("alpha", "3.yaml"), ("mid", "2.yaml"), ("zeta", "0.yaml")]
    );
}

#[test]
fn environments_are_listed_by_name() {
    let listed = list_in_order(vec![
        environment_summary("b.yaml", "b.yaml".to_string(), Err("x".to_string())),
        environment_summary("a.yaml", "a.yaml".to_string(), Err("x".to_string())),
    ]);
    let names: Vec<&str> = listed.iter().map(|summary| summary.name.as_str()).collect();
    assert_eq!(names, vec!["a", "b"]);
}

#[test]
fn run_history_is_newest_first_and_bounded() {
    let runs = (0..25u128).map(|index| run(&format!("run-{index}"), index % 7)).collect::<Vec<_>>();
    let newest = newest_runs(runs);
    assert_eq!(newest.len(), RUN_HISTORY_LIMIT);
    let first: Vec<(&str, u128)> = newest
        .iter()
        .take(5)
        .map(|summary| (summary.run_id.as_str(), summary.modified_at_unix_ms))
        .collect();
    assert_eq!(first, vec![("run-6", 6), ("run-13", 6), ("run-20", 6), ("run-5", 5), ("run-12", 5)]);
    assert!(newest.windows(2).all(|pair| pair[0].modified_at_unix_ms >= pair[1].modified_at_unix_ms));

    let few = newest_runs(vec![run("old", 1), run("new", 9)]);
    let ids: Vec<&str> = few.iter().map(|summary| summary.run_id.as_str()).collect();
    assert_eq!(ids, vec!["new", "old"]);
    assert!(newest_runs(Vec::new()).is_empty());
}

#[test]
fn run_summaries_come_from_reports() {
    let report = RunReport {
        run_id: "abc-1".to_string(),
        workflow_name: "demo".to_string(),
        status: RunStatus::Failed,
        trace: Vec::new(),
        failure: None,
    };
    let summary = run_summary(&report, 42);
    assert_eq!(summary.run_id, "abc-1");
    assert_eq!(summary.workflow_name, "demo");
    assert_eq!(summary.status, RunStatus::Failed);
    assert_eq!(summary.trace_entry_count, 0);
    assert_eq!(summary.modified_at_unix_ms, 42);
}

#[test]
fn trace_file_names_end_with_trace_json() {
    assert!(is_trace_file_name("0b6c.trace.json"));
    assert!(is_trace_file_name(".trace.json"));
    assert!(!is_trace_file_name("trace.json"));
    assert!(!is_trace_file_name("run.trace.json.bak"));
    assert!(!is_trace_file_name("run.json"));
}

#[test]
fn run_ids_are_checked_before_reading() {
    assert!(is_valid_run_id("2f0c1a9e-4b7d-4c3e-9a1b-000000000000"));
    assert!(is_valid_run_id("Run-42"));
    assert!(!is_valid_run_id(""));
    assert!(!is_valid_run_id("../secrets"));
    assert!(!is_valid_run_id("run 1"));
    assert!(!is_valid_run_id("é"));
}
