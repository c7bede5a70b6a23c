use devknife_core::paths::{
    check_environment_path, check_repo_path, check_workflow_path, confine_discovered_path,
    guard_workflow_save, path_to_ui, relative_below,
};
use devknife_core::load_workflow_yaml;

const ROOT: &str = "/tmp/devknife-root";

#[test]
fn repository_path_guards_accept_yaml_extensions() {
    let workflows = "/tmp/devknife-root/examples/workflows";
    let environments = "/tmp/devknife-root/examples/environments";
    assert_eq!(
        check_workflow_path(ROOT, workflows, "/tmp/devknife-root/examples/workflows/workflow.yml"),
        Ok("/tmp/devknife-root/examples/workflows/workflow.yml".to_string())
    );
    assert_eq!(
        check_environment_path(ROOT, environments, "/tmp/devknife-root/examples/environments/environment.yaml"),
        Ok("/tmp/devknife-root/examples/environments/environment.yaml".to_string())
    );
    assert_eq!(
        check_workflow_path(ROOT, workflows, "/tmp/devknife-root/examples/workflows/workflow.json"),
        Err("workflow source path must be a YAML file in examples/workflows".to_string())
    );
    assert_eq!(
        check_workflow_path(ROOT, workflows, "/tmp/devknife-root/examples/environments/environment.yaml"),
        Err("workflow source path must be a YAML file in examples/workflows".to_string())
    );
    assert_eq!(
        check_environment_path(ROOT, environments, "/tmp/elsewhere/environment.yaml"),
        Err("workflow path must stay inside the repository".to_string())
    );
}

#[test]
fn discovery_rejects_artifacts_outside_its_directory() {
    let allowed = "/tmp/devknife-confined/allowed";
    assert_eq!(
        confine_discovered_path(
            allowed,
            "/tmp/devknife-confined/allowed/inside.yaml",
            "/tmp/devknife-confined/allowed/inside.yaml"
        ),
        Ok("/tmp/devknife-confined/allowed/inside.yaml".to_string())
    );
    assert_eq!(
        confine_discovered_path(allowed, "/tmp/devknife-confined/outside.yaml", "/tmp/devknife-confined/outside.yaml"),
        Err("artifact /tmp/devknife-confined/outside.yaml resolves outside /tmp/devknife-confined/allowed".to_string())
    );
}

#[test]
fn paths_are_compared_by_whole_components() {
    assert_eq!(relative_below("/a/b", "/a/b/c/d.yaml"), Some("c/d.yaml".to_string()));
    assert_eq!(relative_below("/a/b", "/a/b"), Some(String::new()));
    assert_eq!(relative_below("/a/b", "/a/bc/d.yaml"), None);
    assert_eq!(relative_below("/", "/a"), Some("a".to_string()));
    assert!(check_repo_path("/a/b", "/a/bc").is_err());
}

#[test]
fn paths_are_shown_relative_to_the_root() {
    assert_eq!(path_to_ui(ROOT, "/tmp/devknife-root/examples/workflows/w.yaml"), "examples/workflows/w.yaml");
    assert_eq!(path_to_ui(ROOT, "/var/other.yaml"), "/var/other.yaml");
}

#[test]
fn saving_is_guarded_by_loading_and_by_the_file_on_disk() {
    let source = "name: saved\nseed_events:\n  - type: go\nhandlers: []\n";
    assert_eq!(guard_workflow_save(load_workflow_yaml(source), "old", "old"), Ok(()));
    assert_eq!(
        guard_workflow_save(load_workflow_yaml(source), "changed", "old"),
        Err("workflow changed on disk since it was loaded; reload before saving".to_string())
    );
    let broken = load_workflow_yaml("name: [");
    let message = broken.as_ref().map(|_| ()).unwrap_err().message();
    assert!(message.starts_with("failed to parse workflow YAML: "));
    assert_eq!(guard_workflow_save(broken, "old", "old"), Err(message));
}
