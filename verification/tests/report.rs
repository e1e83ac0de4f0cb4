use herdr_devcontainer_status::discover::Discovery;
use herdr_devcontainer_status::docker::Container;
use herdr_devcontainer_status::process::CommandOutput;
use herdr_devcontainer_status::push::container_name;
use herdr_devcontainer_status::report::{
    context_cwd, cwd_field, pane_cwd, parse_context_cwd, publish, queried_cwd, query_command,
    report_command,
};
use herdr_devcontainer_status::status::{detect, Status};

fn text(s: &str) -> Option<String> {
    Some(s.to_string())
}

#[test]
fn parses_cwd_from_a_nested_pane_object() {
    let raw = r#"{"pane": {"foreground_cwd": "/p/api", "cwd": "/p"}}"#;
    assert_eq!(parse_context_cwd(raw), text("/p/api"));
}

#[test]
fn falls_back_to_plain_cwd_when_foreground_cwd_is_absent() {
    let raw = r#"{"pane": {"cwd": "/p/api"}}"#;
    assert_eq!(parse_context_cwd(raw), text("/p/api"));
}

#[test]
fn falls_back_to_the_workspace_when_there_is_no_pane() {
    let raw = r#"{"workspace": {"cwd": "/p/api"}}"#;
    assert_eq!(parse_context_cwd(raw), text("/p/api"));
}

#[test]
fn gives_up_cleanly_on_unrecognised_shapes() {
    assert_eq!(parse_context_cwd(r#"{"tab": {"id": "t1"}}"#), None);
    assert_eq!(parse_context_cwd("not json"), None);
    assert_eq!(parse_context_cwd(""), None);
}

#[test]
fn the_nearest_directory_in_a_context_wins() {
    let raw = r#"{"cwd": "/d", "workspace": {"cwd": "/c"}, "focused_pane": {"cwd": "/b"}, "pane": {"cwd": "/a"}}"#;
    assert_eq!(parse_context_cwd(raw), text("/a"));
    let raw = r#"{"cwd": "/d", "workspace": {"cwd": "/c"}, "focused_pane": {"cwd": "/b"}}"#;
    assert_eq!(parse_context_cwd(raw), text("/b"));
    let raw = r#"{"cwd": "/d", "workspace": {"cwd": "/c"}, "focused_pane": {}}"#;
    assert_eq!(parse_context_cwd(raw), text("/c"));
    let raw = r#"{"cwd": "/d", "workspace": null, "pane": ["cwd"]}"#;
    assert_eq!(parse_context_cwd(raw), text("/d"));
    // A foreground directory that is there but no string hides the plain one.
    let raw = r#"{"cwd": "/d", "pane": {"foreground_cwd": null, "cwd": "/a"}}"#;
    assert_eq!(parse_context_cwd(raw), text("/d"));
    assert_eq!(parse_context_cwd(r#""cwd""#), None);
    assert_eq!(parse_context_cwd(r#"{"cwd": "/a\n"}"#), text("/a\n"));
}

#[test]
fn parsed_values_are_read_the_same_way() {
    let value: serde_json::Value =
        serde_json::from_str(r#"{"pane": {"cwd": "/a"}, "cwd": "/d"}"#).unwrap();
    assert_eq!(context_cwd(&value), text("/a"));
    assert_eq!(cwd_field(Some(&value)), text("/d"));
    assert_eq!(cwd_field(value.get("pane")), text("/a"));
    assert_eq!(cwd_field(value.get("tab")), None);
    assert_eq!(cwd_field(None), None);
}

fn answer(success: bool, stdout: &[u8]) -> CommandOutput {
    CommandOutput {
        success,
        stdout: stdout.to_vec(),
        stderr: Vec::new(),
    }
}

#[test]
fn herdrs_answer_names_the_directory() {
    let raw = r#"{"cwd": "/p", "foreground_cwd": "/p/é"}"#;
    assert_eq!(queried_cwd(&answer(true, raw.as_bytes())), text("/p/é"));
    assert_eq!(queried_cwd(&answer(false, raw.as_bytes())), None);
    assert_eq!(queried_cwd(&answer(true, b"{\"cwd\": \"\xff\"}")), None);
    // Only its own fields count here.
    assert_eq!(queried_cwd(&answer(true, b"{\"pane\": {\"cwd\": \"/p\"}}")), None);
    let call = query_command(Some("/bin/herdr"), Some("w9:p3")).unwrap();
    assert_eq!(call.program, "/bin/herdr");
    assert_eq!(call.args, ["pane", "get", "w9:p3"]);
    assert_eq!(query_command(None, Some("w9:p3")), None);
    assert_eq!(query_command(Some("/bin/herdr"), None), None);
}

#[test]
fn the_directory_is_asked_for_cheapest_first() {
    let (a, b, c, d) = (text("/a"), text("/b"), text("/c"), text("/d"));
    assert_eq!(pane_cwd(a, b.clone(), c.clone(), d.clone()), "/a");
    assert_eq!(pane_cwd(None, b, c.clone(), d.clone()), "/b");
    assert_eq!(pane_cwd(None, None, c, d.clone()), "/c");
    assert_eq!(pane_cwd(None, None, None, d), "/d");
    assert_eq!(pane_cwd(None, None, None, None), ".");
}

#[test]
fn reports_a_running_status_as_a_pane_token() {
    let cmd = report_command("herdr", false, Some("w9:p3"), None, "running").unwrap();
    assert_eq!(
        cmd.args,
        [
            "pane",
            "report-metadata",
            "w9:p3",
            "--source",
            "devcontainer-status",
            "--token",
            "devcontainer=running",
        ]
    );
    assert_eq!(cmd.program, "herdr");
}

#[test]
fn clears_the_token_when_there_is_no_devcontainer() {
    let cmd = report_command("herdr", false, Some("w9:p3"), None, "none").unwrap();
    let args = cmd.args;
    assert_eq!(args[args.len() - 2..], ["--clear-token", "devcontainer"]);
}

#[test]
fn workspace_wide_reports_target_the_workspace() {
    let cmd = report_command("herdr", true, Some("w9:p3"), Some("w9"), "running").unwrap();
    assert_eq!(cmd.args[0], "workspace");
    assert_eq!(cmd.args[2], "w9");
}

#[test]
fn no_command_without_the_id_it_needs() {
    assert!(report_command("herdr", false, None, Some("w9"), "running").is_none());
    assert!(report_command("herdr", true, Some("w9:p3"), None, "running").is_none());
}

fn container(state: &str, folder: &str) -> Container {
    Container {
        state: state.to_string(),
        local_folder: folder.to_string(),
        config_file: String::new(),
        name: "api-1".to_string(),
    }
}

fn found(root: &str) -> Discovery {
    Discovery {
        project_root: root.to_string(),
        configs: Vec::new(),
    }
}

#[test]
fn the_status_tells_what_was_found() {
    let status = |status, project_root, container, error| Status {
        status,
        project_root,
        container,
        error,
    };
    assert_eq!(detect(None, None), status("none", None, None, None));
    assert_eq!(
        detect(Some((found("/p"), Err("docker down".to_string()))), None),
        status("error", text("/p"), None, text("docker down"))
    );
    assert_eq!(
        detect(Some((found("/p"), Ok(Vec::new()))), Some("/q")),
        status("none", text("/p"), None, None)
    );
    assert_eq!(
        detect(Some((found("/p"), Ok(vec![container("RUNNING", "/p")]))), None),
        status("running", text("/p"), text("api-1"), None)
    );
    assert_eq!(
        detect(Some((found("/p"), Ok(vec![container("exited", "/h")]))), Some("/h")),
        status("stopped", text("/p"), text("api-1"), None)
    );
}

#[test]
fn the_status_and_the_session_mean_the_same_container() {
    for root in ["/p", "/h", "/x"] {
        let cs = || vec![container("exited", "/p"), container("running", "/h")];
        let status = detect(Some((found(root), Ok(cs()))), Some("/h"));
        assert_eq!(status.container, container_name(Ok(cs()), root, Some("/h")).ok());
    }
}

#[test]
fn the_status_and_the_session_give_the_same_reason() {
    let status = detect(Some((found("/p"), Err("docker down".to_string()))), None);
    let named = container_name(Err("docker down".to_string()), "/p", None);
    assert_eq!(status.status, "error");
    assert_eq!(status.error, named.err());
    let status = detect(Some((found("/p"), Ok(Vec::new()))), None);
    assert_eq!(status.status, "none");
    assert_eq!(
        container_name(Ok(Vec::new()), "/p", None),
        Err("exec: no container labelled for /p".to_string())
    );
}

#[test]
fn a_status_is_published_through_herdrs_binary() {
    let status = detect(Some((found("/p"), Ok(vec![container("exited", "/p")]))), None);
    let call = publish(Some("/bin/herdr"), false, Some("w9:p3"), None, &status).unwrap();
    assert_eq!(call.program, "/bin/herdr");
    assert_eq!(call.args.last().unwrap(), "devcontainer=stopped");
    assert_eq!(publish(None, false, Some("w9:p3"), None, &status), None);
    assert_eq!(publish(Some("/bin/herdr"), true, Some("w9:p3"), None, &status), None);
}
