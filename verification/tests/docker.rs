use herdr_devcontainer_status::docker::{
    best_match, container_for, list, list_command, parse, Container, FORMAT,
};
use herdr_devcontainer_status::process::CommandOutput;

#[test]
fn parses_running_and_exited() {
    let out = "running\t/Users/x/proj\t/Users/x/proj/.devcontainer/devcontainer.json\tvibrant_cat\n\
               exited\t/Users/x/other\t/Users/x/other/.devcontainer/devcontainer.json\tsad_dog\n";
    let cs = parse(out);
    assert_eq!(cs.len(), 2);
    assert!(cs[0].is_running());
    assert!(!cs[1].is_running());
    assert_eq!(cs[1].local_folder, "/Users/x/other");
}

#[test]
fn compose_project_shares_local_folder() {
    let out = "running\t/Users/x/api\t/Users/x/api/.devcontainer/devcontainer.json\tapi-devcontainer-1\n\
               running\t/Users/x/api\t/Users/x/api/.devcontainer/devcontainer.json\tapi-db-1\n";
    let cs = parse(out);
    assert_eq!(cs.len(), 2);
    assert_eq!(cs[0].local_folder, cs[1].local_folder);
}

#[test]
fn skips_blank_and_malformed_lines() {
    let out = "\nrunning\n\
               running\t/Users/x/proj\t\tname-only-no-config\n";
    let cs = parse(out);
    assert_eq!(cs.len(), 1);
    assert_eq!(cs[0].config_file, "");
    assert_eq!(cs[0].name, "name-only-no-config");
}

#[test]
fn empty_output_is_empty_vec() {
    assert!(parse("").is_empty());
}

fn container(state: &str, folder: &str, name: &str) -> Container {
    Container {
        state: state.into(),
        local_folder: folder.into(),
        config_file: format!("{folder}/.devcontainer/devcontainer.json"),
        name: name.into(),
    }
}

#[test]
fn prefers_running_container_in_compose_project() {
    let cs = vec![
        container("exited", "/p/api", "api-db-1"),
        container("running", "/p/api", "api-devcontainer-1"),
    ];
    let m = best_match(&cs, "/p/api").unwrap();
    assert_eq!(m.name, "api-devcontainer-1");
}

#[test]
fn falls_back_to_stopped_container() {
    let cs = vec![container("exited", "/p/api", "api-db-1")];
    let m = best_match(&cs, "/p/api").unwrap();
    assert_eq!(m.name, "api-db-1");
    assert!(!m.is_running());
}

#[test]
fn no_match_for_other_project() {
    let cs = vec![container("running", "/p/api", "api-1")];
    assert!(best_match(&cs, "/p/web").is_none());
}

#[test]
fn container_for_falls_back_to_host_workspace_when_set() {
    let cs = vec![container("running", "/Users/x/repo", "repo-1")];
    // Discovery sees the /workspaces bind mount; the label carries the host path.
    let result = container_for(&cs, "/workspaces/repo", Some("/Users/x/repo"));
    assert_eq!(result.map(|c| c.name.as_str()), Some("repo-1"));
    assert!(container_for(&cs, "/workspaces/repo", None).is_none());
}

#[test]
fn container_for_matches_directly_without_needing_the_fallback() {
    let cs = vec![container("running", "/p/api", "api-1")];
    assert_eq!(
        container_for(&cs, "/p/api", None).map(|c| c.name.as_str()),
        Some("api-1")
    );
}

#[test]
fn a_direct_match_hides_the_fallback() {
    let cs = vec![
        container("exited", "/p/api", "api-1"),
        container("running", "/host/api", "api-2"),
    ];
    let found = container_for(&cs, "/p/api", Some("/host/api")).unwrap();
    assert_eq!(found.name, "api-1");
}

#[test]
fn the_last_of_equals_is_picked() {
    let cs = vec![
        container("running", "/p/api", "first"),
        container("Running", "/p/api", "second"),
        container("exited", "/p/api", "third"),
        container("running", "/p/web", "fourth"),
    ];
    assert_eq!(best_match(&cs, "/p/api").unwrap().name, "second");
    let stopped = vec![
        container("exited", "/p/api", "first"),
        container("created", "/p/api", "second"),
    ];
    assert_eq!(best_match(&stopped, "/p/api").unwrap().name, "second");
}

#[test]
fn folders_are_compared_as_paths() {
    let cs = vec![container("running", "/p//api/.", "api-1")];
    assert!(best_match(&cs, "/p/api/").is_some());
    assert!(best_match(&cs, "p/api").is_none());
}

#[test]
fn fields_are_trimmed_and_a_missing_name_is_empty() {
    let cs = parse(" running \t /p/a \t /p/a/c.json \r\nexited\t/p/b\tc\tn\textra");
    assert_eq!(cs.len(), 2);
    assert_eq!(cs[0], {
        let mut c = container("running", "/p/a", "");
        c.config_file = "/p/a/c.json".to_string();
        c
    });
    assert_eq!(cs[1].name, "n");
    assert!(parse("running\t/p/a").is_empty());
    assert!(parse(" \t/p/a\tc\tn").is_empty());
    assert!(parse("running\t \tc\tn").is_empty());
}

#[test]
fn lists_what_docker_prints() {
    let ran = CommandOutput {
        success: true,
        stdout: b"running\t/p/a\tc\tn\n".to_vec(),
        stderr: b"ignored".to_vec(),
    };
    let cs = list(Ok(ran)).unwrap();
    assert_eq!(cs.len(), 1);
    assert_eq!(cs[0].name, "n");
}

#[test]
fn a_failed_probe_is_an_error_and_not_an_empty_list() {
    let ran = CommandOutput {
        success: false,
        stdout: b"running\t/p/a\tc\tn\n".to_vec(),
        stderr: b"  daemon down\xff\n".to_vec(),
    };
    assert_eq!(
        list(Ok(ran)),
        Err("docker ps failed: daemon down\u{fffd}".to_string())
    );
    assert_eq!(
        list(Err("not found".to_string())),
        Err("failed to run docker: not found".to_string())
    );
    let none = CommandOutput {
        success: true,
        stdout: Vec::new(),
        stderr: Vec::new(),
    };
    assert_eq!(list(Ok(none)), Ok(Vec::new()));
}

#[test]
fn the_listing_command_asks_for_every_state() {
    let call = list_command();
    assert_eq!(call.program, "docker");
    assert_eq!(
        call.args,
        [
            "ps",
            "-a",
            "--filter",
            "label=devcontainer.local_folder",
            "--format",
            FORMAT
        ]
    );
    assert_eq!(FORMAT.matches('\t').count(), 3);
}

#[test]
fn lines_of_a_listing_are_read_one_by_one() {
    let a = "running\t/p/a\tc\tn\nbad\n";
    let b = "exited\t/p/b\tc\tm\n";
    let mut parts = parse(a);
    parts.extend(parse(b));
    assert_eq!(parse(&format!("{a}{b}")), parts);
}
