use herdr_devcontainer_status::session::{
    advertised_socket, bootstrap_call, candidates_in, cli_candidates, devcontainer, is_executable,
    relay_in_container, report, resolve_cli, run, session_env, spoof_argv0, unknown_agent_warning,
    wait, which_in, workspace_cwd, FileState, RunPlan, CLI_HINT, EXEC_USAGE, NO_CLI,
    NO_CONFIGURATION, NO_PANE,
};
use herdr_devcontainer_status::settings::{CONTAINER_SOCKET, DEFAULT_PORT};

fn args(v: &[&str]) -> Vec<String> {
    v.iter().map(|s| s.to_string()).collect::<Vec<_>>()
}

#[test]
fn session_env_carries_everything_the_hook_requires() {
    let env = session_env("w9:p3", "/home/node/.herdr/herdr.sock", DEFAULT_PORT);
    let keys: Vec<&str> = env.iter().map(|(k, _)| *k).collect();
    assert!(keys.contains(&"HERDR_ENV"));
    assert!(keys.contains(&"HERDR_PANE_ID"));
    assert!(keys.contains(&"HERDR_SOCKET_PATH"));
    let sock = env.iter().find(|(k, _)| *k == "HERDR_SOCKET_PATH").unwrap();
    // Whatever the relay resolved, e.g. for a non-vscode remote user: never a hard-coded
    // home directory.
    assert_eq!(sock.1, "/home/node/.herdr/herdr.sock");
    let pane = env.iter().find(|(k, _)| *k == "HERDR_PANE_ID").unwrap();
    assert_eq!(pane.1, "w9:p3");
    let port = env.iter().find(|(k, _)| *k == "HERDR_RELAY_PORT").unwrap();
    assert_eq!(port.1, "47100");
}

#[test]
fn each_variable_gets_a_remote_env_flag() {
    let cmd = devcontainer(
        "/bin/devcontainer",
        "/p/api",
        &session_env("w9:p3", "/home/vscode/.herdr/herdr.sock", DEFAULT_PORT),
        &["codex".to_string(), "--continue".to_string()],
    );
    let args = cmd.args;
    assert_eq!(cmd.program, "/bin/devcontainer");
    assert_eq!(args[0], "exec");
    assert_eq!(args[1..3], ["--workspace-folder", "/p/api"]);
    assert_eq!(args.iter().filter(|a| *a == "--remote-env").count(), 4);
    assert!(args.contains(&"HERDR_ENV=1".to_string()));
    assert!(args.contains(&"HERDR_PANE_ID=w9:p3".to_string()));
    // The command stays last and intact, arguments included.
    assert_eq!(args[args.len() - 2..], ["codex", "--continue"]);
}

#[test]
fn no_remote_env_flags_without_a_pane() {
    let cmd = devcontainer("/bin/devcontainer", "/p/api", &[], &["bash".to_string()]);
    assert_eq!(cmd.args, ["exec", "--workspace-folder", "/p/api", "bash"]);
}

const GONE: FileState = FileState {
    is_file: false,
    mode: 0,
};
const PLAIN: FileState = FileState {
    is_file: true,
    mode: 0o100644,
};
const PROGRAM: FileState = FileState {
    is_file: true,
    mode: 0o100755,
};

#[test]
fn which_in_skips_non_executables_and_missing_dirs() {
    let dirs = args(&["/t/gone", "/t/empty", "/t/bin"]);
    assert_eq!(
        candidates_in("devcontainer", &dirs),
        ["/t/gone/devcontainer", "/t/empty/devcontainer", "/t/bin/devcontainer"]
    );
    // Present but not executable yet.
    assert_eq!(which_in("devcontainer", &dirs, &vec![GONE, GONE, PLAIN]), None);
    assert_eq!(
        which_in("devcontainer", &dirs, &vec![GONE, GONE, PROGRAM]),
        Some("/t/bin/devcontainer".to_string())
    );
    assert_eq!(
        which_in("devcontainer", &dirs, &vec![PLAIN, PROGRAM, PROGRAM]),
        Some("/t/empty/devcontainer".to_string())
    );
}

#[test]
fn executables_are_files_with_an_execute_bit() {
    assert!(is_executable(PROGRAM));
    assert!(!is_executable(PLAIN));
    assert!(!is_executable(GONE));
    for mode in [0o100, 0o010, 0o001] {
        assert!(is_executable(FileState { is_file: true, mode }));
        assert!(!is_executable(FileState { is_file: false, mode }));
    }
}

#[test]
fn cli_candidates_are_absolute_and_include_the_npm_global_bin() {
    let c = cli_candidates("/Users/x");
    assert!(c.iter().all(|p| p.starts_with('/')));
    assert!(c.contains(&"/Users/x/.local/bin/devcontainer".to_string()));
    assert!(c.contains(&"/Users/x/.npm-global/bin/devcontainer".to_string()));
}

#[test]
fn the_cli_on_path_comes_before_the_usual_places() {
    let dirs = args(&["/a", "/b"]);
    let none = vec![GONE, PLAIN];
    let all = vec![PROGRAM; 4];
    assert_eq!(
        resolve_cli(&dirs, &vec![GONE, PROGRAM], "/h", &all),
        Some("/b/devcontainer".to_string())
    );
    assert_eq!(
        resolve_cli(&dirs, &none, "/h", &vec![GONE, GONE, PROGRAM, PROGRAM]),
        Some("/opt/homebrew/bin/devcontainer".to_string())
    );
    assert_eq!(resolve_cli(&dirs, &none, "/h", &vec![GONE; 4]), None);
}

fn text(s: &str) -> Option<String> {
    Some(s.to_string())
}

fn refusal(code: i32, messages: &[&str]) -> RunPlan {
    RunPlan::Refuse {
        code,
        messages: args(messages),
    }
}

#[test]
fn what_cannot_be_run_is_refused() {
    let bash = args(&["bash"]);
    assert_eq!(
        run(&args(&[]), text("/p"), text("/cli"), text("w1"), false),
        refusal(2, &[EXEC_USAGE])
    );
    assert_eq!(
        run(&args(&["--agent"]), None, None, None, false),
        refusal(2, &["exec: --agent needs an agent name, e.g. --agent codex bash"])
    );
    assert_eq!(
        run(&bash, None, None, text("w1"), false),
        refusal(1, &[NO_CONFIGURATION])
    );
    assert_eq!(
        run(&bash, text("/p"), None, text("w1"), false),
        refusal(127, &[NO_CLI, CLI_HINT])
    );
}

#[test]
fn without_a_pane_the_command_still_runs() {
    for pane in [None, text("")] {
        let plan = run(&args(&["codex", "-c"]), text("/p"), text("/cli"), pane, false);
        match plan {
            RunPlan::Unreported { message, call } => {
                assert_eq!(message, NO_PANE);
                assert_eq!(call.program, "/cli");
                assert_eq!(call.args, ["exec", "--workspace-folder", "/p", "codex", "-c"]);
            }
            other => panic!("{other:?}"),
        }
    }
}

#[test]
fn a_pane_makes_the_command_a_session() {
    let plan = run(
        &args(&["--agent", "cursor-agent", "bash", "-l"]),
        text("/p"),
        text("/cli"),
        text("w9:p3"),
        false,
    );
    let session = match plan {
        RunPlan::Reported(session) => session,
        other => panic!("{other:?}"),
    };
    assert_eq!(session.warning, None);
    let again = session.respawn.as_ref().unwrap();
    assert_eq!(again.argv0, "cursor");
    assert_eq!(again.args, ["exec", "bash", "-l"]);
    let call = session.call("/root/.herdr/herdr.sock", 5000);
    assert_eq!(call.program, "/cli");
    assert_eq!(
        call.args,
        [
            "exec",
            "--workspace-folder",
            "/p",
            "--remote-env",
            "HERDR_ENV=1",
            "--remote-env",
            "HERDR_PANE_ID=w9:p3",
            "--remote-env",
            "HERDR_SOCKET_PATH=/root/.herdr/herdr.sock",
            "--remote-env",
            "HERDR_RELAY_PORT=5000",
            "bash",
            "-l",
        ]
    );
}

#[test]
fn a_spoofed_process_does_not_spoof_itself_again() {
    let codex = args(&["/usr/bin/codex"]);
    assert_eq!(spoof_argv0(&codex, None, true), None);
    assert_eq!(spoof_argv0(&codex, None, false).unwrap().argv0, "codex");
    assert_eq!(spoof_argv0(&args(&["bash"]), None, false), None);
    assert_eq!(
        spoof_argv0(&args(&["bash"]), Some("x"), false).unwrap().argv0,
        "x"
    );
}

#[test]
fn an_unknown_agent_is_claimed_with_a_warning() {
    assert_eq!(
        unknown_agent_warning(Some("hypo\"thetical\n")).unwrap(),
        "exec: unknown agent \"hypo\\\"thetical\\n\" — claiming it anyway; herdr will ignore it unless it recognises the name"
    );
    assert_eq!(unknown_agent_warning(Some("codex")), None);
    assert_eq!(unknown_agent_warning(None), None);
    let plan = run(
        &args(&["--agent", "hypo", "sh"]),
        text("/p"),
        text("/cli"),
        text("w"),
        false,
    );
    match plan {
        RunPlan::Reported(session) => {
            assert!(session.warning.unwrap().starts_with("exec: unknown agent \"hypo\" "));
            assert_eq!(session.respawn.unwrap().argv0, "hypo");
        }
        other => panic!("{other:?}"),
    }
}

#[test]
fn a_failed_relay_costs_agent_state_only() {
    assert_eq!(
        advertised_socket(Ok("/s".to_string())),
        ("/s".to_string(), None)
    );
    assert_eq!(
        advertised_socket(Err("no relay".to_string())),
        (CONTAINER_SOCKET.to_string(), text("no relay"))
    );
}

#[test]
fn outcomes_are_reported_unless_empty() {
    assert_eq!(report(Ok("up".to_string())), text("up"));
    assert_eq!(report(Ok(String::new())), None);
    assert_eq!(report(Err(String::new())), text(""));
    assert_eq!(report(Err("down".to_string())), text("down"));
}

#[test]
fn exit_codes_are_handed_back() {
    assert_eq!(wait(Ok(Some(3))), (3, None));
    assert_eq!(wait(Ok(None)), (1, None));
    assert_eq!(wait(Err("gone".to_string())), (1, text("exec: gone")));
}

#[test]
fn driving_the_relay_takes_a_project_and_a_cli() {
    assert_eq!(
        relay_in_container(None, text("/cli")),
        Err((1, NO_CONFIGURATION.to_string()))
    );
    assert_eq!(
        relay_in_container(text("/p"), None),
        Err((127, NO_CLI.to_string()))
    );
    assert_eq!(
        relay_in_container(text("/p"), text("/cli")),
        Ok(("/cli".to_string(), "/p".to_string()))
    );
}

#[test]
fn the_panes_directory_comes_before_ours() {
    assert_eq!(workspace_cwd(text("/a"), text("/b")), text("/a"));
    assert_eq!(workspace_cwd(None, text("/b")), text("/b"));
    assert_eq!(workspace_cwd(None, None), None);
}

#[test]
fn a_bootstrap_script_is_told_where_the_bridge_is() {
    let call = bootstrap_call("/cli", "/p", &args(&["sh", "-c", "x"]), 5000, "172.17.0.1");
    assert_eq!(call.program, "/cli");
    assert_eq!(
        call.args,
        [
            "exec",
            "--workspace-folder",
            "/p",
            "--remote-env",
            "HERDR_RELAY_PORT=5000",
            "--remote-env",
            "HERDR_RELAY_HOST=172.17.0.1",
            "sh",
            "-c",
            "x",
        ]
    );
}
