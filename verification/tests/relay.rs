use herdr_devcontainer_status::cli::version_line;
use herdr_devcontainer_status::docker::Container;
use herdr_devcontainer_status::process::CommandOutput;
use herdr_devcontainer_status::push::{
    begin_push, bundled_relay_binary, container_name, musl_triple, push_command,
    push_relay_binary, PushEvent, PushStep,
};
use herdr_devcontainer_status::relay::{
    bootstrap_env, container_relay, fallback_script, forwarded_lines, forwards,
    parse_bootstrap_output,
    probe_relay, probe_script, probe_source_fallback, run_bootstrap, shown_stderr, shown_stdout,
    BootstrapOutput, Probe,
    RelayEvent, RelayStep, NO_SOCKET_PATH, RELAY_BOOTSTRAP, RELAY_UNAVAILABLE, SOURCE_FALLBACK,
    VERSION,
};

fn text(s: &str) -> String {
    s.to_string()
}

#[test]
fn relay_bootstrap_resolves_home_and_reports_what_it_needs() {
    // Exercised as `sh -c <script> relay-bootstrap <version> <verb>`.
    assert!(RELAY_BOOTSTRAP.contains(r#"sock="${HOME:-/root}/.herdr/herdr.sock""#));
    assert!(RELAY_BOOTSTRAP.contains(r#"exec "$cand" relay "$verb""#));
    assert!(RELAY_BOOTSTRAP.contains("herdr-need=$(uname -m)"));
    assert!(RELAY_BOOTSTRAP.contains("exit 42"));
    // No unconditional cargo build in the fast path: that breaks on any project that
    // isn't this crate.
    assert!(!RELAY_BOOTSTRAP.contains("cargo build"));
}

#[test]
fn source_fallback_refuses_an_unrelated_project() {
    assert!(SOURCE_FALLBACK.contains(r#"grep -q '^name = "herdr-devcontainer-status"'"#));
    assert!(SOURCE_FALLBACK.contains("cargo build --release --locked"));
}

#[test]
fn musl_triple_maps_known_arches_and_rejects_the_rest() {
    assert_eq!(musl_triple("x86_64"), Some("x86_64-unknown-linux-musl"));
    assert_eq!(musl_triple("amd64"), Some("x86_64-unknown-linux-musl"));
    assert_eq!(musl_triple("aarch64"), Some("aarch64-unknown-linux-musl"));
    assert_eq!(musl_triple("arm64"), Some("aarch64-unknown-linux-musl"));
    assert_eq!(musl_triple("armv7l"), None);
    assert_eq!(musl_triple(""), None);
}

#[test]
fn parses_the_resolved_socket_when_a_candidate_ran() {
    let stdout = "herdr-socket=/home/node/.herdr/herdr.sock\nrelay: listening on ...\n";
    assert_eq!(
        parse_bootstrap_output(stdout),
        (Some("/home/node/.herdr/herdr.sock".to_string()), None)
    );
}

#[test]
fn parses_the_needed_arch_when_no_candidate_matched() {
    let stdout = "herdr-socket=/root/.herdr/herdr.sock\nherdr-need=aarch64\n";
    assert_eq!(
        parse_bootstrap_output(stdout),
        (
            Some("/root/.herdr/herdr.sock".to_string()),
            Some("aarch64".to_string())
        )
    );
}

#[test]
fn parses_nothing_from_unrelated_output() {
    assert_eq!(
        parse_bootstrap_output("relay: already listening\n"),
        (None, None)
    );
    assert_eq!(parse_bootstrap_output(""), (None, None));
}

#[test]
fn the_last_marker_of_each_kind_counts() {
    let stdout = "herdr-socket=a\nherdr-need=x\n herdr-need=z\nherdr-socket=b\r\nherdr-need=";
    assert_eq!(
        parse_bootstrap_output(stdout),
        (Some(text("b")), Some(text("")))
    );
}

#[test]
fn the_scripts_are_run_with_the_version_and_the_verb() {
    assert_eq!(
        probe_script("stop"),
        ["sh", "-c", RELAY_BOOTSTRAP, "relay-bootstrap", VERSION, "stop"]
    );
    assert_eq!(
        fallback_script("start"),
        ["sh", "-c", SOURCE_FALLBACK, "relay-source-fallback", "start"]
    );
    // What the script compares a candidate's `--version` with.
    assert!(RELAY_BOOTSTRAP.contains("\"herdr-devcontainer-status $ver\""));
    assert_eq!(version_line(), format!("herdr-devcontainer-status {VERSION}"));
    assert_eq!(
        bootstrap_env(47100, "host.docker.internal"),
        [
            ("HERDR_RELAY_PORT", text("47100")),
            ("HERDR_RELAY_HOST", text("host.docker.internal"))
        ]
    );
}

fn output(success: bool, stdout: &str) -> BootstrapOutput {
    BootstrapOutput {
        success,
        stdout: text(stdout),
    }
}

#[test]
fn a_needed_binary_comes_before_everything_else() {
    let both = "herdr-socket=/s\nherdr-need=aarch64\n";
    for success in [true, false] {
        assert_eq!(
            probe_relay(&output(success, both)),
            Ok(Probe::NeedsBinary(text("aarch64")))
        );
    }
    assert_eq!(
        probe_relay(&output(true, "herdr-socket=/s\n")),
        Ok(Probe::Ready(text("/s")))
    );
    assert_eq!(
        probe_relay(&output(false, "herdr-socket=/s\n")),
        Err(text(RELAY_UNAVAILABLE))
    );
    assert_eq!(probe_relay(&output(true, "")), Err(text(NO_SOCKET_PATH)));
}

#[test]
fn a_build_in_place_reports_its_socket() {
    assert_eq!(
        probe_source_fallback(&output(true, "built\nherdr-socket=/s\n")),
        Ok(text("/s"))
    );
    assert_eq!(
        probe_source_fallback(&output(true, "herdr-need=x\n")),
        Err(text(NO_SOCKET_PATH))
    );
    assert_eq!(
        probe_source_fallback(&output(false, "herdr-socket=/s\n")),
        Err(text(RELAY_UNAVAILABLE))
    );
}

#[test]
fn all_but_the_markers_is_forwarded() {
    let stdout = "herdr-socket=/s\nrelay: listening\n\nherdr-need=x\n herdr-need=y\n";
    assert_eq!(
        forwarded_lines(stdout),
        ["relay: listening", "", " herdr-need=y"]
    );
    for line in ["herdr-socket=", "herdr-need=x"] {
        assert!(!forwards(line));
    }
    for line in ["", " herdr-need=y", "herdr-socket", "relay: up"] {
        assert!(forwards(line));
    }
}

#[test]
fn a_run_keeps_its_output_to_be_interpreted() {
    let ran = CommandOutput {
        success: false,
        stdout: b"one\nherdr-socket=/s\xff\n".to_vec(),
        stderr: b" \n".to_vec(),
    };
    assert_eq!(
        run_bootstrap(Ok(ran)),
        Ok(output(false, "one\nherdr-socket=/s\u{fffd}\n"))
    );
    assert_eq!(
        run_bootstrap(Err(text("gone"))),
        Err(text("exec: cannot run the devcontainer CLI: gone"))
    );
}

#[test]
fn output_is_shown_as_it_arrives() {
    let parts: [&[u8]; 5] = [
        b"relay: one\r\n",
        b"herdr-socket=/s\n",
        b"\n",
        b"two\xff\n",
        b"herdr-need=x",
    ];
    let mut shown = Vec::new();
    let mut whole = Vec::new();
    for part in parts {
        shown.extend(shown_stdout(&part.to_vec()));
        whole.extend_from_slice(part);
    }
    assert_eq!(shown, ["relay: one", "", "two\u{fffd}"]);
    assert_eq!(shown, shown_stdout(&whole));
}

#[test]
fn blank_errors_are_held_back() {
    assert_eq!(shown_stderr(&b" \n".to_vec(), false), None);
    assert_eq!(shown_stderr(&b" \n".to_vec(), true), Some(text(" \n")));
    assert_eq!(
        shown_stderr(&b" \nwarning\n".to_vec(), false),
        Some(text(" \nwarning\n"))
    );
    assert_eq!(shown_stderr(&Vec::new(), false), None);
}

fn drive(events: Vec<RelayEvent<String>>) -> RelayStep<String> {
    let mut step = RelayStep::Probe;
    for event in events {
        step = container_relay(step, event);
    }
    step
}

fn needs(arch: &str) -> RelayEvent<String> {
    RelayEvent::Probed(Ok(Probe::NeedsBinary(text(arch))))
}

fn ready(socket: &str) -> RelayEvent<String> {
    RelayEvent::Probed(Ok(Probe::Ready(text(socket))))
}

#[test]
fn a_relay_that_is_there_is_used() {
    assert_eq!(drive(vec![ready("/s")]), RelayStep::Done(Ok(text("/s"))));
    assert_eq!(
        drive(vec![RelayEvent::Probed(Err(text("no")))]),
        RelayStep::Done(Err(text("no")))
    );
}

#[test]
fn a_missing_relay_is_pushed_once_and_probed_once_more() {
    assert_eq!(
        drive(vec![needs("x86_64")]),
        RelayStep::Push {
            arch: text("x86_64")
        }
    );
    let pushed = || vec![needs("x86_64"), RelayEvent::Pushed(Ok(()))];
    assert_eq!(drive(pushed()), RelayStep::Reprobe);
    let mut events = pushed();
    events.push(ready("/s"));
    assert_eq!(drive(events), RelayStep::Done(Ok(text("/s"))));
    let mut events = pushed();
    events.push(needs("x86_64"));
    events.push(ready("/late"));
    assert_eq!(
        drive(events),
        RelayStep::Done(Err(text(
            "exec: pushed a relay binary but the container (x86_64) still can't run it"
        )))
    );
    let mut events = pushed();
    events.push(RelayEvent::Probed(Err(text("lost"))));
    assert_eq!(drive(events), RelayStep::Done(Err(text("lost"))));
}

#[test]
fn what_cannot_be_pushed_is_built_and_else_the_push_is_to_blame() {
    let failed = || vec![needs("riscv64"), RelayEvent::Pushed(Err(text("no binary")))];
    assert_eq!(
        drive(failed()),
        RelayStep::Build {
            push_error: text("no binary")
        }
    );
    let mut events = failed();
    events.push(RelayEvent::Built(Ok(text("/s"))));
    assert_eq!(drive(events), RelayStep::Done(Ok(text("/s"))));
    let mut events = failed();
    events.push(RelayEvent::Built(Err(text("build failed"))));
    assert_eq!(drive(events), RelayStep::Done(Err(text("no binary"))));
}

#[test]
fn an_event_out_of_turn_changes_nothing() {
    assert_eq!(
        container_relay(RelayStep::Probe, RelayEvent::Pushed(Ok(()))),
        RelayStep::Probe
    );
    assert_eq!(
        container_relay(RelayStep::Done(Ok(text("/s"))), ready("/t")),
        RelayStep::Done(Ok(text("/s")))
    );
}

#[test]
fn the_binary_is_bundled_next_to_this_executable() {
    assert_eq!(
        bundled_relay_binary(Ok(text("/opt/bin/tool")), "t"),
        Ok(text("/opt/bin/linux/t/herdr-devcontainer-status"))
    );
    assert_eq!(
        bundled_relay_binary(Ok(text("/")), "t"),
        Err(text("exec: current executable has no parent directory"))
    );
    assert_eq!(
        bundled_relay_binary(Err(text("lost")), "t"),
        Err(text("exec: lost"))
    );
}

fn container(folder: &str, name: &str) -> Container {
    Container {
        state: text("running"),
        local_folder: text(folder),
        config_file: String::new(),
        name: text(name),
    }
}

#[test]
fn the_container_is_named_by_the_shared_match() {
    let cs = || vec![container("/p/api", "api-1"), container("/h/web", "web-1")];
    assert_eq!(container_name(Ok(cs()), "/p/api", None), Ok(text("api-1")));
    assert_eq!(
        container_name(Ok(cs()), "/workspaces/web", Some("/h/web")),
        Ok(text("web-1"))
    );
    assert_eq!(
        container_name(Ok(cs()), "/p/x", None),
        Err(text("exec: no container labelled for /p/x"))
    );
    assert_eq!(
        container_name(Err(text("docker down")), "/p/api", None),
        Err(text("docker down"))
    );
}

#[test]
fn the_binary_is_streamed_to_the_path_that_is_probed() {
    let call = push_command("api-1");
    let dest = format!("/tmp/herdr-devcontainer-status-{VERSION}");
    assert!(RELAY_BOOTSTRAP.contains("\"/tmp/herdr-devcontainer-status-$ver\""));
    assert_eq!(call.program, "docker");
    assert_eq!(
        call.args,
        [
            text("exec"),
            text("-i"),
            text("api-1"),
            text("sh"),
            text("-c"),
            format!("cat > {dest} && chmod +x {dest}")
        ]
    );
}

fn push(events: Vec<PushEvent<String>>) -> PushStep<String> {
    let mut step = begin_push("arm64", Ok(text("/opt/tool")));
    for event in events {
        step = push_relay_binary(step, event);
    }
    step
}

#[test]
fn a_push_checks_names_and_sends() {
    let path = text("/opt/linux/aarch64-unknown-linux-musl/herdr-devcontainer-status");
    assert_eq!(push(vec![]), PushStep::Check { path: path.clone() });
    assert_eq!(
        push(vec![PushEvent::Checked(true)]),
        PushStep::Name { path: path.clone() }
    );
    let named = || vec![PushEvent::Checked(true), PushEvent::Named(Ok(text("c")))];
    assert_eq!(
        push(named()),
        PushStep::Send {
            path: path.clone(),
            container: text("c")
        }
    );
    let end = |event| {
        let mut events = named();
        events.push(event);
        push(events)
    };
    assert_eq!(end(PushEvent::Sent(true)), PushStep::Done(Ok(())));
    assert_eq!(
        end(PushEvent::Sent(false)),
        PushStep::Done(Err(text("exec: pushing the relay binary to c failed")))
    );
    assert_eq!(
        end(PushEvent::Unsent(text("no docker"))),
        PushStep::Done(Err(text("exec: docker exec: no docker")))
    );
    assert_eq!(
        end(PushEvent::Unopened(text("denied"))),
        PushStep::Done(Err(format!("exec: cannot open {path}: denied")))
    );
    assert_eq!(
        push(vec![
            PushEvent::Checked(true),
            PushEvent::Named(Err(text("nobody")))
        ]),
        PushStep::Done(Err(text("nobody")))
    );
    assert_eq!(
        push(vec![PushEvent::Checked(false)]),
        PushStep::Done(Err(format!(
            "exec: no bundled relay binary at {path} — reinstall with `herdr plugin install`, or set HERDR_RELAY_BIN in the container to one you provide yourself"
        )))
    );
    assert_eq!(push(vec![PushEvent::Sent(true)]), PushStep::Check { path });
}

#[test]
fn an_unpublished_architecture_is_not_pushed() {
    assert_eq!(
        begin_push("armv7l", Ok(text("/opt/tool"))),
        PushStep::Done(Err(text(
            "exec: no relay binary published for container arch armv7l"
        )))
    );
}

#[test]
fn bytes_cut_at_line_ends_are_shown_alike() {
    let whole = "é one\nherdr-need=x\r\n\u{1f980}\r\nlast".as_bytes().to_vec();
    for cut in 1..whole.len() {
        if whole[cut - 1] == b'\n' {
            let mut shown = shown_stdout(&whole[..cut].to_vec());
            shown.extend(shown_stdout(&whole[cut..].to_vec()));
            assert_eq!(shown, shown_stdout(&whole));
        }
    }
    assert_eq!(shown_stdout(&whole), ["é one", "\u{1f980}", "last"]);
}
