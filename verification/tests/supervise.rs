use herdr_devcontainer_status::settings::{port, Environment};
use herdr_devcontainer_status::supervise::{
    bridge, pid, pidfile_text, relay, relay_dir, tail, Daemon, SpawnFailure, Start, StartEvent,
    READY_STEPS,
};

fn daemon() -> Daemon {
    Daemon {
        label: "bridge",
        endpoint: "127.0.0.1:47100".into(),
        pidfile: "/t/bridge.pid".into(),
        log: "/t/bridge.log".into(),
        serve_args: vec!["bridge".into(), "serve".into()],
    }
}

fn drive(d: &Daemon, events: Vec<StartEvent<String>>) -> Start<String> {
    let mut step = Start::Asking;
    for event in events {
        step = d.start(step, event);
    }
    step
}

#[test]
fn start_is_a_no_op_when_the_endpoint_already_answers() {
    let d = daemon();
    match drive(&d, vec![StartEvent::Answered(true)]) {
        Start::Finished(Ok(msg)) => {
            assert!(msg.contains("already listening"), "{msg}");
            assert_eq!(msg, "bridge: already listening on 127.0.0.1:47100");
        }
        // Nothing spawned, so nothing to record.
        other => panic!("{other:?}"),
    }
}

#[test]
fn start_reports_the_log_when_the_endpoint_never_answers() {
    let mut d = daemon();
    // A "forwarder" that exits immediately without binding anything.
    d.serve_args = vec!["--version-that-does-not-exist".into()];
    let mut step = d.start(Start::Asking, StartEvent::Answered(false));
    assert_eq!(step, Start::Spawning);
    step = d.start(step, StartEvent::Spawned);
    for left in (0..READY_STEPS).rev() {
        assert_eq!(step, Start::Waiting { left: left + 1 });
        step = d.start(step, StartEvent::Answered(false));
        assert_eq!(step, Start::Pausing { left });
        step = d.start(step, StartEvent::Paused);
    }
    assert_eq!(step, Start::ReadingLog);
    match d.start(step, StartEvent::LogTail("a\nb".to_string())) {
        Start::Finished(Err(err)) => {
            assert!(err.contains("failed to start"), "{err}");
            assert_eq!(err, "bridge: failed to start; last log lines:\na\nb");
        }
        other => panic!("{other:?}"),
    }
}

#[test]
fn a_slow_forwarder_is_waited_for() {
    let d = daemon();
    let mut events = vec![StartEvent::Answered(false), StartEvent::Spawned];
    for _ in 0..READY_STEPS - 1 {
        events.push(StartEvent::Answered(false));
        events.push(StartEvent::Paused);
    }
    events.push(StartEvent::Answered(true));
    assert_eq!(
        drive(&d, events),
        Start::Finished(Ok("bridge: listening on 127.0.0.1:47100".to_string()))
    );
}

#[test]
fn each_spawn_failure_is_told() {
    let d = daemon();
    let e = || "boom".to_string();
    for (failure, told) in [
        (SpawnFailure::NoExecutable(e()), "bridge: boom"),
        (SpawnFailure::LogNotCreated(e()), "bridge: /t/bridge.log: boom"),
        (SpawnFailure::LogNotShared(e()), "bridge: boom"),
        (SpawnFailure::NotSpawned(e()), "bridge: failed to spawn: boom"),
    ] {
        assert_eq!(
            drive(
                &d,
                vec![StartEvent::Answered(false), StartEvent::Failed(failure)]
            ),
            Start::Finished(Err(told.to_string()))
        );
    }
}

#[test]
fn an_event_out_of_turn_does_not_start_anything() {
    let d = daemon();
    assert_eq!(drive(&d, vec![StartEvent::Spawned]), Start::Asking);
    assert_eq!(drive(&d, vec![StartEvent::Paused]), Start::Asking);
    assert_eq!(
        d.start(Start::Waiting { left: 0 }, StartEvent::Answered(false)),
        Start::Pausing { left: 0 }
    );
}

#[test]
fn stop_without_a_pidfile_says_so() {
    let d = daemon();
    assert!(d.stop(None, false).message.contains("not running"));
    assert_eq!(d.stop(None, true).signal, None);
}

#[test]
fn stop_clears_a_stale_pidfile() {
    let d = daemon();
    // A pidfile naming something dead doesn't wedge stop.
    let stale = pid("2147483647");
    assert_eq!(stale, Some(2147483647));
    let stop = d.stop(stale, false);
    assert!(stop.message.contains("not running"));
    assert_eq!(stop.message, "bridge: not running from /t/bridge.pid");
    assert_eq!(stop.signal, None);
}

#[test]
fn stop_ends_what_is_alive() {
    let stop = daemon().stop(Some(4242), true);
    assert_eq!(stop.signal, Some(4242));
    assert_eq!(stop.message, "bridge: stopped pid 4242");
    assert_eq!(daemon().stop(Some(-7), true).message, "bridge: stopped pid -7");
}

#[test]
fn status_is_err_when_nothing_answers() {
    let d = daemon();
    assert!(d.status(false).is_err());
    assert!(d.status(true).is_ok());
    assert_eq!(
        d.status(false),
        Err("bridge: nothing listening on 127.0.0.1:47100".to_string())
    );
    assert_eq!(
        d.status(true),
        Ok("bridge: listening on 127.0.0.1:47100".to_string())
    );
}

#[test]
fn tail_returns_the_last_lines() {
    let log = "/t/x.log";
    assert_eq!(tail(log, Some("a\nb\nc\nd\n"), 2), "c\nd");
    assert_eq!(tail(log, Some("a\nb\nc\nd\n"), 99), "a\nb\nc\nd");
    assert!(tail("/t/gone", None, 5).contains("unreadable"));
    assert_eq!(tail("/t/gone", None, 5), "(/t/gone: unreadable)");
}

#[test]
fn a_pid_reads_back_as_written() {
    for n in [1u32, 42, 99999, 2147483647] {
        assert_eq!(pidfile_text(n), n.to_string());
        assert_eq!(pid(&pidfile_text(n)), Some(n as i32));
        assert_eq!(pid(&format!(" {n}\n")), Some(n as i32));
    }
    assert_eq!(pid(&pidfile_text(2147483648)), None);
    assert_eq!(pid("not a pid"), None);
    assert_eq!(pid(""), None);
}

fn environment() -> Environment {
    Environment {
        relay_port: None,
        relay_host: None,
        bridge_bind: None,
        socket_path: None,
        home: Some("/home/x".to_string()),
        tmpdir: None,
    }
}

#[test]
fn the_bridge_runs_from_the_runtime_directory() {
    let d = bridge(&environment());
    assert_eq!(d.label, "bridge");
    assert_eq!(
        d.endpoint,
        "127.0.0.1:47100 -> /home/x/.config/herdr/herdr.sock"
    );
    assert_eq!(d.pidfile, "/tmp/herdr-tcp-bridge-47100.pid");
    assert_eq!(d.log, "/tmp/herdr-tcp-bridge-47100.log");
    assert_eq!(d.serve_args, ["bridge", "serve"]);
    let mut env = environment();
    env.relay_port = Some("5000".to_string());
    env.bridge_bind = Some("172.17.0.1".to_string());
    env.tmpdir = Some("/var/t/".to_string());
    let d = bridge(&env);
    assert_eq!(
        d.endpoint,
        "172.17.0.1:5000 -> /home/x/.config/herdr/herdr.sock"
    );
    assert_eq!(d.pidfile, "/var/t/herdr-tcp-bridge-5000.pid");
    assert_eq!(port(&env), 5000);
}

#[test]
fn the_relay_runs_from_next_to_its_socket() {
    let d = relay(&environment());
    assert_eq!(d.label, "relay");
    assert_eq!(
        d.endpoint,
        "/home/vscode/.herdr/herdr.sock -> host.docker.internal:47100"
    );
    assert_eq!(d.pidfile, "/home/vscode/.herdr/relay.pid");
    assert_eq!(d.log, "/home/vscode/.herdr/relay.log");
    assert_eq!(d.serve_args, ["relay", "serve"]);
    let mut env = environment();
    env.socket_path = Some("/".to_string());
    assert_eq!(relay_dir(&env), "/home/x");
    env.socket_path = Some("sock".to_string());
    assert_eq!(relay_dir(&env), "");
    assert_eq!(relay(&env).pidfile, "relay.pid");
}

#[test]
fn an_end_of_a_log_has_the_same_last_lines() {
    let log = "one\ntwo\r\nthree\nfour\nfive";
    let whole = tail("/l", Some(log), 2);
    for at in 0..=log.find("four").unwrap() {
        assert_eq!(tail("/l", Some(&log[at..]), 2), whole);
    }
    assert_eq!(whole, "four\nfive");
}
