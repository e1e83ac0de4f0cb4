use herdr_devcontainer_status::forward::{pump, socket_path, PumpEvent, PumpStep};
use herdr_devcontainer_status::settings::{
    bridge_bind, home, host_socket, port, relay_host, relay_socket, runtime_dir, Environment,
    CONTAINER_SOCKET, DEFAULT_BIND, DEFAULT_PORT, RELAY_HOST,
};
use herdr_devcontainer_status::text::to_decimal;

fn unset() -> Environment {
    Environment {
        relay_port: None,
        relay_host: None,
        bridge_bind: None,
        socket_path: None,
        home: None,
        tmpdir: None,
    }
}

fn text(s: &str) -> Option<String> {
    Some(s.to_string())
}

#[test]
fn bridge_bind_defaults_to_loopback() {
    let mut env = unset();
    assert_eq!(bridge_bind(&env), DEFAULT_BIND);
    env.bridge_bind = text("");
    assert_eq!(bridge_bind(&env), DEFAULT_BIND);
    env.bridge_bind = text("172.17.0.1");
    assert_eq!(bridge_bind(&env), "172.17.0.1");
}

#[test]
fn the_two_ends_default_independently() {
    let mut env = unset();
    env.bridge_bind = text("172.17.0.1");
    assert_eq!(relay_host(&env), RELAY_HOST);
    let mut env = unset();
    env.relay_host = text("172.17.0.1");
    assert_eq!(bridge_bind(&env), DEFAULT_BIND);
    assert_eq!(relay_host(&env), "172.17.0.1");
    env.relay_host = text("");
    assert_eq!(relay_host(&env), RELAY_HOST);
}

#[test]
fn socket_path_prefers_the_environment() {
    let mut env = unset();
    assert_eq!(
        socket_path(&env, "/fallback/herdr.sock"),
        "/fallback/herdr.sock"
    );
    env.socket_path = text("");
    assert_eq!(
        socket_path(&env, "/fallback/herdr.sock"),
        "/fallback/herdr.sock"
    );
    env.socket_path = text("/s/herdr.sock");
    assert_eq!(socket_path(&env, "/fallback/herdr.sock"), "/s/herdr.sock");
    assert_eq!(host_socket(&env), "/s/herdr.sock");
    assert_eq!(relay_socket(&env), "/s/herdr.sock");
}

#[test]
fn what_is_not_set_has_a_default() {
    let mut env = unset();
    assert_eq!(port(&env), DEFAULT_PORT);
    assert_eq!(home(&env), "/");
    assert_eq!(host_socket(&env), "/.config/herdr/herdr.sock");
    assert_eq!(relay_socket(&env), CONTAINER_SOCKET);
    assert_eq!(runtime_dir(&env), "/tmp");
    env.home = text("");
    env.tmpdir = text("");
    assert_eq!(home(&env), "");
    assert_eq!(host_socket(&env), ".config/herdr/herdr.sock");
    assert_eq!(runtime_dir(&env), "");
    env.home = text("/home/x");
    assert_eq!(host_socket(&env), "/home/x/.config/herdr/herdr.sock");
}

#[test]
fn a_port_that_is_no_port_is_the_default() {
    let mut env = unset();
    for bad in ["", "x", "-1", "65536", " 80", "80 "] {
        env.relay_port = text(bad);
        assert_eq!(port(&env), 47100, "{bad:?}");
    }
    for (good, n) in [("0", 0), ("+80", 80), ("65535", 65535), ("00080", 80)] {
        env.relay_port = text(good);
        assert_eq!(port(&env), n);
    }
}

#[test]
fn a_port_survives_the_environment() {
    let mut env = unset();
    for n in [0u16, 1, 80, 47100, 65535] {
        env.relay_port = Some(to_decimal(n as u64));
        assert_eq!(port(&env), n);
    }
}

#[test]
fn copying_goes_on_until_the_end_and_then_half_closes() {
    let read = |len| PumpEvent::Read { len };
    assert_eq!(pump(PumpStep::Reading, read(3)), PumpStep::Writing { len: 3 });
    assert_eq!(pump(PumpStep::Reading, read(0)), PumpStep::HalfClosing);
    assert_eq!(
        pump(PumpStep::Reading, PumpEvent::Interrupted),
        PumpStep::Reading
    );
    assert_eq!(
        pump(PumpStep::Reading, PumpEvent::ReadFailed),
        PumpStep::HalfClosing
    );
    let writing = PumpStep::Writing { len: 3 };
    assert_eq!(pump(writing, PumpEvent::Written), PumpStep::Reading);
    assert_eq!(pump(writing, PumpEvent::WriteFailed), PumpStep::HalfClosing);
    assert_eq!(pump(writing, read(5)), writing);
    assert_eq!(pump(PumpStep::HalfClosing, read(5)), PumpStep::HalfClosing);
}

#[test]
fn everything_read_is_written() {
    let source: Vec<u8> = (0..=255).collect();
    let (mut at, mut sink, mut step, mut tries) = (0, Vec::new(), PumpStep::Reading, 0);
    while step != PumpStep::HalfClosing {
        let event = match step {
            PumpStep::Reading if tries % 3 == 0 => PumpEvent::Interrupted,
            PumpStep::Reading => {
                let len = std::cmp::min(7, source.len() - at);
                PumpEvent::Read { len }
            }
            PumpStep::Writing { len } => {
                sink.extend_from_slice(&source[at..at + len]);
                at += len;
                PumpEvent::Written
            }
            PumpStep::HalfClosing => unreachable!(),
        };
        tries += 1;
        step = pump(step, event);
    }
    assert_eq!(sink, source);
}

#[test]
fn a_failed_write_leaves_a_part_from_the_start() {
    let source: Vec<u8> = (0..100).collect();
    let (mut at, mut sink, mut step) = (0, Vec::new(), PumpStep::Reading);
    while step != PumpStep::HalfClosing {
        let event = match step {
            PumpStep::Writing { .. } if at >= 60 => PumpEvent::WriteFailed,
            PumpStep::Writing { len } => {
                sink.extend_from_slice(&source[at..at + len]);
                at += len;
                PumpEvent::Written
            }
            _ => PumpEvent::Read {
                len: std::cmp::min(9, source.len() - at),
            },
        };
        step = pump(step, event);
    }
    assert_eq!(sink.len(), 63);
    assert!(source.starts_with(&sink));
}
