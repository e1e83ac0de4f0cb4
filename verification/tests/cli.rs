use herdr_devcontainer_status::cli::{
    bridge, command, herdr_socket, relay, say, verb, version_line, Command, ForwarderPlan, USAGE,
};
use herdr_devcontainer_status::relay::VERSION;

fn args(v: &[&str]) -> Vec<String> {
    v.iter().map(|s| s.to_string()).collect::<Vec<_>>()
}

#[test]
fn version_line_is_the_string_build_sh_matches() {
    assert_eq!(
        version_line(),
        format!("herdr-devcontainer-status {}", VERSION)
    );
}

#[test]
fn verb_defaults_to_start_and_ignores_flags() {
    assert_eq!(verb(&args(&[])), "start");
    assert_eq!(verb(&args(&["--container"])), "start");
    assert_eq!(verb(&args(&["stop"])), "stop");
    assert_eq!(verb(&args(&["--container", "status"])), "status");
    assert_eq!(verb(&args(&["status", "--container"])), "status");
}

#[test]
fn a_flag_anywhere_leaves_the_verb_alone() {
    assert_eq!(verb(&args(&["-", "--x", "stop", "status"])), "stop");
    assert_eq!(verb(&args(&["stop", "-x"])), verb(&args(&["-x", "stop"])));
    assert_eq!(verb(&args(&["", "stop"])), "");
}

#[test]
fn each_command_is_recognised() {
    for word in ["refresh", "hook"] {
        assert_eq!(
            command(&args(&[word])),
            Command::Status {
                workspace_wide: false
            }
        );
        assert_eq!(
            command(&args(&[word, "x", "--all"])),
            Command::Status {
                workspace_wide: true
            }
        );
    }
    assert_eq!(command(&args(&["exec", "--all"])), Command::Exec);
    assert_eq!(command(&args(&["bridge"])), Command::Bridge);
    assert_eq!(command(&args(&["relay", "stop"])), Command::Relay);
    for word in ["--version", "-V", "version"] {
        assert_eq!(command(&args(&[word])), Command::Version);
    }
}

#[test]
fn anything_else_is_answered_with_the_usage() {
    assert_eq!(
        command(&args(&[])),
        Command::Usage {
            messages: args(&[USAGE])
        }
    );
    assert_eq!(
        command(&args(&["Exec\t", "x"])),
        Command::Usage {
            messages: args(&[USAGE, "\nunknown command: \"Exec\\t\""])
        }
    );
    assert!(USAGE.starts_with("usage: herdr-devcontainer-status <command>\n\n  refresh"));
    assert!(USAGE.ends_with("§ \"Seeing the container's agent session in herdr\"."));
}

fn socket() -> Result<String, String> {
    herdr_socket("/s".to_string(), true)
}

#[test]
fn the_bridge_takes_herdrs_socket() {
    let missing = || herdr_socket("/s".to_string(), false);
    let told = "bridge: no herdr socket at /s — is herdr running?".to_string();
    assert_eq!(missing(), Err(told.clone()));
    let refusal = ForwarderPlan::Refuse {
        code: 1,
        message: told,
    };
    assert_eq!(bridge(&args(&[]), socket()), ForwarderPlan::Start);
    assert_eq!(bridge(&args(&["start"]), missing()), refusal);
    assert_eq!(
        bridge(&args(&["serve"]), socket()),
        ForwarderPlan::Serve {
            socket: "/s".to_string()
        }
    );
    assert_eq!(bridge(&args(&["serve"]), missing()), refusal);
    assert_eq!(bridge(&args(&["stop"]), missing()), ForwarderPlan::Stop);
    assert_eq!(bridge(&args(&["status"]), missing()), ForwarderPlan::Status);
    assert_eq!(
        bridge(&args(&["restart"]), socket()),
        ForwarderPlan::Refuse {
            code: 2,
            message: format!("{USAGE}\n\nunknown bridge verb: \"restart\"")
        }
    );
}

#[test]
fn the_relay_can_be_driven_from_the_host() {
    let sock = || "/s".to_string();
    assert_eq!(
        relay(&args(&["--container"]), sock()),
        ForwarderPlan::InContainer {
            verb: "start".to_string()
        }
    );
    assert_eq!(
        relay(&args(&["odd", "--container"]), sock()),
        ForwarderPlan::InContainer {
            verb: "odd".to_string()
        }
    );
    assert_eq!(relay(&args(&[]), sock()), ForwarderPlan::Start);
    assert_eq!(relay(&args(&["stop"]), sock()), ForwarderPlan::Stop);
    assert_eq!(relay(&args(&["status"]), sock()), ForwarderPlan::Status);
    assert_eq!(
        relay(&args(&["serve"]), sock()),
        ForwarderPlan::Serve { socket: sock() }
    );
    assert_eq!(
        relay(&args(&["odd"]), sock()),
        ForwarderPlan::Refuse {
            code: 2,
            message: format!("{USAGE}\n\nunknown relay verb: \"odd\"")
        }
    );
}

#[test]
fn outcomes_become_exit_codes() {
    assert_eq!(say(&Ok("up".to_string())), 0);
    assert_eq!(say(&Err("down".to_string())), 1);
}
