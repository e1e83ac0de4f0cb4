//! The command line: which command, which verb, and what to answer.

use vstd::prelude::*;
use vstd::string::*;

use crate::relay::VERSION;
use crate::std_text;
use crate::std_text::debug_quoted;
use crate::text;
use crate::text::outcome;

verus! {

/// The name of this binary.
pub const NAME: &'static str = "herdr-devcontainer-status";

/// How to call this binary.
pub const USAGE: &'static str = "\
usage: herdr-devcontainer-status <command>

  refresh | hook [--all]              print this pane's devcontainer status as JSON
  exec [--agent <name>] <command> [args...]
                                       run a command in the container as this pane's agent
                                       (a recognised agent name in <command> claims the
                                       pane; --agent <name> overrides it for any command)
  bridge  <start|stop|status|serve>   host: publish herdr's socket on the loopback port
  relay   <start|stop|status|serve>   container: present that port as a unix socket
          [--container]               ... drive the container's relay from the host
  --version                           print the version this binary was built from

See .devcontainer/README.md § \"Seeing the container's agent session in herdr\".";

/// The name and version, as installers compare them after a download: the same string
/// on both sides, so a stale or wrong-arch binary can't be installed.
pub fn version_line() -> (r: String)
    ensures
        r@ == NAME@ + " "@ + VERSION@,
{
    NAME.to_owned().concat(" ").concat(VERSION)
}

/// Whether one of `args` is `word`.
pub fn holds(args: &[String], word: &str) -> (r: bool)
    ensures
        r == args.deep_view().contains(word@),
{
    let ghost all = args.deep_view();
    let mut i: usize = 0;
    while i < args.len()
        invariant
            all == args.deep_view(),
            i <= args.len(),
            forall|j: int| 0 <= j < i ==> args@[j]@ != word@,
        decreases args.len() - i,
    {
        if text::same(args[i].as_str(), word) {
            assert(all[i as int] == word@);
            return true;
        }
        i += 1;
    }
    assert(forall|j: int| 0 <= j < args@.len() ==> all[j] == args@[j]@);
    false
}

/// The first of `args` that is no flag, or `start`.
pub open spec fn verb_in(args: Seq<Seq<char>>) -> Seq<char>
    decreases args.len(),
{
    if args.len() == 0 {
        "start"@
    } else if "-"@.is_prefix_of(args[0]) {
        verb_in(args.skip(1))
    } else {
        args[0]
    }
}

/// A flag does not matter to the verb, wherever it stands.
pub proof fn law_flags_are_ignored(before: Seq<Seq<char>>, flag: Seq<char>, after: Seq<Seq<char>>)
    requires
        "-"@.is_prefix_of(flag),
    ensures
        verb_in(before + seq![flag] + after) == verb_in(before + after),
    decreases before.len(),
{
    let with = before + seq![flag] + after;
    let without = before + after;
    if before.len() == 0 {
        assert(with[0] == flag);
        assert(with.skip(1) =~= without);
    } else {
        assert(with[0] == before[0]);
        assert(without[0] == before[0]);
        law_flags_are_ignored(before.skip(1), flag, after);
        assert(with.skip(1) =~= before.skip(1) + seq![flag] + after);
        assert(without.skip(1) =~= before.skip(1) + after);
    }
}

/// First non-flag argument, defaulting to `start`.
pub fn verb<'a>(args: &'a [String]) -> (r: &'a str)
    ensures
        r@ == verb_in(args.deep_view()),
{
    let ghost all = args.deep_view();
    let mut i: usize = 0;
    assert(all.skip(0) =~= all);
    while i < args.len()
        invariant
            all == args.deep_view(),
            i <= args.len(),
            verb_in(all) == verb_in(all.skip(i as int)),
        decreases args.len() - i,
    {
        assert(all.skip(i as int)[0] == args@[i as int]@);
        assert(all.skip(i as int).skip(1) =~= all.skip(i + 1));
        if !text::starts_with(args[i].as_str(), "-") {
            return args[i].as_str();
        }
        i += 1;
    }
    "start"
}

/// What the first argument asks for.
#[derive(Debug, PartialEq)]
pub enum Command {
    /// Print the status of the pane's project, and report it on the workspace where it
    /// is workspace-wide.
    Status { workspace_wide: bool },
    /// Run a command in the container.
    Exec,
    /// The host end of the bridge.
    Bridge,
    /// The container end.
    Relay,
    /// Print the version.
    Version,
    /// Say this, and exit with code 2.
    Usage { messages: Vec<String> },
}

/// What is said when no known command is given.
pub open spec fn usage_messages(given: Option<Seq<char>>) -> Seq<Seq<char>> {
    match given {
        Some(word) => seq![USAGE@, "\nunknown command: "@ + debug_quoted(word)],
        None => seq![USAGE@],
    }
}

/// Whether `r` is what `args` ask for. `hook` and `refresh` do the same detection; only
/// `--all` reports to the workspace rather than a pane.
pub open spec fn asks_for(args: Seq<Seq<char>>, r: Command) -> bool {
    let first = if args.len() > 0 {
        Some(args[0])
    } else {
        None
    };
    if first == Some("refresh"@) || first == Some("hook"@) {
        r matches Command::Status { workspace_wide } && workspace_wide == args.contains("--all"@)
    } else if first == Some("exec"@) {
        r is Exec
    } else if first == Some("bridge"@) {
        r is Bridge
    } else if first == Some("relay"@) {
        r is Relay
    } else if first == Some("--version"@) || first == Some("-V"@) || first == Some("version"@) {
        r is Version
    } else {
        r matches Command::Usage { messages } && messages.deep_view() == usage_messages(first)
    }
}

/// What `args` ask for.
pub fn command(args: &[String]) -> (r: Command)
    ensures
        asks_for(args.deep_view(), r),
        r matches Command::Status { workspace_wide } ==> {
            &&& args@.len() > 0 && (args@[0]@ == "refresh"@ || args@[0]@ == "hook"@)
            &&& workspace_wide == args.deep_view().contains("--all"@)
        },
        r is Exec <==> args@.len() > 0 && args@[0]@ == "exec"@,
        r is Bridge <==> args@.len() > 0 && args@[0]@ == "bridge"@,
        r is Relay <==> args@.len() > 0 && args@[0]@ == "relay"@,
        r is Version <==> args@.len() > 0 && (args@[0]@ == "--version"@ || args@[0]@ == "-V"@
            || args@[0]@ == "version"@),
        r matches Command::Usage { messages } ==> messages.deep_view() == if args@.len() > 0 {
            seq![USAGE@, "\nunknown command: "@ + debug_quoted(args@[0]@)]
        } else {
            seq![USAGE@]
        },
{
    let ghost all = args.deep_view();
    proof {
        reveal_strlit("refresh");
        reveal_strlit("hook");
        reveal_strlit("exec");
        reveal_strlit("bridge");
        reveal_strlit("relay");
        reveal_strlit("--version");
        reveal_strlit("-V");
        reveal_strlit("version");
        assert("refresh"@[2] == 'f' && "relay"@[2] == 'l' && "hook"@[0] == 'h' && "exec"@[0] == 'e');
        assert("bridge"@[0] == 'b' && "--version"@[0] == '-' && "-V"@[0] == '-' && "version"@[0]
            == 'v' && "refresh"@[0] == 'r' && "relay"@[0] == 'r');
    }
    if args.len() == 0 {
        let messages = vec![USAGE.to_owned()];
        assert(messages.deep_view() =~= seq![USAGE@]);
        return Command::Usage { messages };
    }
    let first = args[0].as_str();
    assert(all[0] == first@);
    if text::same(first, "refresh") || text::same(first, "hook") {
        Command::Status { workspace_wide: holds(args, "--all") }
    } else if text::same(first, "exec") {
        Command::Exec
    } else if text::same(first, "bridge") {
        Command::Bridge
    } else if text::same(first, "relay") {
        Command::Relay
    } else if text::same(first, "--version") || text::same(first, "-V") || text::same(
        first,
        "version",
    ) {
        Command::Version
    } else {
        let messages = vec![
            USAGE.to_owned(),
            "\nunknown command: ".to_owned().concat(std_text::debug_quote(first).as_str()),
        ];
        assert(messages.deep_view() =~= usage_messages(Some(first@)));
        Command::Usage { messages }
    }
}

/// The herdr API socket, or why we can't serve it.
pub fn herdr_socket(socket: String, present: bool) -> (r: Result<String, String>)
    ensures
        outcome(r) == if present {
            Ok(socket@)
        } else {
            Err("bridge: no herdr socket at "@ + socket@ + " — is herdr running?"@)
        },
{
    if present {
        Ok(socket)
    } else {
        Err(
            "bridge: no herdr socket at ".to_owned().concat(socket.as_str()).concat(
                " — is herdr running?",
            ),
        )
    }
}

/// What to do with a forwarder.
#[derive(Debug, PartialEq)]
pub enum ForwarderPlan {
    Start,
    Stop,
    Status,
    /// Be the forwarder, between this socket and the bridge port.
    Serve { socket: String },
    /// Drive the one in the container from the host, with this verb.
    InContainer { verb: String },
    /// Say this, and exit with this code.
    Refuse { code: i32, message: String },
}

/// Whether `r` refuses a verb that the forwarder `name` does not have.
pub open spec fn refuses_verb(r: ForwarderPlan, name: Seq<char>, verb: Seq<char>) -> bool {
    r matches ForwarderPlan::Refuse { code, message } && code == 2 && message@ == USAGE@
        + "\n\nunknown "@ + name + " verb: "@ + debug_quoted(verb)
}

fn refuse_verb(name: &str, verb: &str) -> (r: ForwarderPlan)
    ensures
        refuses_verb(r, name@, verb@),
{
    ForwarderPlan::Refuse {
        code: 2,
        message: USAGE.to_owned().concat("\n\nunknown ").concat(name).concat(" verb: ").concat(
            std_text::debug_quote(verb).as_str(),
        ),
    }
}

/// The host end of the agent-state bridge. `serve` is the forwarder itself; the other
/// verbs supervise it. Starting or serving it takes herdr's socket.
pub fn bridge(args: &[String], socket: Result<String, String>) -> (r: ForwarderPlan)
    ensures
        ({
            let verb = verb_in(args.deep_view());
            if verb == "start"@ {
                match socket {
                    Ok(_) => r is Start,
                    Err(msg) => r == (ForwarderPlan::Refuse { code: 1, message: msg }),
                }
            } else if verb == "stop"@ {
                r is Stop
            } else if verb == "status"@ {
                r is Status
            } else if verb == "serve"@ {
                match socket {
                    Ok(path) => r == (ForwarderPlan::Serve { socket: path }),
                    Err(msg) => r == (ForwarderPlan::Refuse { code: 1, message: msg }),
                }
            } else {
                refuses_verb(r, "bridge"@, verb)
            }
        }),
{
    let verb = verb(args);
    if text::same(verb, "start") {
        match socket {
            Ok(_) => ForwarderPlan::Start,
            Err(message) => ForwarderPlan::Refuse { code: 1, message },
        }
    } else if text::same(verb, "stop") {
        ForwarderPlan::Stop
    } else if text::same(verb, "status") {
        ForwarderPlan::Status
    } else if text::same(verb, "serve") {
        match socket {
            Ok(socket) => ForwarderPlan::Serve { socket },
            Err(message) => ForwarderPlan::Refuse { code: 1, message },
        }
    } else {
        refuse_verb("bridge", verb)
    }
}

/// The container end. `--container` makes the host drive the one in the container
/// instead.
pub fn relay(args: &[String], socket: String) -> (r: ForwarderPlan)
    ensures
        ({
            let verb = verb_in(args.deep_view());
            if args.deep_view().contains("--container"@) {
                r matches ForwarderPlan::InContainer { verb: v } && v@ == verb
            } else if verb == "start"@ {
                r is Start
            } else if verb == "stop"@ {
                r is Stop
            } else if verb == "status"@ {
                r is Status
            } else if verb == "serve"@ {
                r == (ForwarderPlan::Serve { socket })
            } else {
                refuses_verb(r, "relay"@, verb)
            }
        }),
{
    let verb = verb(args);
    if holds(args, "--container") {
        ForwarderPlan::InContainer { verb: verb.to_owned() }
    } else if text::same(verb, "start") {
        ForwarderPlan::Start
    } else if text::same(verb, "stop") {
        ForwarderPlan::Stop
    } else if text::same(verb, "status") {
        ForwarderPlan::Status
    } else if text::same(verb, "serve") {
        ForwarderPlan::Serve { socket }
    } else {
        refuse_verb("relay", verb)
    }
}

/// The exit code for a supervisor outcome, non-zero when nothing is listening.
pub fn say(outcome: &Result<String, String>) -> (r: i32)
    ensures
        r == if outcome is Ok {
            0i32
        } else {
            1i32
        },
{
    match outcome {
        Ok(_) => 0,
        Err(_) => 1,
    }
}

/// The verb is the first argument that is no flag, whatever follows it, and `start` where
/// there are only flags.
pub proof fn law_the_verb_is_the_first_word(
    flags: Seq<Seq<char>>,
    word: Seq<char>,
    rest: Seq<Seq<char>>,
)
    requires
        forall|i: int| 0 <= i < flags.len() ==> "-"@.is_prefix_of(#[trigger] flags[i]),
        !"-"@.is_prefix_of(word),
    ensures
        verb_in(flags + seq![word] + rest) == word,
        verb_in(flags) == "start"@,
    decreases flags.len(),
{
    let all = flags + seq![word] + rest;
    if flags.len() == 0 {
        assert(all[0] == word);
    } else {
        assert(all[0] == flags[0]);
        assert forall|i: int| 0 <= i < flags.skip(1).len() implies "-"@.is_prefix_of(
            #[trigger] flags.skip(1)[i],
        ) by {
            assert("-"@.is_prefix_of(flags[i + 1]));
        }
        assert(all.skip(1) =~= flags.skip(1) + seq![word] + rest);
        law_the_verb_is_the_first_word(flags.skip(1), word, rest);
    }
}

/// A verb that a forwarder does not have is answered with the usage and the verb, and with
/// code 2.
pub proof fn law_an_unknown_verb_is_told(r: ForwarderPlan, name: Seq<char>, verb: Seq<char>)
    ensures
        refuses_verb(r, name, verb) <==> (r matches ForwarderPlan::Refuse { code, message } && code
            == 2 && message@ == USAGE@ + "\n\nunknown "@ + name + " verb: "@ + debug_quoted(
            verb,
        )),
{
}

} // verus!
