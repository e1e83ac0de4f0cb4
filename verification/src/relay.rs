//! Getting a relay to run in the container: the bootstrap scripts, what they report, and
//! what to do next.

use vstd::prelude::*;
use vstd::string::*;
use vstd::utf8::*;

use crate::process;
use crate::process::CommandOutput;
use crate::std_text;
use crate::std_text::utf8_lossy;
use crate::text;
use crate::text::{after_prefix, lines, outcome, trimmed};

verus! {

/// The version of this binary: what a container-side candidate has to report from
/// `--version` before it is trusted, and the suffix on the path that a bundled binary
/// is pushed to. The same as in the package's manifest.
pub const VERSION: &'static str = "0.1.0";

/// One `devcontainer exec` round trip: resolve the container's own `$HOME` (any remote
/// user works), find a relay binary that reports our exact version, and either run it
/// or report which CPU architecture needs one.
///
/// The lookup order is open to a devcontainer feature that installs
/// `herdr-devcontainer-status` onto `PATH` itself: the second candidate finds that, and
/// nothing is pushed when it does.
pub const RELAY_BOOTSTRAP: &'static str = r#"set -eu
ver="$1"; verb="$2"
sock="${HOME:-/root}/.herdr/herdr.sock"
mkdir -p "$(dirname "$sock")" 2>/dev/null || true
echo "herdr-socket=$sock"
for cand in ${HERDR_RELAY_BIN:-} "$(command -v herdr-devcontainer-status 2>/dev/null || true)" "/tmp/herdr-devcontainer-status-$ver"; do
  [ -n "$cand" ] && [ -x "$cand" ] || continue
  [ "$("$cand" --version 2>/dev/null)" = "herdr-devcontainer-status $ver" ] || continue
  HERDR_SOCKET_PATH="$sock" exec "$cand" relay "$verb"
done
echo "herdr-need=$(uname -m)"
exit 42
"#;

/// Fallback for a source install, where no linux binary is bundled: build in the
/// container, but only when it is unmistakably our own crate, never an unrelated
/// project's.
pub const SOURCE_FALLBACK: &'static str = r#"set -eu
verb="$1"
sock="${HOME:-/root}/.herdr/herdr.sock"
if [ ! -f Cargo.toml ] || ! grep -q '^name = "herdr-devcontainer-status"' Cargo.toml; then
  echo "exec: no bundled relay binary, and this container isn't the plugin's own crate" >&2
  exit 1
fi
mkdir -p "$(dirname "$sock")" 2>/dev/null || true
bin=target/release/herdr-devcontainer-status
[ -x "$bin" ] || echo "relay: building the container-side relay (first run only)" >&2
cargo build --release --locked --quiet
echo "herdr-socket=$sock"
HERDR_SOCKET_PATH="$sock" exec "$bin" relay "$verb"
"#;

/// Marks the socket that the container's relay binds.
pub const SOCKET_MARKER: &'static str = "herdr-socket=";

/// Marks the CPU architecture that a relay binary is needed for.
pub const NEED_MARKER: &'static str = "herdr-need=";

/// What the last of `lines` that starts with `marker` says after it.
pub open spec fn last_marked(lines: Seq<Seq<char>>, marker: Seq<char>) -> Option<Seq<char>>
    decreases lines.len(),
{
    if lines.len() == 0 {
        None
    } else {
        match after_prefix(lines.last(), marker) {
            Some(value) => Some(value),
            None => last_marked(lines.drop_last(), marker),
        }
    }
}

/// No line starts with both markers.
proof fn lemma_markers_differ(line: Seq<char>)
    ensures
        after_prefix(line, SOCKET_MARKER@) is None || after_prefix(line, NEED_MARKER@) is None,
{
    reveal_strlit("herdr-socket=");
    reveal_strlit("herdr-need=");
    if SOCKET_MARKER@.is_prefix_of(line) && NEED_MARKER@.is_prefix_of(line) {
        assert(SOCKET_MARKER@[6] == line[6]);
        assert(NEED_MARKER@[6] == line[6]);
    }
}

/// The socket and the architecture that a bootstrap script reports on `stdout`: the
/// last of each that it marks.
pub fn parse_bootstrap_output(stdout: &str) -> (r: (Option<String>, Option<String>))
    ensures
        r.0.deep_view() == last_marked(lines(stdout@), SOCKET_MARKER@),
        r.1.deep_view() == last_marked(lines(stdout@), NEED_MARKER@),
{
    let parts = text::split_lines(stdout);
    let ghost all = parts.deep_view();
    let mut socket: Option<String> = None;
    let mut need: Option<String> = None;
    let mut i: usize = 0;
    while i < parts.len()
        invariant
            all == parts.deep_view(),
            i <= parts.len(),
            socket.deep_view() == last_marked(all.take(i as int), SOCKET_MARKER@),
            need.deep_view() == last_marked(all.take(i as int), NEED_MARKER@),
        decreases parts.len() - i,
    {
        let line = parts[i];
        proof {
            assert(all.take(i + 1).drop_last() =~= all.take(i as int));
            assert(all.take(i + 1).last() == line@);
            lemma_markers_differ(line@);
        }
        if let Some(value) = text::strip_prefix(line, SOCKET_MARKER) {
            socket = Some(value.to_owned());
        } else if let Some(value) = text::strip_prefix(line, NEED_MARKER) {
            need = Some(value.to_owned());
        }
        i += 1;
    }
    assert(all.take(i as int) =~= all);
    (socket, need)
}

/// What a bootstrap script found.
#[derive(Debug, PartialEq)]
pub enum Probe<T> {
    /// A candidate ran; this is the socket it bound, resolved inside the container.
    Ready(T),
    /// No candidate matched our version; this is the container's `uname -m`, so the
    /// caller knows which binary to push.
    NeedsBinary(T),
}

impl DeepView for Probe<String> {
    type V = Probe<Seq<char>>;

    open spec fn deep_view(&self) -> Probe<Seq<char>> {
        match self {
            Probe::Ready(socket) => Probe::Ready(socket@),
            Probe::NeedsBinary(arch) => Probe::NeedsBinary(arch@),
        }
    }
}

/// The texts of a probe's outcome.
pub open spec fn probe_outcome(r: Result<Probe<String>, String>) -> Result<
    Probe<Seq<char>>,
    Seq<char>,
> {
    match r {
        Ok(probe) => Ok(probe.deep_view()),
        Err(e) => Err(e@),
    }
}

/// How a bootstrap script ended, and what it wrote to its standard output.
#[derive(Debug, PartialEq)]
pub struct BootstrapOutput {
    pub success: bool,
    pub stdout: String,
}

/// Said when a bootstrap script fails without saying what it needs.
pub const RELAY_UNAVAILABLE: &'static str = "exec: container relay unavailable — agent state won't reach herdr";

/// Said when a bootstrap script succeeds without naming a socket.
pub const NO_SOCKET_PATH: &'static str = "exec: relay bootstrap produced no socket path";

/// The command that runs `RELAY_BOOTSTRAP` in the container.
pub fn probe_script(verb: &str) -> (r: Vec<String>)
    ensures
        r.deep_view() == seq![
            "sh"@,
            "-c"@,
            RELAY_BOOTSTRAP@,
            "relay-bootstrap"@,
            VERSION@,
            verb@,
        ],
{
    let r = process::texts(&vec!["sh", "-c", RELAY_BOOTSTRAP, "relay-bootstrap", VERSION, verb]);
    assert(r.deep_view() =~= seq![
        "sh"@,
        "-c"@,
        RELAY_BOOTSTRAP@,
        "relay-bootstrap"@,
        VERSION@,
        verb@,
    ]);
    r
}

/// The command that runs `SOURCE_FALLBACK` in the container.
pub fn fallback_script(verb: &str) -> (r: Vec<String>)
    ensures
        r.deep_view() == seq!["sh"@, "-c"@, SOURCE_FALLBACK@, "relay-source-fallback"@, verb@],
{
    let r = process::texts(&vec!["sh", "-c", SOURCE_FALLBACK, "relay-source-fallback", verb]);
    assert(r.deep_view() =~= seq![
        "sh"@,
        "-c"@,
        SOURCE_FALLBACK@,
        "relay-source-fallback"@,
        verb@,
    ]);
    r
}

/// What running `RELAY_BOOTSTRAP` found: an architecture to push for, whenever it asks
/// for one; else the socket, when it succeeded.
pub open spec fn probed(success: bool, stdout: Seq<char>) -> Result<Probe<Seq<char>>, Seq<char>> {
    match last_marked(lines(stdout), NEED_MARKER@) {
        Some(arch) => Ok(Probe::NeedsBinary(arch)),
        None => if success {
            match last_marked(lines(stdout), SOCKET_MARKER@) {
                Some(socket) => Ok(Probe::Ready(socket)),
                None => Err(NO_SOCKET_PATH@),
            }
        } else {
            Err(RELAY_UNAVAILABLE@)
        },
    }
}

/// Interpret what running `RELAY_BOOTSTRAP` wrote.
pub fn probe_relay(out: &BootstrapOutput) -> (r: Result<Probe<String>, String>)
    ensures
        probe_outcome(r) == probed(out.success, out.stdout@),
        r matches Ok(Probe::Ready(_)) ==> out.success,
{
    let (socket, need) = parse_bootstrap_output(out.stdout.as_str());
    match need {
        Some(arch) => Ok(Probe::NeedsBinary(arch)),
        None => {
            if out.success {
                match socket {
                    Some(path) => Ok(Probe::Ready(path)),
                    None => Err(NO_SOCKET_PATH.to_owned()),
                }
            } else {
                Err(RELAY_UNAVAILABLE.to_owned())
            }
        },
    }
}

/// What running `SOURCE_FALLBACK` gave: the socket, when it succeeded.
pub open spec fn built(success: bool, stdout: Seq<char>) -> Result<Seq<char>, Seq<char>> {
    if success {
        match last_marked(lines(stdout), SOCKET_MARKER@) {
            Some(socket) => Ok(socket),
            None => Err(NO_SOCKET_PATH@),
        }
    } else {
        Err(RELAY_UNAVAILABLE@)
    }
}

/// Interpret what running `SOURCE_FALLBACK` wrote.
pub fn probe_source_fallback(out: &BootstrapOutput) -> (r: Result<String, String>)
    ensures
        outcome(r) == built(out.success, out.stdout@),
{
    if !out.success {
        return Err(RELAY_UNAVAILABLE.to_owned());
    }
    match parse_bootstrap_output(out.stdout.as_str()).0 {
        Some(socket) => Ok(socket),
        None => Err(NO_SOCKET_PATH.to_owned()),
    }
}

/// The variables that a bootstrap script runs with.
pub fn bootstrap_env(port: u16, relay_host: &str) -> (r: Vec<(&'static str, String)>)
    ensures
        r.deep_view() == seq![
            ("HERDR_RELAY_PORT"@, text::decimal(port as nat)),
            ("HERDR_RELAY_HOST"@, relay_host@),
        ],
{
    let r = vec![
        ("HERDR_RELAY_PORT", text::to_decimal(port as u64)),
        ("HERDR_RELAY_HOST", relay_host.to_owned()),
    ];
    assert(r.deep_view() =~= seq![
        ("HERDR_RELAY_PORT"@, text::decimal(port as nat)),
        ("HERDR_RELAY_HOST"@, relay_host@),
    ]);
    r
}

/// Whether `line` carries a marker.
pub open spec fn is_marked(line: Seq<char>) -> bool {
    SOCKET_MARKER@.is_prefix_of(line) || NEED_MARKER@.is_prefix_of(line)
}

/// The lines among `lines` that carry no marker.
pub open spec fn unmarked(lines: Seq<Seq<char>>) -> Seq<Seq<char>>
    decreases lines.len(),
{
    if lines.len() == 0 {
        seq![]
    } else {
        let before = unmarked(lines.drop_last());
        if is_marked(lines.last()) {
            before
        } else {
            before.push(lines.last())
        }
    }
}

/// Whether a line of a bootstrap script's output is passed on to the user: everything
/// but the markers is.
pub fn forwards(line: &str) -> (r: bool)
    ensures
        r == !(SOCKET_MARKER@.is_prefix_of(line@) || NEED_MARKER@.is_prefix_of(line@)),
{
    !text::starts_with(line, SOCKET_MARKER) && !text::starts_with(line, NEED_MARKER)
}

/// The lines of a bootstrap script's output that are passed on to the user.
pub fn forwarded_lines(stdout: &str) -> (r: Vec<String>)
    ensures
        r.deep_view() == unmarked(lines(stdout@)),
{
    let parts = text::split_lines(stdout);
    let ghost all = parts.deep_view();
    let mut out: Vec<String> = Vec::new();
    let mut i: usize = 0;
    assert(all.take(0) =~= Seq::<Seq<char>>::empty());
    assert(out.deep_view() =~= unmarked(all.take(0)));
    while i < parts.len()
        invariant
            all == parts.deep_view(),
            i <= parts.len(),
            out.deep_view() == unmarked(all.take(i as int)),
        decreases parts.len() - i,
    {
        let line = parts[i];
        let ghost before = out.deep_view();
        assert(all.take(i + 1).drop_last() =~= all.take(i as int));
        assert(all.take(i + 1).last() == line@);
        if forwards(line) {
            out.push(line.to_owned());
            assert(out.deep_view() =~= before.push(line@));
        }
        i += 1;
    }
    assert(all.take(i as int) =~= all);
    out
}

/// What to show of a part of a bootstrap script's standard output that has just arrived,
/// so the session doesn't go quiet during the one build that takes a minute. A part ends
/// with a line.
pub fn shown_stdout(part: &Vec<u8>) -> (r: Vec<String>)
    ensures
        r.deep_view() == unmarked(lines(utf8_lossy(part@))),
        valid_utf8(part@) ==> r.deep_view() == unmarked(lines(decode_utf8(part@))),
{
    forwarded_lines(std_text::from_utf8_lossy(part).as_str())
}

/// What to show of a bootstrap script's standard error, where `held` is what arrived and
/// was not shown yet: all of it, once there is more than blanks in it or something was
/// shown before.
pub fn shown_stderr(held: &Vec<u8>, shown_before: bool) -> (r: Option<String>)
    ensures
        r.deep_view() == if shown_before || trimmed(utf8_lossy(held@)).len() > 0 {
            Some(utf8_lossy(held@))
        } else {
            None
        },
        valid_utf8(held@) ==> r.deep_view() == if shown_before || trimmed(
            decode_utf8(held@),
        ).len() > 0 {
            Some(decode_utf8(held@))
        } else {
            None
        },
{
    let errors = std_text::from_utf8_lossy(held);
    if shown_before || !text::trim(errors.as_str()).is_empty() {
        Some(errors)
    } else {
        None
    }
}

proof fn lemma_unmarked_concat(a: Seq<Seq<char>>, b: Seq<Seq<char>>)
    ensures
        unmarked(a + b) == unmarked(a) + unmarked(b),
    decreases b.len(),
{
    if b.len() == 0 {
        assert(a + b =~= a);
        assert(unmarked(a) + unmarked(b) =~= unmarked(a));
    } else {
        lemma_unmarked_concat(a, b.drop_last());
        assert((a + b).drop_last() =~= a + b.drop_last());
        assert((a + b).last() == b.last());
        assert(unmarked(a + b) =~= unmarked(a) + unmarked(b));
    }
}

/// Showing the output as its lines arrive shows what the whole output would show, and in
/// the same order, however it is cut at line ends.
pub proof fn law_output_is_shown_as_it_arrives(a: Seq<char>, b: Seq<char>)
    requires
        a.len() > 0,
        a.last() == '\n',
    ensures
        unmarked(lines(a + b)) == unmarked(lines(a)) + unmarked(lines(b)),
{
    text::lemma_lines_concat(a, b);
    lemma_unmarked_concat(lines(a), lines(b));
}

proof fn lemma_decode_concat(a: Seq<u8>, b: Seq<u8>)
    requires
        valid_utf8(a),
        valid_utf8(b),
    ensures
        valid_utf8(a + b),
        decode_utf8(a + b) == decode_utf8(a) + decode_utf8(b),
    decreases a.len(),
{
    valid_utf8_concat(a, b);
    if a.len() == 0 {
        assert(a + b =~= b);
        assert(decode_utf8(a) + decode_utf8(b) =~= decode_utf8(b));
    } else {
        let rest = pop_first_scalar(a);
        assert(pop_first_scalar(a + b) =~= rest + b);
        assert(decode_first_scalar(a + b) == decode_first_scalar(a));
        lemma_decode_concat(rest, b);
        assert(decode_utf8(a + b) =~= decode_utf8(a) + decode_utf8(b));
    }
}

/// Bytes that end in a line feed decode to a text that does.
proof fn lemma_decode_line_end(a: Seq<u8>)
    requires
        valid_utf8(a),
        a.len() > 0,
        a.last() == 0x0a,
    ensures
        decode_utf8(a).len() > 0,
        decode_utf8(a).last() == '\n',
{
    let at = a.len() - 1;
    is_char_boundary_iff_not_is_continuation_byte(a, at);
    valid_utf8_split(a, at);
    decode_utf8_split(a, at);
    let end = a.subrange(at, a.len() as int);
    assert(end =~= seq![0x0au8]);
    assert(pop_first_scalar(end) =~= Seq::<u8>::empty());
    assert(0x0au8 & 0x7f == 0x0a) by (bit_vector);
    assert(decode_first_scalar(end) == 0x0a);
    reveal_with_fuel(decode_utf8, 2);
    assert(decode_utf8(end) =~= seq!['\n']);
}

/// The same of bytes: where both parts are valid UTF-8, what is shown of each as it
/// arrives is what would be shown of the whole.
pub proof fn law_bytes_are_shown_as_they_arrive(a: Seq<u8>, b: Seq<u8>)
    requires
        valid_utf8(a),
        valid_utf8(b),
        a.len() > 0,
        a.last() == 0x0a,
    ensures
        valid_utf8(a + b),
        unmarked(lines(decode_utf8(a + b))) == unmarked(lines(decode_utf8(a))) + unmarked(
            lines(decode_utf8(b)),
        ),
{
    lemma_decode_concat(a, b);
    lemma_decode_line_end(a);
    law_output_is_shown_as_it_arrives(decode_utf8(a), decode_utf8(b));
}

/// What a run of a bootstrap script through the devcontainer CLI came to: its standard
/// output, captured to be interpreted. What is to be shown of it was shown as it arrived.
pub fn run_bootstrap(ran: Result<CommandOutput, String>) -> (r: Result<BootstrapOutput, String>)
    ensures
        match ran {
            Ok(out) => r matches Ok(b) && {
                &&& b.success == out.success
                &&& b.stdout@ == utf8_lossy(out.stdout@)
                &&& valid_utf8(out.stdout@) ==> b.stdout@ == decode_utf8(out.stdout@)
            },
            Err(e) => r matches Err(msg) && msg@ == "exec: cannot run the devcontainer CLI: "@ + e@,
        },
{
    match ran {
        Ok(out) => Ok(
            BootstrapOutput {
                success: out.success,
                stdout: std_text::from_utf8_lossy(&out.stdout),
            },
        ),
        Err(e) => Err("exec: cannot run the devcontainer CLI: ".to_owned().concat(e.as_str())),
    }
}

/// Where getting a relay to run in the container stands, and so what to do next.
#[derive(Debug, PartialEq)]
pub enum RelayStep<T> {
    /// Run `RELAY_BOOTSTRAP`.
    Probe,
    /// Push a bundled binary for this architecture.
    Push { arch: T },
    /// Nothing could be pushed, for this reason: run `SOURCE_FALLBACK`.
    Build { push_error: T },
    /// A binary was pushed: run `RELAY_BOOTSTRAP` once more.
    Reprobe,
    /// The socket that the relay is bound to, or why there is no relay.
    Done(Result<T, T>),
}

/// What came of a step.
#[derive(Debug, PartialEq)]
pub enum RelayEvent<T> {
    Probed(Result<Probe<T>, T>),
    Pushed(Result<(), T>),
    Built(Result<T, T>),
}

impl DeepView for RelayStep<String> {
    type V = RelayStep<Seq<char>>;

    open spec fn deep_view(&self) -> RelayStep<Seq<char>> {
        match self {
            RelayStep::Probe => RelayStep::Probe,
            RelayStep::Push { arch } => RelayStep::Push { arch: arch@ },
            RelayStep::Build { push_error } => RelayStep::Build { push_error: push_error@ },
            RelayStep::Reprobe => RelayStep::Reprobe,
            RelayStep::Done(r) => RelayStep::Done(outcome(*r)),
        }
    }
}

impl DeepView for RelayEvent<String> {
    type V = RelayEvent<Seq<char>>;

    open spec fn deep_view(&self) -> RelayEvent<Seq<char>> {
        match self {
            RelayEvent::Probed(r) => RelayEvent::Probed(probe_outcome(*r)),
            RelayEvent::Pushed(Ok(_)) => RelayEvent::Pushed(Ok(())),
            RelayEvent::Pushed(Err(e)) => RelayEvent::Pushed(Err(e@)),
            RelayEvent::Built(r) => RelayEvent::Built(outcome(*r)),
        }
    }
}

/// The step that follows `step` when `event` came of it. An event that is not the
/// outcome of the step changes nothing.
pub open spec fn next_relay_step(
    step: RelayStep<Seq<char>>,
    event: RelayEvent<Seq<char>>,
) -> RelayStep<Seq<char>> {
    match (step, event) {
        (RelayStep::Probe, RelayEvent::Probed(Ok(Probe::Ready(socket)))) => RelayStep::Done(
            Ok(socket),
        ),
        (RelayStep::Probe, RelayEvent::Probed(Ok(Probe::NeedsBinary(arch)))) => RelayStep::Push {
            arch,
        },
        (RelayStep::Probe, RelayEvent::Probed(Err(e))) => RelayStep::Done(Err(e)),
        (RelayStep::Push { .. }, RelayEvent::Pushed(Ok(_))) => RelayStep::Reprobe,
        (RelayStep::Push { .. }, RelayEvent::Pushed(Err(e))) => RelayStep::Build { push_error: e },
        (RelayStep::Build { .. }, RelayEvent::Built(Ok(socket))) => RelayStep::Done(Ok(socket)),
        (RelayStep::Build { push_error }, RelayEvent::Built(Err(_))) => RelayStep::Done(
            Err(push_error),
        ),
        (RelayStep::Reprobe, RelayEvent::Probed(Ok(Probe::Ready(socket)))) => RelayStep::Done(
            Ok(socket),
        ),
        (RelayStep::Reprobe, RelayEvent::Probed(Ok(Probe::NeedsBinary(arch)))) => RelayStep::Done(
            Err(
                "exec: pushed a relay binary but the container ("@ + arch
                    + ") still can't run it"@,
            ),
        ),
        (RelayStep::Reprobe, RelayEvent::Probed(Err(e))) => RelayStep::Done(Err(e)),
        (step, _) => step,
    }
}

/// Resolve a working container-side relay: probe, push a bundled binary on the first
/// miss and probe once more. When nothing can be pushed, the only other way is to build
/// in place, and where that fails too the failed push is what is reported.
pub fn container_relay(step: RelayStep<String>, event: RelayEvent<String>) -> (r: RelayStep<
    String,
>)
    ensures
        r.deep_view() == next_relay_step(step.deep_view(), event.deep_view()),
{
    match (step, event) {
        (RelayStep::Probe, RelayEvent::Probed(Ok(Probe::Ready(socket)))) => RelayStep::Done(
            Ok(socket),
        ),
        (RelayStep::Probe, RelayEvent::Probed(Ok(Probe::NeedsBinary(arch)))) => RelayStep::Push {
            arch,
        },
        (RelayStep::Probe, RelayEvent::Probed(Err(e))) => RelayStep::Done(Err(e)),
        (RelayStep::Push { .. }, RelayEvent::Pushed(Ok(_))) => RelayStep::Reprobe,
        (RelayStep::Push { .. }, RelayEvent::Pushed(Err(e))) => RelayStep::Build { push_error: e },
        (RelayStep::Build { .. }, RelayEvent::Built(Ok(socket))) => RelayStep::Done(Ok(socket)),
        (RelayStep::Build { push_error }, RelayEvent::Built(Err(_))) => RelayStep::Done(
            Err(push_error),
        ),
        (RelayStep::Reprobe, RelayEvent::Probed(Ok(Probe::Ready(socket)))) => RelayStep::Done(
            Ok(socket),
        ),
        (RelayStep::Reprobe, RelayEvent::Probed(Ok(Probe::NeedsBinary(arch)))) => RelayStep::Done(
            Err(
                "exec: pushed a relay binary but the container (".to_owned().concat(
                    arch.as_str(),
                ).concat(") still can't run it"),
            ),
        ),
        (RelayStep::Reprobe, RelayEvent::Probed(Err(e))) => RelayStep::Done(Err(e)),
        (step, _) => step,
    }
}

/// Whether `event` is an outcome of `step`.
pub open spec fn answers_step(step: RelayStep<Seq<char>>, event: RelayEvent<Seq<char>>) -> bool {
    match step {
        RelayStep::Probe => event is Probed,
        RelayStep::Push { .. } => event is Pushed,
        RelayStep::Build { .. } => event is Built,
        RelayStep::Reprobe => event is Probed,
        RelayStep::Done(_) => false,
    }
}

/// Where `step` leads when `events` come one after the other.
pub open spec fn relay_run(
    step: RelayStep<Seq<char>>,
    events: Seq<RelayEvent<Seq<char>>>,
) -> RelayStep<Seq<char>>
    decreases events.len(),
{
    if events.len() == 0 {
        step
    } else {
        relay_run(next_relay_step(step, events[0]), events.skip(1))
    }
}

/// How many more outcomes `step` can take at most.
pub open spec fn steps_left(step: RelayStep<Seq<char>>) -> nat {
    match step {
        RelayStep::Probe => 3,
        RelayStep::Push { .. } => 2,
        RelayStep::Build { .. } => 1,
        RelayStep::Reprobe => 1,
        RelayStep::Done(_) => 0,
    }
}

/// Each outcome brings the end nearer, so there are at most two probes and at most one
/// push; and what is done stays done.
pub proof fn law_relay_ends(step: RelayStep<Seq<char>>, event: RelayEvent<Seq<char>>)
    ensures
        answers_step(step, event) ==> steps_left(next_relay_step(step, event)) < steps_left(step),
        !answers_step(step, event) ==> next_relay_step(step, event) == step,
        steps_left(step) == 0 <==> step is Done,
{
}

/// Whatever a first probe that asks for a binary is followed by, one push and one more
/// round trip settle the matter: with the socket that the last round trip reported, or
/// with an error, which is the failed push where there was one.
pub proof fn law_one_push_then_one_retry(
    arch: Seq<char>,
    pushed: Result<(), Seq<char>>,
    reprobed: Result<Probe<Seq<char>>, Seq<char>>,
    built: Result<Seq<char>, Seq<char>>,
)
    ensures
        ({
            let events = seq![
                RelayEvent::Probed(Ok(Probe::NeedsBinary(arch))),
                RelayEvent::Pushed(pushed),
                match pushed {
                    Ok(_) => RelayEvent::Probed(reprobed),
                    Err(_) => RelayEvent::Built(built),
                },
            ];
            relay_run(RelayStep::Probe, events) matches RelayStep::Done(r) && match (
                pushed,
                reprobed,
                built,
            ) {
                (Ok(_), Ok(Probe::Ready(socket)), _) => r == Ok::<Seq<char>, Seq<char>>(socket),
                (Ok(_), _, _) => r is Err,
                (Err(_), _, Ok(socket)) => r == Ok::<Seq<char>, Seq<char>>(socket),
                (Err(e), _, Err(_)) => r == Err::<Seq<char>, Seq<char>>(e),
            }
        }),
{
    let first = RelayEvent::Probed(Ok(Probe::NeedsBinary(arch)));
    let second = RelayEvent::Pushed(pushed);
    let third = match pushed {
        Ok(_) => RelayEvent::Probed(reprobed),
        Err(_) => RelayEvent::Built(built),
    };
    let events = seq![first, second, third];
    assert(events.skip(1) =~= seq![second, third]);
    assert(seq![second, third].skip(1) =~= seq![third]);
    assert(seq![third].skip(1) =~= Seq::<RelayEvent<Seq<char>>>::empty());
    reveal_with_fuel(relay_run, 4);
}

/// What is marked is what the last line with the marker says after it; lines without it do
/// not matter, and without any such line nothing is marked.
pub proof fn law_the_last_marked_line_counts(
    before: Seq<Seq<char>>,
    value: Seq<char>,
    after: Seq<Seq<char>>,
    marker: Seq<char>,
)
    requires
        forall|i: int| 0 <= i < after.len() ==> !marker.is_prefix_of(#[trigger] after[i]),
    ensures
        last_marked(before + seq![marker + value] + after, marker) == Some(value),
        last_marked(after, marker) is None,
        last_marked(before + after, marker) == last_marked(before, marker),
    decreases after.len(),
{
    let line = marker + value;
    let whole = before + seq![line] + after;
    if after.len() == 0 {
        assert(whole.last() == line);
        assert(marker =~= line.subrange(0, marker.len() as int));
        assert(line.skip(marker.len() as int) =~= value);
        assert(before + after =~= before);
    } else {
        assert(whole.last() == after.last());
        assert(whole.drop_last() =~= before + seq![line] + after.drop_last());
        assert((before + after).drop_last() =~= before + after.drop_last());
        assert((before + after).last() == after.last());
        assert(!marker.is_prefix_of(after[after.len() - 1]));
        assert forall|i: int| 0 <= i < after.drop_last().len() implies !marker.is_prefix_of(
            #[trigger] after.drop_last()[i],
        ) by {
            assert(!marker.is_prefix_of(after[i]));
        }
        law_the_last_marked_line_counts(before, value, after.drop_last(), marker);
    }
}

/// Every line without a marker is shown, and no line with one.
pub proof fn law_all_but_the_markers_is_shown(line: Seq<char>, a: Seq<Seq<char>>, b: Seq<Seq<char>>)
    ensures
        unmarked(a + b) == unmarked(a) + unmarked(b),
        SOCKET_MARKER@.is_prefix_of(line) || NEED_MARKER@.is_prefix_of(line) ==> unmarked(
            seq![line],
        ) == Seq::<Seq<char>>::empty(),
        !SOCKET_MARKER@.is_prefix_of(line) && !NEED_MARKER@.is_prefix_of(line) ==> unmarked(
            seq![line],
        ) == seq![line],
{
    lemma_unmarked_concat(a, b);
    reveal_with_fuel(unmarked, 2);
    assert(seq![line].drop_last() =~= Seq::<Seq<char>>::empty());
    assert(Seq::<Seq<char>>::empty().push(line) =~= seq![line]);
}

/// A needed binary is asked for whether the script failed or not. Without one the socket
/// counts, and only where the script succeeded.
pub proof fn law_a_needed_binary_comes_first(success: bool, stdout: Seq<char>)
    ensures
        ({
            let need = last_marked(lines(stdout), NEED_MARKER@);
            let socket = last_marked(lines(stdout), SOCKET_MARKER@);
            &&& need matches Some(arch) ==> probed(success, stdout) == Ok::<
                Probe<Seq<char>>,
                Seq<char>,
            >(Probe::NeedsBinary(arch))
            &&& need is None && success ==> match socket {
                Some(path) => {
                    &&& probed(success, stdout) == Ok::<Probe<Seq<char>>, Seq<char>>(
                        Probe::Ready(path),
                    )
                    &&& built(success, stdout) == Ok::<Seq<char>, Seq<char>>(path)
                },
                None => {
                    &&& probed(success, stdout) == Err::<Probe<Seq<char>>, Seq<char>>(
                        NO_SOCKET_PATH@,
                    )
                    &&& built(success, stdout) == Err::<Seq<char>, Seq<char>>(NO_SOCKET_PATH@)
                },
            }
            &&& need is None && !success ==> probed(success, stdout) == Err::<
                Probe<Seq<char>>,
                Seq<char>,
            >(RELAY_UNAVAILABLE@)
            &&& !success ==> built(success, stdout) == Err::<Seq<char>, Seq<char>>(
                RELAY_UNAVAILABLE@,
            )
            &&& success ==> (built(success, stdout) is Ok <==> socket is Some)
            &&& success && socket is Some ==> built(success, stdout) == Ok::<
                Seq<char>,
                Seq<char>,
            >(socket->0)
        }),
{
}

/// A relay that is ready is used as it is, and nothing is pushed; a failed probe is the
/// outcome; and the architecture that is asked for is the one that is pushed for.
pub proof fn law_a_probe_settles_what_follows(
    socket: Seq<char>,
    arch: Seq<char>,
    reason: Seq<char>,
    step: RelayStep<Seq<char>>,
)
    requires
        step is Probe || step is Reprobe,
    ensures
        next_relay_step(step, RelayEvent::Probed(Ok(Probe::Ready(socket)))) == RelayStep::Done(
            Ok::<Seq<char>, Seq<char>>(socket),
        ),
        next_relay_step(step, RelayEvent::Probed(Err(reason))) == RelayStep::Done(
            Err::<Seq<char>, Seq<char>>(reason),
        ),
        step is Probe ==> next_relay_step(step, RelayEvent::Probed(Ok(Probe::NeedsBinary(arch))))
            == (RelayStep::Push { arch }),
        step is Reprobe ==> next_relay_step(
            step,
            RelayEvent::Probed(Ok(Probe::NeedsBinary(arch))),
        ) == RelayStep::Done(
            Err::<Seq<char>, Seq<char>>(
                "exec: pushed a relay binary but the container ("@ + arch
                    + ") still can't run it"@,
            ),
        ),
        next_relay_step(RelayStep::Push { arch }, RelayEvent::Pushed(Ok(()))) == (
        RelayStep::<Seq<char>>::Reprobe),
        next_relay_step(RelayStep::Push { arch }, RelayEvent::Pushed(Err(reason))) == (
        RelayStep::Build { push_error: reason }),
{
}

/// The texts of steps and outcomes are seen, each as itself and under its own kind.
pub proof fn law_relay_steps_are_seen_whole(a: String)
    ensures
        Probe::Ready(a).deep_view() == Probe::Ready(a@),
        Probe::NeedsBinary(a).deep_view() == Probe::NeedsBinary(a@),
        probe_outcome(Ok(Probe::Ready(a))) == Ok::<Probe<Seq<char>>, Seq<char>>(Probe::Ready(a@)),
        probe_outcome(Ok(Probe::NeedsBinary(a))) == Ok::<Probe<Seq<char>>, Seq<char>>(
            Probe::NeedsBinary(a@),
        ),
        probe_outcome(Err(a)) == Err::<Probe<Seq<char>>, Seq<char>>(a@),
        RelayStep::<String>::Probe.deep_view() == RelayStep::<Seq<char>>::Probe,
        (RelayStep::Push { arch: a }).deep_view() == (RelayStep::Push { arch: a@ }),
        (RelayStep::Build { push_error: a }).deep_view() == (RelayStep::Build { push_error: a@ }),
        RelayStep::<String>::Reprobe.deep_view() == RelayStep::<Seq<char>>::Reprobe,
        RelayStep::Done(Ok::<String, String>(a)).deep_view() == RelayStep::Done(
            Ok::<Seq<char>, Seq<char>>(a@),
        ),
        RelayStep::Done(Err::<String, String>(a)).deep_view() == RelayStep::Done(
            Err::<Seq<char>, Seq<char>>(a@),
        ),
        RelayEvent::<String>::Pushed(Ok(())).deep_view() == RelayEvent::<Seq<char>>::Pushed(Ok(())),
        RelayEvent::<String>::Pushed(Err(a)).deep_view() == RelayEvent::<Seq<char>>::Pushed(
            Err(a@),
        ),
        RelayEvent::<String>::Built(Ok(a)).deep_view() == RelayEvent::<Seq<char>>::Built(Ok(a@)),
        RelayEvent::<String>::Built(Err(a)).deep_view() == RelayEvent::<Seq<char>>::Built(Err(a@)),
        RelayEvent::<String>::Probed(Ok(Probe::Ready(a))).deep_view() == RelayEvent::<
            Seq<char>,
        >::Probed(Ok(Probe::Ready(a@))),
        RelayEvent::<String>::Probed(Ok(Probe::NeedsBinary(a))).deep_view() == RelayEvent::<
            Seq<char>,
        >::Probed(Ok(Probe::NeedsBinary(a@))),
        RelayEvent::<String>::Probed(Err(a)).deep_view() == RelayEvent::<Seq<char>>::Probed(
            Err(a@),
        ),
{
}

/// A build settles the matter: with its socket, or with why nothing could be pushed.
pub proof fn law_a_failed_build_tells_the_failed_push(
    push_error: Seq<char>,
    socket: Seq<char>,
    reason: Seq<char>,
)
    ensures
        next_relay_step(RelayStep::Build { push_error }, RelayEvent::Built(Ok(socket)))
            == RelayStep::Done(Ok::<Seq<char>, Seq<char>>(socket)),
        next_relay_step(RelayStep::Build { push_error }, RelayEvent::Built(Err(reason)))
            == RelayStep::Done(Err::<Seq<char>, Seq<char>>(push_error)),
{
}

} // verus!
