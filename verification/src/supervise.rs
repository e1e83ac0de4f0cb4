//! start / stop / status for the two long-lived forwarders.
//!
//! Ownership is deliberately loose: several herdr panes share one bridge, so no single
//! pane owns its lifetime, and `start` is idempotent: if something already answers on
//! the endpoint, that's this forwarder from an earlier pane or an earlier container
//! start, and either way there's nothing to do.

use vstd::prelude::*;
use vstd::string::*;

use crate::path;
use crate::path::{joined, parent_of};
use crate::process;
use crate::settings;
use crate::settings::Environment;
use crate::text;
use crate::text::{decimal, i32_value, last_parts, lines, outcome, signed_decimal, trimmed};

verus! {

/// How often a freshly spawned forwarder is asked whether it answers, 100ms apart.
pub const READY_STEPS: u32 = 20;

/// One supervised forwarder: the `serve` invocation of this same binary, plus where its
/// pid and output land.
#[derive(Debug, PartialEq)]
pub struct Daemon {
    /// Prefix on every message, and the name in the usage text ("bridge", "relay").
    pub label: &'static str,
    /// Human-readable endpoint, for messages only.
    pub endpoint: String,
    pub pidfile: String,
    pub log: String,
    /// Arguments to re-exec ourselves with, e.g. `["bridge", "serve"]`.
    pub serve_args: Vec<String>,
}

fn serve_args(name: &str) -> (r: Vec<String>)
    ensures
        r.deep_view() == seq![name@, "serve"@],
{
    let r = process::texts(&vec![name, "serve"]);
    assert(r.deep_view() =~= seq![name@, "serve"@]);
    r
}

/// `herdr-tcp-bridge-<port><extension>` in the runtime directory.
pub open spec fn bridge_file(env: Environment, extension: Seq<char>) -> Seq<char> {
    joined(
        env.spec_runtime_dir(),
        "herdr-tcp-bridge-"@ + decimal(env.spec_port() as nat) + extension,
    )
}

/// The host end: `<bind>:<port>` to herdr's unix socket.
pub fn bridge(env: &Environment) -> (r: Daemon)
    ensures
        r.label@ == "bridge"@,
        r.endpoint@ == env.spec_bridge_bind() + ":"@ + decimal(env.spec_port() as nat) + " -> "@
            + env.spec_host_socket(),
        r.pidfile@ == bridge_file(*env, ".pid"@),
        r.log@ == bridge_file(*env, ".log"@),
        r.serve_args.deep_view() == seq!["bridge"@, "serve"@],
{
    let port = text::to_decimal(settings::port(env) as u64);
    let run = settings::runtime_dir(env);
    let name = "herdr-tcp-bridge-".to_owned().concat(port.as_str());
    let endpoint = settings::bridge_bind(env).concat(":").concat(port.as_str()).concat(" -> ").concat(
        settings::host_socket(env).as_str(),
    );
    Daemon {
        label: "bridge",
        endpoint,
        pidfile: path::join(run.as_str(), name.clone().concat(".pid").as_str()),
        log: path::join(run.as_str(), name.concat(".log").as_str()),
        serve_args: serve_args("bridge"),
    }
}

/// Where the relay's pid and log live: next to its socket, else in the home directory.
pub open spec fn relay_home(env: Environment) -> Seq<char> {
    match parent_of(env.spec_relay_socket()) {
        Some(dir) => dir,
        None => env.spec_home(),
    }
}

/// Where the relay's pid and log live. On a fresh container nothing has made this
/// directory yet, and the log has to be creatable before the forwarder is spawned.
pub fn relay_dir(env: &Environment) -> (r: String)
    ensures
        r@ == relay_home(*env),
{
    match path::parent(settings::relay_socket(env).as_str()) {
        Some(dir) => dir.to_owned(),
        None => settings::home(env),
    }
}

/// The container end: a local unix socket to the host bridge port. It runs in the
/// container, so its pid and log live in the container's home.
pub fn relay(env: &Environment) -> (r: Daemon)
    ensures
        r.label@ == "relay"@,
        r.endpoint@ == env.spec_relay_socket() + " -> "@ + env.spec_relay_host() + ":"@ + decimal(
            env.spec_port() as nat,
        ),
        r.pidfile@ == joined(relay_home(*env), "relay.pid"@),
        r.log@ == joined(relay_home(*env), "relay.log"@),
        r.serve_args.deep_view() == seq!["relay"@, "serve"@],
{
    let dir = relay_dir(env);
    let port = text::to_decimal(settings::port(env) as u64);
    let endpoint = settings::relay_socket(env).concat(" -> ").concat(
        settings::relay_host(env).as_str(),
    ).concat(":").concat(port.as_str());
    Daemon {
        label: "relay",
        endpoint,
        pidfile: path::join(dir.as_str(), "relay.pid"),
        log: path::join(dir.as_str(), "relay.log"),
        serve_args: serve_args("relay"),
    }
}

/// Where starting a forwarder stands, and so what to do next.
#[derive(Debug, PartialEq)]
pub enum Start<T> {
    /// Ask whether the endpoint answers.
    Asking,
    /// Spawn the forwarder and record its pid.
    Spawning,
    /// Ask whether the endpoint answers, `left` more times at most.
    Waiting { left: u32 },
    /// Wait 100ms.
    Pausing { left: u32 },
    /// Read the last lines of the log.
    ReadingLog,
    /// What to say, and whether the forwarder is up.
    Finished(Result<T, T>),
}

/// Why a forwarder could not be spawned.
#[derive(Debug, PartialEq)]
pub enum SpawnFailure<T> {
    /// The path of this executable is not known.
    NoExecutable(T),
    /// The log file could not be created.
    LogNotCreated(T),
    /// The log file could not be shared between both outputs.
    LogNotShared(T),
    /// The process could not be started.
    NotSpawned(T),
}

/// What came of a step.
#[derive(Debug, PartialEq)]
pub enum StartEvent<T> {
    Answered(bool),
    Spawned,
    Failed(SpawnFailure<T>),
    Paused,
    LogTail(T),
}

impl DeepView for Start<String> {
    type V = Start<Seq<char>>;

    open spec fn deep_view(&self) -> Start<Seq<char>> {
        match self {
            Start::Asking => Start::Asking,
            Start::Spawning => Start::Spawning,
            Start::Waiting { left } => Start::Waiting { left: *left },
            Start::Pausing { left } => Start::Pausing { left: *left },
            Start::ReadingLog => Start::ReadingLog,
            Start::Finished(r) => Start::Finished(outcome(*r)),
        }
    }
}

impl DeepView for SpawnFailure<String> {
    type V = SpawnFailure<Seq<char>>;

    open spec fn deep_view(&self) -> SpawnFailure<Seq<char>> {
        match self {
            SpawnFailure::NoExecutable(e) => SpawnFailure::NoExecutable(e@),
            SpawnFailure::LogNotCreated(e) => SpawnFailure::LogNotCreated(e@),
            SpawnFailure::LogNotShared(e) => SpawnFailure::LogNotShared(e@),
            SpawnFailure::NotSpawned(e) => SpawnFailure::NotSpawned(e@),
        }
    }
}

impl DeepView for StartEvent<String> {
    type V = StartEvent<Seq<char>>;

    open spec fn deep_view(&self) -> StartEvent<Seq<char>> {
        match self {
            StartEvent::Answered(ready) => StartEvent::Answered(*ready),
            StartEvent::Spawned => StartEvent::Spawned,
            StartEvent::Failed(f) => StartEvent::Failed(f.deep_view()),
            StartEvent::Paused => StartEvent::Paused,
            StartEvent::LogTail(tail) => StartEvent::LogTail(tail@),
        }
    }
}

/// What the decisions on one forwarder depend on.
pub struct DaemonView {
    pub label: Seq<char>,
    pub endpoint: Seq<char>,
    pub pidfile: Seq<char>,
    pub log: Seq<char>,
    pub serve_args: Seq<Seq<char>>,
}

impl DeepView for Daemon {
    type V = DaemonView;

    open spec fn deep_view(&self) -> DaemonView {
        DaemonView {
            label: self.label@,
            endpoint: self.endpoint@,
            pidfile: self.pidfile@,
            log: self.log@,
            serve_args: self.serve_args.deep_view(),
        }
    }
}

impl DaemonView {
    /// What is said when the endpoint answers.
    pub open spec fn listening(self) -> Seq<char> {
        self.label + ": listening on "@ + self.endpoint
    }

    /// What is said when the endpoint answered before anything was done.
    pub open spec fn already_listening(self) -> Seq<char> {
        self.label + ": already listening on "@ + self.endpoint
    }

    /// What is said when the forwarder could not be spawned.
    pub open spec fn not_spawned(self, failure: SpawnFailure<Seq<char>>) -> Seq<char> {
        match failure {
            SpawnFailure::NoExecutable(e) => self.label + ": "@ + e,
            SpawnFailure::LogNotCreated(e) => self.label + ": "@ + self.log + ": "@ + e,
            SpawnFailure::LogNotShared(e) => self.label + ": "@ + e,
            SpawnFailure::NotSpawned(e) => self.label + ": failed to spawn: "@ + e,
        }
    }

    /// The step that follows `step` when `event` came of it. An event that is not the
    /// outcome of the step changes nothing.
    pub open spec fn next_start(
        self,
        step: Start<Seq<char>>,
        event: StartEvent<Seq<char>>,
    ) -> Start<Seq<char>> {
        match (step, event) {
            (Start::Asking, StartEvent::Answered(true)) => Start::Finished(
                Ok(self.already_listening()),
            ),
            (Start::Asking, StartEvent::Answered(false)) => Start::Spawning,
            (Start::Spawning, StartEvent::Spawned) => Start::Waiting { left: READY_STEPS },
            (Start::Spawning, StartEvent::Failed(failure)) => Start::Finished(
                Err(self.not_spawned(failure)),
            ),
            (Start::Waiting { .. }, StartEvent::Answered(true)) => Start::Finished(
                Ok(self.listening()),
            ),
            (Start::Waiting { left }, StartEvent::Answered(false)) => Start::Pausing {
                left: if left > 0 {
                    (left - 1) as u32
                } else {
                    0
                },
            },
            (Start::Pausing { left }, StartEvent::Paused) => if left > 0 {
                Start::Waiting { left }
            } else {
                Start::ReadingLog
            },
            (Start::ReadingLog, StartEvent::LogTail(tail)) => Start::Finished(
                Err(self.label + ": failed to start; last log lines:\n"@ + tail),
            ),
            (step, _) => step,
        }
    }

    /// Where `step` leads when `events` come one after the other.
    pub open spec fn start_run(
        self,
        step: Start<Seq<char>>,
        events: Seq<StartEvent<Seq<char>>>,
    ) -> Start<Seq<char>>
        decreases events.len(),
    {
        if events.len() == 0 {
            step
        } else {
            self.start_run(self.next_start(step, events[0]), events.skip(1))
        }
    }
}

/// `n` times an endpoint that does not answer, with the pause after it.
pub open spec fn silence(n: nat) -> Seq<StartEvent<Seq<char>>> {
    Seq::new(
        2 * n,
        |i: int|
            if i % 2 == 0 {
                StartEvent::Answered(false)
            } else {
                StartEvent::Paused
            },
    )
}

/// An endpoint that already answers is left alone: nothing is spawned.
pub proof fn law_start_is_idempotent(d: DaemonView)
    ensures
        d.next_start(Start::Asking, StartEvent::Answered(true)) == Start::Finished(
            Ok::<Seq<char>, Seq<char>>(d.already_listening()),
        ),
{
}

proof fn lemma_silence(d: DaemonView, left: u32, n: nat)
    requires
        0 < n <= left,
    ensures
        d.start_run(Start::Waiting { left }, silence(n)) == if n < left {
            Start::<Seq<char>>::Waiting { left: (left - n) as u32 }
        } else {
            Start::<Seq<char>>::ReadingLog
        },
    decreases n,
{
    reveal_with_fuel(DaemonView::start_run, 3);
    let events = silence(n);
    let rest = silence((n - 1) as nat);
    assert(events.skip(1).skip(1) =~= rest);
    assert(events[0] == StartEvent::<Seq<char>>::Answered(false));
    assert(events.skip(1)[0] == StartEvent::<Seq<char>>::Paused);
    if n > 1 {
        lemma_silence(d, (left - 1) as u32, (n - 1) as nat);
    } else {
        assert(rest =~= Seq::<StartEvent<Seq<char>>>::empty());
    }
}

/// A spawned forwarder is asked again and again, as often as `READY_STEPS` says. One that
/// answers after `n` failed attempts, fewer than that, is up.
pub proof fn law_slow_forwarder_is_waited_for(d: DaemonView, n: nat)
    requires
        n < READY_STEPS,
    ensures
        d.next_start(
            d.start_run(
                d.next_start(Start::Spawning, StartEvent::Spawned),
                silence(n),
            ),
            StartEvent::Answered(true),
        ) == Start::Finished(Ok::<Seq<char>, Seq<char>>(d.listening())),
{
    if n > 0 {
        lemma_silence(d, READY_STEPS, n);
    } else {
        assert(silence(n) =~= Seq::<StartEvent<Seq<char>>>::empty());
    }
}

/// A spawned forwarder that does not answer `READY_STEPS` times is given up, and its log
/// is what is reported.
pub proof fn law_silent_forwarder_is_given_up(d: DaemonView, tail: Seq<char>)
    ensures
        d.next_start(
            d.start_run(
                d.next_start(Start::Spawning, StartEvent::Spawned),
                silence(READY_STEPS as nat),
            ),
            StartEvent::LogTail(tail),
        ) == Start::Finished(
            Err::<Seq<char>, Seq<char>>(
                d.label + ": failed to start; last log lines:\n"@ + tail,
            ),
        ),
{
    lemma_silence(d, READY_STEPS, READY_STEPS as nat);
}

/// A pid as it is written into a pidfile.
pub fn pidfile_text(pid: u32) -> (r: String)
    ensures
        r@ == decimal(pid as nat),
{
    text::to_decimal(pid as u64)
}

/// The pid in the contents of a pidfile, if they are one.
pub fn pid(contents: &str) -> (r: Option<i32>)
    ensures
        r == i32_value(trimmed(contents@)),
{
    text::parse_i32(text::trim(contents))
}

/// The pid written into a pidfile is the pid that is read from it.
pub proof fn law_pidfile_reads_back(pid: u32)
    requires
        pid <= i32::MAX,
    ensures
        i32_value(trimmed(decimal(pid as nat))) == Some(pid as i32),
{
    text::law_signed_decimal_reads_back(pid as int);
    text::lemma_decimal_is_trimmed(pid as nat);
}

/// What stopping a forwarder comes to.
#[derive(Debug, PartialEq)]
pub struct Stop {
    /// The process to end, if one is running. The pidfile goes either way.
    pub signal: Option<i32>,
    pub message: String,
}

/// The last `n` lines of a log, for the failure message; `contents` is `None` when the
/// log at `path` cannot be read.
pub fn tail(path: &str, contents: Option<&str>, n: usize) -> (r: String)
    ensures
        r@ == match contents {
            Some(s) => text::joined(last_parts(lines(s@), n as nat), "\n"@),
            None => "("@ + path@ + ": unreadable)"@,
        },
{
    match contents {
        Some(s) => text::last_lines(s, n),
        None => "(".to_owned().concat(path).concat(": unreadable)"),
    }
}

impl Daemon {
    fn say(&self, middle: &str, end: &str) -> (r: String)
        ensures
            r@ == self.label@ + middle@ + end@,
    {
        self.label.to_owned().concat(middle).concat(end)
    }

    fn spawn_failure(&self, failure: SpawnFailure<String>) -> (r: String)
        ensures
            r@ == self.deep_view().not_spawned(failure.deep_view()),
    {
        match failure {
            SpawnFailure::NoExecutable(e) => self.say(": ", e.as_str()),
            SpawnFailure::LogNotCreated(e) => self.say(": ", self.log.as_str()).concat(
                ": ",
            ).concat(e.as_str()),
            SpawnFailure::LogNotShared(e) => self.say(": ", e.as_str()),
            SpawnFailure::NotSpawned(e) => self.say(": failed to spawn: ", e.as_str()),
        }
    }

    /// Spawn the forwarder unless the endpoint already answers, and wait for it to
    /// answer: bind failures happen after the fork, so a live pid is not proof of a
    /// working forwarder.
    pub fn start(&self, step: Start<String>, event: StartEvent<String>) -> (r: Start<String>)
        ensures
            r.deep_view() == self.deep_view().next_start(step.deep_view(), event.deep_view()),
    {
        match (step, event) {
            (Start::Asking, StartEvent::Answered(true)) => Start::Finished(
                Ok(self.say(": already listening on ", self.endpoint.as_str())),
            ),
            (Start::Asking, StartEvent::Answered(false)) => Start::Spawning,
            (Start::Spawning, StartEvent::Spawned) => Start::Waiting { left: READY_STEPS },
            (Start::Spawning, StartEvent::Failed(failure)) => Start::Finished(
                Err(self.spawn_failure(failure)),
            ),
            (Start::Waiting { .. }, StartEvent::Answered(true)) => Start::Finished(
                Ok(self.say(": listening on ", self.endpoint.as_str())),
            ),
            (Start::Waiting { left }, StartEvent::Answered(false)) => Start::Pausing {
                left: if left > 0 {
                    left - 1
                } else {
                    0
                },
            },
            (Start::Pausing { left }, StartEvent::Paused) => {
                if left > 0 {
                    Start::Waiting { left }
                } else {
                    Start::ReadingLog
                }
            },
            (Start::ReadingLog, StartEvent::LogTail(tail)) => Start::Finished(
                Err(self.say(": failed to start; last log lines:\n", tail.as_str())),
            ),
            (step, _) => step,
        }
    }

    /// Stop the forwarder whose pid the pidfile names, if it does and that process is
    /// `alive`.
    pub fn stop(&self, pid: Option<i32>, alive: bool) -> (r: Stop)
        ensures
            match pid {
                Some(n) => if alive {
                    &&& r.signal == Some(n)
                    &&& r.message@ == self.label@ + ": stopped pid "@ + signed_decimal(n as int)
                } else {
                    &&& r.signal is None
                    &&& r.message@ == self.label@ + ": not running from "@ + self.pidfile@
                },
                None => {
                    &&& r.signal is None
                    &&& r.message@ == self.label@ + ": not running from "@ + self.pidfile@
                },
            },
    {
        match pid {
            Some(n) if alive => Stop {
                signal: Some(n),
                message: self.say(": stopped pid ", text::to_signed_decimal(n).as_str()),
            },
            _ => Stop {
                signal: None,
                message: self.say(": not running from ", self.pidfile.as_str()),
            },
        }
    }

    /// Err when nothing answers, so the caller can exit non-zero: scripts read the exit
    /// code, not the message.
    pub fn status(&self, ready: bool) -> (r: Result<String, String>)
        ensures
            outcome(r) == if ready {
                Ok(self.deep_view().listening())
            } else {
                Err(self.label@ + ": nothing listening on "@ + self.endpoint@)
            },
    {
        if ready {
            Ok(self.say(": listening on ", self.endpoint.as_str()))
        } else {
            Err(self.say(": nothing listening on ", self.endpoint.as_str()))
        }
    }
}

/// Nothing is spawned unless the endpoint was asked and did not answer; a spawned forwarder
/// is up only once it answers; and one that could not be spawned is told with its reason.
pub proof fn law_only_an_answer_means_up(
    d: DaemonView,
    step: Start<Seq<char>>,
    event: StartEvent<Seq<char>>,
)
    ensures
        !(step is Spawning) && d.next_start(step, event) is Spawning ==> step is Asking && event
            == StartEvent::<Seq<char>>::Answered(false),
        !(step is Finished) ==> (d.next_start(step, event) matches Start::Finished(r) ==> match r {
            Ok(msg) => {
                &&& event == StartEvent::<Seq<char>>::Answered(true)
                &&& step is Asking ==> msg == d.label + ": already listening on "@ + d.endpoint
                &&& !(step is Asking) ==> step is Waiting && msg == d.label + ": listening on "@
                    + d.endpoint
            },
            Err(msg) => match event {
                StartEvent::Failed(SpawnFailure::NoExecutable(e)) => step is Spawning && msg
                    == d.label + ": "@ + e,
                StartEvent::Failed(SpawnFailure::LogNotCreated(e)) => step is Spawning && msg
                    == d.label + ": "@ + d.log + ": "@ + e,
                StartEvent::Failed(SpawnFailure::LogNotShared(e)) => step is Spawning && msg
                    == d.label + ": "@ + e,
                StartEvent::Failed(SpawnFailure::NotSpawned(e)) => step is Spawning && msg
                    == d.label + ": failed to spawn: "@ + e,
                StartEvent::LogTail(tail) => step is ReadingLog && msg == d.label
                    + ": failed to start; last log lines:\n"@ + tail,
                _ => false,
            },
        }),
        step is Finished ==> d.next_start(step, event) == step,
        d.next_start(Start::Asking, StartEvent::Answered(false)) == Start::<Seq<char>>::Spawning,
        event matches StartEvent::Failed(f) ==> d.next_start(
            Start::<Seq<char>>::Spawning,
            event,
        ) is Finished,
        step matches Start::Waiting { left } ==> d.next_start(
            step,
            StartEvent::Answered(true),
        ) is Finished,
{
}

/// The bridge's files are in the runtime directory, and each port has its own.
pub proof fn law_each_port_has_its_own_files(a: Environment, b: Environment, extension: Seq<char>)
    requires
        a.tmpdir == b.tmpdir,
        a.spec_port() != b.spec_port(),
    ensures
        bridge_file(a, extension) == joined(
            a.spec_runtime_dir(),
            "herdr-tcp-bridge-"@ + decimal(a.spec_port() as nat) + extension,
        ),
        bridge_file(a, extension) != bridge_file(b, extension),
{
    reveal_strlit("herdr-tcp-bridge-");
    let name = "herdr-tcp-bridge-"@;
    let x = decimal(a.spec_port() as nat);
    let y = decimal(b.spec_port() as nat);
    let p = name + x + extension;
    let q = name + y + extension;
    assert(p[0] == name[0] && q[0] == name[0]);
    let dir = a.spec_runtime_dir();
    path::law_joining_puts_one_slash_between(dir, p);
    path::law_joining_puts_one_slash_between(dir, q);
    if bridge_file(a, extension) == bridge_file(b, extension) {
        let whole = joined(dir, p);
        assert(p.len() == q.len());
        assert(p =~= whole.subrange(whole.len() - p.len(), whole.len() as int));
        assert(q =~= whole.subrange(whole.len() - q.len(), whole.len() as int));
        assert(p == q);
        assert(x =~= p.subrange(name.len() as int, (name.len() + x.len()) as int));
        assert(y =~= q.subrange(name.len() as int, (name.len() + y.len()) as int));
        text::law_decimal_reads_back(a.spec_port() as nat);
        text::law_decimal_reads_back(b.spec_port() as nat);
        assert(false);
    }
}

/// The relay's files are next to its socket, and in the home directory only where the
/// socket has no directory.
pub proof fn law_the_relays_files_are_next_to_its_socket(env: Environment)
    ensures
        match parent_of(env.spec_relay_socket()) {
            Some(dir) => relay_home(env) == dir,
            None => relay_home(env) == env.spec_home(),
        },
{
}

/// The texts of a forwarder, its steps and their outcomes are seen, each as itself and
/// under its own kind.
pub proof fn law_start_steps_are_seen_whole(d: Daemon, a: String, n: u32, yes: bool)
    ensures
        d.deep_view().label == d.label@,
        d.deep_view().endpoint == d.endpoint@,
        d.deep_view().pidfile == d.pidfile@,
        d.deep_view().log == d.log@,
        d.deep_view().serve_args == d.serve_args.deep_view(),
        Start::<String>::Asking.deep_view() == Start::<Seq<char>>::Asking,
        Start::<String>::Spawning.deep_view() == Start::<Seq<char>>::Spawning,
        (Start::<String>::Waiting { left: n }).deep_view() == (Start::<Seq<char>>::Waiting {
            left: n,
        }),
        (Start::<String>::Pausing { left: n }).deep_view() == (Start::<Seq<char>>::Pausing {
            left: n,
        }),
        Start::<String>::ReadingLog.deep_view() == Start::<Seq<char>>::ReadingLog,
        Start::<String>::Finished(Ok(a)).deep_view() == Start::<Seq<char>>::Finished(Ok(a@)),
        Start::<String>::Finished(Err(a)).deep_view() == Start::<Seq<char>>::Finished(Err(a@)),
        SpawnFailure::NoExecutable(a).deep_view() == SpawnFailure::NoExecutable(a@),
        SpawnFailure::LogNotCreated(a).deep_view() == SpawnFailure::LogNotCreated(a@),
        SpawnFailure::LogNotShared(a).deep_view() == SpawnFailure::LogNotShared(a@),
        SpawnFailure::NotSpawned(a).deep_view() == SpawnFailure::NotSpawned(a@),
        StartEvent::<String>::Answered(yes).deep_view() == StartEvent::<Seq<char>>::Answered(yes),
        StartEvent::<String>::Spawned.deep_view() == StartEvent::<Seq<char>>::Spawned,
        StartEvent::<String>::Paused.deep_view() == StartEvent::<Seq<char>>::Paused,
        StartEvent::LogTail(a).deep_view() == StartEvent::LogTail(a@),
        StartEvent::Failed(SpawnFailure::NotSpawned(a)).deep_view() == StartEvent::Failed(
            SpawnFailure::NotSpawned(a@),
        ),
{
}

} // verus!
