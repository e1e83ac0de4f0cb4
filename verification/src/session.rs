//! Running a command in the devcontainer as the calling herdr pane's agent.
//!
//! Four things have to line up, and none of them do by default: the pane's herdr
//! variables must be set in the container; the socket they name must exist there, which
//! is the relay's; something must answer on the other end, which is the host bridge; and
//! herdr must recognise the pane as running an agent at all, which it decides by argv0.

use vstd::prelude::*;
use vstd::string::*;

use crate::agents;
use crate::agents::{canonical, claimed, parsed_args};
use crate::path;
use crate::path::joined;
use crate::process::Invocation;
use crate::relay;
use crate::settings::CONTAINER_SOCKET;
use crate::std_text;
use crate::std_text::debug_quoted;
use crate::text;
use crate::text::decimal;

verus! {

/// Set on the re-exec so the spoofed process doesn't spoof itself again.
pub const ARGV0_GUARD: &'static str = "HERDR_EXEC_ARGV0";

/// The variables the hook needs; it exits 0 on the first one missing. `socket` is
/// whatever the container's relay resolved its own home to be.
pub fn session_env(pane: &str, socket: &str, port: u16) -> (r: Vec<(&'static str, String)>)
    ensures
        r.deep_view() == seq![
            ("HERDR_ENV"@, "1"@),
            ("HERDR_PANE_ID"@, pane@),
            ("HERDR_SOCKET_PATH"@, socket@),
            ("HERDR_RELAY_PORT"@, decimal(port as nat)),
        ],
{
    let r = vec![
        ("HERDR_ENV", "1".to_owned()),
        ("HERDR_PANE_ID", pane.to_owned()),
        ("HERDR_SOCKET_PATH", socket.to_owned()),
        ("HERDR_RELAY_PORT", text::to_decimal(port as u64)),
    ];
    assert(r.deep_view() =~= seq![
        ("HERDR_ENV"@, "1"@),
        ("HERDR_PANE_ID"@, pane@),
        ("HERDR_SOCKET_PATH"@, socket@),
        ("HERDR_RELAY_PORT"@, decimal(port as nat)),
    ]);
    r
}

/// One `--remote-env K=V` per variable, in order.
pub open spec fn remote_env(env: Seq<(Seq<char>, Seq<char>)>) -> Seq<Seq<char>>
    decreases env.len(),
{
    if env.len() == 0 {
        seq![]
    } else {
        remote_env(env.drop_last()).push("--remote-env"@).push(
            env.last().0 + "="@ + env.last().1,
        )
    }
}

/// `exec --workspace-folder <root> [--remote-env K=V ...] <command>`.
pub open spec fn devcontainer_args(
    root: Seq<char>,
    env: Seq<(Seq<char>, Seq<char>)>,
    command: Seq<Seq<char>>,
) -> Seq<Seq<char>> {
    seq!["exec"@, "--workspace-folder"@, root] + remote_env(env) + command
}

proof fn lemma_remote_env_len(env: Seq<(Seq<char>, Seq<char>)>)
    ensures
        remote_env(env).len() == 2 * env.len(),
    decreases env.len(),
{
    if env.len() > 0 {
        lemma_remote_env_len(env.drop_last());
    }
}

/// The command stays last and intact, arguments included.
pub proof fn law_command_stays_last(
    root: Seq<char>,
    env: Seq<(Seq<char>, Seq<char>)>,
    command: Seq<Seq<char>>,
)
    ensures
        devcontainer_args(root, env, command).len() == 3 + 2 * env.len() + command.len(),
        devcontainer_args(root, env, command).skip((3 + 2 * env.len()) as int) == command,
        devcontainer_args(root, env, command).take(3) == seq![
            "exec"@,
            "--workspace-folder"@,
            root,
        ],
{
    lemma_remote_env_len(env);
    assert(devcontainer_args(root, env, command).skip((3 + 2 * env.len()) as int) =~= command);
    assert(devcontainer_args(root, env, command).take(3) =~= seq![
        "exec"@,
        "--workspace-folder"@,
        root,
    ]);
}

/// There is one flag per variable, in order.
pub proof fn law_each_variable_gets_a_flag(
    root: Seq<char>,
    env: Seq<(Seq<char>, Seq<char>)>,
    command: Seq<Seq<char>>,
    i: int,
)
    requires
        0 <= i < env.len(),
    ensures
        devcontainer_args(root, env, command)[3 + 2 * i] == "--remote-env"@,
        devcontainer_args(root, env, command)[4 + 2 * i] == env[i].0 + "="@ + env[i].1,
{
    lemma_remote_env_at(env, i);
    assert(devcontainer_args(root, env, command)[3 + 2 * i] == remote_env(env)[2 * i]);
    assert(devcontainer_args(root, env, command)[4 + 2 * i] == remote_env(env)[2 * i + 1]);
}

proof fn lemma_remote_env_at(env: Seq<(Seq<char>, Seq<char>)>, i: int)
    requires
        0 <= i < env.len(),
    ensures
        remote_env(env)[2 * i] == "--remote-env"@,
        remote_env(env)[2 * i + 1] == env[i].0 + "="@ + env[i].1,
        remote_env(env).len() == 2 * env.len(),
    decreases env.len(),
{
    lemma_remote_env_len(env);
    lemma_remote_env_len(env.drop_last());
    if i < env.len() - 1 {
        lemma_remote_env_at(env.drop_last(), i);
    }
}

/// Build `devcontainer exec --workspace-folder <root> [--remote-env K=V ...] cmd...`.
pub fn devcontainer(
    cli: &str,
    root: &str,
    env: &[(&'static str, String)],
    command: &[String],
) -> (r: Invocation)
    ensures
        r.program@ == cli@,
        r.args.deep_view() == devcontainer_args(root@, env.deep_view(), command.deep_view()),
{
    let mut args: Vec<String> = vec!["exec".to_owned(), "--workspace-folder".to_owned(), root.to_owned()];
    let ghost head = args.deep_view();
    let ghost vars = env.deep_view();
    let ghost tail = command.deep_view();
    assert(head =~= seq!["exec"@, "--workspace-folder"@, root@]);
    assert(vars.take(0) =~= Seq::<(Seq<char>, Seq<char>)>::empty());
    assert(head + remote_env(vars.take(0)) =~= head);
    let mut i: usize = 0;
    while i < env.len()
        invariant
            vars == env.deep_view(),
            i <= env.len(),
            args.deep_view() == head + remote_env(vars.take(i as int)),
        decreases env.len() - i,
    {
        let ghost before = args.deep_view();
        let pair = env[i].0.to_owned().concat("=").concat(env[i].1.as_str());
        args.push("--remote-env".to_owned());
        args.push(pair);
        assert(vars.take(i + 1).drop_last() =~= vars.take(i as int));
        assert(vars.take(i + 1).last() == vars[i as int]);
        assert(args.deep_view() =~= before.push("--remote-env"@).push(pair@));
        assert(args.deep_view() =~= head + remote_env(vars.take(i + 1)));
        i += 1;
    }
    assert(vars.take(i as int) =~= vars);
    let ghost flags = args.deep_view();
    let mut j: usize = 0;
    assert(flags + tail.take(0) =~= flags);
    while j < command.len()
        invariant
            tail == command.deep_view(),
            j <= command.len(),
            args.deep_view() == flags + tail.take(j as int),
        decreases command.len() - j,
    {
        let ghost before = args.deep_view();
        let word = command[j].clone();
        args.push(word);
        assert(args.deep_view() =~= before.push(word@));
        assert(tail.take(j + 1) =~= tail.take(j as int).push(word@));
        assert(args.deep_view() =~= flags + tail.take(j + 1));
        j += 1;
    }
    assert(tail.take(j as int) =~= tail);
    Invocation { program: cli.to_owned(), args }
}

/// One `devcontainer exec` round trip that runs a bootstrap script, told where the bridge
/// is to be reached from the container.
pub fn bootstrap_call(
    cli: &str,
    root: &str,
    script: &[String],
    port: u16,
    relay_host: &str,
) -> (r: Invocation)
    ensures
        r.program@ == cli@,
        r.args.deep_view() == devcontainer_args(
            root@,
            seq![
                ("HERDR_RELAY_PORT"@, decimal(port as nat)),
                ("HERDR_RELAY_HOST"@, relay_host@),
            ],
            script.deep_view(),
        ),
{
    let env = relay::bootstrap_env(port, relay_host);
    devcontainer(cli, root, env.as_slice(), script)
}

/// Where `npm install -g` and homebrew put the devcontainer CLI.
pub open spec fn usual_places(home: Seq<char>) -> Seq<Seq<char>> {
    seq![
        joined(home, ".local/bin/devcontainer"@),
        joined(home, ".npm-global/bin/devcontainer"@),
        "/opt/homebrew/bin/devcontainer"@,
        "/usr/local/bin/devcontainer"@,
    ]
}

/// Where `npm install -g` and homebrew put the devcontainer CLI.
pub fn cli_candidates(home: &str) -> (r: Vec<String>)
    ensures
        r.deep_view() == usual_places(home@),
        r.deep_view() == seq![
            joined(home@, ".local/bin/devcontainer"@),
            joined(home@, ".npm-global/bin/devcontainer"@),
            "/opt/homebrew/bin/devcontainer"@,
            "/usr/local/bin/devcontainer"@,
        ],
{
    let r = vec![
        path::join(home, ".local/bin/devcontainer"),
        path::join(home, ".npm-global/bin/devcontainer"),
        "/opt/homebrew/bin/devcontainer".to_owned(),
        "/usr/local/bin/devcontainer".to_owned(),
    ];
    assert(r.deep_view() =~= usual_places(home@));
    r
}

/// Where the home directory is absolute, so is every place the CLI is looked for.
pub proof fn law_candidates_are_absolute(home: Seq<char>)
    requires
        path::absolute(home),
    ensures
        forall|i: int|
            0 <= i < usual_places(home).len() ==> path::absolute(#[trigger] usual_places(home)[i]),
{
    reveal_strlit(".local/bin/devcontainer");
    reveal_strlit(".npm-global/bin/devcontainer");
    reveal_strlit("/opt/homebrew/bin/devcontainer");
    reveal_strlit("/usr/local/bin/devcontainer");
}

/// What is at a path: whether it is a regular file, and its permission bits.
#[derive(Debug, Clone, Copy, PartialEq)]
pub struct FileState {
    pub is_file: bool,
    pub mode: u32,
}

impl FileState {
    /// Whether it is a file that someone may execute.
    pub open spec fn executable(self) -> bool {
        self.is_file && self.mode & 0o111 != 0
    }
}

/// Whether there is a file that someone may execute.
pub fn is_executable(file: FileState) -> (r: bool)
    ensures
        r == file.executable(),
        r == (file.is_file && file.mode & 0o111 != 0),
{
    file.is_file && file.mode & 0o111 != 0
}

/// The index of the first of `files` that is executable.
pub open spec fn first_executable(files: Seq<FileState>) -> Option<int>
    decreases files.len(),
{
    if files.len() == 0 {
        None
    } else if files[0].executable() {
        Some(0)
    } else {
        match first_executable(files.skip(1)) {
            Some(i) => Some(i + 1),
            None => None,
        }
    }
}

fn find_executable(files: &Vec<FileState>) -> (r: Option<usize>)
    ensures
        match r {
            Some(i) => i < files.len() && first_executable(files@) == Some(i as int),
            None => first_executable(files@) is None,
        },
{
    let mut i: usize = 0;
    assert(files@.skip(0) =~= files@);
    while i < files.len()
        invariant
            i <= files.len(),
            first_executable(files@) == match first_executable(files@.skip(i as int)) {
                Some(j) => Some(i + j),
                None => None,
            },
        decreases files.len() - i,
    {
        assert(files@.skip(i as int)[0] == files[i as int]);
        assert(files@.skip(i as int).skip(1) =~= files@.skip(i + 1));
        if is_executable(files[i]) {
            return Some(i);
        }
        i += 1;
    }
    None
}

/// What is found is a file that someone may execute, and none before it is; where nothing
/// is found none is.
pub proof fn law_the_first_executable_is_found(files: Seq<FileState>)
    ensures
        match first_executable(files) {
            Some(i) => {
                &&& 0 <= i < files.len()
                &&& files[i].is_file && files[i].mode & 0o111 != 0
                &&& forall|j: int|
                    0 <= j < i ==> !((#[trigger] files[j]).is_file && files[j].mode & 0o111 != 0)
            },
            None => forall|j: int|
                0 <= j < files.len() ==> !((#[trigger] files[j]).is_file && files[j].mode & 0o111
                    != 0),
        },
    decreases files.len(),
{
    if files.len() > 0 && !files[0].executable() {
        let rest = files.skip(1);
        law_the_first_executable_is_found(rest);
        match first_executable(rest) {
            Some(i) => {
                assert(rest[i] == files[i + 1]);
                assert forall|j: int| 0 <= j < i + 1 implies !((#[trigger] files[j]).is_file
                    && files[j].mode & 0o111 != 0) by {
                    if j > 0 {
                        assert(rest[j - 1] == files[j]);
                    }
                }
            },
            None => {
                assert forall|j: int| 0 <= j < files.len() implies !((#[trigger] files[j]).is_file
                    && files[j].mode & 0o111 != 0) by {
                    if j > 0 {
                        assert(rest[j - 1] == files[j]);
                    }
                }
            },
        }
    }
}

/// The paths at which `name` is looked for in `dirs`.
pub open spec fn places_in(name: Seq<char>, dirs: Seq<Seq<char>>) -> Seq<Seq<char>> {
    Seq::new(dirs.len(), |i: int| joined(dirs[i], name))
}

/// The paths at which `name` is looked for in `dirs`.
pub fn candidates_in(name: &str, dirs: &Vec<String>) -> (r: Vec<String>)
    ensures
        r.deep_view() == places_in(name@, dirs.deep_view()),
        r.len() == dirs.len(),
        forall|i: int| 0 <= i < r.len() ==> (#[trigger] r@[i])@ == joined(dirs@[i]@, name@),
{
    let mut out: Vec<String> = Vec::new();
    let mut i: usize = 0;
    while i < dirs.len()
        invariant
            i <= dirs.len(),
            out.len() == i,
            forall|j: int| 0 <= j < i ==> out[j]@ == joined(dirs[j]@, name@),
        decreases dirs.len() - i,
    {
        out.push(path::join(dirs[i].as_str(), name));
        i += 1;
    }
    assert(out.deep_view() =~= places_in(name@, dirs.deep_view()));
    out
}

/// `name` in the first of `dirs` that has an executable of that name.
pub open spec fn found_in(
    name: Seq<char>,
    dirs: Seq<Seq<char>>,
    files: Seq<FileState>,
) -> Option<Seq<char>> {
    match first_executable(files) {
        Some(i) => Some(joined(dirs[i], name)),
        None => None,
    }
}

/// `name` in the first of `dirs` that has an executable of that name, where `files`
/// tells what is at each of `candidates_in(name, dirs)`.
pub fn which_in(name: &str, dirs: &Vec<String>, files: &Vec<FileState>) -> (r: Option<String>)
    requires
        files.len() == dirs.len(),
    ensures
        r.deep_view() == found_in(name@, dirs.deep_view(), files@),
        match r {
            Some(p) => exists|i: int|
                {
                    &&& 0 <= i < files@.len()
                    &&& p@ == joined(dirs@[i]@, name@)
                    &&& (#[trigger] files@[i]).is_file && files@[i].mode & 0o111 != 0
                    &&& forall|j: int|
                        0 <= j < i ==> !((#[trigger] files@[j]).is_file && files@[j].mode & 0o111
                            != 0)
                },
            None => forall|j: int|
                0 <= j < files@.len() ==> !((#[trigger] files@[j]).is_file && files@[j].mode & 0o111
                    != 0),
        },
{
    proof {
        law_the_first_executable_is_found(files@);
    }
    match find_executable(files) {
        Some(i) => Some(path::join(dirs[i].as_str(), name)),
        None => None,
    }
}

/// The devcontainer CLI: the one on `PATH`, else the first of the usual places that has
/// it. `on_path` tells what is at each of `candidates_in("devcontainer", dirs)`, and
/// `at_home` what is at each of `cli_candidates(home)`.
pub fn resolve_cli(
    dirs: &Vec<String>,
    on_path: &Vec<FileState>,
    home: &str,
    at_home: &Vec<FileState>,
) -> (r: Option<String>)
    requires
        on_path.len() == dirs.len(),
        at_home.len() == usual_places(home@).len(),
    ensures
        r.deep_view() == match found_in("devcontainer"@, dirs.deep_view(), on_path@) {
            Some(p) => Some(p),
            None => match first_executable(at_home@) {
                Some(i) => Some(usual_places(home@)[i]),
                None => None,
            },
        },
{
    match which_in("devcontainer", dirs, on_path) {
        Some(p) => Some(p),
        None => {
            let places = cli_candidates(home);
            assert(places.deep_view().len() == 4);
            match find_executable(at_home) {
                Some(i) => Some(places[i].clone()),
                None => None,
            }
        },
    }
}

/// The working directory that the project is looked for from: herdr's, else ours.
pub fn workspace_cwd(pane_cwd: Option<String>, current_dir: Option<String>) -> (r: Option<String>)
    ensures
        r == (match pane_cwd {
            Some(cwd) => Some(cwd),
            None => current_dir,
        }),
{
    match pane_cwd {
        Some(cwd) => Some(cwd),
        None => current_dir,
    }
}

/// How to run this binary again under an agent's name.
#[derive(Debug, PartialEq)]
pub struct Respawn {
    pub argv0: String,
    pub args: Vec<String>,
}

/// herdr decides which agent a pane is running by scanning the pane's foreground process
/// group for a known argv0. Everything the host can see in this pane is the devcontainer
/// CLI under node, so one process named after the agent goes into the group: a re-exec of
/// ourselves, since the name has to sit on a process that stays alive as the parent of
/// the container command. There is none when this process already is one, or when no
/// agent is claimed.
pub fn spoof_argv0(args: &[String], claim: Option<&str>, spoofed: bool) -> (r: Option<Respawn>)
    requires
        args@.len() > 0,
    ensures
        match r {
            Some(again) => {
                &&& !spoofed
                &&& claimed(args@[0]@, claim.deep_view()) == Some(again.argv0@)
                &&& again.args.deep_view() == seq!["exec"@] + args.deep_view()
            },
            None => spoofed || claimed(args@[0]@, claim.deep_view()) is None,
        },
{
    if spoofed {
        return None;
    }
    match agents::claimed_argv0(args[0].as_str(), claim) {
        Some(argv0) => {
            let ghost all = args.deep_view();
            let mut words: Vec<String> = vec!["exec".to_owned()];
            let mut i: usize = 0;
            assert(words.deep_view() =~= seq!["exec"@] + all.take(0));
            while i < args.len()
                invariant
                    all == args.deep_view(),
                    i <= args.len(),
                    words.deep_view() == seq!["exec"@] + all.take(i as int),
                decreases args.len() - i,
            {
                let ghost before = words.deep_view();
                let word = args[i].clone();
                words.push(word);
                assert(words.deep_view() =~= before.push(word@));
                assert(words.deep_view() =~= seq!["exec"@] + all.take(i + 1));
                i += 1;
            }
            assert(all.take(i as int) =~= all);
            Some(Respawn { argv0, args: words })
        },
        None => None,
    }
}

/// Said when `exec` is given nothing to run.
pub const EXEC_USAGE: &'static str = "usage: herdr-devcontainer-status exec [--agent <name>] <command> [args...]";

/// Said when the pane's directory belongs to no devcontainer project.
pub const NO_CONFIGURATION: &'static str = "exec: no devcontainer configuration above the pane's cwd";

/// Said when the devcontainer CLI is nowhere to be found.
pub const NO_CLI: &'static str = "exec: devcontainer CLI not found on PATH.";

/// How to get the devcontainer CLI.
pub const CLI_HINT: &'static str = "install it with:  npm install -g @devcontainers/cli";

/// Said when there is no pane to report to.
pub const NO_PANE: &'static str = "exec: HERDR_PANE_ID unset — running without agent reporting";

/// What `exec` does.
#[derive(Debug, PartialEq)]
pub enum RunPlan {
    /// Say this, and exit with this code.
    Refuse { code: i32, messages: Vec<String> },
    /// Say this, and run the command without agent reporting.
    Unreported { message: String, call: Invocation },
    /// Run the command as the pane's agent.
    Reported(Session),
}

/// What it takes to run a command as the pane's agent.
#[derive(Debug, PartialEq)]
pub struct Session {
    /// To be said first: the claimed agent is not a known one.
    pub warning: Option<String>,
    /// To be done next, unless it fails.
    pub respawn: Option<Respawn>,
    pub cli: String,
    pub root: String,
    pub pane: String,
    pub command: Vec<String>,
}

/// What is said of a claimed name that no agent is known by.
pub open spec fn warning_for(claim: Option<Seq<char>>) -> Option<Seq<char>> {
    match claim {
        Some(name) => match canonical(name) {
            Some(_) => None,
            None => Some(
                "exec: unknown agent "@ + debug_quoted(name)
                    + " — claiming it anyway; herdr will ignore it unless it recognises the name"@,
            ),
        },
        None => None,
    }
}

/// The warning for a claimed name that no agent is known by.
pub fn unknown_agent_warning(claim: Option<&str>) -> (r: Option<String>)
    ensures
        r.deep_view() == warning_for(claim.deep_view()),
        r is Some <==> (claim matches Some(name) && canonical(name@) is None),
        r matches Some(msg) ==> msg@ == "exec: unknown agent "@ + debug_quoted(claim->0@)
            + " — claiming it anyway; herdr will ignore it unless it recognises the name"@,
{
    match claim {
        Some(name) => match agents::canonical_agent(name) {
            Some(_) => None,
            None => Some(
                "exec: unknown agent ".to_owned().concat(
                    std_text::debug_quote(name).as_str(),
                ).concat(
                    " — claiming it anyway; herdr will ignore it unless it recognises the name",
                ),
            ),
        },
        None => None,
    }
}

/// Whether `r` refuses, with this code and saying this.
pub open spec fn refuses(r: RunPlan, code: int, messages: Seq<Seq<char>>) -> bool {
    r matches RunPlan::Refuse { code: c, messages: m } && c == code && m.deep_view() == messages
}

fn refuse(code: i32, message: &str) -> (r: RunPlan)
    ensures
        refuses(r, code as int, seq![message@]),
{
    let messages = vec![message.to_owned()];
    assert(messages.deep_view() =~= seq![message@]);
    RunPlan::Refuse { code, messages }
}

/// Whether there is a pane to report to.
pub open spec fn reports(pane: Option<Seq<char>>) -> bool {
    pane matches Some(p) && p.len() > 0
}

fn owned_args(args: &[String]) -> (r: Vec<String>)
    ensures
        r.deep_view() == args.deep_view(),
{
    let mut out: Vec<String> = Vec::new();
    let mut i: usize = 0;
    while i < args.len()
        invariant
            i <= args.len(),
            out.len() == i,
            forall|j: int| 0 <= j < i ==> out[j]@ == args@[j]@,
        decreases args.len() - i,
    {
        out.push(args[i].clone());
        i += 1;
    }
    assert(out.deep_view() =~= args.deep_view());
    out
}

/// Decide how to run `args`, given the project's root, the devcontainer CLI, the pane
/// and whether this process already runs under an agent's name. Without a pane the
/// command still runs; without a project or a CLI it cannot.
pub fn run(
    args: &[String],
    root: Option<String>,
    cli: Option<String>,
    pane: Option<String>,
    spoofed: bool,
) -> (r: RunPlan)
    ensures
        match parsed_args(args.deep_view()) {
            Err(msg) => refuses(r, 2, seq![msg]),
            Ok((claim, command)) => if command.len() == 0 {
                refuses(r, 2, seq![EXEC_USAGE@])
            } else {
                match (root, cli) {
                    (None, _) => refuses(r, 1, seq![NO_CONFIGURATION@]),
                    (Some(_), None) => refuses(r, 127, seq![NO_CLI@, CLI_HINT@]),
                    (Some(root), Some(cli)) => if !reports(pane.deep_view()) {
                        &&& pane is None || pane->0@.len() == 0
                        &&& r matches RunPlan::Unreported { message, call }
                        &&& message@ == NO_PANE@
                        &&& call.program@ == cli@
                        &&& call.args.deep_view() == devcontainer_args(root@, seq![], command)
                    } else {
                        &&& pane is Some && pane->0@.len() > 0
                        &&& r matches RunPlan::Reported(s)
                        &&& s.warning.deep_view() == warning_for(claim)
                        &&& s.cli@ == cli@
                        &&& s.root@ == root@
                        &&& pane.deep_view() == Some(s.pane@)
                        &&& s.command.deep_view() == command
                        &&& match s.respawn {
                            Some(again) => {
                                &&& !spoofed
                                &&& claimed(command[0], claim) == Some(again.argv0@)
                                &&& again.args.deep_view() == seq!["exec"@] + command
                            },
                            None => spoofed || claimed(command[0], claim) is None,
                        }
                    },
                }
            },
        },
{
    let (claim, command) = match agents::parse_args(args) {
        Ok(v) => v,
        Err(msg) => {
            return refuse(2, msg.as_str());
        },
    };
    let ghost words = command.deep_view();
    assert(words.len() == command@.len());
    if command.len() == 0 {
        return refuse(2, EXEC_USAGE);
    }
    assert(words[0] == command@[0]@);
    let root = match root {
        Some(root) => root,
        None => {
            return refuse(1, NO_CONFIGURATION);
        },
    };
    let cli = match cli {
        Some(cli) => cli,
        None => {
            let messages = vec![NO_CLI.to_owned(), CLI_HINT.to_owned()];
            assert(messages.deep_view() =~= seq![NO_CLI@, CLI_HINT@]);
            return RunPlan::Refuse { code: 127, messages };
        },
    };
    let pane = match pane {
        Some(pane) => pane,
        None => String::new(),
    };
    if pane.as_str().is_empty() {
        let none: Vec<(&'static str, String)> = Vec::new();
        assert(none.deep_view() =~= Seq::<(Seq<char>, Seq<char>)>::empty());
        let call = devcontainer(cli.as_str(), root.as_str(), none.as_slice(), command);
        return RunPlan::Unreported { message: NO_PANE.to_owned(), call };
    }
    let name: Option<&str> = match &claim {
        Some(name) => Some(name.as_str()),
        None => None,
    };
    let warning = unknown_agent_warning(name);
    let respawn = spoof_argv0(command, name, spoofed);
    RunPlan::Reported(
        Session { warning, respawn, cli, root, pane, command: owned_args(command) },
    )
}

/// The session is told where to report: its four variables come before the command, and the
/// command is the one that was asked for.
pub proof fn law_a_session_is_told_its_pane_and_socket(
    root: Seq<char>,
    pane: Seq<char>,
    socket: Seq<char>,
    port: u16,
    command: Seq<Seq<char>>,
)
    ensures
        devcontainer_args(
            root,
            seq![
                ("HERDR_ENV"@, "1"@),
                ("HERDR_PANE_ID"@, pane),
                ("HERDR_SOCKET_PATH"@, socket),
                ("HERDR_RELAY_PORT"@, decimal(port as nat)),
            ],
            command,
        ) == seq![
            "exec"@,
            "--workspace-folder"@,
            root,
            "--remote-env"@,
            "HERDR_ENV"@ + "="@ + "1"@,
            "--remote-env"@,
            "HERDR_PANE_ID"@ + "="@ + pane,
            "--remote-env"@,
            "HERDR_SOCKET_PATH"@ + "="@ + socket,
            "--remote-env"@,
            "HERDR_RELAY_PORT"@ + "="@ + decimal(port as nat),
        ] + command,
{
    let env = seq![
        ("HERDR_ENV"@, "1"@),
        ("HERDR_PANE_ID"@, pane),
        ("HERDR_SOCKET_PATH"@, socket),
        ("HERDR_RELAY_PORT"@, decimal(port as nat)),
    ];
    law_command_stays_last(root, env, command);
    law_each_variable_gets_a_flag(root, env, command, 0);
    law_each_variable_gets_a_flag(root, env, command, 1);
    law_each_variable_gets_a_flag(root, env, command, 2);
    law_each_variable_gets_a_flag(root, env, command, 3);
    let all = devcontainer_args(root, env, command);
    assert(all.take(3)[0] == all[0] && all.take(3)[1] == all[1] && all.take(3)[2] == all[2]);
    assert forall|i: int| 11 <= i < all.len() implies all[i] == command[i - 11] by {
        assert(all.skip(11)[i - 11] == all[i]);
    }
    assert(all =~= seq![
        "exec"@,
        "--workspace-folder"@,
        root,
        "--remote-env"@,
        "HERDR_ENV"@ + "="@ + "1"@,
        "--remote-env"@,
        "HERDR_PANE_ID"@ + "="@ + pane,
        "--remote-env"@,
        "HERDR_SOCKET_PATH"@ + "="@ + socket,
        "--remote-env"@,
        "HERDR_RELAY_PORT"@ + "="@ + decimal(port as nat),
    ] + command);
}

/// The socket that the session is told of, and what to say first: a failed relay costs
/// agent state, not the session, and the hook still needs a consistent target.
pub fn advertised_socket(relay: Result<String, String>) -> (r: (String, Option<String>))
    ensures
        match relay {
            Ok(socket) => r.0@ == socket@ && r.1 is None,
            Err(msg) => r.0@ == CONTAINER_SOCKET@ && r.1.deep_view() == Some(msg@),
        },
{
    match relay {
        Ok(socket) => (socket, None),
        Err(msg) => (CONTAINER_SOCKET.to_owned(), Some(msg)),
    }
}

impl Session {
    /// The command that runs the session in the container, with the pane's identity.
    pub fn call(&self, socket: &str, port: u16) -> (r: Invocation)
        ensures
            r.program@ == self.cli@,
            r.args.deep_view() == devcontainer_args(
                self.root@,
                seq![
                    ("HERDR_ENV"@, "1"@),
                    ("HERDR_PANE_ID"@, self.pane@),
                    ("HERDR_SOCKET_PATH"@, socket@),
                    ("HERDR_RELAY_PORT"@, decimal(port as nat)),
                ],
                self.command.deep_view(),
            ),
    {
        let env = session_env(self.pane.as_str(), socket, port);
        devcontainer(
            self.cli.as_str(),
            self.root.as_str(),
            env.as_slice(),
            self.command.as_slice(),
        )
    }
}

/// What to say of one of the relay steps' outcomes, without failing the session.
pub fn report(outcome: Result<String, String>) -> (r: Option<String>)
    ensures
        r.deep_view() == match outcome {
            Ok(msg) => if msg@.len() == 0 {
                None
            } else {
                Some(msg@)
            },
            Err(msg) => Some(msg@),
        },
{
    match outcome {
        Ok(msg) => {
            if msg.as_str().is_empty() {
                None
            } else {
                Some(msg)
            }
        },
        Err(msg) => Some(msg),
    }
}

/// The exit code of a command that ran, and what to say of one that did not. A
/// signalled command reports 1: nothing downstream distinguishes it, and the pane is
/// gone either way.
pub fn wait(status: Result<Option<i32>, String>) -> (r: (i32, Option<String>))
    ensures
        match status {
            Ok(Some(code)) => r == (code, None::<String>),
            Ok(None) => r == (1i32, None::<String>),
            Err(e) => r.0 == 1 && r.1.deep_view() == Some("exec: "@ + e@),
        },
{
    match status {
        Ok(Some(code)) => (code, None),
        Ok(None) => (1, None),
        Err(e) => (1, Some("exec: ".to_owned().concat(e.as_str()))),
    }
}

/// Where the container's relay is driven from, or the code to exit with and what to say.
pub fn relay_in_container(root: Option<String>, cli: Option<String>) -> (r: Result<
    (String, String),
    (i32, String),
>)
    ensures
        match (root, cli) {
            (None, _) => r matches Err((code, msg)) && code == 1 && msg@ == NO_CONFIGURATION@,
            (Some(_), None) => r matches Err((code, msg)) && code == 127 && msg@ == NO_CLI@,
            (Some(root), Some(cli)) => r == Ok::<(String, String), (i32, String)>((cli, root)),
        },
{
    match (root, cli) {
        (None, _) => Err((1, NO_CONFIGURATION.to_owned())),
        (Some(_), None) => Err((127, NO_CLI.to_owned())),
        (Some(root), Some(cli)) => Ok((cli, root)),
    }
}

/// A refusal has its code and says what it is to say.
pub proof fn law_a_refusal_says_why(r: RunPlan, code: int, messages: Seq<Seq<char>>)
    requires
        refuses(r, code, messages),
    ensures
        r matches RunPlan::Refuse { code: c, messages: m } && c == code && m@.len()
            == messages.len() && forall|i: int|
            0 <= i < messages.len() ==> (#[trigger] m@[i])@ == messages[i],
{
    if let RunPlan::Refuse { code: c, messages: m } = r {
        assert(m.deep_view().len() == m@.len());
        assert forall|i: int| 0 <= i < messages.len() implies (#[trigger] m@[i])@ == messages[i] by {
            assert(m.deep_view()[i] == m@[i]@);
        }
    }
}

} // verus!
