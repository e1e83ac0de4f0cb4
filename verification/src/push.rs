//! Pushing a bundled relay binary into the container.

use vstd::prelude::*;
use vstd::string::*;

use crate::docker;
use crate::docker::{Container, ContainerView, index_for, listing};
use crate::path;
use crate::path::{components, is_plain_name, joined, parent_of};
use crate::process;
use crate::process::Invocation;
use crate::relay::VERSION;
use crate::text;
use crate::text::outcome;

verus! {

/// The target whose relay binary runs on the CPU architecture `arch`.
pub open spec fn triple_for(arch: Seq<char>) -> Option<Seq<char>> {
    if arch == "x86_64"@ || arch == "amd64"@ {
        Some("x86_64-unknown-linux-musl"@)
    } else if arch == "aarch64"@ || arch == "arm64"@ {
        Some("aarch64-unknown-linux-musl"@)
    } else {
        None
    }
}

/// The two targets that releases publish for linux: static musl, so they run in any
/// container regardless of distro or libc.
pub fn musl_triple(arch: &str) -> (r: Option<&'static str>)
    ensures
        r.deep_view() == triple_for(arch@),
{
    if text::same(arch, "x86_64") || text::same(arch, "amd64") {
        Some("x86_64-unknown-linux-musl")
    } else if text::same(arch, "aarch64") || text::same(arch, "arm64") {
        Some("aarch64-unknown-linux-musl")
    } else {
        None
    }
}

/// Where the binary for `triple` is bundled: next to this executable, or why it cannot
/// be said.
pub open spec fn bundled_path(
    exe: Result<Seq<char>, Seq<char>>,
    triple: Seq<char>,
) -> Result<Seq<char>, Seq<char>> {
    match exe {
        Ok(path) => match parent_of(path) {
            Some(dir) => Ok(
                joined(
                    joined(joined(dir, "linux"@), triple),
                    "herdr-devcontainer-status"@,
                ),
            ),
            None => Err("exec: current executable has no parent directory"@),
        },
        Err(e) => Err("exec: "@ + e),
    }
}

/// Both linux targets are bundled next to the host binary at `linux/<triple>/`, found
/// relative to this executable, whose path is `exe`.
pub fn bundled_relay_binary(exe: Result<String, String>, triple: &str) -> (r: Result<
    String,
    String,
>)
    ensures
        outcome(r) == bundled_path(outcome(exe), triple@),
{
    match exe {
        Ok(file) => match path::parent(file.as_str()) {
            Some(dir) => {
                let folder = path::join(path::join(dir, "linux").as_str(), triple);
                Ok(path::join(folder.as_str(), "herdr-devcontainer-status"))
            },
            None => Err("exec: current executable has no parent directory".to_owned()),
        },
        Err(e) => Err("exec: ".to_owned().concat(e.as_str())),
    }
}

/// The name of the container that the project at `root` runs as, or why there is none.
pub open spec fn name_for(
    listed: Result<Seq<ContainerView>, Seq<char>>,
    root: Seq<char>,
    host_root: Option<Seq<char>>,
) -> Result<Seq<char>, Seq<char>> {
    match listed {
        Ok(containers) => match index_for(containers, root, host_root) {
            Some(i) => Ok(containers[i].name),
            None => Err("exec: no container labelled for "@ + root),
        },
        Err(e) => Err(e),
    }
}

/// Which container the project at `root` runs as: by the same match as the status, so
/// the two can never disagree about which container a project's pane means.
pub fn container_name(
    listed: Result<Vec<Container>, String>,
    root: &str,
    host_root: Option<&str>,
) -> (r: Result<String, String>)
    ensures
        outcome(r) == name_for(listing(listed), root@, host_root.deep_view()),
{
    match listed {
        Ok(containers) => {
            proof {
                docker::lemma_index_in_range(
                    containers.deep_view(),
                    root@,
                    host_root.deep_view(),
                );
            }
            match docker::container_for(containers.as_slice(), root, host_root) {
                Some(c) => Ok(c.name.clone()),
                None => Err("exec: no container labelled for ".to_owned().concat(root)),
            }
        },
        Err(e) => Err(e),
    }
}

/// Where the binary is pushed to. `/tmp` is deliberately not persisted: a restarted
/// container needs a restarted relay anyway, and the next session pushes again.
pub open spec fn pushed_path() -> Seq<char> {
    "/tmp/herdr-devcontainer-status-"@ + VERSION@
}

/// Streaming over `docker exec`'s stdin rather than `docker cp`, which fails on
/// containers that bind-mount a live unix socket. The binary itself is the input.
pub fn push_command(container: &str) -> (r: Invocation)
    ensures
        r.program@ == "docker"@,
        r.args.deep_view() == seq![
            "exec"@,
            "-i"@,
            container@,
            "sh"@,
            "-c"@,
            "cat > "@ + pushed_path() + " && chmod +x "@ + pushed_path(),
        ],
        r.args@.len() == 6 && r.args@[5]@ == "cat > "@ + ("/tmp/herdr-devcontainer-status-"@
            + VERSION@) + " && chmod +x "@ + ("/tmp/herdr-devcontainer-status-"@ + VERSION@),
{
    let dest = "/tmp/herdr-devcontainer-status-".to_owned().concat(VERSION);
    let script = "cat > ".to_owned().concat(dest.as_str()).concat(" && chmod +x ").concat(
        dest.as_str(),
    );
    let args = process::texts(&vec!["exec", "-i", container, "sh", "-c", script.as_str()]);
    assert(args.deep_view() =~= seq![
        "exec"@,
        "-i"@,
        container@,
        "sh"@,
        "-c"@,
        "cat > "@ + pushed_path() + " && chmod +x "@ + pushed_path(),
    ]);
    assert(args.deep_view()[5] == args@[5]@);
    Invocation { program: "docker".to_owned(), args }
}

/// Where pushing a binary stands, and so what to do next.
#[derive(Debug, PartialEq)]
pub enum PushStep<T> {
    /// See whether the bundled binary at this path is a file.
    Check { path: T },
    /// Find the name of the container to push it to.
    Name { path: T },
    /// Open the file and run `push_command` on it.
    Send { path: T, container: T },
    /// It is pushed, or why not.
    Done(Result<(), T>),
}

/// What came of a step.
#[derive(Debug, PartialEq)]
pub enum PushEvent<T> {
    /// Whether the path is a file.
    Checked(bool),
    /// The container's name, or why there is none.
    Named(Result<T, T>),
    /// The file could not be opened.
    Unopened(T),
    /// The command could not be run.
    Unsent(T),
    /// The command ran, and exited with code zero or not.
    Sent(bool),
}

impl DeepView for PushStep<String> {
    type V = PushStep<Seq<char>>;

    open spec fn deep_view(&self) -> PushStep<Seq<char>> {
        match self {
            PushStep::Check { path } => PushStep::Check { path: path@ },
            PushStep::Name { path } => PushStep::Name { path: path@ },
            PushStep::Send { path, container } => PushStep::Send {
                path: path@,
                container: container@,
            },
            PushStep::Done(Ok(_)) => PushStep::Done(Ok(())),
            PushStep::Done(Err(e)) => PushStep::Done(Err(e@)),
        }
    }
}

impl DeepView for PushEvent<String> {
    type V = PushEvent<Seq<char>>;

    open spec fn deep_view(&self) -> PushEvent<Seq<char>> {
        match self {
            PushEvent::Checked(is_file) => PushEvent::Checked(*is_file),
            PushEvent::Named(r) => PushEvent::Named(outcome(*r)),
            PushEvent::Unopened(e) => PushEvent::Unopened(e@),
            PushEvent::Unsent(e) => PushEvent::Unsent(e@),
            PushEvent::Sent(success) => PushEvent::Sent(*success),
        }
    }
}

/// The first step of pushing a binary for `arch`.
pub open spec fn first_push_step(
    arch: Seq<char>,
    exe: Result<Seq<char>, Seq<char>>,
) -> PushStep<Seq<char>> {
    match triple_for(arch) {
        Some(triple) => match bundled_path(exe, triple) {
            Ok(path) => PushStep::Check { path },
            Err(e) => PushStep::Done(Err(e)),
        },
        None => PushStep::Done(Err("exec: no relay binary published for container arch "@ + arch)),
    }
}

/// The step that follows `step` when `event` came of it. An event that is not the
/// outcome of the step changes nothing.
pub open spec fn next_push_step(
    step: PushStep<Seq<char>>,
    event: PushEvent<Seq<char>>,
) -> PushStep<Seq<char>> {
    match (step, event) {
        (PushStep::Check { path }, PushEvent::Checked(true)) => PushStep::Name { path },
        (PushStep::Check { path }, PushEvent::Checked(false)) => PushStep::Done(
            Err(
                "exec: no bundled relay binary at "@ + path
                    + " — reinstall with `herdr plugin install`, or set HERDR_RELAY_BIN in the container to one you provide yourself"@,
            ),
        ),
        (PushStep::Name { path }, PushEvent::Named(Ok(container))) => PushStep::Send {
            path,
            container,
        },
        (PushStep::Name { .. }, PushEvent::Named(Err(e))) => PushStep::Done(Err(e)),
        (PushStep::Send { path, .. }, PushEvent::Unopened(e)) => PushStep::Done(
            Err("exec: cannot open "@ + path + ": "@ + e),
        ),
        (PushStep::Send { .. }, PushEvent::Unsent(e)) => PushStep::Done(
            Err("exec: docker exec: "@ + e),
        ),
        (PushStep::Send { .. }, PushEvent::Sent(true)) => PushStep::Done(Ok(())),
        (PushStep::Send { container, .. }, PushEvent::Sent(false)) => PushStep::Done(
            Err("exec: pushing the relay binary to "@ + container + " failed"@),
        ),
        (step, _) => step,
    }
}

/// How many more outcomes `step` can take at most.
pub open spec fn push_steps_left(step: PushStep<Seq<char>>) -> nat {
    match step {
        PushStep::Check { .. } => 3,
        PushStep::Name { .. } => 2,
        PushStep::Send { .. } => 1,
        PushStep::Done(_) => 0,
    }
}

/// Each step brings the end nearer or changes nothing, what is done stays done, and
/// nothing counts as pushed unless a command that sent it exited with code zero.
pub proof fn law_push_ends_with_what_was_sent(
    step: PushStep<Seq<char>>,
    event: PushEvent<Seq<char>>,
)
    ensures
        next_push_step(step, event) == step || push_steps_left(next_push_step(step, event))
            < push_steps_left(step),
        step is Done ==> next_push_step(step, event) == step,
        !(step is Done) ==> (next_push_step(step, event) == PushStep::<Seq<char>>::Done(Ok(()))
            <==> step is Send && event == PushEvent::<Seq<char>>::Sent(true)),
{
}

/// Begin to push the bundled binary that matches `arch`, where `exe` is the path of
/// this executable.
pub fn begin_push(arch: &str, exe: Result<String, String>) -> (r: PushStep<String>)
    ensures
        r.deep_view() == first_push_step(arch@, outcome(exe)),
        !(r.deep_view() == PushStep::<Seq<char>>::Done(Ok(()))),
        triple_for(arch@) is None ==> r.deep_view() == PushStep::Done(
            Err::<(), Seq<char>>("exec: no relay binary published for container arch "@ + arch@),
        ),
        triple_for(arch@) matches Some(triple) ==> match bundled_path(outcome(exe), triple) {
            Ok(p) => r.deep_view() == (PushStep::Check { path: p }),
            Err(e) => r.deep_view() == PushStep::Done(Err::<(), Seq<char>>(e)),
        },
{
    match musl_triple(arch) {
        Some(triple) => match bundled_relay_binary(exe, triple) {
            Ok(path) => PushStep::Check { path },
            Err(e) => PushStep::Done(Err(e)),
        },
        None => PushStep::Done(
            Err("exec: no relay binary published for container arch ".to_owned().concat(arch)),
        ),
    }
}

/// Push a bundled binary: see that it is there, find the container, and send it over.
pub fn push_relay_binary(step: PushStep<String>, event: PushEvent<String>) -> (r: PushStep<String>)
    ensures
        r.deep_view() == next_push_step(step.deep_view(), event.deep_view()),
{
    match (step, event) {
        (PushStep::Check { path }, PushEvent::Checked(true)) => PushStep::Name { path },
        (PushStep::Check { path }, PushEvent::Checked(false)) => PushStep::Done(
            Err(
                "exec: no bundled relay binary at ".to_owned().concat(path.as_str()).concat(
                    " — reinstall with `herdr plugin install`, or set HERDR_RELAY_BIN in the container to one you provide yourself",
                ),
            ),
        ),
        (PushStep::Name { path }, PushEvent::Named(Ok(container))) => PushStep::Send {
            path,
            container,
        },
        (PushStep::Name { .. }, PushEvent::Named(Err(e))) => PushStep::Done(Err(e)),
        (PushStep::Send { path, .. }, PushEvent::Unopened(e)) => PushStep::Done(
            Err(
                "exec: cannot open ".to_owned().concat(path.as_str()).concat(": ").concat(
                    e.as_str(),
                ),
            ),
        ),
        (PushStep::Send { .. }, PushEvent::Unsent(e)) => PushStep::Done(
            Err("exec: docker exec: ".to_owned().concat(e.as_str())),
        ),
        (PushStep::Send { .. }, PushEvent::Sent(true)) => PushStep::Done(Ok(())),
        (PushStep::Send { container, .. }, PushEvent::Sent(false)) => PushStep::Done(
            Err(
                "exec: pushing the relay binary to ".to_owned().concat(container.as_str()).concat(
                    " failed",
                ),
            ),
        ),
        (step, _) => step,
    }
}

/// There is a binary for two kinds of processor, each under two names, and for no other.
pub proof fn law_two_architectures_are_published(arch: Seq<char>)
    ensures
        triple_for(arch) == Some("x86_64-unknown-linux-musl"@) <==> arch == "x86_64"@ || arch
            == "amd64"@,
        triple_for(arch) == Some("aarch64-unknown-linux-musl"@) <==> arch == "aarch64"@ || arch
            == "arm64"@,
        triple_for(arch) is Some ==> triple_for(arch) == Some("x86_64-unknown-linux-musl"@)
            || triple_for(arch) == Some("aarch64-unknown-linux-musl"@),
{
    reveal_strlit("x86_64-unknown-linux-musl");
    reveal_strlit("aarch64-unknown-linux-musl");
    assert("x86_64-unknown-linux-musl"@[0] == 'x' && "aarch64-unknown-linux-musl"@[0] == 'a');
    reveal_strlit("x86_64");
    reveal_strlit("amd64");
    reveal_strlit("aarch64");
    reveal_strlit("arm64");
    assert("x86_64"@[0] == 'x');
    assert("amd64"@[1] == 'm' && "aarch64"@[1] == 'a' && "arm64"@[1] == 'r');
}

/// The bundled binary stands next to the executable, in the folder of its target below
/// `linux`.
pub proof fn law_the_binary_is_below_the_executables_directory(exe: Seq<char>, triple: Seq<char>)
    requires
        is_plain_name(triple),
    ensures
        match parent_of(exe) {
            Some(dir) => bundled_path(Ok(exe), triple) matches Ok(p) && components(p)
                == components(dir) + seq!["linux"@, triple, "herdr-devcontainer-status"@],
            None => bundled_path(Ok(exe), triple) is Err,
        },
{
    reveal_strlit("linux");
    reveal_strlit("herdr-devcontainer-status");
    assert(seq!['.'].len() == 1 && seq!['.', '.'].len() == 2);
    if let Some(dir) = parent_of(exe) {
        let first = joined(dir, "linux"@);
        let second = joined(first, triple);
        path::law_join_adds_a_component(dir, "linux"@);
        path::law_join_adds_a_component(first, triple);
        path::law_join_adds_a_component(second, "herdr-devcontainer-status"@);
        assert(components(joined(second, "herdr-devcontainer-status"@)) =~= components(dir) + seq![
            "linux"@,
            triple,
            "herdr-devcontainer-status"@,
        ]);
    }
}

/// The container that is pushed to has the folder of the project, or that of the host's
/// path for it, and where docker gives no answer its reason is passed on.
pub proof fn law_the_container_is_that_of_the_project(
    containers: Seq<ContainerView>,
    root: Seq<char>,
    host_root: Option<Seq<char>>,
    reason: Seq<char>,
)
    ensures
        match name_for(Ok(containers), root, host_root) {
            Ok(name) => exists|i: int|
                {
                    &&& 0 <= i < containers.len()
                    &&& (#[trigger] containers[i]).name == name
                    &&& components(containers[i].local_folder) == components(root) || (
                    host_root matches Some(host) && components(containers[i].local_folder)
                        == components(host))
                },
            Err(e) => {
                &&& e == "exec: no container labelled for "@ + root
                &&& forall|j: int|
                    0 <= j < containers.len() ==> components(
                        (#[trigger] containers[j]).local_folder,
                    ) != components(root)
            },
        },
        name_for(Err(reason), root, host_root) == Err::<Seq<char>, Seq<char>>(reason),
{
    docker::lemma_index_in_range(containers, root, host_root);
    docker::law_match_has_the_folder_of_the_project(containers, root);
    if let Some(host) = host_root {
        docker::law_match_has_the_folder_of_the_project(containers, host);
    }
    if let Some(i) = index_for(containers, root, host_root) {
        assert(containers[i].name == containers[i].name);
    }
}

/// What is pushed is what was checked, and it goes to the container that was named; a step
/// that fails ends the push with its own reason.
pub proof fn law_a_push_carries_its_path_and_container(
    path: Seq<char>,
    container: Seq<char>,
    reason: Seq<char>,
)
    ensures
        next_push_step(PushStep::Check { path }, PushEvent::Checked(true)) == (PushStep::Name {
            path,
        }),
        next_push_step(PushStep::Name { path }, PushEvent::Named(Ok(container))) == (
        PushStep::Send { path, container }),
        next_push_step(PushStep::Name { path }, PushEvent::Named(Err(reason))) == PushStep::Done(
            Err::<(), Seq<char>>(reason),
        ),
        next_push_step(PushStep::Check { path }, PushEvent::Checked(false)) matches PushStep::Done(
            Err(e),
        ) && ("exec: no bundled relay binary at "@ + path).is_prefix_of(e),
        next_push_step(PushStep::Send { path, container }, PushEvent::Sent(false))
            == PushStep::Done(
            Err::<(), Seq<char>>("exec: pushing the relay binary to "@ + container + " failed"@),
        ),
        next_push_step(PushStep::Send { path, container }, PushEvent::Unopened(reason))
            == PushStep::Done(
            Err::<(), Seq<char>>("exec: cannot open "@ + path + ": "@ + reason),
        ),
        next_push_step(PushStep::Send { path, container }, PushEvent::Unsent(reason))
            == PushStep::Done(Err::<(), Seq<char>>("exec: docker exec: "@ + reason)),
{
    let start = "exec: no bundled relay binary at "@ + path;
    let end =
        " — reinstall with `herdr plugin install`, or set HERDR_RELAY_BIN in the container to one you provide yourself"@;
    assert(start =~= (start + end).subrange(0, start.len() as int));
}

/// The texts of steps and outcomes are seen, each as itself and under its own kind.
pub proof fn law_push_steps_are_seen_whole(a: String, b: String, yes: bool)
    ensures
        (PushStep::Check { path: a }).deep_view() == (PushStep::Check { path: a@ }),
        (PushStep::Name { path: a }).deep_view() == (PushStep::Name { path: a@ }),
        (PushStep::Send { path: a, container: b }).deep_view() == (PushStep::Send {
            path: a@,
            container: b@,
        }),
        PushStep::<String>::Done(Ok(())).deep_view() == PushStep::<Seq<char>>::Done(Ok(())),
        PushStep::<String>::Done(Err(a)).deep_view() == PushStep::<Seq<char>>::Done(Err(a@)),
        PushEvent::<String>::Checked(yes).deep_view() == PushEvent::<Seq<char>>::Checked(yes),
        PushEvent::<String>::Named(Ok(a)).deep_view() == PushEvent::<Seq<char>>::Named(Ok(a@)),
        PushEvent::<String>::Named(Err(a)).deep_view() == PushEvent::<Seq<char>>::Named(Err(a@)),
        PushEvent::Unopened(a).deep_view() == PushEvent::Unopened(a@),
        PushEvent::Unsent(a).deep_view() == PushEvent::Unsent(a@),
        PushEvent::<String>::Sent(yes).deep_view() == PushEvent::<Seq<char>>::Sent(yes),
{
}

} // verus!
