//! The containers that docker labels as devcontainers, and which one a project means.

use vstd::prelude::*;
use vstd::string::*;
use vstd::utf8::*;

use crate::path;
use crate::path::{components, same_path};
use crate::process;
use crate::process::{CommandOutput, Invocation};
use crate::std_text;
use crate::std_text::utf8_lossy;
use crate::text;
use crate::text::{ascii_lowered, fields, lines, trimmed};

verus! {

/// One devcontainer-labelled container as reported by `docker ps -a`.
#[derive(Debug, Clone, PartialEq)]
pub struct Container {
    pub state: String,
    pub local_folder: String,
    pub config_file: String,
    pub name: String,
}

/// The texts of a `Container`.
pub struct ContainerView {
    pub state: Seq<char>,
    pub local_folder: Seq<char>,
    pub config_file: Seq<char>,
    pub name: Seq<char>,
}

impl DeepView for Container {
    type V = ContainerView;

    open spec fn deep_view(&self) -> ContainerView {
        ContainerView {
            state: self.state@,
            local_folder: self.local_folder@,
            config_file: self.config_file@,
            name: self.name@,
        }
    }
}

impl ContainerView {
    /// Whether docker says that the container runs, in any letter case.
    pub open spec fn running(self) -> bool {
        ascii_lowered(self.state) == "running"@
    }

    /// Whether the container is labelled for the project at `root`.
    pub open spec fn labelled(self, root: Seq<char>) -> bool {
        same_path(self.local_folder, root)
    }
}

impl Container {
    /// Whether the container runs.
    pub fn is_running(&self) -> (r: bool)
        ensures
            r == self.deep_view().running(),
    {
        proof {
            reveal_strlit("running");
            assert(ascii_lowered("running"@) =~= "running"@);
        }
        text::same_ignoring_ascii_case(self.state.as_str(), "running")
    }
}

/// The last container labelled for `root`, among the running ones only where asked.
pub open spec fn last_labelled(
    containers: Seq<ContainerView>,
    root: Seq<char>,
    running_only: bool,
) -> Option<int>
    decreases containers.len(),
{
    if containers.len() == 0 {
        None
    } else if containers.last().labelled(root) && (containers.last().running() || !running_only) {
        Some(containers.len() - 1)
    } else {
        last_labelled(containers.drop_last(), root, running_only)
    }
}

/// The container that `root` means: the last running one labelled for it, else the last
/// one labelled for it.
pub open spec fn best_index(containers: Seq<ContainerView>, root: Seq<char>) -> Option<int> {
    match last_labelled(containers, root, true) {
        Some(i) => Some(i),
        None => last_labelled(containers, root, false),
    }
}

/// The container that `root` means, or else the one that `host_root` means.
pub open spec fn index_for(
    containers: Seq<ContainerView>,
    root: Seq<char>,
    host_root: Option<Seq<char>>,
) -> Option<int> {
    match (best_index(containers, root), host_root) {
        (Some(i), _) => Some(i),
        (None, Some(host)) => best_index(containers, host),
        (None, None) => None,
    }
}

proof fn lemma_last_labelled(containers: Seq<ContainerView>, root: Seq<char>, running_only: bool)
    ensures
        match last_labelled(containers, root, running_only) {
            Some(i) => {
                &&& 0 <= i < containers.len()
                &&& containers[i].labelled(root)
                &&& running_only ==> containers[i].running()
                &&& forall|j: int|
                    i < j < containers.len() ==> !((#[trigger] containers[j]).labelled(root) && (
                    containers[j].running() || !running_only))
            },
            None => forall|j: int|
                0 <= j < containers.len() ==> !((#[trigger] containers[j]).labelled(root) && (
                containers[j].running() || !running_only)),
        },
    decreases containers.len(),
{
    if containers.len() > 0 {
        let rest = containers.drop_last();
        lemma_last_labelled(rest, root, running_only);
        if !(containers.last().labelled(root) && (containers.last().running()
            || !running_only)) {
            match last_labelled(rest, root, running_only) {
                Some(i) => {
                    assert forall|j: int| i < j < containers.len() implies !((
                    #[trigger] containers[j]).labelled(root) && (containers[j].running()
                        || !running_only)) by {
                        if j < rest.len() {
                            assert(rest[j] == containers[j]);
                        }
                    }
                },
                None => {
                    assert forall|j: int| 0 <= j < containers.len() implies !((
                    #[trigger] containers[j]).labelled(root) && (containers[j].running()
                        || !running_only)) by {
                        if j < rest.len() {
                            assert(rest[j] == containers[j]);
                        }
                    }
                },
            }
        }
    }
}

/// A match is labelled for the project; there is one as soon as any container is; and
/// it runs as soon as any container of the project does, so a stopped sidecar never
/// hides a running container.
pub proof fn law_running_container_is_preferred(containers: Seq<ContainerView>, root: Seq<char>)
    ensures
        best_index(containers, root) matches Some(i) ==> {
            &&& 0 <= i < containers.len()
            &&& containers[i].labelled(root)
            &&& (exists|j: int|
                0 <= j < containers.len() && (#[trigger] containers[j]).labelled(root)
                    && containers[j].running()) ==> containers[i].running()
            &&& forall|j: int|
                i < j < containers.len() && (#[trigger] containers[j]).labelled(root)
                    ==> containers[i].running() && !containers[j].running()
        },
        best_index(containers, root) is None ==> forall|j: int|
            0 <= j < containers.len() ==> !(#[trigger] containers[j]).labelled(root),
{
    lemma_last_labelled(containers, root, true);
    lemma_last_labelled(containers, root, false);
}

/// A container is picked by its folder and its state alone. One that is picked has a
/// folder with exactly the components of the project's root, and a folder above or below
/// the root is not enough. There is one as soon as any container has such a folder, and
/// it runs as soon as any of those runs; among equals it is the last.
pub proof fn law_match_has_the_folder_of_the_project(
    containers: Seq<ContainerView>,
    root: Seq<char>,
)
    ensures
        match best_index(containers, root) {
            Some(i) => {
                &&& 0 <= i < containers.len()
                &&& components(containers[i].local_folder) == components(root)
                &&& forall|j: int|
                    0 <= j < containers.len() && components(
                        (#[trigger] containers[j]).local_folder,
                    ) == components(root) && ascii_lowered(containers[j].state) == "running"@
                        ==> ascii_lowered(containers[i].state) == "running"@ && j <= i
                &&& forall|j: int|
                    i < j < containers.len() && components((#[trigger] containers[j]).local_folder)
                        == components(root) ==> ascii_lowered(containers[i].state) == "running"@
            },
            None => forall|j: int|
                0 <= j < containers.len() ==> components((#[trigger] containers[j]).local_folder)
                    != components(root),
        },
{
    lemma_last_labelled(containers, root, true);
    lemma_last_labelled(containers, root, false);
    assert forall|j: int| 0 <= j < containers.len() implies (#[trigger] containers[j]).labelled(
        root,
    ) == (components(containers[j].local_folder) == components(root)) && containers[j].running()
        == (ascii_lowered(containers[j].state) == "running"@) by {}
}

/// The host's path for the project counts only where no container has the folder of the
/// project itself, and then it is matched in the same way.
pub proof fn law_host_root_is_a_fallback(
    containers: Seq<ContainerView>,
    root: Seq<char>,
    host_root: Option<Seq<char>>,
)
    ensures
        (exists|j: int|
            0 <= j < containers.len() && components((#[trigger] containers[j]).local_folder)
                == components(root)) ==> index_for(containers, root, host_root) == best_index(
            containers,
            root,
        ),
        (forall|j: int|
            0 <= j < containers.len() ==> components((#[trigger] containers[j]).local_folder)
                != components(root)) ==> index_for(containers, root, host_root) == (
        match host_root {
            Some(host) => best_index(containers, host),
            None => None,
        }),
{
    law_match_has_the_folder_of_the_project(containers, root);
}

/// A container with another folder does not matter to the pick, wherever it is listed:
/// the same container is picked with it and without it, or none is.
pub proof fn law_other_folders_do_not_matter(
    before: Seq<ContainerView>,
    other: ContainerView,
    after: Seq<ContainerView>,
    root: Seq<char>,
)
    requires
        components(other.local_folder) != components(root),
    ensures
        match (best_index(before + seq![other] + after, root), best_index(before + after, root)) {
            (Some(i), Some(j)) => {
                &&& 0 <= i < (before + seq![other] + after).len()
                &&& 0 <= j < (before + after).len()
                &&& (before + seq![other] + after)[i] == (before + after)[j]
            },
            (None, None) => true,
            _ => false,
        },
{
    lemma_other_folder(before, other, after, root, true);
    lemma_other_folder(before, other, after, root, false);
}

proof fn lemma_other_folder(
    before: Seq<ContainerView>,
    other: ContainerView,
    after: Seq<ContainerView>,
    root: Seq<char>,
    running_only: bool,
)
    requires
        components(other.local_folder) != components(root),
    ensures
        match (
            last_labelled(before + seq![other] + after, root, running_only),
            last_labelled(before + after, root, running_only),
        ) {
            (Some(i), Some(j)) => {
                &&& 0 <= i < (before + seq![other] + after).len()
                &&& 0 <= j < (before + after).len()
                &&& (before + seq![other] + after)[i] == (before + after)[j]
            },
            (None, None) => true,
            _ => false,
        },
    decreases after.len(),
{
    let with = before + seq![other] + after;
    let without = before + after;
    if after.len() == 0 {
        assert(with.drop_last() =~= before);
        assert(without =~= before);
        assert(with.last() == other);
        lemma_last_labelled(before, root, running_only);
    } else {
        assert(with.last() == after.last());
        assert(without.last() == after.last());
        assert(with.drop_last() =~= before + seq![other] + after.drop_last());
        assert(without.drop_last() =~= before + after.drop_last());
        lemma_other_folder(before, other, after.drop_last(), root, running_only);
    }
}

/// A match stands in the listing.
pub proof fn lemma_index_in_range(
    containers: Seq<ContainerView>,
    root: Seq<char>,
    host_root: Option<Seq<char>>,
)
    ensures
        index_for(containers, root, host_root) matches Some(i) ==> 0 <= i < containers.len(),
{
    law_running_container_is_preferred(containers, root);
    if let Some(host) = host_root {
        law_running_container_is_preferred(containers, host);
    }
}

/// Pick the container labelled for `root`. Compose projects put several containers on
/// one local folder; prefer a running one so callers don't flap between it and a
/// stopped sidecar.
pub fn best_match<'a>(containers: &'a [Container], root: &str) -> (r: Option<&'a Container>)
    ensures
        r == match best_index(containers.deep_view(), root@) {
            Some(i) => Some(&containers@[i]),
            None => None,
        },
{
    let ghost all = containers.deep_view();
    let mut best: Option<&'a Container> = None;
    let mut i: usize = 0;
    assert(all.take(0) =~= Seq::<ContainerView>::empty());
    while i < containers.len()
        invariant
            all == containers.deep_view(),
            i <= containers.len(),
            best == match best_index(all.take(i as int), root@) {
                Some(j) => Some(&containers@[j]),
                None => None,
            },
        decreases containers.len() - i,
    {
        let c = &containers[i];
        proof {
            assert(all.take(i + 1).drop_last() =~= all.take(i as int));
            assert(all.take(i + 1).last() == c.deep_view());
            lemma_last_labelled(all.take(i as int), root@, true);
            lemma_last_labelled(all.take(i as int), root@, false);
        }
        if path::equal(c.local_folder.as_str(), root) {
            let keep = match best {
                Some(b) => b.is_running() && !c.is_running(),
                None => false,
            };
            proof {
                match best_index(all.take(i as int), root@) {
                    Some(j) => {
                        assert(all.take(i as int)[j] == containers@[j].deep_view());
                    },
                    None => {},
                }
            }
            if !keep {
                best = Some(c);
            }
        }
        i += 1;
    }
    assert(all.take(i as int) =~= all);
    best
}

/// `best_match`, with a fallback: where the binary runs inside its own devcontainer
/// against the host's docker, discovery sees the bind-mounted path while the labels
/// carry the host path, which `host_root` then names.
pub fn container_for<'a>(
    containers: &'a [Container],
    root: &str,
    host_root: Option<&str>,
) -> (r: Option<&'a Container>)
    ensures
        r == match index_for(containers.deep_view(), root@, host_root.deep_view()) {
            Some(i) => Some(&containers@[i]),
            None => None,
        },
{
    let direct = best_match(containers, root);
    if direct.is_some() {
        return direct;
    }
    match host_root {
        Some(host) => best_match(containers, host),
        None => None,
    }
}

/// Tab-separated on purpose: with `{{json .}}` docker flattens the labels into one
/// comma-joined string that cannot be split safely when values contain commas.
pub const FORMAT: &'static str = "{{.State}}\t{{.Label \"devcontainer.local_folder\"}}\t{{.Label \"devcontainer.config_file\"}}\t{{.Names}}";

/// The command that lists all devcontainer-labelled containers, in any state.
pub fn list_command() -> (r: Invocation)
    ensures
        r.program@ == "docker"@,
        r.args.deep_view() == seq![
            "ps"@,
            "-a"@,
            "--filter"@,
            "label=devcontainer.local_folder"@,
            "--format"@,
            FORMAT@,
        ],
{
    let args = process::texts(
        &vec!["ps", "-a", "--filter", "label=devcontainer.local_folder", "--format", FORMAT],
    );
    assert(args.deep_view() =~= seq![
        "ps"@,
        "-a"@,
        "--filter"@,
        "label=devcontainer.local_folder"@,
        "--format"@,
        FORMAT@,
    ]);
    Invocation { program: "docker".to_owned(), args }
}

/// What the outcome of `list_command` says: the containers, or why there is no answer.
pub open spec fn listed(outcome: Result<CommandOutput, String>) -> Result<
    Seq<ContainerView>,
    Seq<char>,
> {
    match outcome {
        Ok(out) => if out.success {
            Ok(containers_of(lines(utf8_lossy(out.stdout@))))
        } else {
            Err("docker ps failed: "@ + trimmed(utf8_lossy(out.stderr@)))
        },
        Err(e) => Err("failed to run docker: "@ + e@),
    }
}

/// The texts of a listing.
pub open spec fn listing(r: Result<Vec<Container>, String>) -> Result<
    Seq<ContainerView>,
    Seq<char>,
> {
    match r {
        Ok(containers) => Ok(containers.deep_view()),
        Err(e) => Err(e@),
    }
}

/// The containers in the outcome of running `list_command`. `Err` means that the probe
/// itself failed (docker missing, daemon down), which is distinct from no containers.
pub fn list(outcome: Result<CommandOutput, String>) -> (r: Result<Vec<Container>, String>)
    ensures
        listing(r) == listed(outcome),
        outcome matches Ok(out) ==> !out.success ==> (r matches Err(msg) && msg@
            == "docker ps failed: "@ + trimmed(utf8_lossy(out.stderr@))),
        outcome matches Err(e) ==> (r matches Err(msg) && msg@ == "failed to run docker: "@ + e@),
        outcome matches Ok(out) ==> out.success ==> valid_utf8(out.stdout@) ==> listing(r) == Ok::<
            Seq<ContainerView>,
            Seq<char>,
        >(containers_of(lines(decode_utf8(out.stdout@)))),
{
    match outcome {
        Ok(out) => {
            if out.success {
                Ok(parse(std_text::from_utf8_lossy(&out.stdout).as_str()))
            } else {
                let stderr = std_text::from_utf8_lossy(&out.stderr);
                Err("docker ps failed: ".to_owned().concat(text::trim(stderr.as_str())))
            }
        },
        Err(e) => Err("failed to run docker: ".to_owned().concat(e.as_str())),
    }
}

/// The container that one line of the listing names: state, folder, config file and,
/// where it is there, name. A line with fewer fields, or without a state or a folder,
/// names none.
pub open spec fn container_of(line: Seq<char>) -> Option<ContainerView> {
    let f = fields(line, '\t');
    if f.len() < 3 || trimmed(f[0]).len() == 0 || trimmed(f[1]).len() == 0 {
        None
    } else {
        Some(
            ContainerView {
                state: trimmed(f[0]),
                local_folder: trimmed(f[1]),
                config_file: trimmed(f[2]),
                name: if f.len() > 3 {
                    trimmed(f[3])
                } else {
                    seq![]
                },
            },
        )
    }
}

/// The containers that `lines` name, in order.
pub open spec fn containers_of(lines: Seq<Seq<char>>) -> Seq<ContainerView>
    decreases lines.len(),
{
    if lines.len() == 0 {
        seq![]
    } else {
        let before = containers_of(lines.drop_last());
        match container_of(lines.last()) {
            Some(c) => before.push(c),
            None => before,
        }
    }
}

/// Each line is read on its own: what one part of a listing names does not depend on
/// the lines before or after it.
pub proof fn law_lines_are_read_one_by_one(a: Seq<Seq<char>>, b: Seq<Seq<char>>)
    ensures
        containers_of(a + b) == containers_of(a) + containers_of(b),
    decreases b.len(),
{
    if b.len() == 0 {
        assert(a + b =~= a);
        assert(containers_of(a) + containers_of(b) =~= containers_of(a));
    } else {
        law_lines_are_read_one_by_one(a, b.drop_last());
        assert((a + b).drop_last() =~= a + b.drop_last());
        assert((a + b).last() == b.last());
        assert(containers_of(a + b) =~= containers_of(a) + containers_of(b));
    }
}

fn parse_line(line: &str) -> (r: Option<Container>)
    ensures
        r.deep_view() == container_of(line@),
{
    let parts = text::split_fields(line, '\t');
    let ghost f = fields(line@, '\t');
    assert(f.len() == parts.len());
    if parts.len() < 3 {
        return None;
    }
    assert(f[0] == parts[0]@ && f[1] == parts[1]@ && f[2] == parts[2]@);
    let state = text::trim(parts[0]);
    let local_folder = text::trim(parts[1]);
    if state.is_empty() || local_folder.is_empty() {
        return None;
    }
    let name = if parts.len() > 3 {
        assert(f[3] == parts[3]@);
        text::trim(parts[3]).to_owned()
    } else {
        String::new()
    };
    Some(
        Container {
            state: state.to_owned(),
            local_folder: local_folder.to_owned(),
            config_file: text::trim(parts[2]).to_owned(),
            name,
        },
    )
}

/// Parse the tab-separated `docker ps` output. Malformed lines are skipped.
pub fn parse(output: &str) -> (r: Vec<Container>)
    ensures
        r.deep_view() == containers_of(lines(output@)),
{
    let parts = text::split_lines(output);
    let ghost all = parts.deep_view();
    let mut out: Vec<Container> = Vec::new();
    let mut i: usize = 0;
    assert(all.take(0) =~= Seq::<Seq<char>>::empty());
    assert(out.deep_view() =~= containers_of(all.take(0)));
    while i < parts.len()
        invariant
            all == parts.deep_view(),
            i <= parts.len(),
            out.deep_view() == containers_of(all.take(i as int)),
        decreases parts.len() - i,
    {
        let ghost before = out.deep_view();
        assert(all.take(i + 1).drop_last() =~= all.take(i as int));
        assert(all.take(i + 1).last() == parts[i as int]@);
        match parse_line(parts[i]) {
            Some(c) => {
                out.push(c);
                assert(out.deep_view() =~= before.push(c.deep_view()));
            },
            None => {},
        }
        i += 1;
    }
    assert(all.take(i as int) =~= all);
    out
}

/// Four texts without tabs, with tabs between them, read as the container that they
/// describe, each without the white space around it; what follows them does not matter, the
/// last one may be missing, and without a state or a folder they describe none.
pub proof fn law_a_line_describes_its_container(
    state: Seq<char>,
    folder: Seq<char>,
    config: Seq<char>,
    name: Seq<char>,
    more: Seq<char>,
)
    requires
        !state.contains('\t'),
        !folder.contains('\t'),
        !config.contains('\t'),
        !name.contains('\t'),
    ensures
        ({
            let tab = seq!['\t'];
            let three = state + tab + (folder + tab + config);
            let four = state + tab + (folder + tab + (config + tab + name));
            let five = state + tab + (folder + tab + (config + tab + (name + tab + more)));
            let described = ContainerView {
                state: trimmed(state),
                local_folder: trimmed(folder),
                config_file: trimmed(config),
                name: trimmed(name),
            };
            let unnamed = ContainerView { name: seq![], ..described };
            let blank = trimmed(state).len() == 0 || trimmed(folder).len() == 0;
            &&& container_of(state) is None
            &&& container_of(state + tab + folder) is None
            &&& blank ==> container_of(three) is None && container_of(four) is None
                && container_of(five) is None
            &&& !blank ==> {
                &&& container_of(three) == Some(unnamed)
                &&& container_of(four) == Some(described)
                &&& container_of(five) == Some(described)
            }
        }),
{
    let tab = seq!['\t'];
    lemma_first_field(state, folder);
    lemma_first_field(state, folder + tab + config);
    lemma_first_field(state, folder + tab + (config + tab + name));
    lemma_first_field(state, folder + tab + (config + tab + (name + tab + more)));
    lemma_first_field(folder, config);
    lemma_first_field(folder, config + tab + name);
    lemma_first_field(folder, config + tab + (name + tab + more));
    lemma_first_field(config, name);
    lemma_first_field(config, name + tab + more);
    lemma_first_field(name, more);
}

proof fn lemma_first_field(first: Seq<char>, rest: Seq<char>)
    requires
        !first.contains('\t'),
    ensures
        fields(first, '\t') == seq![first],
        fields(first + seq!['\t'] + rest, '\t') == seq![first] + fields(rest, '\t'),
{
    let n = first.len() as int;
    assert forall|i: int| 0 <= i < n implies first[i] != '\t' by {
        assert(first.contains(first[i]));
    }
    text::lemma_position_unique(first, '\t', n);
    let whole = first + seq!['\t'] + rest;
    assert forall|i: int| 0 <= i < n implies whole[i] != '\t' by {
        assert(whole[i] == first[i]);
    }
    text::lemma_position_unique(whole, '\t', n);
    assert(whole.take(n) =~= first);
    assert(whole.skip(n + 1) =~= rest);
}

/// One line describes one container or none.
pub proof fn law_one_line_is_one_container_at_most(line: Seq<char>)
    ensures
        containers_of(seq![]) == Seq::<ContainerView>::empty(),
        containers_of(seq![line]) == match container_of(line) {
            Some(c) => seq![c],
            None => seq![],
        },
{
    reveal_with_fuel(containers_of, 2);
    assert(seq![line].drop_last() =~= Seq::<Seq<char>>::empty());
    if let Some(c) = container_of(line) {
        assert(Seq::<ContainerView>::empty().push(c) =~= seq![c]);
    }
}

/// A container runs when docker says `running`, in any case of the letters, and in no other
/// state.
pub proof fn law_only_running_is_running(c: ContainerView)
    ensures
        c.running() <==> ascii_lowered(c.state) == "running"@,
        c.state == "running"@ ==> c.running(),
{
    reveal_strlit("running");
    assert(ascii_lowered("running"@) =~= "running"@);
}

/// All texts of a container are seen, each as itself, and so is why there is no listing.
pub proof fn law_a_container_is_seen_whole(c: Container, listed: Vec<Container>, reason: String)
    ensures
        c.deep_view().state == c.state@,
        c.deep_view().local_folder == c.local_folder@,
        c.deep_view().config_file == c.config_file@,
        c.deep_view().name == c.name@,
        listing(Ok(listed)) matches Ok(seen) && seen.len() == listed@.len() && forall|i: int|
            0 <= i < listed@.len() ==> #[trigger] seen[i] == listed@[i].deep_view(),
        listing(Err(reason)) == Err::<Seq<ContainerView>, Seq<char>>(reason@),
{
}

} // verus!
