//! What is reported to herdr for one pane's project.

use vstd::prelude::*;

use crate::discover::Discovery;
use crate::docker;
use crate::docker::{Container, ContainerView, index_for, listing};
use crate::path::components;
use crate::push::name_for;
use crate::text::ascii_lowered;

verus! {

/// What we report to herdr for one pane's project.
#[derive(Debug, PartialEq)]
pub struct Status {
    /// "running" | "stopped" | "none" | "error"
    pub status: &'static str,
    /// Project root that carries the devcontainer config, if any.
    pub project_root: Option<String>,
    /// Container name backing the status, when one exists.
    pub container: Option<String>,
    pub error: Option<String>,
}

/// The texts of a `Status`.
pub struct StatusView {
    pub status: Seq<char>,
    pub project_root: Option<Seq<char>>,
    pub container: Option<Seq<char>>,
    pub error: Option<Seq<char>>,
}

impl DeepView for Status {
    type V = StatusView;

    open spec fn deep_view(&self) -> StatusView {
        StatusView {
            status: self.status@,
            project_root: self.project_root.deep_view(),
            container: self.container.deep_view(),
            error: self.error.deep_view(),
        }
    }
}

/// The status of a directory that belongs to no devcontainer project.
pub open spec fn no_project() -> StatusView {
    StatusView { status: "none"@, project_root: None, container: None, error: None }
}

/// The status of the project at `root`, by what docker lists.
pub open spec fn project_status(
    root: Seq<char>,
    listed: Result<Seq<ContainerView>, Seq<char>>,
    host_root: Option<Seq<char>>,
) -> StatusView {
    match listed {
        Ok(containers) => match index_for(containers, root, host_root) {
            Some(i) => StatusView {
                status: if containers[i].running() {
                    "running"@
                } else {
                    "stopped"@
                },
                project_root: Some(root),
                container: Some(containers[i].name),
                error: None,
            },
            None => StatusView {
                status: "none"@,
                project_root: Some(root),
                container: None,
                error: None,
            },
        },
        Err(e) => StatusView {
            status: "error"@,
            project_root: Some(root),
            container: None,
            error: Some(e),
        },
    }
}

/// The status names a container exactly when a session would find one, and the same
/// one: the two never disagree about which container a project's pane means. Where docker
/// gave no answer both tell the same reason, and where it lists no container for the
/// project the session says so.
pub proof fn law_status_and_session_agree(
    root: Seq<char>,
    listed: Result<Seq<ContainerView>, Seq<char>>,
    host_root: Option<Seq<char>>,
)
    ensures
        match name_for(listed, root, host_root) {
            Ok(name) => project_status(root, listed, host_root).container == Some(name),
            Err(_) => project_status(root, listed, host_root).container is None,
        },
        project_status(root, listed, host_root).status == "error"@ ==> (project_status(
            root,
            listed,
            host_root,
        ).error matches Some(e) && name_for(listed, root, host_root) == Err::<
            Seq<char>,
            Seq<char>,
        >(e)),
        project_status(root, listed, host_root).status == "none"@ ==> name_for(
            listed,
            root,
            host_root,
        ) == Err::<Seq<char>, Seq<char>>("exec: no container labelled for "@ + root),
{
    law_status_fields(root, listed, host_root);
}

/// Where the status names a container, it is the one that was picked for the project, and
/// the status is `running` exactly when the state of that very container is, and
/// `stopped` when it is not. Otherwise no container has the folder of the project, nor
/// that of the host's path for it.
pub proof fn law_status_is_that_of_the_match(
    root: Seq<char>,
    containers: Seq<ContainerView>,
    host_root: Option<Seq<char>>,
)
    ensures
        ({
            let s = project_status(root, Ok(containers), host_root);
            match s.container {
                Some(name) => exists|i: int|
                    {
                        &&& 0 <= i < containers.len()
                        &&& index_for(containers, root, host_root) == Some(i)
                        &&& (#[trigger] containers[i]).name == name
                        &&& components(containers[i].local_folder) == components(root) || (
                        host_root matches Some(host) && components(containers[i].local_folder)
                            == components(host))
                        &&& s.status == if ascii_lowered(containers[i].state) == "running"@ {
                            "running"@
                        } else {
                            "stopped"@
                        }
                    },
                None => s.status == "none"@ && forall|j: int|
                    0 <= j < containers.len() ==> components(
                        (#[trigger] containers[j]).local_folder,
                    ) != components(root) && (host_root matches Some(host) ==> components(
                        containers[j].local_folder,
                    ) != components(host)),
            }
        }),
{
    docker::lemma_index_in_range(containers, root, host_root);
    docker::law_match_has_the_folder_of_the_project(containers, root);
    if let Some(host) = host_root {
        docker::law_match_has_the_folder_of_the_project(containers, host);
    }
    if let Some(i) = index_for(containers, root, host_root) {
        assert(containers[i].name == containers[i].name);
        assert(containers[i].running() == (ascii_lowered(containers[i].state) == "running"@));
    }
}

/// A container of another project does not affect the status, wherever docker lists it
/// and whatever its state is.
pub proof fn law_other_projects_do_not_affect_the_status(
    root: Seq<char>,
    before: Seq<ContainerView>,
    other: ContainerView,
    after: Seq<ContainerView>,
    host_root: Option<Seq<char>>,
)
    requires
        components(other.local_folder) != components(root),
        host_root matches Some(host) ==> components(other.local_folder) != components(host),
    ensures
        project_status(root, Ok(before + seq![other] + after), host_root) == project_status(
            root,
            Ok(before + after),
            host_root,
        ),
{
    docker::law_other_folders_do_not_matter(before, other, after, root);
    if let Some(host) = host_root {
        docker::law_other_folders_do_not_matter(before, other, after, host);
    }
}

/// Where docker gives no answer, the status is `error`, with docker's reason and without a
/// container.
pub proof fn law_a_failed_probe_is_an_error(
    root: Seq<char>,
    reason: Seq<char>,
    host_root: Option<Seq<char>>,
)
    ensures
        ({
            let s = project_status(root, Err(reason), host_root);
            &&& s.status == "error"@
            &&& s.project_root == Some(root)
            &&& s.container is None
            &&& s.error == Some(reason)
        }),
{
}

/// A container is named exactly when the status is `running` or `stopped`, and an error
/// exactly when it is `error`.
pub proof fn law_status_fields(
    root: Seq<char>,
    listed: Result<Seq<ContainerView>, Seq<char>>,
    host_root: Option<Seq<char>>,
)
    ensures
        ({
            let s = project_status(root, listed, host_root);
            &&& s.project_root == Some(root)
            &&& s.container is Some <==> s.status == "running"@ || s.status == "stopped"@
            &&& s.error is Some <==> s.status == "error"@
            &&& s.container is None && s.error is None <==> s.status == "none"@
        }),
{
    reveal_strlit("running");
    reveal_strlit("stopped");
    reveal_strlit("none");
    reveal_strlit("error");
    assert("running"@[0] == 'r' && "stopped"@[0] == 's' && "none"@[0] == 'n' && "error"@[0] == 'e');
}

/// Detect the status of the project that was found, if one was, by what docker lists.
pub fn detect(
    found: Option<(Discovery, Result<Vec<Container>, String>)>,
    host_root: Option<&str>,
) -> (r: Status)
    ensures
        r.deep_view() == match found {
            Some((d, listed)) => project_status(
                d.project_root@,
                listing(listed),
                host_root.deep_view(),
            ),
            None => no_project(),
        },
        found is None ==> {
            &&& r.status@ == "none"@
            &&& r.project_root is None && r.container is None && r.error is None
        },
{
    let (discovery, listed) = match found {
        Some(pair) => pair,
        None => {
            return Status { status: "none", project_root: None, container: None, error: None };
        },
    };
    let root = discovery.project_root;
    match listed {
        Ok(containers) => {
            proof {
                docker::lemma_index_in_range(
                    containers.deep_view(),
                    root@,
                    host_root.deep_view(),
                );
            }
            match docker::container_for(containers.as_slice(), root.as_str(), host_root) {
                Some(c) => Status {
                    status: if c.is_running() {
                        "running"
                    } else {
                        "stopped"
                    },
                    container: Some(c.name.clone()),
                    project_root: Some(root),
                    error: None,
                },
                None => Status {
                    status: "none",
                    project_root: Some(root),
                    container: None,
                    error: None,
                },
            }
        },
        Err(e) => Status {
            status: "error",
            project_root: Some(root),
            container: None,
            error: Some(e),
        },
    }
}

/// All texts of a status are seen, each as itself.
pub proof fn law_a_status_is_seen_whole(s: Status)
    ensures
        s.deep_view().status == s.status@,
        s.deep_view().project_root is Some <==> s.project_root is Some,
        s.project_root matches Some(v) ==> s.deep_view().project_root == Some(v@),
        s.deep_view().container is Some <==> s.container is Some,
        s.container matches Some(v) ==> s.deep_view().container == Some(v@),
        s.deep_view().error is Some <==> s.error is Some,
        s.error matches Some(v) ==> s.deep_view().error == Some(v@),
{
}

} // verus!
