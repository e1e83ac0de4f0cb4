//! Reports the plugin's own findings back to herdr: which directory it wants the status
//! of, and the status as pane or workspace metadata.
//!
//! Everything here is best-effort: a missing id, a missing binary path, or a failed call
//! just leaves the badge stale.

use vstd::prelude::*;
use vstd::string::*;
use vstd::utf8::*;

use crate::json;
use crate::json::{bytes_document, document, member, members};
use crate::process;
use crate::process::{CommandOutput, Invocation};
use crate::status::Status;
use crate::text;

verus! {

/// The source that scopes our metadata, so it never collides with another's tokens.
pub const SOURCE: &'static str = "devcontainer-status";

/// The name of the metadata token.
pub const TOKEN: &'static str = "devcontainer";

/// The directory that one JSON value names: its `foreground_cwd`, or, where that is not
/// there at all, its `cwd`. What is there counts only as a string.
pub open spec fn cwd_in(m: Map<Seq<Seq<char>>, Option<Seq<char>>>) -> Option<Seq<char>> {
    match member(m, "foreground_cwd"@) {
        Some(field) => field[seq![]],
        None => match member(m, "cwd"@) {
            Some(field) => field[seq![]],
            None => None,
        },
    }
}

/// The directory that the value under `key` names.
pub open spec fn cwd_under(
    m: Map<Seq<Seq<char>>, Option<Seq<char>>>,
    key: Seq<char>,
) -> Option<Seq<char>> {
    match member(m, key) {
        Some(inner) => cwd_in(inner),
        None => None,
    }
}

/// The directory that a plugin context names: the pane's, else the focused pane's, else
/// the workspace's, else its own.
pub open spec fn context_cwd_in(m: Map<Seq<Seq<char>>, Option<Seq<char>>>) -> Option<Seq<char>> {
    if cwd_under(m, "pane"@) is Some {
        cwd_under(m, "pane"@)
    } else if cwd_under(m, "focused_pane"@) is Some {
        cwd_under(m, "focused_pane"@)
    } else if cwd_under(m, "workspace"@) is Some {
        cwd_under(m, "workspace"@)
    } else {
        cwd_in(m)
    }
}

/// The directory that a JSON value names, if there is a value and it names one.
pub fn cwd_field(value: Option<&serde_json::Value>) -> (r: Option<String>)
    ensures
        r.deep_view() == match value {
            Some(v) => cwd_in(members(*v)),
            None => None,
        },
{
    let v = match value {
        Some(v) => v,
        None => {
            return None;
        },
    };
    let field = match json::get(v, "foreground_cwd") {
        Some(field) => Some(field),
        None => json::get(v, "cwd"),
    };
    match field {
        Some(f) => match json::as_text(f) {
            Some(cwd) => Some(cwd.to_owned()),
            None => None,
        },
        None => None,
    }
}

/// The directory that a parsed plugin context names.
pub fn context_cwd(value: &serde_json::Value) -> (r: Option<String>)
    ensures
        r.deep_view() == context_cwd_in(members(*value)),
{
    let pane = cwd_field(json::get(value, "pane"));
    if pane.is_some() {
        return pane;
    }
    let focused = cwd_field(json::get(value, "focused_pane"));
    if focused.is_some() {
        return focused;
    }
    let workspace = cwd_field(json::get(value, "workspace"));
    if workspace.is_some() {
        return workspace;
    }
    cwd_field(Some(value))
}

/// Best-effort parse of `HERDR_PLUGIN_CONTEXT_JSON`. The plugin docs describe its
/// contents but not a schema, so this tries the field names that herdr's own `pane get`
/// documents under the plausible nestings and gives up cleanly on anything else;
/// `pane_cwd`'s next fallback covers a wrong guess here.
pub fn parse_context_cwd(raw: &str) -> (r: Option<String>)
    ensures
        r.deep_view() == match document(raw@) {
            Some(m) => context_cwd_in(m),
            None => None,
        },
{
    match json::parse_text(raw) {
        Some(value) => context_cwd(&value),
        None => None,
    }
}

/// The command that asks herdr for the pane, when the binary and the pane are known.
pub fn query_command(bin: Option<&str>, pane: Option<&str>) -> (r: Option<Invocation>)
    ensures
        match (bin, pane) {
            (Some(bin), Some(pane)) => r matches Some(call) && call.program@ == bin@
                && call.args.deep_view() == seq!["pane"@, "get"@, pane@],
            _ => r is None,
        },
{
    match (bin, pane) {
        (Some(bin), Some(pane)) => {
            let args = process::texts(&vec!["pane", "get", pane]);
            assert(args.deep_view() =~= seq!["pane"@, "get"@, pane@]);
            Some(Invocation { program: bin.to_owned(), args })
        },
        _ => None,
    }
}

/// The directory in herdr's answer to `query_command`.
pub fn queried_cwd(out: &CommandOutput) -> (r: Option<String>)
    ensures
        r.deep_view() == if !out.success {
            None
        } else {
            match bytes_document(out.stdout@) {
                Some(m) => cwd_in(m),
                None => None,
            }
        },
        out.success && valid_utf8(out.stdout@) ==> r.deep_view() == (match document(
            decode_utf8(out.stdout@),
        ) {
            Some(m) => cwd_in(m),
            None => None,
        }),
{
    if !out.success {
        return None;
    }
    match json::parse_bytes(&out.stdout) {
        Some(value) => cwd_field(Some(&value)),
        None => None,
    }
}

/// The directory herdr actually wants status for.
///
/// herdr runs plugin commands with the plugin's own directory as their working
/// directory, so falling straight back to it would resolve every pane to wherever this
/// plugin is installed. herdr is asked instead, cheapest first: the context it handed
/// over, its answer for the pane, the pane's directory in the environment, and only then
/// the current directory, for a run by hand outside herdr.
pub fn pane_cwd(
    from_context: Option<String>,
    queried: Option<String>,
    from_env: Option<String>,
    current_dir: Option<String>,
) -> (r: String)
    ensures
        r@ == match (from_context, queried, from_env, current_dir) {
            (Some(cwd), _, _, _) => cwd@,
            (None, Some(cwd), _, _) => cwd@,
            (None, None, Some(cwd), _) => cwd@,
            (None, None, None, Some(cwd)) => cwd@,
            (None, None, None, None) => "."@,
        },
{
    match (from_context, queried, from_env, current_dir) {
        (Some(cwd), _, _, _) => cwd,
        (None, Some(cwd), _, _) => cwd,
        (None, None, Some(cwd), _) => cwd,
        (None, None, None, Some(cwd)) => cwd,
        (None, None, None, None) => ".".to_owned(),
    }
}

/// What the metadata of a pane or workspace is set to: cleared when there is no
/// devcontainer, else the status.
pub open spec fn token_args(status: Seq<char>) -> Seq<Seq<char>> {
    if status == "none"@ {
        seq!["--clear-token"@, TOKEN@]
    } else {
        seq!["--token"@, TOKEN@ + "="@ + status]
    }
}

/// What a report is about: the workspace where it is workspace-wide, else the pane.
pub open spec fn report_target(
    workspace_wide: bool,
    pane: Option<Seq<char>>,
    workspace: Option<Seq<char>>,
) -> Option<(Seq<char>, Seq<char>)> {
    match (workspace_wide, pane, workspace) {
        (true, _, Some(id)) => Some(("workspace"@, id)),
        (false, Some(id), _) => Some(("pane"@, id)),
        _ => None,
    }
}

/// A report that is not workspace-wide is about the pane, whatever the workspace is, and
/// one that is workspace-wide is about the workspace, whatever the pane is. Without the id
/// that it is about there is no report.
pub proof fn law_a_report_is_about_one_thing(
    pane: Option<Seq<char>>,
    workspace: Option<Seq<char>>,
    another: Option<Seq<char>>,
)
    ensures
        report_target(false, pane, workspace) == report_target(false, pane, another),
        report_target(true, pane, workspace) == report_target(true, another, workspace),
        match pane {
            Some(id) => report_target(false, pane, workspace) == Some(("pane"@, id)),
            None => report_target(false, pane, workspace) is None,
        },
        match workspace {
            Some(id) => report_target(true, pane, workspace) == Some(("workspace"@, id)),
            None => report_target(true, pane, workspace) is None,
        },
{
}

/// The token is cleared where there is no devcontainer, and only there; else its value is
/// the status, so two statuses never look alike.
pub proof fn law_the_token_tells_the_status(status: Seq<char>, another: Seq<char>)
    ensures
        status == "none"@ ==> token_args(status) == seq!["--clear-token"@, TOKEN@],
        status != "none"@ ==> token_args(status) == seq!["--token"@, TOKEN@ + "="@ + status],
        token_args(status) == token_args(another) ==> status == another,
{
    reveal_strlit("--token");
    reveal_strlit("--clear-token");
    assert("--token"@.len() != "--clear-token"@.len());
    let prefix = TOKEN@ + "="@;
    if token_args(status) == token_args(another) {
        assert(token_args(status)[0] == token_args(another)[0]);
        assert(token_args(status)[1] == token_args(another)[1]);
        if status != "none"@ && another != "none"@ {
            assert((prefix + status).skip(prefix.len() as int) =~= status);
            assert((prefix + another).skip(prefix.len() as int) =~= another);
        }
    }
}

/// Build the `herdr pane|workspace report-metadata ... --token devcontainer=...`
/// invocation, or `None` when the id it needs isn't available.
pub fn report_command(
    bin: &str,
    workspace_wide: bool,
    pane: Option<&str>,
    workspace: Option<&str>,
    status: &str,
) -> (r: Option<Invocation>)
    ensures
        match report_target(workspace_wide, pane.deep_view(), workspace.deep_view()) {
            Some((kind, id)) => r matches Some(call) && call.program@ == bin@
                && call.args.deep_view() == seq![
                kind,
                "report-metadata"@,
                id,
                "--source"@,
                SOURCE@,
            ] + token_args(status@),
            None => r is None,
        },
        !workspace_wide ==> (r is Some <==> pane is Some),
        workspace_wide ==> (r is Some <==> workspace is Some),
        r matches Some(call) ==> {
            &&& call.args@.len() == 7
            &&& call.args@[0]@ == if workspace_wide {
                "workspace"@
            } else {
                "pane"@
            }
            &&& call.args@[1]@ == "report-metadata"@
            &&& workspace_wide ==> workspace.deep_view() == Some(call.args@[2]@)
            &&& !workspace_wide ==> pane.deep_view() == Some(call.args@[2]@)
            &&& call.args@[3]@ == "--source"@ && call.args@[4]@ == SOURCE@
            &&& status@ == "none"@ ==> call.args@[5]@ == "--clear-token"@ && call.args@[6]@
                == TOKEN@
            &&& status@ != "none"@ ==> call.args@[5]@ == "--token"@ && call.args@[6]@ == TOKEN@
                + "="@ + status@
        },
{
    let (kind, id): (&str, &str) = match (workspace_wide, pane, workspace) {
        (true, _, Some(id)) => ("workspace", id),
        (false, Some(id), _) => ("pane", id),
        _ => {
            return None;
        },
    };
    let value: String;
    let args = if text::same(status, "none") {
        process::texts(&vec![kind, "report-metadata", id, "--source", SOURCE, "--clear-token", TOKEN])
    } else {
        value = TOKEN.to_owned().concat("=").concat(status);
        process::texts(
            &vec![kind, "report-metadata", id, "--source", SOURCE, "--token", value.as_str()],
        )
    };
    assert(args.deep_view() =~= seq![kind@, "report-metadata"@, id@, "--source"@, SOURCE@]
        + token_args(status@));
    proof {
        let all = args.deep_view();
        assert(all.len() == 7);
        assert forall|i: int| 0 <= i < 7 implies #[trigger] all[i] == args@[i]@ by {}
        assert(all[0] == kind@ && all[1] == "report-metadata"@ && all[2] == id@);
        assert(all[3] == "--source"@ && all[4] == SOURCE@);
        assert(all[5] == token_args(status@)[0] && all[6] == token_args(status@)[1]);
    }
    Some(Invocation { program: bin.to_owned(), args })
}

/// Push `status` onto the pane as display-only metadata, a `$devcontainer` token a user
/// can add to their sidebar rows. `hook --all` has no single pane in view, so it reports
/// on the workspace instead. There is nothing to run when herdr's binary or the id is
/// not known.
pub fn publish(
    bin: Option<&str>,
    workspace_wide: bool,
    pane: Option<&str>,
    workspace: Option<&str>,
    status: &Status,
) -> (r: Option<Invocation>)
    ensures
        match (bin, report_target(workspace_wide, pane.deep_view(), workspace.deep_view())) {
            (Some(bin), Some((kind, id))) => r matches Some(call) && call.program@ == bin@
                && call.args.deep_view() == seq![
                kind,
                "report-metadata"@,
                id,
                "--source"@,
                SOURCE@,
            ] + token_args(status.status@),
            _ => r is None,
        },
{
    match bin {
        Some(bin) => report_command(bin, workspace_wide, pane, workspace, status.status),
        None => None,
    }
}

/// One value names its foreground directory where it has that field at all, and else its
/// plain one; a field that is no string names nothing, and hides the other.
pub proof fn law_the_foreground_directory_comes_first(
    m: Map<Seq<Seq<char>>, Option<Seq<char>>>,
)
    ensures
        m.dom().contains(seq!["foreground_cwd"@]) ==> cwd_in(m) == m[seq!["foreground_cwd"@]],
        !m.dom().contains(seq!["foreground_cwd"@]) && m.dom().contains(seq!["cwd"@]) ==> cwd_in(m)
            == m[seq!["cwd"@]],
        !m.dom().contains(seq!["foreground_cwd"@]) && !m.dom().contains(seq!["cwd"@]) ==> cwd_in(
            m,
        ) is None,
{
    assert(seq!["foreground_cwd"@] + Seq::<Seq<char>>::empty() =~= seq!["foreground_cwd"@]);
    assert(seq!["cwd"@] + Seq::<Seq<char>>::empty() =~= seq!["cwd"@]);
}

/// A context names the directory of the first of these that names one: the pane, the
/// focused pane, the workspace, and the context itself.
pub proof fn law_the_nearest_directory_wins(m: Map<Seq<Seq<char>>, Option<Seq<char>>>)
    ensures
        ({
            let named = |key: Seq<char>|
                match member(m, key) {
                    Some(inner) => cwd_in(inner),
                    None => None::<Seq<char>>,
                };
            let (pane, focused, workspace) = (
                named("pane"@),
                named("focused_pane"@),
                named("workspace"@),
            );
            &&& pane is Some ==> context_cwd_in(m) == pane
            &&& pane is None && focused is Some ==> context_cwd_in(m) == focused
            &&& pane is None && focused is None && workspace is Some ==> context_cwd_in(m)
                == workspace
            &&& pane is None && focused is None && workspace is None ==> context_cwd_in(m)
                == cwd_in(m)
        }),
{
}

} // verus!
