//! Which agent a name stands for, and which one a command line claims its pane for.

use vstd::prelude::*;
use vstd::slice::*;
use vstd::utf8::*;

use crate::path;
use crate::path::file_name_of;
use crate::std_text;
use crate::std_text::lowercased;
use crate::text;
use crate::text::{ascii_lowered, before_suffix, trimmed};

verus! {

/// Agent names that herdr's process-scan detector recognises, canonical label first in
/// each group. herdr exposes no runtime query for this list, so it has to be a static
/// copy here, and it will drift as herdr adds agents. An unrecognised `--agent` name is
/// still accepted and forwarded verbatim (see `parse_args`), so a new herdr agent works
/// here without a release.
///
/// It does not hold every agent that herdr recognises: a command named after one that is
/// missing here leaves the pane unclaimed, and takes `--agent <name>` to claim it.
pub open spec fn agent_table() -> Seq<Seq<Seq<char>>> {
    seq![
        seq!["pi"@],
        seq!["codex"@],
        seq!["gemini"@],
        seq!["cursor"@, "cursor-agent"@],
        seq!["devin"@, "devin-cli"@],
        seq!["agy"@, "antigravity"@, "antigravity-cli"@],
        seq!["cline"@],
        seq!["omp"@],
        seq!["mastracode"@, "mastra-code"@],
        seq!["opencode"@, "opencode2"@, "open-code"@],
        seq!["copilot"@, "github-copilot"@, "ghcs"@],
        seq!["kimi"@, "kimi-code"@],
        seq!["kiro"@, "kiro-cli"@],
        seq!["droid"@],
        seq!["amp"@, "amp-local"@],
        seq!["grok"@, "grok-build"@],
        seq!["hermes"@, "hermes-agent"@],
        seq!["kilo"@, "kilo-code"@],
        seq!["qodercli"@, "qoderclicn"@, "qoder"@, "qodercn"@],
        seq!["qwen"@, "qwen-code"@],
        seq!["maki"@],
    ]
}

/// The table of agent names, canonical label first in each group.
pub fn agents() -> (r: Vec<Vec<&'static str>>)
    ensures
        r.deep_view() == agent_table(),
        r.deep_view() == seq![
            seq!["pi"@],
            seq!["codex"@],
            seq!["gemini"@],
            seq!["cursor"@, "cursor-agent"@],
            seq!["devin"@, "devin-cli"@],
            seq!["agy"@, "antigravity"@, "antigravity-cli"@],
            seq!["cline"@],
            seq!["omp"@],
            seq!["mastracode"@, "mastra-code"@],
            seq!["opencode"@, "opencode2"@, "open-code"@],
            seq!["copilot"@, "github-copilot"@, "ghcs"@],
            seq!["kimi"@, "kimi-code"@],
            seq!["kiro"@, "kiro-cli"@],
            seq!["droid"@],
            seq!["amp"@, "amp-local"@],
            seq!["grok"@, "grok-build"@],
            seq!["hermes"@, "hermes-agent"@],
            seq!["kilo"@, "kilo-code"@],
            seq!["qodercli"@, "qoderclicn"@, "qoder"@, "qodercn"@],
            seq!["qwen"@, "qwen-code"@],
            seq!["maki"@],
        ],
{
    let table = vec![
        vec!["pi"],
        vec!["codex"],
        vec!["gemini"],
        vec!["cursor", "cursor-agent"],
        vec!["devin", "devin-cli"],
        vec!["agy", "antigravity", "antigravity-cli"],
        vec!["cline"],
        vec!["omp"],
        vec!["mastracode", "mastra-code"],
        vec!["opencode", "opencode2", "open-code"],
        vec!["copilot", "github-copilot", "ghcs"],
        vec!["kimi", "kimi-code"],
        vec!["kiro", "kiro-cli"],
        vec!["droid"],
        vec!["amp", "amp-local"],
        vec!["grok", "grok-build"],
        vec!["hermes", "hermes-agent"],
        vec!["kilo", "kilo-code"],
        vec!["qodercli", "qoderclicn", "qoder", "qodercn"],
        vec!["qwen", "qwen-code"],
        vec!["maki"],
    ];
    assert(table.deep_view() =~~= agent_table());
    table
}

/// The script and launcher extensions that a name may carry.
pub open spec fn launcher_suffixes() -> Seq<Seq<char>> {
    seq![".exe"@, ".cmd"@, ".bat"@, ".ps1"@, ".js"@]
}

/// `lower` without the first of `suffixes` that it ends with.
pub open spec fn without_first_suffix(lower: Seq<char>, suffixes: Seq<Seq<char>>) -> Seq<char>
    decreases suffixes.len(),
{
    if suffixes.len() == 0 {
        lower
    } else {
        match before_suffix(lower, suffixes[0]) {
            Some(stem) => stem,
            None => without_first_suffix(lower, suffixes.skip(1)),
        }
    }
}

/// `lower` without one trailing script or launcher extension.
pub open spec fn without_launcher(lower: Seq<char>) -> Seq<char> {
    without_first_suffix(lower, launcher_suffixes())
}

/// The first group of `table` that holds `needle`.
pub open spec fn first_group(table: Seq<Seq<Seq<char>>>, needle: Seq<char>) -> Option<
    Seq<Seq<char>>,
>
    decreases table.len(),
{
    if table.len() == 0 {
        None
    } else if table[0].contains(needle) {
        Some(table[0])
    } else {
        first_group(table.skip(1), needle)
    }
}

/// The canonical label of the group that `needle` stands in, if it stands in one.
pub open spec fn label(needle: Seq<char>) -> Option<Seq<char>> {
    match first_group(agent_table(), needle) {
        Some(group) => Some(group[0]),
        None => None,
    }
}

/// The canonical label that `name` resolves to, if any: case, surrounding white space
/// and one launcher extension do not matter.
pub open spec fn canonical(name: Seq<char>) -> Option<Seq<char>> {
    label(without_launcher(lowercased(trimmed(name))))
}

/// `canonical` of a name of ASCII characters.
pub open spec fn ascii_canonical(name: Seq<char>) -> Option<Seq<char>> {
    label(without_launcher(ascii_lowered(trimmed(name))))
}

/// One launcher extension is taken off, whichever of the five it is, and a name that ends
/// in none of them stays as it is.
pub proof fn law_one_launcher_extension_is_stripped(stem: Seq<char>, name: Seq<char>)
    ensures
        without_launcher(stem + ".exe"@) == stem,
        without_launcher(stem + ".cmd"@) == stem,
        without_launcher(stem + ".bat"@) == stem,
        without_launcher(stem + ".ps1"@) == stem,
        without_launcher(stem + ".js"@) == stem,
        !".exe"@.is_suffix_of(name) && !".cmd"@.is_suffix_of(name) && !".bat"@.is_suffix_of(name)
            && !".ps1"@.is_suffix_of(name) && !".js"@.is_suffix_of(name) ==> without_launcher(name)
            == name,
{
    reveal_with_fuel(without_first_suffix, 7);
    reveal_strlit(".exe");
    reveal_strlit(".cmd");
    reveal_strlit(".bat");
    reveal_strlit(".ps1");
    reveal_strlit(".js");
    let all = launcher_suffixes();
    assert(all.skip(1)[0] == ".cmd"@);
    assert(all.skip(1).skip(1)[0] == ".bat"@);
    assert(all.skip(1).skip(1).skip(1)[0] == ".ps1"@);
    assert(all.skip(1).skip(1).skip(1).skip(1)[0] == ".js"@);
    assert(all.skip(1).skip(1).skip(1).skip(1).skip(1).len() == 0);
    lemma_ends(stem, ".exe"@);
    lemma_ends(stem, ".cmd"@);
    lemma_ends(stem, ".bat"@);
    lemma_ends(stem, ".ps1"@);
    lemma_ends(stem, ".js"@);
}

/// Of two endings of three characters or more, where a text ends in one, the other is not
/// its ending unless the two agree in their last characters.
proof fn lemma_ends(stem: Seq<char>, suffix: Seq<char>)
    ensures
        suffix.is_suffix_of(stem + suffix),
        before_suffix(stem + suffix, suffix) == Some(stem),
        forall|other: Seq<char>| #[trigger]
            other.is_suffix_of(stem + suffix) && other.len() > 0 && suffix.len() > 0
                ==> other.last() == suffix.last(),
{
    let s = stem + suffix;
    assert(suffix =~= s.subrange(s.len() - suffix.len(), s.len() as int));
    assert(s.take(s.len() - suffix.len()) =~= stem);
    assert forall|other: Seq<char>| #[trigger]
        other.is_suffix_of(s) && other.len() > 0 && suffix.len() > 0 implies other.last()
        == suffix.last() by {
        assert(other.last() == s.subrange(s.len() - other.len(), s.len() as int).last());
        assert(s.last() == suffix.last());
    }
}

/// White space around ASCII text is all that trimming takes from it.
proof fn lemma_trimmed_ascii(s: Seq<char>)
    requires
        is_ascii_chars(s),
    ensures
        is_ascii_chars(trimmed(s)),
{
    lemma_trim_start_ascii(s);
    lemma_trim_end_ascii(text::trim_start(s));
}

proof fn lemma_trim_start_ascii(s: Seq<char>)
    requires
        is_ascii_chars(s),
    ensures
        is_ascii_chars(text::trim_start(s)),
    decreases s.len(),
{
    if s.len() > 0 && text::is_white_space(s[0]) {
        assert(is_ascii_chars(s.skip(1)));
        lemma_trim_start_ascii(s.skip(1));
    }
}

proof fn lemma_trim_end_ascii(s: Seq<char>)
    requires
        is_ascii_chars(s),
    ensures
        is_ascii_chars(text::trim_end(s)),
    decreases s.len(),
{
    if s.len() > 0 && text::is_white_space(s.last()) {
        assert(is_ascii_chars(s.drop_last()));
        lemma_trim_end_ascii(s.drop_last());
    }
}

proof fn lemma_trim_start_lowered(s: Seq<char>)
    ensures
        text::trim_start(ascii_lowered(s)) == ascii_lowered(text::trim_start(s)),
    decreases s.len(),
{
    if s.len() > 0 && text::is_white_space(s[0]) {
        lemma_trim_start_lowered(s.skip(1));
        assert(ascii_lowered(s).skip(1) =~= ascii_lowered(s.skip(1)));
    }
}

proof fn lemma_trim_end_lowered(s: Seq<char>)
    ensures
        text::trim_end(ascii_lowered(s)) == ascii_lowered(text::trim_end(s)),
    decreases s.len(),
{
    if s.len() > 0 && text::is_white_space(s.last()) {
        lemma_trim_end_lowered(s.drop_last());
        assert(ascii_lowered(s).drop_last() =~= ascii_lowered(s.drop_last()));
    }
}

proof fn lemma_trimmed_lowered(s: Seq<char>)
    ensures
        trimmed(ascii_lowered(s)) == ascii_lowered(trimmed(s)),
{
    lemma_trim_start_lowered(s);
    lemma_trim_end_lowered(text::trim_start(s));
}

proof fn lemma_trim_end_keeps_start(s: Seq<char>)
    requires
        s.len() > 0 ==> !text::is_white_space(s[0]),
    ensures
        text::trim_start(text::trim_end(s)) == text::trim_end(s),
        text::trim_end(text::trim_end(s)) == text::trim_end(s),
    decreases s.len(),
{
    if s.len() > 0 && text::is_white_space(s.last()) {
        lemma_trim_end_keeps_start(s.drop_last());
    }
}

proof fn lemma_trim_start_starts(s: Seq<char>)
    ensures
        text::trim_start(s).len() > 0 ==> !text::is_white_space(text::trim_start(s)[0]),
    decreases s.len(),
{
    if s.len() > 0 && text::is_white_space(s[0]) {
        lemma_trim_start_starts(s.skip(1));
    }
}

/// What is trimmed has nothing more to trim.
proof fn lemma_trimmed_twice(s: Seq<char>)
    ensures
        trimmed(trimmed(s)) == trimmed(s),
{
    lemma_trim_start_starts(s);
    lemma_trim_end_keeps_start(text::trim_start(s));
}

/// What a name resolves by: the name without the white space around it, and without
/// regard to the case of ASCII letters.
pub open spec fn agent_key(name: Seq<char>) -> Seq<char> {
    ascii_lowered(trimmed(name))
}

/// Names that differ in the case of ASCII letters, in the white space around them, or in
/// both resolve by the same key, and so alike; the name may hold any characters.
pub proof fn law_case_and_space_do_not_matter(a: Seq<char>, b: Seq<char>)
    requires
        ascii_lowered(trimmed(a)) == ascii_lowered(trimmed(b)) || ascii_lowered(a)
            == ascii_lowered(b),
    ensures
        agent_key(a) == agent_key(b),
        canonical(agent_key(a)) == canonical(agent_key(b)),
        ascii_canonical(a) == ascii_canonical(b),
{
    lemma_trimmed_lowered(a);
    lemma_trimmed_lowered(b);
}

/// `lower` without one trailing script or launcher extension.
pub fn strip_launcher(lower: &str) -> (r: String)
    ensures
        r@ == without_launcher(lower@),
{
    let suffixes = vec![".exe", ".cmd", ".bat", ".ps1", ".js"];
    let ghost all = suffixes.deep_view();
    assert(all =~= launcher_suffixes());
    let mut i: usize = 0;
    assert(all.skip(0) =~= all);
    while i < suffixes.len()
        invariant
            all == suffixes.deep_view(),
            i <= suffixes.len(),
            without_launcher(lower@) == without_first_suffix(lower@, all.skip(i as int)),
        decreases suffixes.len() - i,
    {
        assert(all.skip(i as int)[0] == suffixes[i as int]@);
        assert(all.skip(i as int).skip(1) =~= all.skip(i + 1));
        if let Some(stem) = text::strip_suffix(lower, suffixes[i]) {
            return stem.to_owned();
        }
        i += 1;
    }
    lower.to_owned()
}

/// Lowercase, trim, and strip one trailing script or launcher extension, as herdr's own
/// matcher does.
pub fn normalize(name: &str) -> (r: String)
    ensures
        r@ == without_launcher(lowercased(trimmed(name@))),
        is_ascii_chars(name@) ==> r@ == without_launcher(ascii_lowered(trimmed(name@))),
        r@ == without_launcher(lowercased(trimmed(agent_key(name@)))),
{
    let bare = text::trim(name);
    proof {
        if is_ascii_chars(name@) {
            lemma_trimmed_ascii(name@);
        }
        lemma_trimmed_lowered(trimmed(name@));
        lemma_trimmed_twice(name@);
    }
    let lower = std_text::to_lowercase(bare);
    strip_launcher(lower.as_str())
}

fn holds(group: &Vec<&'static str>, needle: &str) -> (r: bool)
    ensures
        r == group.deep_view().contains(needle@),
{
    let mut k: usize = 0;
    while k < group.len()
        invariant
            k <= group.len(),
            forall|j: int| 0 <= j < k ==> group[j]@ != needle@,
        decreases group.len() - k,
    {
        if text::same(group[k], needle) {
            assert(group.deep_view()[k as int] == needle@);
            return true;
        }
        k += 1;
    }
    assert(forall|j: int| 0 <= j < group.len() ==> group.deep_view()[j] == group[j]@);
    false
}

/// The canonical label of the group that `needle` stands in, if it stands in one.
pub fn label_of(needle: &str) -> (r: Option<&'static str>)
    ensures
        r.deep_view() == label(needle@),
{
    let table = agents();
    let ghost all = table.deep_view();
    let mut i: usize = 0;
    assert(all.skip(0) =~= all);
    while i < table.len()
        invariant
            all == table.deep_view(),
            all == agent_table(),
            i <= table.len(),
            forall|g: int| 0 <= g < all.len() ==> (#[trigger] all[g]).len() > 0,
            first_group(all, needle@) == first_group(all.skip(i as int), needle@),
        decreases table.len() - i,
    {
        assert(all.skip(i as int)[0] == table[i as int].deep_view());
        assert(all.skip(i as int).skip(1) =~= all.skip(i + 1));
        assert(all[i as int].len() > 0);
        if holds(&table[i], needle) {
            return Some(table[i][0]);
        }
        i += 1;
    }
    None
}

/// The canonical agent label `name` resolves to, if any. `name` may already be a
/// canonical label, an alias (`cursor-agent`), or carry an extension (`Codex.exe`). A
/// leading path is not stripped here; callers that pass a whole command path extract
/// the file name first (see `claimed_argv0`).
pub fn canonical_agent(name: &str) -> (r: Option<&'static str>)
    ensures
        r.deep_view() == canonical(name@),
        r.deep_view() == label(without_launcher(lowercased(trimmed(name@)))),
        r.deep_view() == canonical(agent_key(name@)),
        is_ascii_chars(name@) ==> r.deep_view() == ascii_canonical(name@),
{
    let needle = normalize(name);
    label_of(needle.as_str())
}

/// The agent that a command claims its pane for: the one that `claim` names, else the
/// one that the command's file name resolves to.
pub open spec fn claimed(command: Seq<char>, claim: Option<Seq<char>>) -> Option<Seq<char>> {
    match claim {
        Some(name) => Some(name),
        None => match file_name_of(command) {
            Some(file) => canonical(file),
            None => None,
        },
    }
}

/// A claim overrides the command entirely: whatever the command is, and also where it
/// names an agent itself, what is claimed is the claim.
pub proof fn law_a_claim_overrides_the_command(
    command: Seq<char>,
    another: Seq<char>,
    name: Seq<char>,
)
    ensures
        claimed(command, Some(name)) == Some(name),
        claimed(command, Some(name)) == claimed(another, Some(name)),
{
}

/// Without a claim only the file name of the command counts, and a command without one
/// claims nothing.
pub proof fn law_only_the_file_name_claims(command: Seq<char>, another: Seq<char>)
    ensures
        file_name_of(command) == file_name_of(another) ==> claimed(command, None) == claimed(
            another,
            None,
        ),
        file_name_of(command) is None ==> claimed(command, None) is None,
        file_name_of(command) matches Some(file) ==> claimed(command, None) == canonical(file),
{
}

/// Which argv0 to claim, if any.
///
/// Normally it comes from the command: `exec opencode` claims the pane as `opencode`,
/// and a command that names no recognised agent (`bash`, `npm`, ...) leaves it alone.
/// `--agent <name>` overrides the command entirely, which is what an interactive shell
/// needs: herdr only ever sees the host side of the pane, so an agent started later
/// inside the container changes nothing it can observe. The claim has to be in place
/// before the shell is.
pub fn claimed_argv0(command: &str, claim: Option<&str>) -> (r: Option<String>)
    ensures
        r.deep_view() == claimed(command@, claim.deep_view()),
        claim matches Some(name) ==> r.deep_view() == Some(name@),
        claim is None && file_name_of(command@) is None ==> r is None,
        claim is None ==> (file_name_of(command@) matches Some(file) ==> {
            &&& r.deep_view() == canonical(agent_key(file))
            &&& is_ascii_chars(file) ==> r.deep_view() == ascii_canonical(file)
        }),
{
    match claim {
        Some(name) => Some(name.to_owned()),
        None => match path::file_name(command) {
            Some(file) => match canonical_agent(file) {
                Some(name) => Some(name.to_owned()),
                None => None,
            },
            None => None,
        },
    }
}

/// Said when `--agent` stands alone.
pub const AGENT_WITHOUT_NAME: &'static str = "exec: --agent needs an agent name, e.g. --agent codex bash";

/// Said when nothing follows the name after `--agent`.
pub const AGENT_WITHOUT_COMMAND: &'static str = "exec: --agent takes an agent name now, and still needs a command\n  exec --agent codex bash    claims the pane and runs bash\n  exec bash                  runs it unclaimed";

/// What `--agent <name>` claims: the canonical label where the name is recognised, the
/// name itself otherwise.
pub open spec fn claim_for(name: Seq<char>) -> Seq<char> {
    match canonical(name) {
        Some(l) => l,
        None => name,
    }
}

/// The claim and the command in `args`, or why there are none.
pub open spec fn parsed_args(args: Seq<Seq<char>>) -> Result<
    (Option<Seq<char>>, Seq<Seq<char>>),
    Seq<char>,
> {
    if args.len() == 0 || args[0] != "--agent"@ {
        Ok((None, args))
    } else if args.len() == 1 {
        Err(AGENT_WITHOUT_NAME@)
    } else if args.len() == 2 {
        Err(AGENT_WITHOUT_COMMAND@)
    } else {
        Ok((Some(claim_for(args[1])), args.skip(2)))
    }
}

/// `--agent <name>` before a command claims for what the name resolves to, or for the name
/// as it stands, and leaves the command; without a name or a command after it it is
/// refused; and where it does not stand first it is no claim.
pub proof fn law_only_a_leading_flag_claims(
    name: Seq<char>,
    command: Seq<Seq<char>>,
    args: Seq<Seq<char>>,
)
    ensures
        command.len() > 0 ==> parsed_args(seq!["--agent"@, name] + command) == Ok::<
            (Option<Seq<char>>, Seq<Seq<char>>),
            Seq<char>,
        >((Some(match canonical(name) {
            Some(l) => l,
            None => name,
        }), command)),
        parsed_args(seq!["--agent"@]) == Err::<(Option<Seq<char>>, Seq<Seq<char>>), Seq<char>>(
            AGENT_WITHOUT_NAME@,
        ),
        parsed_args(seq!["--agent"@, name]) == Err::<
            (Option<Seq<char>>, Seq<Seq<char>>),
            Seq<char>,
        >(AGENT_WITHOUT_COMMAND@),
        args.len() == 0 || args[0] != "--agent"@ ==> parsed_args(args) == Ok::<
            (Option<Seq<char>>, Seq<Seq<char>>),
            Seq<char>,
        >((None, args)),
{
    let all = seq!["--agent"@, name] + command;
    assert(all[0] == "--agent"@ && all[1] == name);
    assert(all.skip(2) =~= command);
}

/// What is split off is split off once: a command that starts with no `--agent` of its
/// own is read as that command when it is passed on, with nothing claimed.
pub proof fn law_command_is_passed_on_unchanged(command: Seq<Seq<char>>)
    requires
        command.len() > 0,
        command[0] != "--agent"@,
    ensures
        parsed_args(command) == Ok::<(Option<Seq<char>>, Seq<Seq<char>>), Seq<char>>(
            (None, command),
        ),
{
}

/// Split a leading `--agent <name>` off the front of `args`, returning the agent to
/// claim (resolved to its canonical label when recognised, forwarded verbatim
/// otherwise) and the remaining command. Only a leading `--agent` is recognised, so one
/// meant for the command itself (`exec codex --agent`) passes through untouched.
///
/// `exec --agent bash` reads `bash` as the agent name and has no command left, so it is
/// an error.
pub fn parse_args<'a>(args: &'a [String]) -> (r: Result<(Option<String>, &'a [String]), String>)
    ensures
        match r {
            Ok((claim, command)) => parsed_args(args.deep_view()) == Ok::<
                (Option<Seq<char>>, Seq<Seq<char>>),
                Seq<char>,
            >((claim.deep_view(), command.deep_view())),
            Err(msg) => parsed_args(args.deep_view()) == Err::<
                (Option<Seq<char>>, Seq<Seq<char>>),
                Seq<char>,
            >(msg@),
        },
        r matches Ok((Some(claim), _)) ==> claim@ == (match canonical(agent_key(args@[1]@)) {
            Some(l) => l,
            None => args@[1]@,
        }),
        r matches Ok((Some(claim), _)) ==> is_ascii_chars(args@[1]@) ==> claim@ == (
        match ascii_canonical(args@[1]@) {
            Some(l) => l,
            None => args@[1]@,
        }),
{
    let ghost all = args.deep_view();
    assert(all.len() == args@.len());
    if args.len() == 0 || !text::same(args[0].as_str(), "--agent") {
        return Ok((None, args));
    }
    if args.len() == 1 {
        return Err(AGENT_WITHOUT_NAME.to_owned());
    }
    if args.len() == 2 {
        return Err(AGENT_WITHOUT_COMMAND.to_owned());
    }
    let claim = match canonical_agent(args[1].as_str()) {
        Some(name) => name.to_owned(),
        None => args[1].clone(),
    };
    let command = slice_subrange(args, 2, args.len());
    assert(command.deep_view() =~= all.skip(2));
    Ok((Some(claim), command))
}

} // verus!
