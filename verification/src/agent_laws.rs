//! What holds of the agent table: every name in it stands in one group only, and
//! resolves to the label of that group.

use vstd::prelude::*;
use vstd::utf8::*;

use crate::agents::{
    agent_table, ascii_canonical, first_group, label, launcher_suffixes, without_first_suffix,
    without_launcher,
};
use crate::text;
use crate::text::{ascii_lowered, trimmed};

verus! {

/// A number that tells the names of the table apart: it holds the length, the first and
/// the third character, and the one before the last.
spec fn code_of(s: Seq<char>) -> int {
    let third = if s.len() > 2 {
        s[2]
    } else {
        s[0]
    };
    s.len() * 2097152 + (s[0] as int) * 16384 + (third as int) * 128 + (s[s.len() - 2] as int)
}

/// Where the name of a given code stands in the table.
spec fn place_of(code: int) -> (int, int) {
    if code == 6043760 {
        (0, 0)
    } else if code == 12120677 {
        (1, 0)
    } else if code == 14284526 {
        (2, 0)
    } else if code == 14219631 {
        (3, 0)
    } else if code == 26802542 {
        (3, 1)
    } else if code == 12139369 {
        (4, 0)
    } else if code == 20527980 {
        (4, 1)
    } else if code == 7896295 {
        (5, 0)
    } else if code == 24672884 {
        (5, 1)
    } else if code == 33061484 {
        (5, 2)
    } else if code == 12121326 {
        (6, 0)
    } else if code == 8124525 {
        (7, 0)
    } else if code == 22772196 {
        (8, 0)
    } else if code == 24869348 {
        (8, 1)
    } else if code == 18608868 {
        (9, 0)
    } else if code == 20706021 {
        (9, 1)
    } else if code == 20706020 {
        (9, 2)
    } else if code == 16316527 {
        (10, 0)
    } else if code == 31062639 {
        (10, 1)
    } else if code == 10088931 {
        (10, 2)
    } else if code == 10155757 {
        (11, 0)
    } else if code == 20641508 {
        (11, 1)
    } else if code == 10156402 {
        (12, 0)
    } else if code == 18545004 {
        (12, 1)
    } else if code == 12138473 {
        (13, 0)
    } else if code == 7895149 {
        (14, 0)
    } else if code == 20478049 {
        (14, 1)
    } else if code == 10090479 {
        (15, 0)
    } else if code == 22673388 {
        (15, 1)
    } else if code == 14301541 {
        (16, 0)
    } else if code == 26884462 {
        (16, 1)
    } else if code == 10155628 {
        (17, 0)
    } else if code == 20641380 {
        (17, 1)
    } else if code == 18641516 {
        (18, 0)
    } else if code == 22835811 {
        (18, 1)
    } else if code == 12350053 {
        (18, 2)
    } else if code == 16544355 {
        (18, 3)
    } else if code == 10253029 {
        (19, 0)
    } else if code == 20738788 {
        (19, 1)
    } else if code == 10188267 {
        (20, 0)
    } else {
        (-1, -1)
    }
}

/// Whether `s` is lowercase letters, digits and hyphens.
pub open spec fn is_plain(s: Seq<char>) -> bool {
    s.len() > 0 && forall|i: int|
        0 <= i < s.len() ==> {
            ||| 'a' <= #[trigger] s[i] <= 'z'
            ||| '0' <= s[i] <= '9'
            ||| s[i] == '-'
        }
}

/// Whether group `i` of the table holds plain names only, each at its own place.
#[verifier::opaque]
spec fn is_placed(i: int) -> bool {
    let group = agent_table()[i];
    group.len() > 0 && forall|k: int|
        0 <= k < group.len() ==> is_plain(#[trigger] group[k]) && place_of(code_of(group[k])) == (
        i,
        k,
    )
}

proof fn lemma_first_groups_placed(i: int)
    requires
        0 <= i < 5,
    ensures
        is_placed(i),
{
    assert(is_placed(0)) by {
        reveal(is_placed);
        reveal_strlit("pi");
        assert(agent_table()[0] =~= seq!["pi"@]);
        assert(code_of("pi"@) == 6043760);
        assert(is_plain("pi"@));
    }
    assert(is_placed(1)) by {
        reveal(is_placed);
        reveal_strlit("codex");
        assert(agent_table()[1] =~= seq!["codex"@]);
        assert(code_of("codex"@) == 12120677);
        assert(is_plain("codex"@));
    }
    assert(is_placed(2)) by {
        reveal(is_placed);
        reveal_strlit("gemini");
        assert(agent_table()[2] =~= seq!["gemini"@]);
        assert(code_of("gemini"@) == 14284526);
        assert(is_plain("gemini"@));
    }
    assert(is_placed(3)) by {
        reveal(is_placed);
        reveal_strlit("cursor");
        reveal_strlit("cursor-agent");
        assert(agent_table()[3] =~= seq!["cursor"@, "cursor-agent"@]);
        assert(code_of("cursor"@) == 14219631);
        assert(is_plain("cursor"@));
        assert(code_of("cursor-agent"@) == 26802542);
        assert(is_plain("cursor-agent"@));
    }
    assert(is_placed(4)) by {
        reveal(is_placed);
        reveal_strlit("devin");
        reveal_strlit("devin-cli");
        assert(agent_table()[4] =~= seq!["devin"@, "devin-cli"@]);
        assert(code_of("devin"@) == 12139369);
        assert(is_plain("devin"@));
        assert(code_of("devin-cli"@) == 20527980);
        assert(is_plain("devin-cli"@));
    }
}

proof fn lemma_second_groups_placed(i: int)
    requires
        5 <= i < 10,
    ensures
        is_placed(i),
{
    assert(is_placed(5)) by {
        reveal(is_placed);
        reveal_strlit("agy");
        reveal_strlit("antigravity");
        reveal_strlit("antigravity-cli");
        assert(agent_table()[5] =~= seq!["agy"@, "antigravity"@, "antigravity-cli"@]);
        assert(code_of("agy"@) == 7896295);
        assert(is_plain("agy"@));
        assert(code_of("antigravity"@) == 24672884);
        assert(is_plain("antigravity"@));
        assert(code_of("antigravity-cli"@) == 33061484);
        assert(is_plain("antigravity-cli"@));
    }
    assert(is_placed(6)) by {
        reveal(is_placed);
        reveal_strlit("cline");
        assert(agent_table()[6] =~= seq!["cline"@]);
        assert(code_of("cline"@) == 12121326);
        assert(is_plain("cline"@));
    }
    assert(is_placed(7)) by {
        reveal(is_placed);
        reveal_strlit("omp");
        assert(agent_table()[7] =~= seq!["omp"@]);
        assert(code_of("omp"@) == 8124525);
        assert(is_plain("omp"@));
    }
    assert(is_placed(8)) by {
        reveal(is_placed);
        reveal_strlit("mastracode");
        reveal_strlit("mastra-code");
        assert(agent_table()[8] =~= seq!["mastracode"@, "mastra-code"@]);
        assert(code_of("mastracode"@) == 22772196);
        assert(is_plain("mastracode"@));
        assert(code_of("mastra-code"@) == 24869348);
        assert(is_plain("mastra-code"@));
    }
    assert(is_placed(9)) by {
        reveal(is_placed);
        reveal_strlit("opencode");
        reveal_strlit("opencode2");
        reveal_strlit("open-code");
        assert(agent_table()[9] =~= seq!["opencode"@, "opencode2"@, "open-code"@]);
        assert(code_of("opencode"@) == 18608868);
        assert(is_plain("opencode"@));
        assert(code_of("opencode2"@) == 20706021);
        assert(is_plain("opencode2"@));
        assert(code_of("open-code"@) == 20706020);
        assert(is_plain("open-code"@));
    }
}

proof fn lemma_third_groups_placed(i: int)
    requires
        10 <= i < 15,
    ensures
        is_placed(i),
{
    assert(is_placed(10)) by {
        reveal(is_placed);
        reveal_strlit("copilot");
        reveal_strlit("github-copilot");
        reveal_strlit("ghcs");
        assert(agent_table()[10] =~= seq!["copilot"@, "github-copilot"@, "ghcs"@]);
        assert(code_of("copilot"@) == 16316527);
        assert(is_plain("copilot"@));
        assert(code_of("github-copilot"@) == 31062639);
        assert(is_plain("github-copilot"@));
        assert(code_of("ghcs"@) == 10088931);
        assert(is_plain("ghcs"@));
    }
    assert(is_placed(11)) by {
        reveal(is_placed);
        reveal_strlit("kimi");
        reveal_strlit("kimi-code");
        assert(agent_table()[11] =~= seq!["kimi"@, "kimi-code"@]);
        assert(code_of("kimi"@) == 10155757);
        assert(is_plain("kimi"@));
        assert(code_of("kimi-code"@) == 20641508);
        assert(is_plain("kimi-code"@));
    }
    assert(is_placed(12)) by {
        reveal(is_placed);
        reveal_strlit("kiro");
        reveal_strlit("kiro-cli");
        assert(agent_table()[12] =~= seq!["kiro"@, "kiro-cli"@]);
        assert(code_of("kiro"@) == 10156402);
        assert(is_plain("kiro"@));
        assert(code_of("kiro-cli"@) == 18545004);
        assert(is_plain("kiro-cli"@));
    }
    assert(is_placed(13)) by {
        reveal(is_placed);
        reveal_strlit("droid");
        assert(agent_table()[13] =~= seq!["droid"@]);
        assert(code_of("droid"@) == 12138473);
        assert(is_plain("droid"@));
    }
    assert(is_placed(14)) by {
        reveal(is_placed);
        reveal_strlit("amp");
        reveal_strlit("amp-local");
        assert(agent_table()[14] =~= seq!["amp"@, "amp-local"@]);
        assert(code_of("amp"@) == 7895149);
        assert(is_plain("amp"@));
        assert(code_of("amp-local"@) == 20478049);
        assert(is_plain("amp-local"@));
    }
}

proof fn lemma_fourth_groups_placed(i: int)
    requires
        15 <= i < 21,
    ensures
        is_placed(i),
{
    assert(is_placed(15)) by {
        reveal(is_placed);
        reveal_strlit("grok");
        reveal_strlit("grok-build");
        assert(agent_table()[15] =~= seq!["grok"@, "grok-build"@]);
        assert(code_of("grok"@) == 10090479);
        assert(is_plain("grok"@));
        assert(code_of("grok-build"@) == 22673388);
        assert(is_plain("grok-build"@));
    }
    assert(is_placed(16)) by {
        reveal(is_placed);
        reveal_strlit("hermes");
        reveal_strlit("hermes-agent");
        assert(agent_table()[16] =~= seq!["hermes"@, "hermes-agent"@]);
        assert(code_of("hermes"@) == 14301541);
        assert(is_plain("hermes"@));
        assert(code_of("hermes-agent"@) == 26884462);
        assert(is_plain("hermes-agent"@));
    }
    assert(is_placed(17)) by {
        reveal(is_placed);
        reveal_strlit("kilo");
        reveal_strlit("kilo-code");
        assert(agent_table()[17] =~= seq!["kilo"@, "kilo-code"@]);
        assert(code_of("kilo"@) == 10155628);
        assert(is_plain("kilo"@));
        assert(code_of("kilo-code"@) == 20641380);
        assert(is_plain("kilo-code"@));
    }
    assert(is_placed(18)) by {
        reveal(is_placed);
        reveal_strlit("qodercli");
        reveal_strlit("qoderclicn");
        reveal_strlit("qoder");
        reveal_strlit("qodercn");
        assert(agent_table()[18] =~= seq!["qodercli"@, "qoderclicn"@, "qoder"@, "qodercn"@]);
        assert(code_of("qodercli"@) == 18641516);
        assert(is_plain("qodercli"@));
        assert(code_of("qoderclicn"@) == 22835811);
        assert(is_plain("qoderclicn"@));
        assert(code_of("qoder"@) == 12350053);
        assert(is_plain("qoder"@));
        assert(code_of("qodercn"@) == 16544355);
        assert(is_plain("qodercn"@));
    }
    assert(is_placed(19)) by {
        reveal(is_placed);
        reveal_strlit("qwen");
        reveal_strlit("qwen-code");
        assert(agent_table()[19] =~= seq!["qwen"@, "qwen-code"@]);
        assert(code_of("qwen"@) == 10253029);
        assert(is_plain("qwen"@));
        assert(code_of("qwen-code"@) == 20738788);
        assert(is_plain("qwen-code"@));
    }
    assert(is_placed(20)) by {
        reveal(is_placed);
        reveal_strlit("maki");
        assert(agent_table()[20] =~= seq!["maki"@]);
        assert(code_of("maki"@) == 10188267);
        assert(is_plain("maki"@));
    }
}

proof fn lemma_placed(i: int)
    requires
        0 <= i < agent_table().len(),
    ensures
        is_placed(i),
{
    if i < 5 {
        lemma_first_groups_placed(i);
    } else if i < 10 {
        lemma_second_groups_placed(i);
    } else if i < 15 {
        lemma_third_groups_placed(i);
    } else {
        lemma_fourth_groups_placed(i);
    }
}

/// No name stands in the table twice.
pub proof fn law_no_name_stands_twice(i: int, k: int, j: int, l: int)
    requires
        0 <= i < agent_table().len(),
        0 <= k < agent_table()[i].len(),
        0 <= j < agent_table().len(),
        0 <= l < agent_table()[j].len(),
        agent_table()[i][k] == agent_table()[j][l],
    ensures
        i == j,
        k == l,
{
    reveal(is_placed);
    lemma_placed(i);
    lemma_placed(j);
}

/// A plain name is ASCII, and normalizing leaves it as it is.
proof fn lemma_plain_is_normal(s: Seq<char>)
    requires
        is_plain(s),
    ensures
        is_ascii_chars(s),
        trimmed(s) == s,
        ascii_lowered(s) == s,
        without_launcher(s) == s,
{
    assert(!text::is_white_space(s[0]));
    assert(!text::is_white_space(s[s.len() - 1]));
    assert(ascii_lowered(s) =~= s);
    reveal_strlit(".exe");
    reveal_strlit(".cmd");
    reveal_strlit(".bat");
    reveal_strlit(".ps1");
    reveal_strlit(".js");
    let suffixes = launcher_suffixes();
    assert forall|i: int| 0 <= i < suffixes.len() implies !(#[trigger] suffixes[i]).is_suffix_of(
        s,
    ) by {
        let suffix = suffixes[i];
        assert(suffix[0] == '.' && suffix.len() > 0);
        if suffix.is_suffix_of(s) {
            let at = s.len() - suffix.len();
            assert(s.subrange(at, s.len() as int)[0] == s[at]);
            assert(s[at] == '.');
        }
    }
    lemma_no_suffix(s, suffixes);
}

proof fn lemma_no_suffix(s: Seq<char>, suffixes: Seq<Seq<char>>)
    requires
        forall|i: int| 0 <= i < suffixes.len() ==> !(#[trigger] suffixes[i]).is_suffix_of(s),
    ensures
        without_first_suffix(s, suffixes) == s,
    decreases suffixes.len(),
{
    if suffixes.len() > 0 {
        assert(!suffixes[0].is_suffix_of(s));
        assert forall|i: int| 0 <= i < suffixes.skip(1).len() implies !(
        #[trigger] suffixes.skip(1)[i]).is_suffix_of(s) by {
            assert(suffixes.skip(1)[i] == suffixes[i + 1]);
        }
        lemma_no_suffix(s, suffixes.skip(1));
    }
}

/// The first group that holds `needle` is the group at `i`, when no earlier one does.
proof fn lemma_first_group(table: Seq<Seq<Seq<char>>>, needle: Seq<char>, i: int)
    requires
        0 <= i < table.len(),
        table[i].contains(needle),
        forall|j: int| 0 <= j < i ==> !(#[trigger] table[j]).contains(needle),
    ensures
        first_group(table, needle) == Some(table[i]),
    decreases i,
{
    if i > 0 {
        assert(!table[0].contains(needle));
        let rest = table.skip(1);
        assert(rest[i - 1] == table[i]);
        assert forall|j: int| 0 <= j < i - 1 implies !(#[trigger] rest[j]).contains(needle) by {
            assert(rest[j] == table[j + 1]);
        }
        lemma_first_group(rest, needle, i - 1);
    }
}

/// Every name in the table, label or alias, resolves to the label of its group; so each
/// canonical label resolves to itself.
pub proof fn law_every_name_resolves_to_its_label(i: int, k: int)
    requires
        0 <= i < agent_table().len(),
        0 <= k < agent_table()[i].len(),
    ensures
        is_ascii_chars(agent_table()[i][k]),
        label(agent_table()[i][k]) == Some(agent_table()[i][0]),
        ascii_canonical(agent_table()[i][k]) == Some(agent_table()[i][0]),
{
    reveal(is_placed);
    lemma_placed(i);
    let name = agent_table()[i][k];
    lemma_plain_is_normal(name);
    assert forall|j: int| 0 <= j < i implies !(#[trigger] agent_table()[j]).contains(name) by {
        if agent_table()[j].contains(name) {
            let l = choose|l: int|
                0 <= l < agent_table()[j].len() && agent_table()[j][l] == name;
            law_no_name_stands_twice(i, k, j, l);
        }
    }
    lemma_first_group(agent_table(), name, i);
}

/// A name resolves exactly when it stands in the table, and then to the label of the
/// group that it stands in.
pub proof fn law_only_names_in_the_table_resolve(needle: Seq<char>)
    ensures
        match label(needle) {
            Some(l) => exists|i: int, k: int|
                0 <= i < agent_table().len() && 0 <= k < agent_table()[i].len()
                    && #[trigger] agent_table()[i][k] == needle && agent_table()[i][0] == l,
            None => forall|i: int, k: int|
                0 <= i < agent_table().len() && 0 <= k < agent_table()[i].len()
                    ==> #[trigger] agent_table()[i][k] != needle,
        },
{
    let table = agent_table();
    if exists|i: int, k: int|
        0 <= i < table.len() && 0 <= k < table[i].len() && #[trigger] table[i][k] == needle {
        let (i, k) = choose|i: int, k: int|
            0 <= i < table.len() && 0 <= k < table[i].len() && #[trigger] table[i][k] == needle;
        law_every_name_resolves_to_its_label(i, k);
    } else {
        assert forall|i: int| 0 <= i < table.len() implies !(#[trigger] table[i]).contains(
            needle,
        ) by {
            if table[i].contains(needle) {
                let k = choose|k: int| 0 <= k < table[i].len() && table[i][k] == needle;
                assert(table[i][k] == needle);
            }
        }
        lemma_no_group(table, needle);
    }
}

proof fn lemma_no_group(table: Seq<Seq<Seq<char>>>, needle: Seq<char>)
    requires
        forall|i: int| 0 <= i < table.len() ==> !(#[trigger] table[i]).contains(needle),
    ensures
        first_group(table, needle) is None,
    decreases table.len(),
{
    if table.len() > 0 {
        assert(!table[0].contains(needle));
        let rest = table.skip(1);
        assert forall|i: int| 0 <= i < rest.len() implies !(#[trigger] rest[i]).contains(
            needle,
        ) by {
            assert(rest[i] == table[i + 1]);
        }
        lemma_no_group(rest, needle);
    }
}

/// What a name resolves to resolves to itself.
pub proof fn law_a_label_resolves_to_itself(needle: Seq<char>)
    ensures
        label(needle) matches Some(l) ==> is_ascii_chars(l) && ascii_canonical(l) == Some(l),
{
    law_only_names_in_the_table_resolve(needle);
    if let Some(l) = label(needle) {
        let (i, k) = choose|i: int, k: int|
            0 <= i < agent_table().len() && 0 <= k < agent_table()[i].len()
                && #[trigger] agent_table()[i][k] == needle && agent_table()[i][0] == l;
        law_every_name_resolves_to_its_label(i, 0);
    }
}

/// A name of ASCII characters resolves to a label exactly when a name of its group is
/// written there: in any case, with white space around it, and with one launcher
/// extension or none.
pub proof fn law_names_resolve_by_their_group(name: Seq<char>, l: Seq<char>)
    ensures
        ascii_canonical(name) == Some(l) <==> exists|i: int, k: int|
            {
                &&& 0 <= i < agent_table().len()
                &&& 0 <= k < agent_table()[i].len()
                &&& agent_table()[i][0] == l
                &&& without_launcher(ascii_lowered(trimmed(name))) == #[trigger] agent_table()[i][k]
            },
{
    let needle = without_launcher(ascii_lowered(trimmed(name)));
    law_only_names_in_the_table_resolve(needle);
    if exists|i: int, k: int|
        {
            &&& 0 <= i < agent_table().len()
            &&& 0 <= k < agent_table()[i].len()
            &&& agent_table()[i][0] == l
            &&& needle == #[trigger] agent_table()[i][k]
        } {
        let (i, k) = choose|i: int, k: int|
            {
                &&& 0 <= i < agent_table().len()
                &&& 0 <= k < agent_table()[i].len()
                &&& agent_table()[i][0] == l
                &&& needle == #[trigger] agent_table()[i][k]
            };
        law_every_name_resolves_to_its_label(i, k);
    }
}

} // verus!
