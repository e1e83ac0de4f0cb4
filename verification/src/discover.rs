//! Which project a working directory belongs to: the nearest directory at or above it
//! that carries devcontainer configuration.

use vstd::prelude::*;

use crate::order;
use crate::order::{is_sorted, path_le};
use crate::path;
use crate::path::{
    ancestors_of, components, joined, law_ancestors_go_on_to_the_end, parent_of, same_path,
};

verus! {

/// What was found walking up from a working directory.
#[derive(Debug, Clone, PartialEq)]
pub struct Discovery {
    /// Nearest ancestor directory that contains devcontainer configuration.
    pub project_root: String,
    /// All config files found at that level.
    pub configs: Vec<String>,
}

/// The devcontainer configuration on disk directly below one directory `dir`.
#[derive(Debug, PartialEq)]
pub struct Level {
    /// Whether `dir/.devcontainer/devcontainer.json` is a file.
    pub nested: bool,
    /// Whether `dir/.devcontainer.json` is a file.
    pub flat: bool,
    /// The entries `sub` of `dir/.devcontainer` for which
    /// `dir/.devcontainer/sub/devcontainer.json` is a file, in any order.
    pub subfolders: Vec<String>,
}

impl Level {
    /// Whether there is any configuration.
    pub open spec fn carries_config(&self) -> bool {
        self.nested || self.flat || self.subfolders@.len() > 0
    }
}

/// `dir/.devcontainer/devcontainer.json`.
pub open spec fn nested_config(dir: Seq<char>) -> Seq<char> {
    joined(joined(dir, ".devcontainer"@), "devcontainer.json"@)
}

/// `dir/.devcontainer.json`.
pub open spec fn flat_config(dir: Seq<char>) -> Seq<char> {
    joined(dir, ".devcontainer.json"@)
}

/// `dir/.devcontainer/sub/devcontainer.json`.
pub open spec fn subfolder_config(dir: Seq<char>, sub: Seq<char>) -> Seq<char> {
    joined(joined(joined(dir, ".devcontainer"@), sub), "devcontainer.json"@)
}

/// The configs of `level` that stand directly in `dir` or in `dir/.devcontainer`.
pub open spec fn direct_configs(dir: Seq<char>, level: Level) -> Seq<Seq<char>> {
    (if level.nested {
        seq![nested_config(dir)]
    } else {
        seq![]
    }) + (if level.flat {
        seq![flat_config(dir)]
    } else {
        seq![]
    })
}

/// The configs of `level` that stand in subfolders, in the order of `level`.
pub open spec fn subfolder_configs(dir: Seq<char>, level: Level) -> Seq<Seq<char>> {
    Seq::new(level.subfolders@.len(), |i: int| subfolder_config(dir, level.subfolders@[i]@))
}

/// Whether `configs` lists the configs of `level` below `dir`: the nested one, the flat
/// one, then those in subfolders, sorted.
pub open spec fn lists_configs(configs: Seq<Seq<char>>, dir: Seq<char>, level: Level) -> bool {
    let direct = direct_configs(dir, level);
    &&& direct.is_prefix_of(configs)
    &&& is_sorted(configs.skip(direct.len() as int))
    &&& configs.skip(direct.len() as int).to_multiset() == subfolder_configs(
        dir,
        level,
    ).to_multiset()
}

/// Where the walk ends: the parent of the home directory.
pub open spec fn last_stop(home: Option<Seq<char>>) -> Option<Seq<char>> {
    match home {
        Some(h) => parent_of(h),
        None => None,
    }
}

/// Whether the walk ends at `dir`.
pub open spec fn stops_at(dir: Seq<char>, stop: Option<Seq<char>>) -> bool {
    stop matches Some(s) && same_path(s, dir)
}

/// `dirs` up to and including the first at which the walk ends.
pub open spec fn up_to_stop(dirs: Seq<Seq<char>>, stop: Option<Seq<char>>) -> Seq<Seq<char>>
    decreases dirs.len(),
{
    if dirs.len() == 0 {
        seq![]
    } else if stops_at(dirs[0], stop) {
        seq![dirs[0]]
    } else {
        seq![dirs[0]] + up_to_stop(dirs.skip(1), stop)
    }
}

/// The directories that are looked at for `cwd`, nearest first.
pub open spec fn search_dirs(cwd: Seq<char>, home: Option<Seq<char>>) -> Seq<Seq<char>> {
    up_to_stop(ancestors_of(cwd), last_stop(home))
}

proof fn lemma_up_to_stop(dirs: Seq<Seq<char>>, stop: Option<Seq<char>>)
    ensures
        up_to_stop(dirs, stop).is_prefix_of(dirs),
        dirs.len() > 0 ==> up_to_stop(dirs, stop).len() > 0,
        forall|i: int|
            0 <= i < up_to_stop(dirs, stop).len() - 1 ==> !stops_at(#[trigger] dirs[i], stop),
        up_to_stop(dirs, stop).len() < dirs.len() ==> stops_at(
            up_to_stop(dirs, stop).last(),
            stop,
        ),
    decreases dirs.len(),
{
    if dirs.len() > 0 && !stops_at(dirs[0], stop) {
        let rest = dirs.skip(1);
        lemma_up_to_stop(rest, stop);
        let found = up_to_stop(dirs, stop);
        assert(found.skip(1) =~= up_to_stop(rest, stop));
        assert forall|i: int| 0 <= i < found.len() - 1 implies !stops_at(
            #[trigger] dirs[i],
            stop,
        ) by {
            if i > 0 {
                assert(rest[i - 1] == dirs[i]);
            }
        }
        assert forall|i: int| 0 <= i < found.len() implies found[i] == dirs[i] by {
            if i > 0 {
                assert(rest[i - 1] == dirs[i]);
                assert(up_to_stop(rest, stop)[i - 1] == rest[i - 1]);
            }
        }
        if rest.len() > 0 {
            assert(found.last() == up_to_stop(rest, stop).last());
        }
    }
}

/// The walk starts at the working directory, goes from each directory to its parent,
/// and does not ascend past the parent of the home directory.
pub proof fn law_walk_ends_at_the_parent_of_home(cwd: Seq<char>, home: Option<Seq<char>>)
    ensures
        search_dirs(cwd, home).len() > 0,
        search_dirs(cwd, home)[0] == cwd,
        search_dirs(cwd, home).is_prefix_of(ancestors_of(cwd)),
        forall|i: int|
            0 <= i < search_dirs(cwd, home).len() - 1 ==> !stops_at(
                #[trigger] search_dirs(cwd, home)[i],
                last_stop(home),
            ),
        search_dirs(cwd, home).len() < ancestors_of(cwd).len() ==> stops_at(
            search_dirs(cwd, home).last(),
            last_stop(home),
        ),
{
    lemma_up_to_stop(ancestors_of(cwd), last_stop(home));
}

/// The walk goes from each directory to its parent, and ends in two places only: where
/// there is no parent, or at the parent of the home directory, which no directory before
/// the last one is.
pub proof fn law_walk_goes_on_until_home_or_the_root(cwd: Seq<char>, home: Option<Seq<char>>)
    ensures
        search_dirs(cwd, home).len() > 0,
        search_dirs(cwd, home)[0] == cwd,
        forall|i: int|
            0 <= i < search_dirs(cwd, home).len() - 1 ==> parent_of(
                #[trigger] search_dirs(cwd, home)[i],
            ) == Some(search_dirs(cwd, home)[i + 1]),
        forall|i: int|
            0 <= i < search_dirs(cwd, home).len() - 1 ==> (home matches Some(h) ==> parent_of(
                h,
            ) matches Some(stop) ==> components(#[trigger] search_dirs(cwd, home)[i])
                != components(stop)),
        parent_of(search_dirs(cwd, home).last()) is Some ==> (home matches Some(h) && parent_of(
            h,
        ) matches Some(stop) && components(search_dirs(cwd, home).last()) == components(stop)),
{
    law_walk_ends_at_the_parent_of_home(cwd, home);
    law_ancestors_go_on_to_the_end(cwd);
    let dirs = search_dirs(cwd, home);
    let all = ancestors_of(cwd);
    assert forall|i: int| 0 <= i < dirs.len() implies #[trigger] dirs[i] == all[i] by {}
    assert forall|i: int| 0 <= i < dirs.len() - 1 implies parent_of(#[trigger] dirs[i]) == Some(
        dirs[i + 1],
    ) by {
        assert(parent_of(all[i]) == Some(all[i + 1]));
    }
    assert forall|i: int| 0 <= i < dirs.len() - 1 implies (home matches Some(h) ==> parent_of(
        h,
    ) matches Some(stop) ==> components(#[trigger] dirs[i]) != components(stop)) by {
        assert(!stops_at(dirs[i], last_stop(home)));
    }
    if dirs.len() == all.len() {
        assert(dirs.last() == all.last());
    }
}

/// Among the configurations in subfolders of one directory, those stand first whose
/// folder's name does.
pub proof fn law_subfolders_are_listed_by_name(dir: Seq<char>, a: Seq<char>, b: Seq<char>)
    requires
        path::is_plain_name(a),
        path::is_plain_name(b),
        a != b,
    ensures
        order::path_le(subfolder_config(dir, a), subfolder_config(dir, b)) == order::text_le(a, b),
        components(subfolder_config(dir, a)) == components(dir) + seq![
            ".devcontainer"@,
            a,
            "devcontainer.json"@,
        ],
{
    reveal_strlit(".devcontainer");
    reveal_strlit("devcontainer.json");
    lemma_plain_names();
    let folder = joined(dir, ".devcontainer"@);
    path::law_join_adds_a_component(dir, ".devcontainer"@);
    path::law_join_adds_a_component(folder, a);
    path::law_join_adds_a_component(folder, b);
    path::law_join_adds_a_component(joined(folder, a), "devcontainer.json"@);
    path::law_join_adds_a_component(joined(folder, b), "devcontainer.json"@);
    let common = components(folder);
    let tail = seq!["devcontainer.json"@];
    assert(components(subfolder_config(dir, a)) =~= common + seq![a] + tail);
    assert(components(subfolder_config(dir, b)) =~= common + seq![b] + tail);
    let special = seq![seq!['/'], seq!['.'], seq!['.', '.']];
    assert(seq!['/'][0] == '/');
    assert forall|i: int| 0 <= i < 3 implies #[trigger] special[i] != a && special[i] != b by {
        assert(special[0] == seq!['/'] && special[1] == seq!['.'] && special[2] == seq!['.', '.']);
        if i == 0 {
            assert(a.len() > 0 && a[0] != '/');
            assert(b.len() > 0 && b[0] != '/');
        }
    }
    order::law_paths_are_ordered_by_the_first_difference(
        subfolder_config(dir, a),
        subfolder_config(dir, b),
        common,
        a,
        b,
        tail,
        tail,
    );
    assert(components(subfolder_config(dir, a)) =~= components(dir) + seq![
        ".devcontainer"@,
        a,
        "devcontainer.json"@,
    ]);
}

proof fn lemma_plain_names()
    ensures
        path::is_plain_name(".devcontainer"@),
        path::is_plain_name(".devcontainer.json"@),
        path::is_plain_name("devcontainer.json"@),
{
    reveal_strlit(".devcontainer");
    reveal_strlit(".devcontainer.json");
    reveal_strlit("devcontainer.json");
    assert(seq!['.'].len() == 1 && seq!['.', '.'].len() == 2);
}

/// The three forms of configuration are named as they are below the directory: in a
/// `.devcontainer` folder, as `.devcontainer.json`, and in a subfolder of the folder.
pub proof fn law_configs_are_below_their_directory(dir: Seq<char>)
    ensures
        components(nested_config(dir)) == components(dir) + seq![
            ".devcontainer"@,
            "devcontainer.json"@,
        ],
        components(flat_config(dir)) == components(dir) + seq![".devcontainer.json"@],
{
    lemma_plain_names();
    path::law_join_adds_a_component(dir, ".devcontainer"@);
    path::law_join_adds_a_component(joined(dir, ".devcontainer"@), "devcontainer.json"@);
    path::law_join_adds_a_component(dir, ".devcontainer.json"@);
    assert(components(nested_config(dir)) =~= components(dir) + seq![
        ".devcontainer"@,
        "devcontainer.json"@,
    ]);
    assert(components(flat_config(dir)) =~= components(dir) + seq![".devcontainer.json"@]);
}

/// The directories to look at for `cwd`, nearest first.
pub fn search_path(cwd: &str, home: Option<&str>) -> (r: Vec<String>)
    ensures
        r.deep_view() == search_dirs(cwd@, home.deep_view()),
{
    let stop = match home {
        Some(h) => path::parent(h),
        None => None,
    };
    let dirs = path::ancestors(cwd);
    let ghost all = dirs.deep_view();
    let mut out: Vec<String> = Vec::new();
    let mut i: usize = 0;
    assert(all.skip(0) =~= all);
    assert(out.deep_view() + up_to_stop(all.skip(0), stop.deep_view()) =~= up_to_stop(
        all,
        stop.deep_view(),
    ));
    while i < dirs.len()
        invariant
            all == dirs.deep_view(),
            all == ancestors_of(cwd@),
            stop.deep_view() == last_stop(home.deep_view()),
            i <= dirs.len(),
            out.deep_view() + up_to_stop(all.skip(i as int), stop.deep_view()) == search_dirs(
                cwd@,
                home.deep_view(),
            ),
        decreases dirs.len() - i,
    {
        let dir = dirs[i];
        let ghost before = out.deep_view();
        let ghost rest = all.skip(i as int);
        out.push(dir.to_owned());
        assert(out.deep_view() =~= before.push(dir@));
        assert(rest[0] == dir@);
        assert(rest.skip(1) =~= all.skip(i + 1));
        let ended = match stop {
            Some(s) => path::equal(s, dir),
            None => false,
        };
        if ended {
            assert(out.deep_view() =~= before + up_to_stop(rest, stop.deep_view()));
            return out;
        }
        assert(before + up_to_stop(rest, stop.deep_view()) =~= out.deep_view() + up_to_stop(
            all.skip(i + 1),
            stop.deep_view(),
        ));
        i += 1;
    }
    assert(up_to_stop(all.skip(i as int), stop.deep_view()) =~= Seq::<Seq<char>>::empty());
    assert(out.deep_view() =~= search_dirs(cwd@, home.deep_view()));
    out
}

/// The config files of `level` below `dir`: recognised forms, per the devcontainer
/// spec, are `.devcontainer/devcontainer.json`, `.devcontainer.json` and
/// `.devcontainer/<subfolder>/devcontainer.json`.
pub fn configs_in(dir: &str, level: &Level) -> (r: Vec<String>)
    ensures
        lists_configs(r.deep_view(), dir@, *level),
        r.len() > 0 <==> level.carries_config(),
        r.len() == (if level.nested {
            1nat
        } else {
            0
        }) + (if level.flat {
            1nat
        } else {
            0
        }) + level.subfolders.len(),
        level.nested ==> r@[0]@ == joined(joined(dir@, ".devcontainer"@), "devcontainer.json"@),
        level.flat ==> r@[if level.nested {
            1
        } else {
            0
        }]@ == joined(dir@, ".devcontainer.json"@),
        forall|i: int|
            0 <= i < level.subfolders.len() ==> r.deep_view().contains(
                joined(
                    joined(joined(dir@, ".devcontainer"@), #[trigger] level.subfolders@[i]@),
                    "devcontainer.json"@,
                ),
            ),
        forall|i: int, j: int|
            r.len() - level.subfolders.len() <= i < j < r.len() ==> path_le(
                (#[trigger] r@[i])@,
                (#[trigger] r@[j])@,
            ),
{
    let mut configs: Vec<String> = Vec::new();
    let folder = path::join(dir, ".devcontainer");
    if level.nested {
        configs.push(path::join(folder.as_str(), "devcontainer.json"));
    }
    if level.flat {
        configs.push(path::join(dir, ".devcontainer.json"));
    }
    let ghost direct = configs.deep_view();
    assert(direct =~= direct_configs(dir@, *level));
    let mut subs: Vec<String> = Vec::new();
    let mut i: usize = 0;
    let ghost wanted = subfolder_configs(dir@, *level);
    while i < level.subfolders.len()
        invariant
            wanted == subfolder_configs(dir@, *level),
            folder@ == joined(dir@, ".devcontainer"@),
            i <= level.subfolders.len(),
            subs.deep_view() == wanted.take(i as int),
        decreases level.subfolders.len() - i,
    {
        let sub = path::join(folder.as_str(), level.subfolders[i].as_str());
        let config = path::join(sub.as_str(), "devcontainer.json");
        let ghost before = subs.deep_view();
        subs.push(config);
        assert(subs.deep_view() =~= before.push(config@));
        assert(wanted.take(i + 1) =~= wanted.take(i as int).push(wanted[i as int]));
        i += 1;
    }
    assert(wanted.take(i as int) =~= wanted);
    let subs = order::sorted(subs);
    let ghost tail = subs.deep_view();
    proof {
        vstd::seq_lib::to_multiset_len(tail);
        vstd::seq_lib::to_multiset_len(wanted);
    }
    let mut j: usize = 0;
    assert(direct + tail.take(0) =~= direct);
    while j < subs.len()
        invariant
            tail == subs.deep_view(),
            j <= subs.len(),
            configs.deep_view() == direct + tail.take(j as int),
        decreases subs.len() - j,
    {
        let ghost before = configs.deep_view();
        let config = subs[j].clone();
        configs.push(config);
        assert(configs.deep_view() =~= before.push(config@));
        assert(tail.take(j + 1) =~= tail.take(j as int).push(tail[j as int]));
        assert(configs.deep_view() =~= direct + tail.take(j + 1));
        j += 1;
    }
    assert(tail.take(j as int) =~= tail);
    assert(configs.deep_view().skip(direct.len() as int) =~= tail);
    proof {
        let all = configs.deep_view();
        assert(all.len() == configs.len());
        assert(all =~= direct + tail);
        assert forall|k: int| 0 <= k < all.len() implies #[trigger] all[k] == configs@[k]@ by {}
        if level.nested {
            assert(all[0] == direct[0]);
        }
        if level.flat {
            assert(all[direct.len() - 1] == direct[direct.len() - 1]);
        }
        assert forall|k: int| 0 <= k < level.subfolders.len() implies all.contains(
            joined(
                joined(joined(dir@, ".devcontainer"@), #[trigger] level.subfolders@[k]@),
                "devcontainer.json"@,
            ),
        ) by {
            let config = wanted[k];
            assert(wanted.contains(config));
            tail.to_multiset_ensures();
            wanted.to_multiset_ensures();
            assert(tail.to_multiset().count(config) > 0);
            assert(tail.contains(config));
            let at = choose|at: int| 0 <= at < tail.len() && tail[at] == config;
            assert(all[direct.len() + at] == config);
        }
        assert forall|x: int, y: int| direct.len() <= x < y < configs.len() implies path_le(
            (#[trigger] configs@[x])@,
            (#[trigger] configs@[y])@,
        ) by {
            assert(all[x] == tail[x - direct.len()] && all[y] == tail[y - direct.len()]);
        }
    }
    configs
}

/// Whether `found` is the discovery at index `i` of `dirs`: no nearer level carries
/// configuration, and this one does.
pub open spec fn found_at(
    found: Discovery,
    dirs: Seq<Seq<char>>,
    levels: Seq<Level>,
    i: int,
) -> bool {
    &&& 0 <= i < dirs.len()
    &&& i < levels.len()
    &&& levels[i].carries_config()
    &&& forall|j: int| 0 <= j < i ==> !(#[trigger] levels[j]).carries_config()
    &&& found.project_root@ == dirs[i]
    &&& lists_configs(found.configs.deep_view(), dirs[i], levels[i])
}

/// Find the nearest ancestor of `cwd` (including itself) that carries devcontainer
/// configuration, where `levels` holds what is on disk in the directories of
/// `search_path(cwd, home)`, nearest first, as far as they were read. The walk does not
/// ascend past the parent of `home`.
pub fn find(cwd: &str, home: Option<&str>, levels: &Vec<Level>) -> (r: Option<Discovery>)
    ensures
        r matches Some(found) ==> exists|i: int|
            #[trigger] found_at(found, search_dirs(cwd@, home.deep_view()), levels@, i),
        r is None ==> forall|i: int|
            0 <= i < levels@.len() && i < search_dirs(cwd@, home.deep_view()).len()
                ==> !(#[trigger] levels@[i]).carries_config(),
        r matches Some(found) ==> exists|i: int|
            {
                &&& 0 <= i < search_dirs(cwd@, home.deep_view()).len()
                &&& i < levels@.len()
                &&& found.project_root@ == search_dirs(cwd@, home.deep_view())[i]
                &&& levels@[i].nested || levels@[i].flat || (#[trigger] levels@[i]).subfolders.len()
                    > 0
                &&& forall|j: int|
                    0 <= j < i ==> !levels@[j].nested && !levels@[j].flat && (
                    #[trigger] levels@[j]).subfolders.len() == 0
                &&& found.configs.len() == (if levels@[i].nested {
                    1nat
                } else {
                    0
                }) + (if levels@[i].flat {
                    1nat
                } else {
                    0
                }) + levels@[i].subfolders.len()
            },
        r is None ==> forall|i: int|
            0 <= i < levels@.len() && i < search_dirs(cwd@, home.deep_view()).len()
                ==> !levels@[i].nested && !levels@[i].flat && (
            #[trigger] levels@[i]).subfolders.len() == 0,
{
    let dirs = search_path(cwd, home);
    let ghost all = dirs.deep_view();
    let mut i: usize = 0;
    while i < dirs.len() && i < levels.len()
        invariant
            all == dirs.deep_view(),
            all == search_dirs(cwd@, home.deep_view()),
            i <= dirs.len(),
            i <= levels.len(),
            forall|j: int| 0 <= j < i ==> !(#[trigger] levels@[j]).carries_config(),
        decreases dirs.len() - i,
    {
        let configs = configs_in(dirs[i].as_str(), &levels[i]);
        if configs.len() > 0 {
            let r = Some(Discovery { project_root: dirs[i].clone(), configs });
            assert(found_at(r->0, search_dirs(cwd@, home.deep_view()), levels@, i as int));
            assert(levels@[i as int].subfolders.len() >= 0);
            return r;
        }
        i += 1;
    }
    None
}

} // verus!
