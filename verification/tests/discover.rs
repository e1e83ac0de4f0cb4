use herdr_devcontainer_status::discover::{configs_in, find, search_path, Level};

fn level(nested: bool, flat: bool, subfolders: &[&str]) -> Level {
    Level {
        nested,
        flat,
        subfolders: subfolders.iter().map(|s| s.to_string()).collect(),
    }
}

fn bare() -> Level {
    level(false, false, &[])
}

#[test]
fn finds_nested_config_from_subdir() {
    let levels = vec![bare(), bare(), bare(), level(true, false, &[])];
    let d = find("/tmp/proj/src/module/inner", None, &levels).unwrap();
    assert_eq!(d.project_root, "/tmp/proj");
    assert_eq!(d.configs.len(), 1);
    assert_eq!(d.configs[0], "/tmp/proj/.devcontainer/devcontainer.json");
}

#[test]
fn finds_flat_config_file() {
    let d = find("/tmp/proj", None, &vec![level(false, true, &[])]).unwrap();
    assert_eq!(d.configs, vec!["/tmp/proj/.devcontainer.json"]);
}

#[test]
fn finds_subfolder_configs() {
    let d = find("/tmp/proj", None, &vec![level(false, false, &["web", "api"])]).unwrap();
    assert_eq!(d.configs.len(), 2);
    assert_eq!(
        d.configs,
        vec![
            "/tmp/proj/.devcontainer/api/devcontainer.json",
            "/tmp/proj/.devcontainer/web/devcontainer.json",
        ]
    );
}

#[test]
fn nearest_config_wins_in_monorepo() {
    let levels = vec![
        bare(),
        level(true, false, &[]),
        bare(),
        level(true, false, &[]),
    ];
    let d = find("/tmp/mono/packages/svc/src", None, &levels).unwrap();
    assert_eq!(d.project_root, "/tmp/mono/packages/svc");
}

#[test]
fn none_when_no_config() {
    assert_eq!(find("/tmp/plain", None, &vec![bare(), bare(), bare()]), None);
}

#[test]
fn missing_cwd_is_none() {
    let levels = vec![bare(), bare(), bare(), bare()];
    assert_eq!(find("/tmp/gone/away", None, &levels), None);
}

#[test]
fn the_walk_does_not_ascend_past_the_parent_of_home() {
    assert_eq!(
        search_path("/home/x/proj/src", Some("/home/x")),
        ["/home/x/proj/src", "/home/x/proj", "/home/x", "/home"]
    );
    assert_eq!(
        search_path("/home/x/proj", Some("/home/x/")),
        ["/home/x/proj", "/home/x", "/home"]
    );
    assert_eq!(
        search_path("/srv/proj", Some("/home/x")),
        ["/srv/proj", "/srv", "/"]
    );
    assert_eq!(search_path("/srv", None), ["/srv", "/"]);
    assert_eq!(search_path("/srv", Some("/")), ["/srv", "/"]);
    assert_eq!(search_path(".", Some("")), [".", ""]);
    // What lies above is not looked at, even if it carries configuration.
    let levels = vec![bare(), bare(), level(true, false, &[])];
    assert_eq!(find("/home/x", Some("/home/x"), &levels), None);
    assert!(find("/home/x", Some("/root/y"), &levels).is_some());
    // The parent of the home directory itself is.
    let levels = vec![bare(), level(true, false, &[])];
    let d = find("/home/x", Some("/home/x"), &levels).unwrap();
    assert_eq!(d.project_root, "/home");
}

#[test]
fn all_forms_at_one_level_are_listed_in_order() {
    let all = configs_in("/p", &level(true, true, &["b", "a"]));
    assert_eq!(
        all,
        [
            "/p/.devcontainer/devcontainer.json",
            "/p/.devcontainer.json",
            "/p/.devcontainer/a/devcontainer.json",
            "/p/.devcontainer/b/devcontainer.json",
        ]
    );
    assert!(configs_in("/p", &bare()).is_empty());
    assert_eq!(
        configs_in("", &level(false, true, &[])),
        [".devcontainer.json"]
    );
}
