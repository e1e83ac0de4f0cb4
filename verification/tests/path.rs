use herdr_devcontainer_status::order::{no_later, sorted};
use herdr_devcontainer_status::path::{ancestors, equal, file_name, join, parent, split};

const PATHS: [&str; 40] = [
    "", "/", "//", "///", ".", "./", ".//", "..", "../", "/.", "/./", "/..", "a", "a/", "a//",
    "a/.", "a/./", "./a", ".//a", "./a/", "././a", "a/b", "a//b", "a/./b", "a/../b", "/a", "//a",
    "/a/", "/a/b", "/a//b/", "/a/./b/.", "/a/b/..", ".a", "..a", "...", "/.a/b", "./.a", "a/.b/",
    "/p/api", "/usr/local/bin/devcontainer",
];

fn text(p: &std::path::Path) -> &str {
    p.to_str().unwrap()
}

#[test]
fn parents_and_file_names_are_those_of_the_standard_library() {
    for p in PATHS {
        let reference = std::path::Path::new(p);
        assert_eq!(parent(p), reference.parent().map(text), "parent of {p:?}");
        assert_eq!(
            file_name(p),
            reference.file_name().map(|f| f.to_str().unwrap()),
            "file name of {p:?}"
        );
        assert_eq!(
            ancestors(p),
            reference.ancestors().map(text).collect::<Vec<_>>(),
            "ancestors of {p:?}"
        );
        assert_eq!(
            split(p),
            reference
                .components()
                .map(|c| c.as_os_str().to_str().unwrap())
                .collect::<Vec<_>>(),
            "components of {p:?}"
        );
    }
}

#[test]
fn comparing_and_joining_are_those_of_the_standard_library() {
    for a in PATHS {
        let left = std::path::Path::new(a);
        for b in PATHS {
            let right = std::path::Path::new(b);
            assert_eq!(equal(a, b), left == right, "{a:?} and {b:?}");
            assert_eq!(no_later(a, b), left <= right, "{a:?} and {b:?}");
            assert_eq!(join(a, b), text(&left.join(right)), "{a:?} and {b:?}");
        }
    }
}

#[test]
fn sorting_is_that_of_the_standard_library() {
    let names = ["web", "api", "a.b", "a", "é", "Z", "api2", "-", "zz", ".hidden"];
    let paths: Vec<String> = names
        .iter()
        .map(|n| format!("/p/.devcontainer/{n}/devcontainer.json"))
        .collect();
    let mut expected: Vec<std::path::PathBuf> =
        paths.iter().map(|p| std::path::PathBuf::from(p)).collect();
    expected.sort();
    let expected: Vec<&str> = expected.iter().map(|p| text(p)).collect();
    assert_eq!(sorted(paths.clone()), expected);
    assert_eq!(sorted(Vec::new()), Vec::<String>::new());
}

#[test]
fn a_parent_has_one_component_less() {
    for p in PATHS {
        if let Some(q) = parent(p) {
            let all = split(p);
            assert_eq!(split(q), all[..all.len() - 1]);
        }
    }
}

#[test]
fn a_joined_name_is_the_file_name() {
    for dir in PATHS {
        let p = join(dir, "devcontainer.json");
        assert_eq!(file_name(&p), Some("devcontainer.json"));
        let mut expected = split(dir);
        expected.push("devcontainer.json");
        assert_eq!(split(&p), expected);
    }
}
