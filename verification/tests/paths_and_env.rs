use std::path::Path;
use zed_vyper::env::{join_texts, split_text};
use zed_vyper::path::{extension_of, join_path, parent_of, path_has_root};
use zed_vyper::VyperExtension;

const SAMPLES: [&str; 30] = [
    "", "/", "//", "/.", "/./", ".", "./", "./a", "..", "../a", "a/..", "a", "a/", "a//",
    "a/b", "a//b", "a/b/", "a/./b", "a/b/.", "/a", "/a/b", "/a/b/", "a.b", ".a", "a/.b",
    "a/b.c.vy", "Foo.vy", "/w/x.vyi/", "a.", "a/b..",
];

#[test]
fn parent_matches_std_path() {
    for sample in SAMPLES.iter() {
        let expected = Path::new(sample)
            .parent()
            .map(|p| p.to_string_lossy().into_owned());
        assert_eq!(parent_of(sample), expected, "parent of {:?}", sample);
    }
}

#[test]
fn extension_matches_std_path() {
    for sample in SAMPLES.iter() {
        let expected = Path::new(sample)
            .extension()
            .map(|e| e.to_string_lossy().into_owned());
        assert_eq!(extension_of(sample), expected, "extension of {:?}", sample);
    }
}

#[test]
fn join_matches_std_path() {
    let segments = ["lib", "/abs", "", "x/y", "a.b"];
    for sample in SAMPLES.iter() {
        for segment in segments.iter() {
            let expected = Path::new(sample).join(segment).to_string_lossy().into_owned();
            assert_eq!(join_path(sample, segment), expected, "{:?} joined with {:?}", sample, segment);
        }
    }
}

#[test]
fn root_detection_matches_std_path() {
    for sample in SAMPLES.iter() {
        let p = Path::new(sample);
        assert_eq!(path_has_root(sample), p.has_root());
        assert_eq!(
            VyperExtension::is_filesystem_root(sample),
            p.has_root() && p.parent().is_none()
        );
    }
}

#[test]
fn normalizes_interface_file_and_keeps_directories() {
    assert_eq!(VyperExtension::normalized_worktree_base("/w/iface.vyi"), "/w");
    assert_eq!(VyperExtension::normalized_worktree_base("/w/contracts"), "/w/contracts");
    assert_eq!(VyperExtension::normalized_worktree_base("/w/notes.py"), "/w/notes.py");
    assert_eq!(VyperExtension::normalized_worktree_base("Foo.vy"), "");
    assert_eq!(VyperExtension::normalized_worktree_base(".vy"), ".vy");
}

#[test]
fn ancestors_stop_before_root_and_empty() {
    assert_eq!(
        VyperExtension::ancestor_dirs("/workspace/contracts/main"),
        vec!["/workspace/contracts/main", "/workspace/contracts", "/workspace"]
    );
    assert!(VyperExtension::ancestor_dirs("/").is_empty());
    assert!(VyperExtension::ancestor_dirs("").is_empty());
    assert_eq!(VyperExtension::ancestor_dirs("repo"), vec!["repo"]);
    assert_eq!(VyperExtension::ancestor_dirs("a/b"), vec!["a/b", "a"]);
}

#[test]
fn ancestors_are_limited() {
    let deep = "/a/b/c/d/e/f/g/h/i/j";
    let dirs = VyperExtension::ancestor_dirs(deep);
    assert_eq!(dirs.len(), VyperExtension::MAX_VENV_ANCESTOR_STEPS + 1);
    assert_eq!(dirs[0], deep);
    assert_eq!(dirs[6], "/a/b/c/d");
}

#[test]
fn windows_candidates_cover_each_ancestor() {
    let venv = VyperExtension::workspace_venv_for_base_with_platform("/w/x", true);
    assert_eq!(venv.bin_dirs, vec!["/w/x/.venv/Scripts", "/w/.venv/Scripts"]);
    assert_eq!(
        venv.site_packages,
        vec!["/w/x/.venv/Lib/site-packages", "/w/.venv/Lib/site-packages"]
    );
}

#[test]
fn unix_candidates_have_no_repeats() {
    let venv = VyperExtension::workspace_venv_for_base_with_platform("/w/x", false);
    assert_eq!(venv.bin_dirs.len(), 2);
    assert_eq!(venv.site_packages.len(), 12);
    for i in 0..venv.site_packages.len() {
        for j in 0..i {
            assert_ne!(venv.site_packages[i], venv.site_packages[j]);
        }
    }
    assert_eq!(venv.site_packages[6], "/w/.venv/lib/python3.15/site-packages");
}

#[test]
fn push_unique_skips_existing_text() {
    let mut paths = vec!["a".to_string()];
    VyperExtension::push_unique(&mut paths, "a".to_string());
    assert_eq!(paths, vec!["a"]);
    VyperExtension::push_unique(&mut paths, "b".to_string());
    assert_eq!(paths, vec!["a", "b"]);
}

#[test]
fn python_minors_are_newest_first() {
    assert_eq!(
        VyperExtension::FALLBACK_PYTHON_MINORS,
        ["3.15", "3.14", "3.13", "3.12", "3.11", "3.10"]
    );
}

#[test]
fn split_follows_str_split() {
    let cases = [("a::b", ":"), ("", ":"), (":", ":"), ("abcab", "ab"), ("aaa", "aa"), ("ab", ""), ("", "")];
    for (s, sep) in cases.iter() {
        let expected: Vec<String> = s.split(sep).map(|x| x.to_string()).collect();
        assert_eq!(split_text(s, sep), expected, "{:?} split at {:?}", s, sep);
    }
}

#[test]
fn join_puts_separator_between() {
    let segs = vec!["a".to_string(), "".to_string(), "b".to_string()];
    assert_eq!(join_texts(&segs, ":"), "a::b");
    assert_eq!(join_texts(&Vec::new(), ":"), "");
}

#[test]
fn set_env_var_replaces_every_entry_and_appends() {
    let mut env = vec![
        ("A".to_string(), "1".to_string()),
        ("B".to_string(), "2".to_string()),
        ("A".to_string(), "3".to_string()),
    ];
    VyperExtension::set_env_var(&mut env, "A", "4".to_string());
    assert_eq!(
        env,
        vec![("B".to_string(), "2".to_string()), ("A".to_string(), "4".to_string())]
    );
}

#[test]
fn later_override_of_same_key_wins() {
    let mut env = vec![("PATH".to_string(), "/usr/bin".to_string())];
    VyperExtension::apply_env_overrides(
        &mut env,
        vec![
            ("PATH".to_string(), "/first".to_string()),
            ("HOME".to_string(), "/home/u".to_string()),
            ("PATH".to_string(), "/second".to_string()),
        ],
    );
    assert_eq!(
        env,
        vec![
            ("HOME".to_string(), "/home/u".to_string()),
            ("PATH".to_string(), "/second".to_string())
        ]
    );
}

#[test]
fn prepending_twice_is_prepending_once() {
    let mut once = vec![("PATH".to_string(), ":/usr/bin::/venv/bin:/bin".to_string())];
    VyperExtension::prepend_env_path(&mut once, "PATH", "/venv/bin", ":");
    assert_eq!(once, vec![("PATH".to_string(), "/venv/bin:/usr/bin:/bin".to_string())]);
    let mut twice = once.clone();
    VyperExtension::prepend_env_path(&mut twice, "PATH", "/venv/bin", ":");
    assert_eq!(twice, once);
}

#[test]
fn prepend_reads_last_entry_and_creates_missing_variable() {
    let mut env = vec![
        ("PATH".to_string(), "/old".to_string()),
        ("PATH".to_string(), "/newer".to_string()),
    ];
    VyperExtension::prepend_env_path(&mut env, "PATH", "/venv", ";");
    assert_eq!(env, vec![("PATH".to_string(), "/venv;/newer".to_string())]);
    let mut empty: Vec<(String, String)> = Vec::new();
    VyperExtension::prepend_env_path(&mut empty, "PYTHONPATH", "/site", ":");
    assert_eq!(empty, vec![("PYTHONPATH".to_string(), "/site".to_string())]);
}

#[test]
fn applying_venv_twice_is_applying_once() {
    let venv = VyperExtension::workspace_venv_for_base_with_platform("/w/x", false);
    let mut once = vec![
        ("PATH".to_string(), "/usr/bin:/w/.venv/bin".to_string()),
        ("HOME".to_string(), "/home/u".to_string()),
    ];
    VyperExtension::apply_workspace_venv(&venv, &mut once, ":");
    let mut twice = once.clone();
    VyperExtension::apply_workspace_venv(&venv, &mut twice, ":");
    assert_eq!(twice, once);
    assert_eq!(once[0], ("HOME".to_string(), "/home/u".to_string()));
    assert_eq!(
        once[2],
        ("PATH".to_string(), "/w/x/.venv/bin:/w/.venv/bin:/usr/bin".to_string())
    );
}
