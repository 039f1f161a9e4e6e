use opencode_hooks::paths::{
    is_same_path, join, opencode_config_dir_in, opencode_plugin_path_in,
    resolve_config_dir_override, OPENCODE_PLUGIN_SANDBOX_SUBPATH, OPENCODE_PLUGIN_SUBPATH,
};
use std::path::Path;

fn plugin_path(home: &str, env: &[String], inherited: Option<&str>) -> String {
    String::from_utf8(opencode_plugin_path_in(home.as_bytes(), env, inherited)).unwrap()
}

fn entries(env: &[&str]) -> Vec<String> {
    env.iter().map(|e| e.to_string()).collect()
}

#[test]
fn test_opencode_plugin_path_honors_xdg_config_home() {
    let home = "/home/tester";
    let cases: &[(&[&str], &str)] = &[
        // No override anywhere: opencode's own `~/.config` default.
        (&[], "/home/tester/.config/opencode/plugin/aoe-status.js"),
        // A session's entry wins.
        (
            &["XDG_CONFIG_HOME=/xdg"],
            "/xdg/opencode/plugin/aoe-status.js",
        ),
        // Empty is unset.
        (
            &["XDG_CONFIG_HOME="],
            "/home/tester/.config/opencode/plugin/aoe-status.js",
        ),
        // An unrelated entry does not disturb resolution.
        (
            &["FOO=bar"],
            "/home/tester/.config/opencode/plugin/aoe-status.js",
        ),
    ];
    for (env, expected) in cases {
        let env = entries(env);
        assert_eq!(
            Path::new(&plugin_path(home, &env, None)),
            Path::new(expected),
            "env {env:?}"
        );
    }

    // The declared home-relative subpath is exactly the no-override answer,
    // so a caller that ignores the resolver still lands in the right place.
    assert_eq!(
        Path::new(&plugin_path(home, &[], None)),
        Path::new(home).join(OPENCODE_PLUGIN_SUBPATH)
    );
}

#[test]
fn the_inherited_value_counts_where_no_entry_sets_the_variable() {
    assert_eq!(
        plugin_path("/home/tester", &[], Some("/conf")),
        "/conf/opencode/plugin/aoe-status.js"
    );
    assert_eq!(
        plugin_path("/home/tester", &entries(&["FOO=bar"]), Some("/conf")),
        "/conf/opencode/plugin/aoe-status.js"
    );
    assert_eq!(
        plugin_path("/home/tester", &[], Some("")),
        "/home/tester/.config/opencode/plugin/aoe-status.js"
    );
    assert_eq!(
        plugin_path("/home/tester", &entries(&["XDG_CONFIG_HOME=/xdg"]), Some("/conf")),
        "/xdg/opencode/plugin/aoe-status.js"
    );
    assert_eq!(
        plugin_path("/home/tester", &entries(&["XDG_CONFIG_HOME="]), Some("/conf")),
        "/home/tester/.config/opencode/plugin/aoe-status.js"
    );
}

#[test]
fn the_last_entry_for_a_variable_decides() {
    let env = entries(&["A=1", "A=2", "AB=3", "A"]);
    assert_eq!(resolve_config_dir_override("A", &env, None), Some(b"2".to_vec()));
    assert_eq!(resolve_config_dir_override("AB", &env, None), Some(b"3".to_vec()));
    assert_eq!(resolve_config_dir_override("B", &env, None), None);
    assert_eq!(
        resolve_config_dir_override("A", &entries(&["A=x=y"]), None),
        Some(b"x=y".to_vec())
    );
}

#[test]
fn the_configuration_directory_follows_the_override() {
    assert_eq!(
        opencode_config_dir_in(b"/home/tester", &[], None),
        b"/home/tester/.config/opencode".to_vec()
    );
    assert_eq!(
        opencode_config_dir_in(b"/home/tester", &entries(&["XDG_CONFIG_HOME=/xdg/"]), None),
        b"/xdg/opencode".to_vec()
    );
    // A home directory need not be valid text.
    assert_eq!(
        opencode_config_dir_in(b"/home/\xff", &[], None),
        b"/home/\xff/.config/opencode".to_vec()
    );
}

#[test]
fn joining_goes_as_the_standard_library_has_it() {
    let parts = ["", "/", "a", "a/", "/a", "/a/b", ".", "./a", "a//b", "..", "/x/./y/"];
    for base in parts {
        for part in parts {
            let joined = String::from_utf8(join(base.as_bytes(), part.as_bytes())).unwrap();
            let expected = Path::new(base).join(part);
            assert_eq!(joined.as_str(), expected.to_str().unwrap(), "{base:?} and {part:?}");
        }
    }
}

#[test]
fn spellings_of_one_path_are_told_as_the_standard_library_tells_them() {
    let paths = [
        "", "/", "//", ".", "./", "./.", "..", "../", "a", "a/", "a/.", "./a", "././a", "a//b",
        "a/b", "a/./b", "a/b/", "/a", "//a", "/a/", "/./a", "/a/.", "/a/b", "/a//b", "/a/../b",
        "/b", ".a", "a.", "/.", "a/..", "a/b/c",
    ];
    for left in paths {
        for right in paths {
            assert_eq!(
                is_same_path(left.as_bytes(), right.as_bytes()),
                Path::new(left) == Path::new(right),
                "{left:?} and {right:?}"
            );
        }
    }
}

#[test]
fn both_subpaths_end_where_opencode_looks() {
    assert_eq!(
        OPENCODE_PLUGIN_SUBPATH.strip_prefix(".config/opencode/"),
        Some("plugin/aoe-status.js")
    );
    assert_eq!(
        OPENCODE_PLUGIN_SANDBOX_SUBPATH.strip_prefix(".config/opencode/sandbox/"),
        Some("plugin/aoe-status.js")
    );
}
