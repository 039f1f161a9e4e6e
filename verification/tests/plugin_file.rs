use opencode_hooks::events::{
    HookInstallTarget, HookStatus, ResolvedHookEvent, StatusCommands, StatusWriter,
};
use opencode_hooks::paths::is_same_path;
use opencode_hooks::plugin_file::{
    install_opencode_plugin_with_events, opencode_plugin_has_aoe_marker, refusal_message,
    uninstall_opencode_plugin, InstallAction, InstallError, UninstallReply,
    UninstallStep,
};
use opencode_hooks::render::render_opencode_plugin;
use opencode_hooks::template::AOE_PLUGIN_MARKER;
use std::collections::BTreeMap;

/// Files by path, and links by path to the path that they lead to.
struct Disk {
    files: BTreeMap<String, Vec<u8>>,
    links: BTreeMap<String, String>,
    /// Paths that cannot be removed.
    stuck: Vec<String>,
    writes: usize,
}

impl Disk {
    fn new() -> Disk {
        Disk {
            files: BTreeMap::new(),
            links: BTreeMap::new(),
            stuck: Vec::new(),
            writes: 0,
        }
    }

    fn resolve(&self, path: &str) -> String {
        match self.links.get(path) {
            Some(target) => self.resolve(target),
            None => path.to_string(),
        }
    }

    fn read(&self, path: &str) -> Option<Vec<u8>> {
        self.files.get(&self.resolve(path)).cloned()
    }

    fn remove(&mut self, path: &str) -> bool {
        if self.stuck.iter().any(|p| p == path) {
            return false;
        }
        self.files.remove(path).is_some() || self.links.remove(path).is_some()
    }

    fn install(&mut self, path: &str, events: &[ResolvedHookEvent]) -> Result<(), String> {
        let contents = self.read(path);
        let action = install_opencode_plugin_with_events(
            contents.is_some(),
            contents.as_deref(),
            HookInstallTarget::Host,
            events,
            &writer(),
        );
        match action {
            Ok(InstallAction::UpToDate) => Ok(()),
            Ok(InstallAction::Write(source)) => {
                let target = self.resolve(path);
                self.files.insert(target, source.into_bytes());
                self.writes += 1;
                Ok(())
            }
            Err(InstallError::NotOurs) => Err(refusal_message(path)),
            Err(InstallError::Render(error)) => Err(format!("{error:?}")),
        }
    }

    fn uninstall(&mut self, path: &str) -> Result<bool, ()> {
        let mut step = UninstallStep::Probe;
        loop {
            let reply = match &step {
                UninstallStep::Probe => UninstallReply::Exists(self.read(path).is_some()),
                UninstallStep::Read => UninstallReply::Contents(self.read(path)),
                UninstallStep::Resolve => {
                    UninstallReply::Target(Some(self.resolve(path).into_bytes()))
                }
                UninstallStep::RemoveTarget(target) => {
                    let target = String::from_utf8(target.clone()).unwrap();
                    UninstallReply::Removed(self.remove(&target))
                }
                UninstallStep::RemoveLink => UninstallReply::Removed(self.remove(path)),
                UninstallStep::Finished(removed) => return Ok(*removed),
                UninstallStep::Failed => return Err(()),
            };
            step = uninstall_opencode_plugin(path.as_bytes(), step, reply);
        }
    }
}

fn commands(base: &str) -> StatusCommands {
    let command = |status: HookStatus| {
        format!("printf {} > {}/$AOE_INSTANCE_ID/status # aoe-hooks", status.as_str(), base)
    };
    StatusCommands {
        running: command(HookStatus::Running),
        waiting: command(HookStatus::Waiting),
        idle: command(HookStatus::Idle),
        error: command(HookStatus::Error),
    }
}

fn writer() -> StatusWriter {
    StatusWriter {
        host: commands("/tmp/aoe-hooks-1000"),
        sandbox: commands("/tmp/aoe-hooks"),
    }
}

fn opencode_events() -> Vec<ResolvedHookEvent> {
    [
        ("session.status:busy", HookStatus::Running),
        ("session.status:idle", HookStatus::Idle),
        ("tool.execute.before", HookStatus::Running),
        ("permission.asked", HookStatus::Waiting),
    ]
    .iter()
    .map(|(name, status)| ResolvedHookEvent {
        name: name.to_string(),
        status: Some(*status),
    })
    .collect()
}

#[test]
fn test_install_then_uninstall_roundtrip() {
    let mut disk = Disk::new();
    let path = "/config/plugin/aoe-status.js";
    let events = opencode_events();

    disk.install(path, &events).unwrap();
    assert!(disk.read(path).is_some());
    assert!(opencode_plugin_has_aoe_marker(disk.read(path).as_deref()));

    // Re-install is idempotent down to the bytes, so the file's mtime is
    // not churned on every session launch.
    let first = disk.read(path);
    disk.install(path, &events).unwrap();
    assert_eq!(disk.read(path), first);
    assert_eq!(disk.writes, 1);

    assert!(disk.uninstall(path).unwrap());
    assert!(disk.read(path).is_none());
    // Nothing left to remove the second time.
    assert!(!disk.uninstall(path).unwrap());
}

#[test]
fn test_install_and_uninstall_through_a_symlinked_plugin_path() {
    let mut disk = Disk::new();
    let target = "/dotfiles/aoe-status.js";
    let link = "/plugin/aoe-status.js";
    disk.links.insert(link.to_string(), target.to_string());

    disk.install(link, &opencode_events()).unwrap();
    assert!(
        disk.links.contains_key(link),
        "install must write through the link, not replace it"
    );
    let text = String::from_utf8(disk.read(target).unwrap()).unwrap();
    assert!(text.contains(AOE_PLUGIN_MARKER));

    assert!(disk.uninstall(link).unwrap());
    assert!(!disk.files.contains_key(target), "generated content must not be stranded");
    assert!(
        !disk.links.contains_key(link),
        "a dangling link would make opencode log a plugin load failure on every launch"
    );
}

#[test]
fn test_a_foreign_plugin_at_our_path_is_left_alone() {
    let mut disk = Disk::new();
    let path = "/config/aoe-status.js";
    let foreign = "export const Mine = async () => ({})\n";
    disk.files.insert(path.to_string(), foreign.as_bytes().to_vec());

    let err = disk
        .install(path, &opencode_events())
        .expect_err("install must refuse a file it does not own");
    assert!(err.contains("refusing to overwrite"), "{err}");
    assert_eq!(disk.read(path).unwrap(), foreign.as_bytes());

    assert!(!disk.uninstall(path).unwrap());
    assert_eq!(disk.read(path).unwrap(), foreign.as_bytes());
}

#[test]
fn the_refusal_names_the_path() {
    assert_eq!(
        refusal_message("/x/aoe-status.js"),
        "refusing to overwrite /x/aoe-status.js: it is not an AoE-generated plugin"
    );
}

#[test]
fn a_link_that_cannot_be_removed_does_not_fail_the_removal() {
    let mut disk = Disk::new();
    let target = "/dotfiles/aoe-status.js";
    let link = "/plugin/aoe-status.js";
    disk.links.insert(link.to_string(), target.to_string());
    disk.install(link, &opencode_events()).unwrap();
    disk.stuck.push(link.to_string());
    assert_eq!(disk.uninstall(link), Ok(true));
    assert!(!disk.files.contains_key(target));
    assert!(disk.links.contains_key(link));
}

#[test]
fn a_plugin_that_cannot_be_removed_fails_the_removal() {
    let mut disk = Disk::new();
    let path = "/config/aoe-status.js";
    disk.install(path, &opencode_events()).unwrap();
    disk.stuck.push(path.to_string());
    assert_eq!(disk.uninstall(path), Err(()));
    assert!(disk.read(path).is_some());
}

#[test]
fn a_path_that_cannot_be_resolved_fails_the_removal() {
    let next = uninstall_opencode_plugin(
        b"/p",
        UninstallStep::Resolve,
        UninstallReply::Target(None),
    );
    assert!(matches!(next, UninstallStep::Failed));
}

#[test]
fn another_spelling_of_the_path_is_no_link() {
    let next = uninstall_opencode_plugin(
        b"/a//b",
        UninstallStep::RemoveTarget(b"/a/b".to_vec()),
        UninstallReply::Removed(true),
    );
    assert!(is_same_path(b"/a//b", b"/a/b"));
    assert!(matches!(next, UninstallStep::Finished(true)));
}

#[test]
fn a_plugin_for_other_events_replaces_the_installed_one() {
    let mut disk = Disk::new();
    let path = "/config/aoe-status.js";
    let mut events = opencode_events();
    disk.install(path, &events).unwrap();
    let first = disk.read(path);
    events.pop();
    disk.install(path, &events).unwrap();
    assert_eq!(disk.writes, 2);
    assert_ne!(disk.read(path), first);
    assert!(disk.uninstall(path).unwrap());
}

#[test]
fn the_marker_counts_in_readable_text_only() {
    assert!(!opencode_plugin_has_aoe_marker(None));
    assert!(!opencode_plugin_has_aoe_marker(Some(b"")));
    assert!(opencode_plugin_has_aoe_marker(Some(AOE_PLUGIN_MARKER.as_bytes())));
    let mut text = "\u{e9} ".as_bytes().to_vec();
    text.extend_from_slice(AOE_PLUGIN_MARKER.as_bytes());
    text.extend_from_slice(b" and more");
    assert!(opencode_plugin_has_aoe_marker(Some(&text)));
    assert!(!opencode_plugin_has_aoe_marker(Some(b"aoe-opencode-status-plugin:v")));
    text.push(0xff);
    assert!(!opencode_plugin_has_aoe_marker(Some(&text)));
}

#[test]
fn a_file_that_exists_but_cannot_be_read_is_refused() {
    let action = install_opencode_plugin_with_events(
        true,
        None,
        HookInstallTarget::Host,
        &opencode_events(),
        &writer(),
    );
    assert!(matches!(action, Err(InstallError::NotOurs)));
}

#[test]
fn what_is_written_is_the_rendering() {
    let events = opencode_events();
    let rendered = render_opencode_plugin(HookInstallTarget::Sandbox, &events, &writer()).unwrap();
    let action = install_opencode_plugin_with_events(
        false,
        None,
        HookInstallTarget::Sandbox,
        &events,
        &writer(),
    );
    match action {
        Ok(InstallAction::Write(source)) => assert_eq!(source, rendered),
        other => panic!("{other:?}"),
    }
}

#[test]
fn a_reply_that_was_not_asked_for_fails_the_removal() {
    let pairs = vec![
        (UninstallStep::Probe, UninstallReply::Removed(true)),
        (UninstallStep::Read, UninstallReply::Exists(true)),
        (UninstallStep::RemoveLink, UninstallReply::Contents(None)),
        (UninstallStep::Finished(true), UninstallReply::Removed(true)),
        (UninstallStep::Failed, UninstallReply::Removed(true)),
    ];
    for (step, reply) in pairs {
        let next = uninstall_opencode_plugin(b"/p", step, reply);
        assert!(matches!(next, UninstallStep::Failed));
    }
}
