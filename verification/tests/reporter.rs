use opencode_hooks::events::{
    HookInstallTarget, HookStatus, ResolvedHookEvent, StatusCommands, StatusWriter,
};
use opencode_hooks::render::Group;
use opencode_hooks::reporter::{command_for, keys_for, registers_handlers, Report, Reporter};

fn words() -> StatusCommands {
    StatusCommands {
        running: "running".to_string(),
        waiting: "waiting".to_string(),
        idle: "idle".to_string(),
        error: "error".to_string(),
    }
}

fn writer() -> StatusWriter {
    StatusWriter {
        host: words(),
        sandbox: words(),
    }
}

fn opencode_events() -> Vec<ResolvedHookEvent> {
    [
        ("session.status:busy", Some(HookStatus::Running)),
        ("session.status:idle", Some(HookStatus::Idle)),
        ("tool.execute.before", Some(HookStatus::Running)),
        ("permission.asked", Some(HookStatus::Waiting)),
        ("session.error", Some(HookStatus::Error)),
        ("session.created", None),
    ]
    .iter()
    .map(|(name, status)| ResolvedHookEvent {
        name: name.to_string(),
        status: *status,
    })
    .collect()
}

fn ran(report: Report) -> Option<String> {
    match report {
        Report::Command(command) => Some(command),
        _ => None,
    }
}

fn command(word: &str) -> Report {
    Report::Command(word.to_string())
}

fn report(
    reporter: &mut Reporter,
    kind: &str,
    status: Option<&str>,
    session: Option<&str>,
) -> Report {
    reporter.report(
        &keys_for(kind, status),
        session,
        HookInstallTarget::Host,
        &opencode_events(),
        &writer(),
    )
}

#[test]
fn a_finished_subagent_is_not_reported_idle() {
    let mut reporter = Reporter::new();
    let mut recorded: Vec<String> = Vec::new();
    // The parent's turn starts.
    recorded.extend(ran(report(&mut reporter, "session.status", Some("busy"), Some("A"))));
    // A subagent starts working.
    recorded.extend(ran(report(&mut reporter, "tool.execute.before", None, Some("B"))));
    // The subagent is done, its parent is not.
    recorded.extend(ran(report(&mut reporter, "session.status", Some("idle"), Some("B"))));
    recorded.extend(ran(report(&mut reporter, "permission.asked", None, Some("A"))));
    // The parent is done.
    recorded.extend(ran(report(&mut reporter, "session.status", Some("idle"), Some("A"))));
    assert_eq!(recorded, ["running", "running", "waiting", "idle"]);
}

#[test]
fn nothing_is_registered_outside_a_session_of_ours() {
    assert!(!registers_handlers(None));
    assert!(!registers_handlers(Some("")));
    assert!(registers_handlers(Some("drivertest")));
}

#[test]
fn an_event_that_tells_a_status_goes_by_it_first() {
    assert_eq!(keys_for("session.status", Some("busy")), ["session.status:busy", "session.status"]);
    assert_eq!(keys_for("session.status", None), ["session.status"]);
    assert_eq!(keys_for("session.status", Some("")), ["session.status"]);
    assert_eq!(keys_for("permission.asked", Some("busy")), ["permission.asked"]);
}

#[test]
fn events_in_no_group_report_nothing() {
    let mut reporter = Reporter::new();
    assert_eq!(report(&mut reporter, "session.created", None, Some("A")), Report::Nothing);
    assert_eq!(report(&mut reporter, "session.status", Some("retry"), Some("A")), Report::Nothing);
    assert_eq!(report(&mut reporter, "session.status", Some("idle"), None), command("idle"));
}

#[test]
fn a_session_counts_once_however_often_it_is_busy() {
    let mut reporter = Reporter::new();
    for _ in 0..3 {
        assert_eq!(
            report(&mut reporter, "tool.execute.before", None, Some("A")),
            command("running")
        );
    }
    // An end that belongs to no session leaves A's turn in flight.
    assert_eq!(report(&mut reporter, "session.status", Some("idle"), None), Report::Nothing);
    assert_eq!(report(&mut reporter, "session.status", Some("idle"), Some("")), Report::Nothing);
    assert_eq!(
        report(&mut reporter, "session.status", Some("idle"), Some("A")),
        command("idle")
    );
}

#[test]
fn the_group_and_the_last_event_of_a_name_give_its_command() {
    let mut events = opencode_events();
    assert_eq!(
        command_for(Group::Other, HookInstallTarget::Host, &events, &writer(), "permission.asked"),
        Some("waiting".to_string())
    );
    assert_eq!(
        command_for(Group::Idle, HookInstallTarget::Host, &events, &writer(), "permission.asked"),
        None
    );
    events.push(ResolvedHookEvent {
        name: "permission.asked".to_string(),
        status: Some(HookStatus::Error),
    });
    assert_eq!(
        command_for(Group::Other, HookInstallTarget::Host, &events, &writer(), "permission.asked"),
        Some("error".to_string())
    );
}

#[test]
fn a_name_that_every_object_has_counts_as_a_turn_but_runs_no_command() {
    let mut reporter = Reporter::new();
    assert_eq!(report(&mut reporter, "toString", None, Some("A")), Report::NotACommand);
    // The session has a turn in flight now.
    assert_eq!(report(&mut reporter, "session.status", Some("idle"), Some("B")), Report::Nothing);
    assert_eq!(report(&mut reporter, "session.status", Some("idle"), Some("A")), command("idle"));

    let own: Vec<ResolvedHookEvent> = ["toString", "__proto__"]
        .iter()
        .map(|name| ResolvedHookEvent {
            name: name.to_string(),
            status: Some(HookStatus::Running),
        })
        .collect();
    let mut run = |name: &str| {
        reporter.report(&keys_for(name, None), None, HookInstallTarget::Host, &own, &writer())
    };
    // A member of that name hides what every object has, but for `__proto__`,
    // which a literal cannot give a string.
    assert_eq!(run("toString"), command("running"));
    assert_eq!(run("__proto__"), Report::NotACommand);
    assert_eq!(run("constructor"), Report::NotACommand);
}
