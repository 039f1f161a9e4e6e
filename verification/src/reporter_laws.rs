//! What holds of the statuses that a session reports.

use crate::events::{HookInstallTarget, HookStatus, ResolvedHookEvent, StatusWriter};
use crate::render::{group_commands, Group};
use crate::render_laws::{
    gives, is_last_other, law_idle_group_runs_the_idle_command,
    law_other_group_holds_the_other_statuses, law_other_group_runs_the_last_command,
    law_running_group_runs_the_running_command,
};
use crate::reporter::{
    deciding, event_keys, group_maps, is_inherited, present, reaction, running_entry, strings_view,
    with_session, without_session, GroupMaps, Handed, Report, STATUS_EVENT, STATUS_SEPARATOR,
};
use vstd::prelude::*;

verus! {

/// An event as it comes in: the names that it goes by, and its session.
pub struct Signal {
    pub keys: Seq<Seq<char>>,
    pub session: Option<Seq<char>>,
}

/// The event starts or continues a turn of the session.
pub open spec fn begins(signal: Signal, id: Seq<char>, maps: GroupMaps) -> bool {
    signal.session == Some(id) && deciding(signal.keys, maps) matches Some((Group::Running, _))
}

/// The event ends the turn of the session.
pub open spec fn ends(signal: Signal, id: Seq<char>, maps: GroupMaps) -> bool {
    signal.session == Some(id) && deciding(signal.keys, maps) matches Some((Group::Idle, _))
}

/// The sessions with a turn in flight after the events, none having had one
/// before.
pub open spec fn active_after(signals: Seq<Signal>, maps: GroupMaps) -> Set<Seq<char>>
    decreases signals.len(),
{
    if signals.len() == 0 {
        Set::empty()
    } else {
        reaction(
            active_after(signals.drop_last(), maps),
            signals.last().keys,
            signals.last().session,
            maps,
        ).0
    }
}

/// The session's turn began at the event `at` and did not end after it.
pub open spec fn in_flight_since(
    signals: Seq<Signal>,
    id: Seq<char>,
    maps: GroupMaps,
    at: int,
) -> bool {
    &&& 0 <= at < signals.len()
    &&& begins(signals[at], id, maps)
    &&& forall|j: int| at < j < signals.len() ==> !ends(#[trigger] signals[j], id, maps)
}

/// A session has a turn in flight exactly where an event began one and none has
/// ended it since.
pub proof fn law_turns_in_flight(signals: Seq<Signal>, id: Seq<char>, maps: GroupMaps)
    ensures
        active_after(signals, maps).contains(id) <==> exists|at: int|
            in_flight_since(signals, id, maps, at),
    decreases signals.len(),
{
    if signals.len() > 0 {
        let earlier = signals.drop_last();
        let last = signals.last();
        let end = signals.len() - 1;
        assert(signals[end] == last);
        law_turns_in_flight(earlier, id, maps);
        if begins(last, id, maps) {
            assert(in_flight_since(signals, id, maps, end));
            assert(active_after(signals, maps).contains(id));
        } else if ends(last, id, maps) {
            assert(!active_after(signals, maps).contains(id));
            assert forall|at: int| !in_flight_since(signals, id, maps, at) by {
                if 0 <= at < end {
                    assert(ends(signals[end], id, maps));
                }
            }
        } else {
            assert(active_after(signals, maps).contains(id) == active_after(
                earlier,
                maps,
            ).contains(id));
            if exists|at: int| in_flight_since(earlier, id, maps, at) {
                let at = choose|at: int| in_flight_since(earlier, id, maps, at);
                assert(signals[at] == earlier[at]);
                assert forall|j: int| at < j < signals.len() implies !ends(
                    #[trigger] signals[j],
                    id,
                    maps,
                ) by {
                    if j < end {
                        assert(signals[j] == earlier[j]);
                    }
                }
                assert(in_flight_since(signals, id, maps, at));
            }
            if exists|at: int| in_flight_since(signals, id, maps, at) {
                let at = choose|at: int| in_flight_since(signals, id, maps, at);
                assert(earlier[at] == signals[at]);
                assert forall|j: int| at < j < earlier.len() implies !ends(
                    #[trigger] earlier[j],
                    id,
                    maps,
                ) by {
                    assert(signals[j] == earlier[j]);
                }
                assert(in_flight_since(earlier, id, maps, at));
            }
        }
    }
}

/// The end of a turn is not reported while another session has one in flight,
/// and that session's turn goes on.
pub proof fn law_idle_waits_for_every_session(
    active: Set<Seq<char>>,
    signal: Signal,
    maps: GroupMaps,
    busy: Seq<char>,
)
    requires
        deciding(signal.keys, maps) matches Some((Group::Idle, _)),
        active.contains(busy),
        signal.session != Some(busy),
    ensures
        reaction(active, signal.keys, signal.session, maps).1 is Nothing,
        reaction(active, signal.keys, signal.session, maps).0.contains(busy),
{
    let left = without_session(active, signal.session);
    assert(left.contains(busy));
}

/// The end of a turn is reported once no session has one in flight, and only
/// then.
pub proof fn law_idle_is_reported_when_all_is_quiet(
    active: Set<Seq<char>>,
    signal: Signal,
    maps: GroupMaps,
)
    requires
        deciding(signal.keys, maps) matches Some((Group::Idle, _)),
    ensures
        reaction(active, signal.keys, signal.session, maps).1 == if forall|id: Seq<char>|
            #[trigger] active.contains(id) ==> signal.session == Some(id) {
            Handed::Command(maps.idle[deciding(signal.keys, maps)->Some_0.1])
        } else {
            Handed::Nothing
        },
{
    let left = without_session(active, signal.session);
    if forall|id: Seq<char>| #[trigger] active.contains(id) ==> signal.session == Some(id) {
        assert forall|id: Seq<char>| !left.contains(id) by {
            if left.contains(id) {
                assert(active.contains(id));
            }
        }
        assert(left =~= Set::<Seq<char>>::empty());
    } else {
        let id = choose|id: Seq<char>| #[trigger]
            active.contains(id) && signal.session != Some(id);
        assert(left.contains(id));
    }
}

/// An event of a turn that goes on is always reported, and one that is neither
/// is reported without touching the sessions.
pub proof fn law_other_statuses_are_reported_at_once(
    active: Set<Seq<char>>,
    signal: Signal,
    maps: GroupMaps,
)
    ensures
        deciding(signal.keys, maps) matches Some((Group::Running, key)) ==> reaction(
            active,
            signal.keys,
            signal.session,
            maps,
        ) == (with_session(active, signal.session), running_entry(key, maps)),
        deciding(signal.keys, maps) matches Some((Group::Other, key)) ==> reaction(
            active,
            signal.keys,
            signal.session,
            maps,
        ) == (active, Handed::Command(maps.other[key])),
        deciding(signal.keys, maps) is None ==> reaction(
            active,
            signal.keys,
            signal.session,
            maps,
        ) == (active, Handed::Nothing),
{
}

/// An event of a turn that goes on runs the command that its group gives to the
/// name that decides, unless every JavaScript object has that name.
pub proof fn law_running_events_run_their_command(keys: Seq<Seq<char>>, maps: GroupMaps)
    requires
        deciding(keys, maps) matches Some((Group::Running, key)) && !is_inherited(key),
    ensures
        maps.running.contains_key(deciding(keys, maps)->Some_0.1),
        running_entry(deciding(keys, maps)->Some_0.1, maps) == Handed::Command(
            maps.running[deciding(keys, maps)->Some_0.1],
        ),
    decreases keys.len(),
{
    if !is_inherited(keys[0]) && !maps.running.contains_key(keys[0]) {
        law_running_events_run_their_command(keys.drop_first(), maps);
    }
}

/// A subagent that finishes while its parent's turn goes on does not report the
/// parent idle; the parent's own end does.
pub proof fn law_finished_subagent_is_not_reported(
    parent: Seq<char>,
    subagent: Seq<char>,
    parent_starts: Signal,
    subagent_starts: Signal,
    subagent_ends: Signal,
    parent_ends: Signal,
    maps: GroupMaps,
)
    requires
        parent != subagent,
        begins(parent_starts, parent, maps),
        begins(subagent_starts, subagent, maps),
        ends(subagent_ends, subagent, maps),
        ends(parent_ends, parent, maps),
    ensures
        ({
            let busy = active_after(seq![parent_starts, subagent_starts], maps);
            let waiting = active_after(
                seq![parent_starts, subagent_starts, subagent_ends],
                maps,
            );
            &&& reaction(busy, subagent_ends.keys, subagent_ends.session, maps).1 is Nothing
            &&& waiting == set![parent]
            &&& reaction(waiting, parent_ends.keys, parent_ends.session, maps).1 == Handed::Command(
                maps.idle[deciding(parent_ends.keys, maps)->Some_0.1],
            )
        }),
{
    let one = seq![parent_starts];
    let two = seq![parent_starts, subagent_starts];
    let three = seq![parent_starts, subagent_starts, subagent_ends];
    assert(three.drop_last() =~= two);
    assert(two.drop_last() =~= one);
    assert(one.drop_last() =~= Seq::<Signal>::empty());
    assert(active_after(Seq::<Signal>::empty(), maps) =~= Set::<Seq<char>>::empty());
    assert(active_after(one, maps) =~= set![parent]);
    assert(active_after(two, maps) =~= set![parent, subagent]);
    law_idle_waits_for_every_session(active_after(two, maps), subagent_ends, maps, parent);
    assert(active_after(three, maps) =~= set![parent]);
    law_idle_is_reported_when_all_is_quiet(active_after(three, maps), parent_ends, maps);
}

/// An event that tells a status is decided by that status where it is mapped,
/// and by its kind alone where it is not.
pub proof fn law_told_status_decides(status: Seq<char>, maps: GroupMaps)
    ensures
        ({
            let told = STATUS_EVENT@ + STATUS_SEPARATOR@ + status;
            let decided = deciding(event_keys(STATUS_EVENT@, Some(status)), maps);
            if deciding(seq![told], maps) is Some {
                decided == deciding(seq![told], maps)
            } else {
                decided == deciding(seq![STATUS_EVENT@], maps)
            }
        }),
{
    let keys = event_keys(STATUS_EVENT@, Some(status));
    let told = STATUS_EVENT@ + STATUS_SEPARATOR@ + status;
    assert(keys.drop_first() =~= seq![STATUS_EVENT@]);
    assert(seq![told].drop_first() =~= Seq::<Seq<char>>::empty());
    assert(deciding(Seq::<Seq<char>>::empty(), maps) is None);
}

/// The names that every JavaScript object has are these twelve and no others.
pub proof fn law_names_of_every_object(name: Seq<char>)
    ensures
        is_inherited(name) <==> {
            ||| name == "__proto__"@
            ||| name == "constructor"@
            ||| name == "hasOwnProperty"@
            ||| name == "isPrototypeOf"@
            ||| name == "propertyIsEnumerable"@
            ||| name == "toLocaleString"@
            ||| name == "toString"@
            ||| name == "valueOf"@
            ||| name == "__defineGetter__"@
            ||| name == "__defineSetter__"@
            ||| name == "__lookupGetter__"@
            ||| name == "__lookupSetter__"@
        },
{
}

/// The name is in none of the groups, and not every object has it.
pub open spec fn is_unknown(name: Seq<char>, maps: GroupMaps) -> bool {
    &&& !is_inherited(name)
    &&& !maps.running.contains_key(name)
    &&& !maps.idle.contains_key(name)
    &&& !maps.other.contains_key(name)
}

/// Unknown names in front make no difference.
proof fn lemma_unknown_names_are_skipped(keys: Seq<Seq<char>>, maps: GroupMaps, at: int)
    requires
        0 <= at <= keys.len(),
        forall|j: int| 0 <= j < at ==> is_unknown(#[trigger] keys[j], maps),
    ensures
        deciding(keys, maps) == deciding(keys.skip(at), maps),
    decreases at,
{
    if at == 0 {
        assert(keys.skip(0) =~= keys);
    } else {
        let rest = keys.drop_first();
        assert(is_unknown(keys[0], maps));
        assert forall|j: int| 0 <= j < at - 1 implies is_unknown(#[trigger] rest[j], maps) by {
            assert(rest[j] == keys[j + 1]);
        }
        lemma_unknown_names_are_skipped(rest, maps, at - 1);
        assert(rest.skip(at - 1) =~= keys.skip(at));
    }
}

/// An event is decided by the first of its names that any of the groups has, or
/// that every object has. Where that name is of a running turn, the session joins
/// those with a turn in flight and the name's running command is run, unless what
/// every object has stands in its place. Where it is of an ended turn, the session
/// leaves them, and the name's idle command is run if none is left. Where it is in
/// the remaining group alone, the sessions stay and the name's command is run.
pub proof fn law_first_known_name_decides(
    active: Set<Seq<char>>,
    keys: Seq<Seq<char>>,
    session: Option<Seq<char>>,
    maps: GroupMaps,
    at: int,
)
    requires
        0 <= at < keys.len(),
        forall|j: int|
            0 <= j < at ==> !is_inherited(#[trigger] keys[j]) && !maps.running.contains_key(keys[j])
                && !maps.idle.contains_key(keys[j]) && !maps.other.contains_key(keys[j]),
    ensures
        is_inherited(keys[at]) || maps.running.contains_key(keys[at]) ==> forall|id: Seq<char>|
            #[trigger] reaction(active, keys, session, maps).0.contains(id) <==> active.contains(id)
                || session == Some(id),
        maps.running.contains_key(keys[at]) && keys[at] != "__proto__"@ ==> reaction(
            active,
            keys,
            session,
            maps,
        ).1 == Handed::Command(maps.running[keys[at]]),
        keys[at] == "__proto__"@ || (is_inherited(keys[at]) && !maps.running.contains_key(keys[at]))
            ==> reaction(active, keys, session, maps).1 is NotACommand,
        !is_inherited(keys[at]) && !maps.running.contains_key(keys[at]) && maps.idle.contains_key(
            keys[at],
        ) ==> {
            &&& forall|id: Seq<char>| #[trigger]
                reaction(active, keys, session, maps).0.contains(id) <==> active.contains(id)
                    && session != Some(id)
            &&& (exists|id: Seq<char>| #[trigger] active.contains(id) && session != Some(id))
                ==> reaction(active, keys, session, maps).1 is Nothing
            &&& (forall|id: Seq<char>| #[trigger] active.contains(id) ==> session == Some(id))
                ==> reaction(active, keys, session, maps).1 == Handed::Command(maps.idle[keys[at]])
        },
        !is_inherited(keys[at]) && !maps.running.contains_key(keys[at]) && !maps.idle.contains_key(
            keys[at],
        ) && maps.other.contains_key(keys[at]) ==> reaction(active, keys, session, maps) == (
            active,
            Handed::Command(maps.other[keys[at]]),
        ),
{
    assert forall|j: int| 0 <= j < at implies is_unknown(#[trigger] keys[j], maps) by {
        assert(!is_inherited(keys[j]));
    }
    lemma_unknown_names_are_skipped(keys, maps, at);
    assert(keys.skip(at)[0] == keys[at]);
    law_names_of_every_object(keys[at]);
    let left = without_session(active, session);
    if exists|id: Seq<char>| #[trigger] active.contains(id) && session != Some(id) {
        let id = choose|id: Seq<char>| #[trigger] active.contains(id) && session != Some(id);
        assert(left.contains(id));
    } else {
        assert forall|id: Seq<char>| !left.contains(id) by {
            if left.contains(id) {
                assert(active.contains(id));
            }
        }
        assert(left =~= Set::<Seq<char>>::empty());
    }
}

/// An event none of whose names is in any group, nor one that every object has,
/// changes nothing and hands nothing to the shell.
pub proof fn law_unknown_event_does_nothing(
    active: Set<Seq<char>>,
    keys: Seq<Seq<char>>,
    session: Option<Seq<char>>,
    maps: GroupMaps,
)
    requires
        forall|j: int|
            0 <= j < keys.len() ==> !is_inherited(#[trigger] keys[j]) && !maps.running.contains_key(
                keys[j],
            ) && !maps.idle.contains_key(keys[j]) && !maps.other.contains_key(keys[j]),
    ensures
        reaction(active, keys, session, maps) == (active, Handed::Nothing),
{
    assert forall|j: int| 0 <= j < keys.len() implies is_unknown(#[trigger] keys[j], maps) by {
        assert(!is_inherited(keys[j]));
    }
    lemma_unknown_names_are_skipped(keys, maps, keys.len() as int);
    assert(keys.skip(keys.len() as int) =~= Seq::<Seq<char>>::empty());
    assert(deciding(Seq::<Seq<char>>::empty(), maps) is None);
}

/// Nothing is handed to the shell only where no group has any of the names, or
/// where the first name that one has is of an ended turn and another session has
/// a turn in flight.
pub proof fn law_why_nothing_is_handed(
    active: Set<Seq<char>>,
    keys: Seq<Seq<char>>,
    session: Option<Seq<char>>,
    maps: GroupMaps,
    at: int,
)
    requires
        reaction(active, keys, session, maps).1 is Nothing,
        0 <= at < keys.len(),
        maps.running.contains_key(keys[at]) || maps.idle.contains_key(keys[at])
            || maps.other.contains_key(keys[at]),
    ensures
        exists|first: int|
            0 <= first <= at && maps.idle.contains_key(#[trigger] keys[first])
                && !maps.running.contains_key(keys[first]),
        exists|id: Seq<char>| #[trigger] active.contains(id) && session != Some(id),
{
    let first = lemma_first_known_name(keys, maps, at);
    law_first_known_name_decides(active, keys, session, maps, first);
    law_names_of_every_object(keys[first]);
    assert(!maps.running.contains_key(keys[first]) && maps.idle.contains_key(keys[first]));
}

/// The first of the names that is known, where the one at `at` is.
proof fn lemma_first_known_name(keys: Seq<Seq<char>>, maps: GroupMaps, at: int) -> (first: int)
    requires
        0 <= at < keys.len(),
        !is_unknown(keys[at], maps),
    ensures
        0 <= first <= at,
        !is_unknown(keys[first], maps),
        forall|j: int| 0 <= j < first ==> is_unknown(#[trigger] keys[j], maps),
    decreases at,
{
    if exists|j: int| 0 <= j < at && !is_unknown(#[trigger] keys[j], maps) {
        let j = choose|j: int| 0 <= j < at && !is_unknown(#[trigger] keys[j], maps);
        lemma_first_known_name(keys, maps, j)
    } else {
        at
    }
}

/// An event goes by its kind. One of the kind `session.status` that tells a
/// status goes by the two with a colon between them before that, and by nothing
/// else.
pub proof fn law_names_of_an_event(kind: Seq<char>, status: Seq<char>)
    ensures
        event_keys(kind, None) == seq![kind],
        kind != "session.status"@ ==> event_keys(kind, Some(status)) == seq![kind],
        event_keys("session.status"@, Some(status)) == seq![
            "session.status:"@ + status,
            "session.status"@,
        ],
{
    reveal_strlit("session.status");
    reveal_strlit(":");
    reveal_strlit("session.status:");
    assert("session.status"@ + ":"@ =~= "session.status:"@);
}

/// A value counts as there where it is not empty, and is then its text; texts
/// keep their order.
pub proof fn law_values_are_their_texts(value: &str, strings: Seq<String>, at: int)
    requires
        0 <= at < strings.len(),
    ensures
        value@.len() > 0 ==> present(Some(value)) == Some(value@),
        value@.len() == 0 ==> present(Some(value)) is None,
        present(None) is None,
        strings_view(strings).len() == strings.len(),
        strings_view(strings)[at] == strings[at]@,
{
}

/// What is handed to the shell is told apart by what it is, and a command by its
/// text.
pub proof fn law_report_is_what_is_handed(report: Report)
    ensures
        report.view() is Nothing <==> report is Nothing,
        report.view() is NotACommand <==> report is NotACommand,
        report matches Report::Command(command) ==> report.view() == Handed::Command(command@),
{
}

/// An event that goes by one name, which not every object has, does what the
/// statuses of the events of that name say, with the commands that the writer has
/// for them: the running status goes first, then the idle status, then the last
/// of the others. A name that has no status does nothing.
pub proof fn law_event_does_what_its_status_says(
    active: Set<Seq<char>>,
    name: Seq<char>,
    session: Option<Seq<char>>,
    target: HookInstallTarget,
    events: Seq<ResolvedHookEvent>,
    writer: StatusWriter,
    at: int,
)
    requires
        !is_inherited(name),
    ensures
        ({
            let (after, handed) = reaction(
                active,
                seq![name],
                session,
                group_maps(target, events, writer),
            );
            let runs = gives(events, name, HookStatus::Running);
            let ends_turn = gives(events, name, HookStatus::Idle);
            &&& runs ==> {
                &&& forall|id: Seq<char>| #[trigger]
                    after.contains(id) <==> active.contains(id) || session == Some(id)
                &&& handed == Handed::Command(
                    match target {
                        HookInstallTarget::Host => writer.host.running@,
                        HookInstallTarget::Sandbox => writer.sandbox.running@,
                    },
                )
            }
            &&& !runs && ends_turn ==> {
                &&& forall|id: Seq<char>| #[trigger]
                    after.contains(id) <==> active.contains(id) && session != Some(id)
                &&& (exists|id: Seq<char>| #[trigger] active.contains(id) && session != Some(id))
                    ==> handed is Nothing
                &&& (forall|id: Seq<char>| #[trigger] active.contains(id) ==> session == Some(id))
                    ==> handed == Handed::Command(
                    match target {
                        HookInstallTarget::Host => writer.host.idle@,
                        HookInstallTarget::Sandbox => writer.sandbox.idle@,
                    },
                )
            }
            &&& !runs && !ends_turn && is_last_other(events, at) && events[at].name@ == name ==> {
                &&& after == active
                &&& handed == Handed::Command(
                    match (target, events[at].status->Some_0) {
                        (HookInstallTarget::Host, HookStatus::Waiting) => writer.host.waiting@,
                        (HookInstallTarget::Host, _) => writer.host.error@,
                        (HookInstallTarget::Sandbox, HookStatus::Waiting) => {
                            writer.sandbox.waiting@
                        },
                        (HookInstallTarget::Sandbox, _) => writer.sandbox.error@,
                    },
                )
            }
            &&& !runs && !ends_turn && !gives(events, name, HookStatus::Waiting) && !gives(
                events,
                name,
                HookStatus::Error,
            ) ==> after == active && handed is Nothing
        }),
{
    let maps = group_maps(target, events, writer);
    let keys = seq![name];
    law_running_group_runs_the_running_command(target, events, writer, name);
    law_idle_group_runs_the_idle_command(target, events, writer, name);
    law_other_group_holds_the_other_statuses(target, events, writer, name);
    if is_last_other(events, at) {
        law_other_group_runs_the_last_command(target, events, writer, at);
    }
    law_names_of_every_object(name);
    law_first_known_name_decides(active, keys, session, maps, 0);
    assert(keys[0] == name);
    if is_unknown(name, maps) {
        law_unknown_event_does_nothing(active, keys, session, maps);
    }
}

/// Events are decided by the very groups that the rendering shows, with every
/// name and command in them.
pub proof fn law_reports_go_by_the_groups_of_the_plugin(
    target: HookInstallTarget,
    events: Seq<ResolvedHookEvent>,
    writer: StatusWriter,
    name: Seq<char>,
)
    ensures
        group_maps(target, events, writer).running.contains_key(name) <==> gives(
            events,
            name,
            HookStatus::Running,
        ),
        group_maps(target, events, writer).idle.contains_key(name) <==> gives(
            events,
            name,
            HookStatus::Idle,
        ),
        group_maps(target, events, writer).other.contains_key(name) <==> gives(
            events,
            name,
            HookStatus::Waiting,
        ) || gives(events, name, HookStatus::Error),
        group_maps(target, events, writer).running == group_commands(
            Group::Running,
            target,
            events,
            writer,
        ),
        group_maps(target, events, writer).idle == group_commands(
            Group::Idle,
            target,
            events,
            writer,
        ),
        group_maps(target, events, writer).other == group_commands(
            Group::Other,
            target,
            events,
            writer,
        ),
{
    law_running_group_runs_the_running_command(target, events, writer, name);
    law_idle_group_runs_the_idle_command(target, events, writer, name);
    law_other_group_holds_the_other_statuses(target, events, writer, name);
}

} // verus!
