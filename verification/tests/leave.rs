use matrix_migrate::leave::{
    decide_leave, leave_candidates, plan_candidates, LeaveAction, LeaveDecision, LeaveEvent,
    LeaveObservation, LeaveSupervisor,
};
use matrix_migrate::reconcile::reconcile;
use matrix_migrate::room::RoomSet;
use matrix_migrate::snapshot::{MemberLookup, MemberRecord, MembershipState, RoomSnapshot};

fn set_of(ids: &[&str]) -> RoomSet {
    let texts: Vec<String> = ids.iter().map(|s| s.to_string()).collect();
    RoomSet::from_strings(&texts)
}

fn joined(level: i64) -> MemberLookup {
    MemberLookup::Found(MemberRecord { state: MembershipState::Joined, level })
}

fn found(level: Option<i64>) -> MemberLookup {
    match level {
        Some(level) => joined(level),
        None => MemberLookup::NotFound,
    }
}

fn look(source: Option<i64>, destination: Option<i64>) -> LeaveObservation {
    LeaveObservation {
        source: found(source),
        destination: found(destination),
        member_count: 5,
        named: true,
    }
}

fn observed(action: &LeaveAction) -> String {
    match action {
        LeaveAction::Observe(room) => room.as_str().to_string(),
        other => panic!("expected an observation, got {:?}", other),
    }
}

#[test]
fn leave_needs_equal_or_higher_privilege() {
    assert_eq!(decide_leave(look(Some(100), Some(50)), false), LeaveDecision::SkipUnderPrivileged);
    assert_eq!(decide_leave(look(Some(100), Some(99)), false), LeaveDecision::SkipUnderPrivileged);
    assert_eq!(
        decide_leave(look(Some(100), Some(100)), false),
        LeaveDecision::Leave { mark_direct: false }
    );
    assert_eq!(
        decide_leave(look(Some(0), Some(100)), false),
        LeaveDecision::Leave { mark_direct: false }
    );
    assert_eq!(
        decide_leave(look(Some(i64::MAX), Some(i64::MIN)), false),
        LeaveDecision::SkipUnderPrivileged
    );
}

#[test]
fn leave_is_never_decided_below_source_privilege() {
    for source in -3..4 {
        for destination in -3..4 {
            for dry_run in [false, true] {
                let decision = decide_leave(look(Some(source), Some(destination)), dry_run);
                if decision.is_mutating() {
                    assert!(destination >= source);
                    assert!(!dry_run);
                }
                if destination < source {
                    assert_eq!(decision, LeaveDecision::SkipUnderPrivileged);
                }
            }
        }
    }
}

#[test]
fn leave_skips_missing_members() {
    assert_eq!(decide_leave(look(None, Some(50)), false), LeaveDecision::SkipSourceAbsent);
    assert_eq!(decide_leave(look(None, None), false), LeaveDecision::SkipSourceAbsent);
    assert_eq!(decide_leave(look(Some(50), None), false), LeaveDecision::SkipDestinationAbsent);
}

#[test]
fn leave_counts_joined_members_only() {
    let invited = MemberLookup::Found(MemberRecord { state: MembershipState::Invited, level: 100 });
    let gone = MemberLookup::Found(MemberRecord { state: MembershipState::Absent, level: 100 });
    let waiting = LeaveObservation { destination: invited, ..look(Some(50), None) };
    assert_eq!(decide_leave(waiting, false), LeaveDecision::SkipDestinationAbsent);
    let departed = LeaveObservation { source: gone, ..look(None, Some(100)) };
    assert_eq!(decide_leave(departed, false), LeaveDecision::SkipSourceAbsent);
}

#[test]
fn leave_treats_a_failed_lookup_as_not_joined() {
    let blind = LeaveObservation { source: MemberLookup::Failed, ..look(None, Some(100)) };
    assert_eq!(decide_leave(blind, false), LeaveDecision::SkipSourceAbsent);
    let half = LeaveObservation { destination: MemberLookup::Failed, ..look(Some(0), None) };
    assert_eq!(decide_leave(half, false), LeaveDecision::SkipDestinationAbsent);
}

#[test]
fn leaves_are_asked_for_exactly_the_safe_rooms_in_order() {
    let sights = [
        look(Some(10), Some(10)),
        look(Some(10), Some(9)),
        look(None, Some(50)),
        look(Some(0), Some(50)),
        look(Some(5), None),
        look(Some(-1), Some(0)),
    ];
    let mut supervisor = LeaveSupervisor::new(set_of(&["A", "B", "C", "D", "E", "F"]), false);
    let mut observed = Vec::new();
    let mut left = Vec::new();
    let mut action = supervisor.next_action();
    loop {
        action = match action {
            LeaveAction::Observe(room) => {
                let sight = sights[observed.len()];
                observed.push(room.as_str().to_string());
                supervisor.step(LeaveEvent::Observed(sight))
            }
            LeaveAction::Leave(room) => {
                left.push(room.as_str().to_string());
                supervisor.step(LeaveEvent::Left(true))
            }
            LeaveAction::MarkDirect(_) => supervisor.step(LeaveEvent::Marked(true)),
            LeaveAction::Finish => break,
        };
    }
    assert_eq!(observed, vec!["A", "B", "C", "D", "E", "F"]);
    assert_eq!(left, vec!["A", "D", "F"]);
}

#[test]
fn leave_dry_run_changes_nothing() {
    let decision = decide_leave(look(Some(50), Some(50)), true);
    assert_eq!(decision, LeaveDecision::WouldLeave);
    assert!(!decision.is_mutating());
    assert_eq!(decide_leave(look(Some(100), Some(50)), true), LeaveDecision::SkipUnderPrivileged);
}

#[test]
fn unnamed_room_of_two_becomes_direct() {
    let private = LeaveObservation {
        source: joined(0),
        destination: joined(0),
        member_count: 2,
        named: false,
    };
    let named = LeaveObservation { named: true, ..private };
    let three = LeaveObservation { member_count: 3, ..private };
    let alone = LeaveObservation { member_count: 1, ..private };
    assert_eq!(decide_leave(private, false), LeaveDecision::Leave { mark_direct: true });
    assert_eq!(decide_leave(named, false), LeaveDecision::Leave { mark_direct: false });
    assert_eq!(decide_leave(three, false), LeaveDecision::Leave { mark_direct: false });
    assert_eq!(decide_leave(alone, false), LeaveDecision::Leave { mark_direct: false });
}

#[test]
fn candidates_are_rooms_the_destination_joined() {
    let source = set_of(&["A", "B", "C", "D"]);
    let fresh = RoomSnapshot::new(set_of(&["D", "B", "X"]), set_of(&["C"]));
    assert_eq!(
        leave_candidates(&source, &fresh).to_strings(),
        vec!["B".to_string(), "D".to_string()]
    );
}

#[test]
fn candidates_of_a_plan_are_its_source_rooms_now_joined() {
    let source = set_of(&["A", "B", "C"]);
    let before = RoomSnapshot::new(set_of(&["B"]), RoomSet::new());
    let plan = reconcile(&source, &before).unwrap();
    assert_eq!(plan.source().to_strings(), vec!["A", "B", "C"]);
    let fresh = RoomSnapshot::new(set_of(&["C", "B", "Z"]), set_of(&["A"]));
    assert_eq!(plan_candidates(&plan, &fresh).to_strings(), vec!["B", "C"]);
}

#[test]
fn supervisor_walks_the_rooms_in_order() {
    let mut supervisor = LeaveSupervisor::new(set_of(&["A", "B", "C"]), false);
    assert_eq!(observed(&supervisor.next_action()), "A");
    let action = supervisor.step(LeaveEvent::Observed(look(Some(100), Some(50))));
    assert_eq!(observed(&action), "B");
    let action = supervisor.step(LeaveEvent::Observed(look(Some(50), Some(50))));
    assert!(matches!(action, LeaveAction::Leave(ref room) if room.as_str() == "B"));
    let action = supervisor.step(LeaveEvent::Left(true));
    assert_eq!(observed(&action), "C");
    let private = LeaveObservation {
        source: joined(0),
        destination: joined(10),
        member_count: 2,
        named: false,
    };
    let action = supervisor.step(LeaveEvent::Observed(private));
    assert!(matches!(action, LeaveAction::Leave(ref room) if room.as_str() == "C"));
    let action = supervisor.step(LeaveEvent::Left(true));
    assert!(matches!(action, LeaveAction::MarkDirect(ref room) if room.as_str() == "C"));
    assert!(!supervisor.is_finished());
    let action = supervisor.step(LeaveEvent::Marked(false));
    assert!(matches!(action, LeaveAction::Finish));
    assert!(supervisor.is_finished());
    assert!(matches!(supervisor.step(LeaveEvent::Left(true)), LeaveAction::Finish));
}

#[test]
fn refused_leave_is_not_marked_direct() {
    let mut supervisor = LeaveSupervisor::new(set_of(&["A", "B"]), false);
    let private = LeaveObservation {
        source: joined(0),
        destination: joined(0),
        member_count: 2,
        named: false,
    };
    let action = supervisor.step(LeaveEvent::Observed(private));
    assert!(matches!(action, LeaveAction::Leave(_)));
    let action = supervisor.step(LeaveEvent::Left(false));
    assert_eq!(observed(&action), "B");
}

#[test]
fn supervisor_ignores_events_out_of_turn() {
    let mut supervisor = LeaveSupervisor::new(set_of(&["A"]), false);
    assert_eq!(observed(&supervisor.step(LeaveEvent::Left(true))), "A");
    assert_eq!(observed(&supervisor.step(LeaveEvent::Marked(true))), "A");
    let action = supervisor.step(LeaveEvent::Observed(look(Some(1), Some(1))));
    assert!(matches!(action, LeaveAction::Leave(_)));
    let action = supervisor.step(LeaveEvent::Observed(look(Some(9), Some(1))));
    assert!(matches!(action, LeaveAction::Leave(_)));
    let action = supervisor.step(LeaveEvent::Marked(true));
    assert!(matches!(action, LeaveAction::Leave(_)));
}

#[test]
fn supervisor_dry_run_only_observes() {
    let mut supervisor = LeaveSupervisor::new(set_of(&["A", "B"]), true);
    let action = supervisor.step(LeaveEvent::Observed(look(Some(1), Some(1))));
    assert_eq!(observed(&action), "B");
    let action = supervisor.step(LeaveEvent::Observed(look(Some(1), Some(5))));
    assert!(matches!(action, LeaveAction::Finish));
}

#[test]
fn supervisor_of_no_rooms_is_finished() {
    let mut supervisor = LeaveSupervisor::new(RoomSet::new(), false);
    assert!(supervisor.is_finished());
    assert!(matches!(supervisor.next_action(), LeaveAction::Finish));
    assert!(matches!(
        supervisor.step(LeaveEvent::Observed(look(Some(1), Some(1)))),
        LeaveAction::Finish
    ));
}
