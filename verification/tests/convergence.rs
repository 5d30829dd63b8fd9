use matrix_migrate::convergence::{ConvergenceLoop, LoopAction, LoopEvent};
use matrix_migrate::invite::{AcceptOutcome, SendOutcome};
use matrix_migrate::orchestrator::{converge_work, summarize};
use matrix_migrate::reconcile::{reconcile, MigrationPlan};
use matrix_migrate::room::RoomSet;
use matrix_migrate::snapshot::RoomSnapshot;

fn room_set(ids: &[&str]) -> RoomSet {
    let texts: Vec<String> = ids.iter().map(|s| s.to_string()).collect();
    RoomSet::from_strings(&texts)
}

fn ids(list: &[&str]) -> Vec<String> {
    list.iter().map(|s| s.to_string()).collect()
}

fn plan(source: &[&str], joined: &[&str], invited: &[&str]) -> MigrationPlan {
    reconcile(&room_set(source), &RoomSnapshot::new(room_set(joined), room_set(invited))).unwrap()
}

fn send_rooms(action: &LoopAction) -> Vec<String> {
    match action {
        LoopAction::SendInvites(rooms) => rooms.to_strings(),
        other => panic!("expected invitations to send, got {:?}", other),
    }
}

fn accept_rooms(action: &LoopAction) -> (Vec<String>, Vec<String>) {
    match action {
        LoopAction::AcceptInvites { pending, equalize } => {
            (pending.to_strings(), equalize.to_strings())
        }
        other => panic!("expected invitations to accept, got {:?}", other),
    }
}

#[test]
fn lagging_invite_converges_in_two_rounds() {
    let plan = plan(&["A"], &[], &[]);
    let mut convergence = ConvergenceLoop::new(&plan, false);
    assert_eq!(send_rooms(&convergence.next_action()), ids(&["A"]));
    let action = convergence.step(LoopEvent::SendFinished(vec![SendOutcome::Invited]));
    assert_eq!(accept_rooms(&action), (ids(&["A"]), ids(&["A"])));
    assert_eq!(convergence.rounds(), 0);
    let action = convergence.step(LoopEvent::AcceptFinished(vec![AcceptOutcome::Unresolved]));
    assert!(matches!(action, LoopAction::AwaitResync));
    assert_eq!(convergence.rounds(), 1);
    assert_eq!(convergence.pending().to_strings(), ids(&["A"]));
    let action = convergence.step(LoopEvent::Resynced);
    assert_eq!(accept_rooms(&action), (ids(&["A"]), ids(&[])));
    let action = convergence.step(LoopEvent::AcceptFinished(vec![AcceptOutcome::Accepted]));
    assert!(matches!(action, LoopAction::Finish));
    assert!(convergence.is_finished());
    assert_eq!(convergence.rounds(), 2);
    assert_eq!(convergence.pending().len(), 0);
    assert_eq!(convergence.failed().len(), 0);
    assert_eq!(convergence.accepted().to_strings(), ids(&["A"]));
}

#[test]
fn settled_plan_needs_no_round() {
    let plan = plan(&["A", "B"], &["A", "B"], &[]);
    for dry_run in [false, true] {
        let mut convergence = ConvergenceLoop::new(&plan, dry_run);
        assert!(convergence.is_finished());
        assert!(matches!(convergence.next_action(), LoopAction::Finish));
        assert_eq!(convergence.rounds(), 0);
        assert_eq!(convergence.pending().len(), 0);
        assert_eq!(convergence.failed().len(), 0);
        assert!(matches!(convergence.step(LoopEvent::Resynced), LoopAction::Finish));
        assert!(matches!(
            convergence.step(LoopEvent::AcceptFinished(vec![])),
            LoopAction::Finish
        ));
        assert_eq!(convergence.rounds(), 0);
    }
}

#[test]
fn dry_run_stops_after_one_round() {
    let plan = plan(&["A", "B", "C", "D"], &[], &["D"]);
    let mut convergence = ConvergenceLoop::new(&plan, true);
    assert_eq!(send_rooms(&convergence.next_action()), ids(&["A", "B", "C"]));
    let action = convergence.step(LoopEvent::SendFinished(vec![
        SendOutcome::Invited,
        SendOutcome::Invited,
        SendOutcome::Invited,
    ]));
    assert_eq!(accept_rooms(&action), (ids(&["D", "A", "B", "C"]), ids(&["A", "B", "C"])));
    let action = convergence.step(LoopEvent::AcceptFinished(vec![
        AcceptOutcome::Accepted,
        AcceptOutcome::Unresolved,
        AcceptOutcome::Unresolved,
        AcceptOutcome::Unresolved,
    ]));
    assert!(matches!(action, LoopAction::Finish));
    assert!(convergence.is_finished());
    assert_eq!(convergence.rounds(), 1);
    assert_eq!(convergence.pending().to_strings(), ids(&["A", "B", "C"]));
    assert!(matches!(convergence.step(LoopEvent::Resynced), LoopAction::Finish));
    assert_eq!(convergence.rounds(), 1);
}

#[test]
fn dry_run_with_invitations_only_stops_after_one_round() {
    let plan = plan(&["A"], &[], &["A"]);
    let mut convergence = ConvergenceLoop::new(&plan, true);
    assert_eq!(accept_rooms(&convergence.next_action()), (ids(&["A"]), ids(&[])));
    let action = convergence.step(LoopEvent::AcceptFinished(vec![AcceptOutcome::Unresolved]));
    assert!(matches!(action, LoopAction::Finish));
    assert_eq!(convergence.rounds(), 1);
}

#[test]
fn failed_invites_are_reported_and_not_retried() {
    let plan = plan(&["A", "B", "C"], &[], &[]);
    let mut convergence = ConvergenceLoop::new(&plan, false);
    let action = convergence.step(LoopEvent::SendFinished(vec![
        SendOutcome::Failed,
        SendOutcome::AlreadyMember,
        SendOutcome::Invited,
    ]));
    assert_eq!(accept_rooms(&action), (ids(&["B", "C"]), ids(&["B", "C"])));
    assert_eq!(convergence.failed().to_strings(), ids(&["A"]));
    assert_eq!(convergence.reachable().to_strings(), ids(&["B", "C"]));
    assert_eq!(convergence.invited().to_strings(), ids(&["C"]));
    let action = convergence.step(LoopEvent::AcceptFinished(vec![
        AcceptOutcome::AlreadyJoined,
        AcceptOutcome::Rejected,
    ]));
    assert!(matches!(action, LoopAction::AwaitResync));
    assert_eq!(convergence.pending().to_strings(), ids(&["C"]));
    assert_eq!(convergence.failed().to_strings(), ids(&["A"]));
    assert_eq!(convergence.accepted().len(), 0);
}

#[test]
fn all_invites_failing_ends_the_loop() {
    let plan = plan(&["A", "B"], &[], &[]);
    let mut convergence = ConvergenceLoop::new(&plan, false);
    let action =
        convergence.step(LoopEvent::SendFinished(vec![SendOutcome::Failed, SendOutcome::Failed]));
    assert!(matches!(action, LoopAction::Finish));
    assert_eq!(convergence.rounds(), 1);
    assert_eq!(convergence.failed().to_strings(), ids(&["A", "B"]));
    assert_eq!(convergence.pending().len(), 0);
}

#[test]
fn events_out_of_turn_change_nothing() {
    let plan = plan(&["A", "B"], &[], &[]);
    let mut convergence = ConvergenceLoop::new(&plan, false);
    assert_eq!(send_rooms(&convergence.step(LoopEvent::Resynced)), ids(&["A", "B"]));
    assert_eq!(
        send_rooms(&convergence.step(LoopEvent::AcceptFinished(vec![AcceptOutcome::Accepted]))),
        ids(&["A", "B"])
    );
    assert_eq!(
        send_rooms(&convergence.step(LoopEvent::SendFinished(vec![SendOutcome::Invited]))),
        ids(&["A", "B"])
    );
    assert_eq!(convergence.rounds(), 0);
    assert_eq!(convergence.pending().len(), 0);
    assert_eq!(convergence.failed().len(), 0);
}

#[test]
fn pending_only_shrinks_over_rounds() {
    let plan = plan(&["A", "B", "C"], &[], &["A", "B", "C"]);
    let mut convergence = ConvergenceLoop::new(&plan, false);
    let action = convergence.step(LoopEvent::AcceptFinished(vec![
        AcceptOutcome::Accepted,
        AcceptOutcome::Unresolved,
        AcceptOutcome::Unresolved,
    ]));
    assert!(matches!(action, LoopAction::AwaitResync));
    assert_eq!(convergence.pending().to_strings(), ids(&["B", "C"]));
    convergence.step(LoopEvent::Resynced);
    let action = convergence.step(LoopEvent::AcceptFinished(vec![
        AcceptOutcome::Unresolved,
        AcceptOutcome::AlreadyJoined,
    ]));
    assert!(matches!(action, LoopAction::AwaitResync));
    assert_eq!(convergence.pending().to_strings(), ids(&["B"]));
    convergence.step(LoopEvent::Resynced);
    let action = convergence.step(LoopEvent::AcceptFinished(vec![AcceptOutcome::Accepted]));
    assert!(matches!(action, LoopAction::Finish));
    assert_eq!(convergence.rounds(), 3);
    assert_eq!(convergence.accepted().to_strings(), ids(&["A", "B"]));
}

#[test]
fn report_counts_the_rooms() {
    let plan = plan(&["A", "B", "C", "D"], &["A"], &["B"]);
    let mut convergence = ConvergenceLoop::new(&plan, false);
    convergence.step(LoopEvent::SendFinished(vec![SendOutcome::Invited, SendOutcome::Failed]));
    convergence.step(LoopEvent::AcceptFinished(vec![
        AcceptOutcome::Accepted,
        AcceptOutcome::Unresolved,
    ]));
    let report = summarize(&plan, &convergence);
    assert_eq!(report.already_shared, 2);
    assert_eq!(report.accepted, 1);
    assert_eq!(report.invited, 1);
    assert_eq!(report.pending, ids(&["C"]));
    assert_eq!(report.failed, ids(&["D"]));
}

#[test]
fn convergence_work_hands_out_the_shared_rooms() {
    let plan = plan(&["A", "B", "C", "D"], &["A"], &["B"]);
    let work = converge_work(&plan, false);
    assert_eq!(work.equalize.to_strings(), ids(&["A", "B"]));
    assert_eq!(send_rooms(&work.invitations.next_action()), ids(&["C", "D"]));
    assert_eq!(work.invitations.pending().to_strings(), ids(&["B"]));
    let settled = plan_of_joined();
    let work = converge_work(&settled, true);
    assert_eq!(work.equalize.to_strings(), ids(&["A", "B"]));
    assert!(work.invitations.is_finished());
    assert_eq!(work.invitations.rounds(), 0);
}

fn plan_of_joined() -> MigrationPlan {
    plan(&["A", "B"], &["A", "B"], &[])
}
