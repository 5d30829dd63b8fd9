use matrix_migrate::invite::{
    decide_accept, decide_invite, AcceptDecision, AcceptOutcome, InviteDecision,
    InviteObservation, SendOutcome,
};
use matrix_migrate::login::{check_login, plan_login, Credential, LoginError, ServerChoice};
use matrix_migrate::privilege::{decide_equalize, EqualizeDecision, PrivilegeObservation};
use matrix_migrate::snapshot::{MemberLookup, MemberRecord, MembershipState};
use matrix_migrate::throttle::throttle_delay;

fn joined(level: i64) -> MemberLookup {
    MemberLookup::Found(MemberRecord { state: MembershipState::Joined, level })
}

fn found(level: Option<i64>) -> MemberLookup {
    match level {
        Some(level) => joined(level),
        None => MemberLookup::NotFound,
    }
}

fn seen(acting: Option<i64>, target: Option<i64>) -> PrivilegeObservation {
    PrivilegeObservation { resolved: true, acting: found(acting), target: found(target) }
}

#[test]
fn delay_grows_by_a_second_every_two_rooms() {
    assert_eq!(throttle_delay(0, false), 0);
    assert_eq!(throttle_delay(1, false), 0);
    assert_eq!(throttle_delay(2, false), 1);
    assert_eq!(throttle_delay(3, false), 1);
    assert_eq!(throttle_delay(4, false), 2);
    assert_eq!(throttle_delay(11, false), 5);
    assert_eq!(throttle_delay(usize::MAX, false), (usize::MAX / 2) as u64);
}

#[test]
fn delay_is_monotonic() {
    let mut last = 0;
    for position in 0..64 {
        let delay = throttle_delay(position, false);
        assert!(delay >= last);
        last = delay;
    }
}

#[test]
fn dry_run_does_not_wait() {
    assert_eq!(throttle_delay(0, true), 0);
    assert_eq!(throttle_delay(7, true), 0);
    assert_eq!(throttle_delay(usize::MAX, true), 0);
}

#[test]
fn equalizer_raises_then_rests() {
    let first = decide_equalize(seen(Some(100), Some(50)), false);
    assert_eq!(first, EqualizeDecision::Raise { level: 100 });
    assert!(first.is_mutating());
    let second = decide_equalize(seen(Some(100), Some(100)), false);
    assert_eq!(second, EqualizeDecision::Sufficient);
    assert!(!second.is_mutating());
}

#[test]
fn equalizer_leaves_higher_target_alone() {
    assert_eq!(decide_equalize(seen(Some(50), Some(100)), false), EqualizeDecision::Sufficient);
    assert_eq!(decide_equalize(seen(Some(-5), Some(-5)), false), EqualizeDecision::Sufficient);
    assert_eq!(
        decide_equalize(seen(Some(i64::MIN), Some(i64::MAX)), false),
        EqualizeDecision::Sufficient
    );
}

#[test]
fn equalizer_skips_what_it_cannot_see() {
    let outside = PrivilegeObservation { resolved: false, acting: joined(100), target: joined(0) };
    assert_eq!(decide_equalize(outside, false), EqualizeDecision::SkipUnresolved);
    assert_eq!(decide_equalize(seen(None, Some(0)), false), EqualizeDecision::SkipActingUnknown);
    assert_eq!(decide_equalize(seen(None, None), false), EqualizeDecision::SkipActingUnknown);
    assert_eq!(decide_equalize(seen(Some(100), None), false), EqualizeDecision::SkipTargetUnknown);
}

#[test]
fn equalizer_raises_an_invited_target() {
    let invited = MemberLookup::Found(MemberRecord { state: MembershipState::Invited, level: 0 });
    let observation = PrivilegeObservation { resolved: true, acting: joined(50), target: invited };
    assert_eq!(decide_equalize(observation, false), EqualizeDecision::Raise { level: 50 });
}

#[test]
fn equalizer_treats_a_failed_lookup_as_no_record() {
    let blind = PrivilegeObservation {
        resolved: true,
        acting: MemberLookup::Failed,
        target: joined(0),
    };
    assert_eq!(decide_equalize(blind, false), EqualizeDecision::SkipActingUnknown);
    let half = PrivilegeObservation {
        resolved: true,
        acting: joined(100),
        target: MemberLookup::Failed,
    };
    assert_eq!(decide_equalize(half, false), EqualizeDecision::SkipTargetUnknown);
    assert_eq!(MemberLookup::Failed.recorded_level(), None);
    assert_eq!(MemberLookup::Failed.level_if_joined(), None);
    assert_eq!(MemberLookup::Failed.standing(), MembershipState::Absent);
    assert_eq!(MemberLookup::NotFound.standing(), MembershipState::Absent);
    assert_eq!(joined(7).recorded_level(), Some(7));
    assert_eq!(joined(7).level_if_joined(), Some(7));
    assert_eq!(joined(7).standing(), MembershipState::Joined);
}

#[test]
fn equalizer_dry_run_changes_nothing() {
    let decision = decide_equalize(seen(Some(100), Some(50)), true);
    assert_eq!(decision, EqualizeDecision::WouldRaise { level: 100 });
    assert!(!decision.is_mutating());
    assert_eq!(decide_equalize(seen(Some(i64::MAX), Some(i64::MIN)), false), EqualizeDecision::Raise {
        level: i64::MAX
    });
}

fn invite_seen(resolved: bool, target: MemberLookup) -> InviteObservation {
    InviteObservation { resolved, target }
}

fn invited_member() -> MemberLookup {
    MemberLookup::Found(MemberRecord { state: MembershipState::Invited, level: 0 })
}

fn departed_member() -> MemberLookup {
    MemberLookup::Found(MemberRecord { state: MembershipState::Absent, level: 0 })
}

#[test]
fn invite_decisions() {
    let targets =
        [MemberLookup::NotFound, MemberLookup::Failed, joined(0), invited_member(), departed_member()];
    for target in targets {
        assert_eq!(decide_invite(invite_seen(false, target), false), InviteDecision::Refuse);
        assert_eq!(decide_invite(invite_seen(false, target), true), InviteDecision::Refuse);
        assert_eq!(decide_invite(invite_seen(true, target), true), InviteDecision::WouldInvite);
        assert_eq!(decide_invite(invite_seen(true, target), false), InviteDecision::Invite);
    }
    assert!(InviteDecision::Invite.is_mutating());
    assert!(!InviteDecision::WouldInvite.is_mutating());
    assert!(!InviteDecision::Refuse.is_mutating());
}

#[test]
fn invite_is_sent_in_every_room_the_source_knows() {
    let member = invite_seen(true, joined(50));
    let waiting = invite_seen(true, invited_member());
    let stranger = invite_seen(true, MemberLookup::NotFound);
    assert!(decide_invite(member, false).is_mutating());
    assert!(decide_invite(waiting, false).is_mutating());
    assert!(decide_invite(stranger, false).is_mutating());
    assert!(!decide_invite(invite_seen(false, joined(50)), false).is_mutating());
}

#[test]
fn invite_outcomes() {
    let stranger = invite_seen(true, MemberLookup::NotFound);
    let blind = invite_seen(true, MemberLookup::Failed);
    let departed = invite_seen(true, departed_member());
    let member = invite_seen(true, joined(0));
    let waiting = invite_seen(true, invited_member());
    let outside = invite_seen(false, joined(0));
    assert_eq!(InviteDecision::Refuse.conclude(outside, true), SendOutcome::Failed);
    assert_eq!(InviteDecision::WouldInvite.conclude(stranger, false), SendOutcome::Invited);
    assert_eq!(InviteDecision::WouldInvite.conclude(member, false), SendOutcome::Invited);
    assert_eq!(InviteDecision::Invite.conclude(stranger, true), SendOutcome::Invited);
    assert_eq!(InviteDecision::Invite.conclude(member, true), SendOutcome::Invited);
    assert_eq!(InviteDecision::Invite.conclude(stranger, false), SendOutcome::Failed);
    assert_eq!(InviteDecision::Invite.conclude(blind, false), SendOutcome::Failed);
    assert_eq!(InviteDecision::Invite.conclude(departed, false), SendOutcome::Failed);
    assert_eq!(InviteDecision::Invite.conclude(member, false), SendOutcome::AlreadyMember);
    assert_eq!(InviteDecision::Invite.conclude(waiting, false), SendOutcome::AlreadyMember);
}

#[test]
fn accept_decisions() {
    assert_eq!(decide_accept(MembershipState::Joined, false), AcceptDecision::Converged);
    assert_eq!(decide_accept(MembershipState::Joined, true), AcceptDecision::Converged);
    assert_eq!(decide_accept(MembershipState::Invited, false), AcceptDecision::Join);
    assert_eq!(decide_accept(MembershipState::Invited, true), AcceptDecision::WouldJoin);
    assert_eq!(decide_accept(MembershipState::Absent, false), AcceptDecision::Wait);
    assert!(decide_accept(MembershipState::Invited, false).is_mutating());
    assert!(!decide_accept(MembershipState::Invited, true).is_mutating());
}

#[test]
fn accept_outcomes() {
    assert_eq!(AcceptDecision::Join.conclude(true), AcceptOutcome::Accepted);
    assert_eq!(AcceptDecision::Join.conclude(false), AcceptOutcome::Rejected);
    assert_eq!(AcceptDecision::WouldJoin.conclude(false), AcceptOutcome::Accepted);
    assert_eq!(AcceptDecision::Converged.conclude(false), AcceptOutcome::AlreadyJoined);
    assert_eq!(AcceptDecision::Wait.conclude(true), AcceptOutcome::Unresolved);
    assert!(AcceptOutcome::Unresolved.is_retained());
    assert!(AcceptOutcome::Rejected.is_retained());
    assert!(!AcceptOutcome::Accepted.is_retained());
    assert!(!AcceptOutcome::AlreadyJoined.is_retained());
}

fn text(value: &str) -> Option<String> {
    Some(value.to_string())
}

#[test]
fn login_with_password_on_the_users_server() {
    assert_eq!(check_login(&None, &text("@a:x.org"), &text("pw"), false), None);
    let plan = plan_login(None, text("@a:x.org"), text("pw"), false);
    assert!(matches!(plan.server, ServerChoice::FromUser));
    assert_eq!(plan.user, text("@a:x.org"));
    assert!(matches!(plan.credential, Credential::Password(ref p) if p == "pw"));
}

#[test]
fn login_with_sso_on_a_named_server() {
    assert_eq!(check_login(&text("x.org"), &None, &None, true), None);
    let plan = plan_login(text("x.org"), None, None, true);
    assert!(matches!(plan.server, ServerChoice::Explicit(ref s) if s == "x.org"));
    assert_eq!(plan.user, None);
    assert!(matches!(plan.credential, Credential::Sso));
}

#[test]
fn login_with_sso_on_the_users_server() {
    assert_eq!(check_login(&None, &text("@a:x.org"), &None, true), None);
    let plan = plan_login(None, text("@a:x.org"), None, true);
    assert!(matches!(plan.server, ServerChoice::FromUser));
    assert!(matches!(plan.credential, Credential::Sso));
}

#[test]
fn login_needs_user_and_password() {
    assert_eq!(check_login(&None, &None, &None, true), Some(LoginError::MissingUser));
    assert_eq!(
        check_login(&text("x.org"), &None, &text("pw"), false),
        Some(LoginError::MissingUser)
    );
    assert_eq!(check_login(&None, &None, &None, false), Some(LoginError::MissingUser));
    assert_eq!(
        check_login(&None, &text("@a:x.org"), &None, false),
        Some(LoginError::MissingPassword)
    );
    assert_eq!(
        check_login(&text("x.org"), &text("@a:x.org"), &None, false),
        Some(LoginError::MissingPassword)
    );
    assert_eq!(check_login(&text("x.org"), &text("@a:x.org"), &text("pw"), false), None);
}
