use usbguard_gui::dbus::client::{anchor_parent, append_text, candidate_still_there, NO_POLICY_TARGET, plan_removal, policy_rule_id, resolve, to_handles, RemovalPlan, Resolution};
use usbguard_gui::dbus::coalesce::{Coalescer, DeviceSignal, MAX_LATENCY, QUIET_WINDOW, RESYNC_THRESHOLD};
use usbguard_gui::dbus::commands::{next_operation_id, stage, NO_AGENT_HINT_AFTER, WAITING_NOTICE_AFTER};
use usbguard_gui::dbus::diagnostics::{
    api_level_of, bridge_not_installed, exit_code, is_known_agent, is_process_entry, state_after_read, state_from_error,
    unit_state_active, ApiLevel,
};
use usbguard_gui::dbus::errors::{classify, to_app_error, ErrorShape};
use usbguard_gui::dbus::supervisor::{ServiceWait, Supervisor, BACKOFF_MAX, BACKOFF_MIN};
use usbguard_gui::dbus::worker::{handle_incoming, on_start, policy_change_invalidates_rules, streams_closed, Incoming, WorkerAction, WorkerExit};
use usbguard_gui::model::access::{AccessState, Capabilities};
use usbguard_gui::model::device::{DeviceAttributes, PendingKind};
use usbguard_gui::model::error::AppError;
use usbguard_gui::model::event::{OperationId, UiEvent};
use usbguard_gui::model::ids::{DeviceId, RuleId};
use usbguard_gui::model::rule::{RemoveOutcome, RuleTarget};
use usbguard_gui::model::error::ParseErrorKind;
use usbguard_gui::model::target::{DeviceEvent, DevicePolicy, Persistence, Target};
use usbguard_gui::rules::{parse_device, parse_partial, parse_rule};
use usbguard_gui::window::{OpKind, WindowState};

const MS: u64 = 1_000_000;

fn presence(id: u32, event: DeviceEvent, target: Target) -> DeviceSignal {
    DeviceSignal::Presence {
        id: DeviceId::new(id),
        event,
        target,
        rule: format!("rule {id}"),
        attrs: DeviceAttributes::default(),
    }
}

fn policy(id: u32, target: Target) -> DeviceSignal {
    DeviceSignal::Policy { id: DeviceId::new(id), target, rule: format!("rule {id}"), attrs: DeviceAttributes::default() }
}

#[test]
fn insert_then_remove_never_appears() {
    let now = 5 * MS;
    let mut c = Coalescer::new();
    c.push(presence(1, DeviceEvent::Insert, Target::Block), now);
    c.push(presence(1, DeviceEvent::Remove, Target::Block), now);
    let batch = c.take();
    assert_eq!(batch.len(), 1);
    assert!(batch[0].removed);
    assert_eq!(batch[0].target, None);
}

#[test]
fn remove_then_insert_is_a_new_device() {
    let now = 5 * MS;
    let mut c = Coalescer::new();
    c.push(presence(1, DeviceEvent::Remove, Target::Allow), now);
    c.push(presence(1, DeviceEvent::Insert, Target::Block), now);
    let batch = c.take();
    assert!(!batch[0].removed);
    assert_eq!(batch[0].target, Some(Target::Block));
}

#[test]
fn policy_target_beats_later_presence_target() {
    let now = 5 * MS;
    let mut c = Coalescer::new();
    c.push(presence(2, DeviceEvent::Insert, Target::Block), now);
    c.push(policy(2, Target::Allow), now);
    c.push(presence(2, DeviceEvent::Update, Target::Block), now);
    assert_eq!(c.take()[0].target, Some(Target::Allow));
}

#[test]
fn attributes_accumulate() {
    let now = 5 * MS;
    let mut c = Coalescer::new();
    let with = |name: Option<&str>, serial: Option<&str>| DeviceSignal::Presence {
        id: DeviceId::new(3),
        event: DeviceEvent::Update,
        target: Target::Allow,
        rule: String::new(),
        attrs: DeviceAttributes { name: name.map(Into::into), serial: serial.map(Into::into), ..DeviceAttributes::default() },
    };
    c.push(with(Some("old"), Some("S1")), now);
    c.push(with(Some("new"), None), now);
    let d = &c.take()[0];
    assert_eq!(d.attrs.name.as_deref(), Some("new"));
    assert_eq!(d.attrs.serial.as_deref(), Some("S1"));
}

#[test]
fn budget_respects_the_latency_ceiling() {
    let start = 1_000 * MS;
    let mut c = Coalescer::new();
    assert_eq!(c.budget(start), None);
    c.push(presence(1, DeviceEvent::Insert, Target::Block), start);
    assert_eq!(c.budget(start), Some(QUIET_WINDOW));
    let late = start + MAX_LATENCY - 30 * MS;
    assert_eq!(c.budget(late), Some(30 * MS));
    assert_eq!(c.budget(start + MAX_LATENCY * 2), Some(0));
    c.take();
    assert_eq!(c.budget(late), None);
}

#[test]
fn resync_threshold() {
    let now = 5 * MS;
    let mut c = Coalescer::new();
    for id in 0..u32::try_from(RESYNC_THRESHOLD).unwrap() {
        assert!(!c.needs_resync());
        c.push(presence(id, DeviceEvent::Insert, Target::Block), now);
    }
    assert!(c.needs_resync());
    c.clear();
    assert!(c.is_empty());
}

#[test]
fn batches_are_ordered_by_id() {
    let now = 5 * MS;
    let mut c = Coalescer::new();
    for id in [9, 3, 7] {
        c.push(presence(id, DeviceEvent::Insert, Target::Block), now);
    }
    let ids: Vec<u32> = c.take().iter().map(|d| d.id.get()).collect();
    assert_eq!(ids, vec![3, 7, 9]);
}

#[test]
fn resolution_by_text() {
    let rules = to_handles(vec![(5, "allow id 1234:5678".into()), (9, "block".into()), (12, "allow id 1234:5678".into())]);
    assert_eq!(rules[2].position, 2);
    assert_eq!(resolve(&rules, "block"), Resolution::Unique(RuleId::new(9)));
    assert_eq!(resolve(&rules, "reject"), Resolution::Gone);
    let Resolution::Ambiguous(c) = resolve(&rules, "allow id 1234:5678") else {
        panic!("expected ambiguity");
    };
    assert_eq!(c.iter().map(|h| h.position).collect::<Vec<_>>(), vec![0, 2]);
}

#[test]
fn exit_codes_match_the_interface_document() {
    assert_eq!(exit_code(&AccessState::Connected { caps: Capabilities::default() }), 0);
    assert_eq!(exit_code(&AccessState::DeniedByIpcAcl), 3);
    assert_eq!(exit_code(&AccessState::BridgeNotInstalled), 4);
    assert_eq!(exit_code(&AccessState::BridgeNotRunning { daemon_running: None }), 4);
    assert_eq!(exit_code(&AccessState::BusUnavailable), 5);
}

fn shape(name: &str, detail: &str) -> ErrorShape {
    ErrorShape { name: Some(name.into()), detail: detail.into() }
}

const DENIED: &str = "org.freedesktop.DBus.Error.AccessDenied";

#[test]
fn polkit_refusal_as_the_bridge_sends_it() {
    assert_eq!(classify(&shape(DENIED, "Not authorized."), None), AccessState::DeniedByPolkit { action: None });
    assert_eq!(classify(&shape(DENIED, "Not authorized."), Some(false)), AccessState::NoPolkitAgent);
}

#[test]
fn bus_policy_is_distinguished_from_polkit() {
    for detail in [
        "Rejected send message, 2 matched rules; type=\"method_call\"",
        "Sender :1.42 is not allowed to send to org.usbguard1",
    ] {
        assert_eq!(classify(&shape(DENIED, detail), Some(false)), AccessState::DeniedByBusPolicy, "{detail}");
    }
}

#[test]
fn ipc_acl_is_recognized_but_parser_errors_are_not() {
    let failed = "org.freedesktop.DBus.Error.Failed";
    assert_eq!(
        classify(&shape(failed, "IPC method: usbguard.IPC.listRules: permission denied"), None),
        AccessState::DeniedByIpcAcl
    );
    let rejected = shape(failed, "IPC method: usbguard.IPC.listDevices: RuleParserError");
    assert_eq!(
        to_app_error(&rejected, None),
        AppError::Rejected("IPC method: usbguard.IPC.listDevices: RuleParserError".into())
    );
}

#[test]
fn unreachable_names() {
    let e = shape("org.freedesktop.DBus.Error.ServiceUnknown", "gone");
    assert!(matches!(to_app_error(&e, None), AppError::Unreachable(_)));
    assert_eq!(classify(&e, None), AccessState::BridgeNotRunning { daemon_running: None });
    let local = ErrorShape { name: None, detail: "I/O error: broken pipe".into() };
    assert!(matches!(to_app_error(&local, None), AppError::Unreachable(_)));
}

#[test]
fn unknown_denials_stay_unattributed() {
    assert_eq!(
        classify(&shape(DENIED, "something new"), None),
        AccessState::DeniedUnattributed { detail: "something new".into() }
    );
    assert!(matches!(
        to_app_error(&shape(DENIED, "something new"), None),
        AppError::Denied(AccessState::DeniedUnattributed { .. })
    ));
}

#[test]
fn unknown_parameter_is_a_rejection() {
    let e = shape("org.freedesktop.DBus.Error.Failed", "getParameter: Bogus: unknown parameter");
    assert!(matches!(to_app_error(&e, None), AppError::Rejected(_)));
}

#[test]
fn unreachable_errors_carry_the_name() {
    let e = shape("org.freedesktop.DBus.Error.NoReply", "timeout");
    assert_eq!(to_app_error(&e, None), AppError::Unreachable("org.freedesktop.DBus.Error.NoReply: timeout".into()));
    let other = shape("org.example.Strange", "odd");
    assert_eq!(to_app_error(&other, None), AppError::Rejected("org.example.Strange: odd".into()));
}

#[test]
fn probe_decisions() {
    assert!(bridge_not_installed(Some(false), Some(false)));
    assert!(!bridge_not_installed(None, Some(false)));
    assert!(!bridge_not_installed(Some(true), Some(false)));
    let ok: Result<String, ErrorShape> = Ok("block".into());
    assert_eq!(
        state_after_read(&ok, None, Some(true)),
        AccessState::Connected { caps: Capabilities { get_parameters: true, ..Capabilities::default() } }
    );
    let gone: Result<String, ErrorShape> = Err(shape("org.freedesktop.DBus.Error.NameHasNoOwner", "x"));
    assert_eq!(state_after_read(&gone, None, Some(false)), AccessState::BridgeNotRunning { daemon_running: Some(false) });
    assert_eq!(api_level_of(r#"<arg name="temporary" type="b"/>"#), ApiLevel::AtLeast1_1);
    assert_eq!(api_level_of("<method name=\"appendRule\"/>"), ApiLevel::Before1_1);
    assert!(unit_state_active("reloading"));
    assert!(!unit_state_active("inactive"));
}

#[test]
fn agent_heuristic_reads_comm() {
    assert!(is_process_entry("42"));
    assert!(!is_process_entry("self"));
    assert!(!is_known_agent("bash\n"));
    assert!(is_known_agent("polkit-kde-auth\n"));
    assert!(is_known_agent("gnome-shell"));
}

#[test]
fn denied_errors_update_the_panel() {
    assert_eq!(state_from_error(&AppError::Denied(AccessState::DeniedByIpcAcl)), Some(AccessState::DeniedByIpcAcl));
    assert_eq!(state_from_error(&AppError::Stale), None);
}

#[test]
fn operation_ids_count_up() {
    let mut counter: u64 = 1;
    assert_eq!(next_operation_id(&mut counter), OperationId(1));
    assert_eq!(next_operation_id(&mut counter), OperationId(2));
    assert_eq!(counter, 3);
}

#[test]
fn stages_never_auto_cancel() {
    let t0 = 7 * MS;
    assert_eq!(stage(t0, t0), PendingKind::Started);
    assert_eq!(stage(t0, t0 + WAITING_NOTICE_AFTER), PendingKind::WaitingForAuthentication);
    assert_eq!(stage(t0, t0 + NO_AGENT_HINT_AFTER * 3), PendingKind::PossiblyNoAgent);
    assert_eq!(stage(t0, 0), PendingKind::Started);
    // Reaching a stage only changes what the row says: the operation runs on.
    let mut w = WindowState::new();
    w.apply(UiEvent::DeviceSnapshot(vec![parse_device(DeviceId::new(1), "block".into())]), false);
    let op = OperationId(1);
    w.started(op, OpKind::Device {
        id: DeviceId::new(1),
        policy: DevicePolicy::Allow,
        persistence: Persistence::RuntimeOnly,
        name: "x".into(),
    });
    for kind in [stage(t0, t0 + WAITING_NOTICE_AFTER), stage(t0, t0 + NO_AGENT_HINT_AFTER * 3)] {
        w.stage_reached(op, DeviceId::new(1), kind);
        assert!(w.op_running(op));
    }
    assert_eq!(w.devices.sorted()[0].pending, Some(PendingKind::PossiblyNoAgent));
}

#[test]
fn backoff_doubles_up_to_the_ceiling() {
    let mut s = Supervisor::new();
    assert!(!s.on_connected());
    assert!(s.on_connected());
    s.on_wait(ServiceWait::TimedOut);
    assert_eq!(s.backoff, 2 * BACKOFF_MIN);
    for _ in 0..20 {
        s.on_wait(ServiceWait::TimedOut);
    }
    assert_eq!(s.backoff, BACKOFF_MAX);
    s.on_wait(ServiceWait::Appeared);
    assert_eq!(s.backoff, BACKOFF_MIN);
    assert_eq!(s.on_lost(WorkerExit::UiClosed), None);
    assert_eq!(
        s.on_lost(WorkerExit::from(AppError::Stale)),
        Some(UiEvent::ConnectionLost("the ruleset changed underneath this operation".into()))
    );
}

#[test]
fn worker_steps() {
    let mut c = Coalescer::new();
    let start = on_start();
    assert!(matches!(start[0], WorkerAction::Snapshot));
    let acts = handle_incoming(
        &mut c,
        Incoming::Device { signal: presence(4, DeviceEvent::Insert, Target::Block), invalidates_rules: true },
        MS,
    );
    assert_eq!(acts.len(), 1);
    assert!(matches!(acts[0], WorkerAction::Send(UiEvent::InvalidateRuleCache)));
    assert_eq!(c.len(), 1);
    let acts = handle_incoming(&mut c, Incoming::OwnerLost, 2 * MS);
    assert_eq!(acts.len(), 2);
    assert!(matches!(&acts[0], WorkerAction::Send(UiEvent::DeviceBatch(b)) if b.len() == 1));
    assert!(matches!(&acts[1], WorkerAction::Stop(AppError::Unreachable(_))));
    let closed = streams_closed(&mut c);
    assert_eq!(closed.len(), 1);
}

#[test]
fn removal_plans() {
    let rules = to_handles(vec![(5, "allow".into()), (9, "block".into()), (12, "allow".into())]);
    let target = rules[1].clone();
    assert!(matches!(plan_removal(&rules, &target), RemovalPlan::Remove(id) if id == RuleId::new(9)));
    let twin = rules[2].clone();
    assert!(matches!(plan_removal(&rules, &twin), RemovalPlan::Done(RemoveOutcome::Ambiguous { .. })));
    let gone = to_handles(vec![(1, "reject".into())]);
    assert!(matches!(plan_removal(&rules, &gone[0]), RemovalPlan::Done(RemoveOutcome::AlreadyGone)));
    assert_eq!(anchor_parent(&rules, Some(&twin)), Ok(RuleId::new(12)));
    assert_eq!(anchor_parent(&rules, None).unwrap().get(), 4_294_967_293);
    assert_eq!(candidate_still_there(&rules, &twin), Ok(RuleId::new(12)));
    assert_eq!(candidate_still_there(&gone, &twin), Err(AppError::Stale));
    assert_eq!(policy_rule_id(Persistence::Permanent, 8), Some(RuleId::new(8)));
    assert_eq!(policy_rule_id(Persistence::RuntimeOnly, 8), None);
}

#[test]
fn invalid_rules_never_reach_the_daemon() {
    let mut query = parse_rule("allow").unwrap();
    query.target = Some(RuleTarget::Match);
    let err = append_text(&query).unwrap_err();
    assert!(matches!(err, AppError::Parse(e) if e.kind == ParseErrorKind::InvalidTarget));
}

#[test]
fn a_rule_without_a_target_is_rejected() {
    let partial = parse_partial("id 1234:5678").unwrap();
    assert_eq!(partial.target, None);
    assert!(matches!(append_text(&partial), Err(AppError::Rejected(m)) if m == NO_POLICY_TARGET));
    let rule = parse_rule("allow id 1234:5678").unwrap();
    assert_eq!(append_text(&rule).unwrap(), "allow id 1234:5678");
}

#[test]
fn only_a_written_policy_change_invalidates_rules() {
    assert!(!policy_change_invalidates_rules(0));
    assert!(policy_change_invalidates_rules(12));
}
