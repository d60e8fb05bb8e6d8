use usbguard_gui::announce::{
    announce, newly_unauthorized, notification, supports_actions, tray_counts, Announcement, Inserted, Offers,
};
use usbguard_gui::device_store::shown_in_list;
use usbguard_gui::i18n::{access_summary, app_error_template, field_error_template, fill, parse_error_message, value_hint};
use usbguard_gui::model::error::ParseErrorKind;
use usbguard_gui::rules::builder::FieldErrorKind;
use usbguard_gui::model::access::{AccessState, Capabilities};
use usbguard_gui::model::device::{Device, PendingKind};
use usbguard_gui::model::error::AppError;
use usbguard_gui::model::event::{OperationId, OperationOutcome, UiEvent};
use usbguard_gui::model::ids::{DeviceId, RuleId};
use usbguard_gui::model::parameter::Parameter;
use usbguard_gui::model::rule::{AttributeName, RemoveOutcome, RuleHandle, RuleTarget, SetOperator};
use usbguard_gui::model::target::{DevicePolicy, Persistence};
use usbguard_gui::policy_page::{choice, describe, rule_label, rule_number, rule_tooltip, value_index};
use usbguard_gui::rule_form::{attribute_at, insert_after, operator_at, position_labels, preview, target_at, PreviewError};
use usbguard_gui::rules::builder::FieldInput;
use usbguard_gui::rules::parse_device;
use usbguard_gui::model::target::Target;
use usbguard_gui::window::{
    background_notice, device_done_template, persistence_of_setting, indicator_presentation, pending_message, state_presentation,
    tray_change, Banner, Denials, Effect, Indicator, Notice, OpKind, Refusal, TrayChange, WindowState, Write,
};

fn device(id: u32, text: &str) -> Device {
    parse_device(DeviceId::new(id), text.into())
}

fn all_caps() -> Capabilities {
    Capabilities {
        list_devices: true,
        modify_devices: true,
        list_rules: true,
        modify_rules: true,
        get_parameters: true,
        set_parameters: true,
    }
}

fn handle(id: u32, text: &str, position: usize) -> RuleHandle {
    RuleHandle { id: RuleId::new(id), text: text.into(), position }
}

/// A connected window with one allowed keyboard.
fn connected() -> WindowState {
    let mut w = WindowState::new();
    w.apply(UiEvent::DeviceSnapshot(vec![device(1, r#"allow name "Keyboard""#)]), false);
    w
}

#[test]
fn the_first_snapshot_announces_nothing() {
    let mut w = WindowState::new();
    let effects = w.apply(UiEvent::DeviceSnapshot(vec![device(1, r#"block name "Disk""#)]), false);
    assert_eq!(effects.len(), 4);
    assert!(matches!(effects[0], Effect::RefreshDevices));
    assert!(matches!(effects[1], Effect::DevicesStale(false)));
    assert!(matches!(effects[2], Effect::HideBanner));
    assert!(matches!(effects[3], Effect::Indicator(Indicator::Connected)));
    assert!(w.connected);
    assert_eq!(w.devices.len(), 1);
}

#[test]
fn a_resynchronization_announces_against_the_known_ids() {
    let mut w = connected();
    let effects = w.apply(
        UiEvent::DeviceSnapshot(vec![device(1, r#"allow name "Keyboard""#), device(2, r#"block name "Disk""#)]),
        false,
    );
    assert!(matches!(&effects[1], Effect::AnnounceSince(ids) if ids == &vec![DeviceId::new(1)]));
    let shown = w.devices.sorted();
    let new = newly_unauthorized(&[DeviceId::new(1)], &shown);
    assert_eq!(new.len(), 1);
    assert_eq!(new[0].id, DeviceId::new(2));
}

#[test]
fn the_ruleset_is_read_when_its_page_is_shown() {
    let mut w = connected();
    let effects = w.policy_shown();
    assert_eq!(effects.len(), 1);
    assert!(matches!(effects[0], Effect::ReloadPolicy));
    assert!(!w.rules_stale);
    assert!(w.policy_shown().is_empty());
    let effects = w.apply(UiEvent::InvalidateRuleCache, true);
    assert!(matches!(effects[..], [Effect::ReloadPolicy]));
}

#[test]
fn a_permanent_device_change_rereads_the_ruleset() {
    let mut w = connected();
    w.policy_shown();
    let op = OperationId(7);
    let kind = OpKind::Device {
        id: DeviceId::new(1),
        policy: DevicePolicy::Block,
        persistence: Persistence::Permanent,
        name: "Keyboard".into(),
    };
    let effects = w.started(op, kind);
    assert!(matches!(effects[..], [Effect::RefreshDevices]));
    assert_eq!(w.devices.sorted()[0].pending, Some(PendingKind::Started));
    assert!(w.op_running(op));
    let effects = w.stage_reached(op, DeviceId::new(1), PendingKind::WaitingForAuthentication);
    assert!(matches!(effects[..], [Effect::RefreshDevices]));
    assert_eq!(w.devices.sorted()[0].pending, Some(PendingKind::WaitingForAuthentication));

    let effects = w.apply(
        UiEvent::OperationFinished { op, result: Ok(OperationOutcome::DevicePolicyApplied { rule: None }) },
        true,
    );
    assert_eq!(effects.len(), 3);
    assert!(matches!(effects[0], Effect::RefreshDevices));
    assert!(matches!(
        &effects[1],
        Effect::Toast(Notice::DeviceDone { policy: DevicePolicy::Block, persistence: Persistence::Permanent, name })
            if name == "Keyboard"
    ));
    assert!(matches!(effects[2], Effect::ReloadPolicy));
    assert_eq!(w.devices.sorted()[0].pending, None);
    assert!(!w.op_running(op));
    // A late stage of a finished operation changes nothing.
    assert!(w.stage_reached(op, DeviceId::new(1), PendingKind::PossiblyNoAgent).is_empty());
}

#[test]
fn an_unknown_operation_is_ignored() {
    let mut w = connected();
    let effects = w.apply(UiEvent::OperationFinished { op: OperationId(99), result: Err(AppError::Cancelled) }, false);
    assert!(effects.is_empty());
}

#[test]
fn a_structural_refusal_disables_its_writes() {
    let mut w = connected();
    w.started(OperationId(1), OpKind::AppendRule);
    let effects = w.apply(
        UiEvent::OperationFinished { op: OperationId(1), result: Err(AppError::Denied(AccessState::DeniedByIpcAcl)) },
        false,
    );
    assert!(matches!(
        effects[..],
        [
            Effect::Blocks(Denials { devices: None, rules: Some(Refusal::IpcAcl), parameters: None }),
            Effect::RefreshDevices,
            Effect::Indicator(Indicator::Connected),
            Effect::Toast(Notice::NotPermitted(Refusal::IpcAcl)),
        ]
    ));
    w.started(OperationId(2), OpKind::Device {
        id: DeviceId::new(1),
        policy: DevicePolicy::Allow,
        persistence: Persistence::RuntimeOnly,
        name: "Keyboard".into(),
    });
    let effects = w.apply(
        UiEvent::OperationFinished { op: OperationId(2), result: Err(AppError::Denied(AccessState::DeniedByBusPolicy)) },
        false,
    );
    assert!(matches!(effects[3], Effect::Indicator(Indicator::ReadOnly)));
    assert_eq!(w.denials.indicator(), Indicator::ReadOnly);
}

#[test]
fn a_polkit_refusal_disables_nothing() {
    let mut w = connected();
    w.started(OperationId(1), OpKind::RemoveRule);
    let effects = w.apply(
        UiEvent::OperationFinished {
            op: OperationId(1),
            result: Err(AppError::Denied(AccessState::DeniedByPolkit { action: None })),
        },
        false,
    );
    assert!(matches!(effects[..], [Effect::Toast(Notice::NotAuthorized)]));
    assert_eq!(w.denials, Denials::none());
    w.started(OperationId(2), OpKind::RemoveRule);
    let effects = w.apply(
        UiEvent::OperationFinished { op: OperationId(2), result: Err(AppError::Denied(AccessState::NoPolkitAgent)) },
        false,
    );
    assert!(matches!(effects[..], [Effect::Toast(Notice::NoAgent)]));
}

#[test]
fn an_ambiguous_removal_asks_which_rule() {
    let mut w = connected();
    w.started(OperationId(3), OpKind::RemoveRule);
    let candidates = vec![handle(4, "block", 0), handle(9, "block", 2)];
    let effects = w.apply(
        UiEvent::OperationFinished {
            op: OperationId(3),
            result: Ok(OperationOutcome::RuleRemoved(RemoveOutcome::Ambiguous { candidates })),
        },
        false,
    );
    assert!(matches!(&effects[..], [Effect::AskWhichRule(c)] if c.len() == 2 && c[1].position == 2));
    assert!(w.rules_stale);
}

#[test]
fn losing_and_regaining_the_daemon() {
    let mut w = connected();
    let effects = w.apply(UiEvent::ConnectionLost("gone".into()), false);
    assert!(matches!(
        effects[..],
        [Effect::DevicesStale(true), Effect::Indicator(Indicator::Disconnected), Effect::ShowBanner(Banner::ConnectionLost)]
    ));
    assert!(!w.connected);
    let effects = w.apply(UiEvent::Reconnected, false);
    assert!(matches!(
        effects[..],
        [Effect::ResetDevices, Effect::Blocks(Denials { devices: None, rules: None, parameters: None }), Effect::RefreshDevices]
    ));
    assert_eq!(w.devices.len(), 0);
}

#[test]
fn a_problem_found_by_the_probe_keeps_its_banner() {
    let mut w = connected();
    let effects = w.apply(UiEvent::AccessStateChanged(AccessState::DeniedByBusPolicy), false);
    assert!(matches!(
        effects[..],
        [Effect::Indicator(Indicator::Denied), Effect::ShowBanner(Banner::Problem(AccessState::DeniedByBusPolicy))]
    ));
    assert!(w.access_problem());
    let effects = w.apply(UiEvent::ConnectionLost("gone".into()), false);
    assert_eq!(effects.len(), 2);
    let effects = w.apply(UiEvent::AccessStateChanged(AccessState::Connected { caps: all_caps() }), false);
    assert!(effects.is_empty());
    assert!(!w.access_problem());
}

#[test]
fn only_others_parameter_changes_are_announced() {
    let mut w = connected();
    let name = || String::from("ImplicitPolicyTarget");
    let effects = w.apply(UiEvent::ParameterChanged { name: name(), value: "block".into() }, false);
    assert!(matches!(&effects[..], [Effect::ShowParameter(Parameter::ImplicitPolicyTarget, v)] if v == "block"));
    let effects = w.apply(UiEvent::ParameterChanged { name: name(), value: "allow".into() }, false);
    assert!(matches!(
        &effects[1],
        Effect::Toast(Notice::ParameterChanged { parameter: Parameter::ImplicitPolicyTarget, value }) if value == "allow"
    ));
    w.started(OperationId(5), OpKind::SetParameter { parameter: Parameter::ImplicitPolicyTarget, new: "reject".into() });
    let effects = w.apply(UiEvent::ParameterChanged { name: name(), value: "reject".into() }, false);
    assert_eq!(effects.len(), 1);
    let effects = w.apply(UiEvent::OperationFinished { op: OperationId(5), result: Err(AppError::Cancelled) }, false);
    assert!(matches!(
        &effects[..],
        [Effect::ShowParameter(Parameter::ImplicitPolicyTarget, v), Effect::Toast(Notice::Cancelled)] if v == "reject"
    ));
    let effects = w.apply(UiEvent::ParameterChanged { name: "Unknown".into(), value: "x".into() }, false);
    assert!(effects.is_empty());
}

#[test]
fn stopping_to_wait_forgets_the_operation() {
    let mut w = connected();
    w.started(OperationId(8), OpKind::Device {
        id: DeviceId::new(1),
        policy: DevicePolicy::Reject,
        persistence: Persistence::RuntimeOnly,
        name: "Keyboard".into(),
    });
    let (op, effects) = w.cancel_device_op(DeviceId::new(1));
    assert_eq!(op, Some(OperationId(8)));
    assert!(matches!(
        effects[..],
        [Effect::RefreshDevices, Effect::Toast(Notice::StoppedWaiting), Effect::ReloadDevices]
    ));
    assert_eq!(w.devices.sorted()[0].pending, None);
    let (op, effects) = w.cancel_device_op(DeviceId::new(1));
    assert_eq!(op, None);
    assert!(effects.is_empty());
}

#[test]
fn device_names_for_messages() {
    let mut w = WindowState::new();
    w.apply(UiEvent::DeviceSnapshot(vec![device(1, r#"block name "  Disk  ""#), device(2, "block")]), false);
    assert_eq!(w.device_name(DeviceId::new(1)).as_deref(), Some("Disk"));
    assert_eq!(w.device_name(DeviceId::new(2)), None);
    assert_eq!(w.device_name(DeviceId::new(3)), None);
    let _ = Write::Devices;
}

#[test]
fn announcements() {
    let one = vec![device(3, r#"block name " Stick ""#)];
    assert!(matches!(announce(&one, true, true), Announcement::Message(Inserted::Named(n)) if n == "Stick"));
    assert!(matches!(announce(&one, true, false), Announcement::Notify));
    assert!(matches!(announce(&one, false, true), Announcement::Nothing));
    assert!(matches!(announce(&[], true, true), Announcement::Nothing));
    let two = vec![device(3, "block"), device(4, "reject")];
    assert!(matches!(announce(&two, true, true), Announcement::Message(Inserted::Many(2))));
    assert!(matches!(announce(&two[..1], true, true), Announcement::Message(Inserted::Unnamed)));
}

#[test]
fn notification_texts() {
    let one = vec![device(3, r#"block name "Stick""#)];
    let n = notification(&one, None).unwrap();
    assert_eq!(n.title, "USB device blocked");
    assert_eq!(n.body, "“Stick” was plugged in and is not authorized.");
    assert_eq!(n.allow, Some(DeviceId::new(3)));
    assert_eq!(notification(&one, Some(false)).unwrap().allow, None);
    let many: Vec<Device> = (1..=6).map(|i| device(i, &format!("block name \"D{i}\""))).collect();
    let n = notification(&many, Some(true)).unwrap();
    assert_eq!(n.title, "6 USB devices blocked");
    assert_eq!(n.body, "D1, D2, D3, D4 and 2 more");
    assert_eq!(n.allow, None);
    let n = notification(&many[..2], None).unwrap();
    assert_eq!(n.body, "D1, D2");
    assert!(notification(&[], None).is_none());
    let unnamed = vec![device(7, "block"), device(8, "block")];
    assert_eq!(notification(&unnamed, None).unwrap().body, "USB device 7, USB device 8");
}

#[test]
fn a_recycled_id_is_no_longer_offered() {
    let stick = device(3, r#"block id 1234:5678 name "Stick""#);
    let mut offers = Offers::new();
    offers.announced(&[stick.clone()]);
    assert!(offers.still_offered(&stick));
    let other = device(3, r#"block id 9999:0001 name "Other""#);
    assert!(!offers.still_offered(&other));
    offers.announced(&[stick.clone(), other.clone()]);
    assert!(!offers.still_offered(&stick));
    offers.announced(&[stick.clone()]);
    offers.withdraw();
    assert!(!offers.still_offered(&stick));
}

#[test]
fn status_icon_counts() {
    let list = vec![device(1, "allow"), device(2, "block"), device(3, "reject")];
    assert_eq!(tray_counts(&list), (3, 2));
    assert_eq!(tray_counts(&[]), (0, 0));
}

#[test]
fn list_filtering() {
    let d = device(1, r#"allow name "Keyboard""#);
    assert!(shown_in_list(&d, "key", false));
    assert!(!shown_in_list(&d, "key", true));
    assert!(!shown_in_list(&d, "mouse", false));
    let b = device(2, r#"block name "Disk""#);
    assert!(shown_in_list(&b, "", true));
}

#[test]
fn the_form_previews_the_canonical_text() {
    let fields = vec![FieldInput { name: AttributeName::Id, operator: None, text: "ABCD:1234".into() }];
    let (rule, text) = preview(true, 0, &fields, "").unwrap();
    assert_eq!(text, "allow id abcd:1234");
    assert_eq!(rule.to_string(), text);
    let (_, text) = preview(true, 7, &fields, "").unwrap();
    assert_eq!(text, "block id abcd:1234");
    let bad = vec![FieldInput { name: AttributeName::Id, operator: None, text: "nope".into() }];
    assert!(matches!(preview(true, 1, &bad, ""), Err(PreviewError::Field(e)) if e.row == 0));
    let (_, text) = preview(false, 0, &[], "reject  name \"x\"").unwrap();
    assert_eq!(text, "reject name \"x\"");
    assert!(matches!(preview(false, 0, &[], "allow nonsense"), Err(PreviewError::Text(m)) if m.ends_with("      ^")));
}

#[test]
fn form_choices() {
    assert_eq!(target_at(0), RuleTarget::Allow);
    assert_eq!(target_at(1), RuleTarget::Block);
    assert_eq!(target_at(2), RuleTarget::Reject);
    assert_eq!(target_at(3), RuleTarget::Block);
    assert_eq!(attribute_at(0), Some(AttributeName::Id));
    assert_eq!(attribute_at(8), Some(AttributeName::Label));
    assert_eq!(attribute_at(9), None);
    assert_eq!(operator_at(0), None);
    assert_eq!(operator_at(1), Some(SetOperator::AllOf));
    assert_eq!(operator_at(6), Some(SetOperator::MatchAll));
    assert_eq!(operator_at(7), None);
    let rules = vec![handle(4, "allow", 0), handle(9, "block", 1)];
    assert_eq!(insert_after(&rules, 0), None);
    assert_eq!(insert_after(&rules, 2).map(|h| h.id), Some(RuleId::new(9)));
    assert_eq!(insert_after(&rules, 3), None);
}

#[test]
fn policy_page_texts_and_choices() {
    assert_eq!(describe(Parameter::ImplicitPolicyTarget), "What happens to a device that matches no rule");
    assert_eq!(value_index(Parameter::InsertedDevicePolicy, "apply-policy"), Some(2));
    assert_eq!(value_index(Parameter::InsertedDevicePolicy, "allow"), None);
    assert_eq!(choice(Parameter::ImplicitPolicyTarget, 1, Some("allow")), Some(("allow".into(), "block".into())));
    assert_eq!(choice(Parameter::ImplicitPolicyTarget, 0, Some("allow")), None);
    assert_eq!(choice(Parameter::ImplicitPolicyTarget, 1, None), None);
    assert_eq!(choice(Parameter::ImplicitPolicyTarget, 5, Some("allow")), None);
    let h = handle(12, r#"allow label "office""#, 4);
    assert_eq!(rule_label(&h).as_deref(), Some("label: office"));
    assert_eq!(rule_label(&handle(1, "allow", 0)), None);
    assert_eq!(rule_number(&h), "5.");
    assert_eq!(rule_tooltip(&h), "Daemon rule id: 12");
}

#[test]
fn an_outcome_is_reported_once() {
    let mut w = connected();
    w.started(OperationId(1), OpKind::AppendRule);
    let first = w.apply(UiEvent::OperationFinished { op: OperationId(1), result: Ok(OperationOutcome::RuleAppended(RuleId::new(3))) }, false);
    assert!(matches!(first[..], [Effect::Toast(Notice::RuleAdded)]));
    let second = w.apply(UiEvent::OperationFinished { op: OperationId(1), result: Err(AppError::Stale) }, false);
    assert!(second.is_empty());
}

#[test]
fn a_cancelled_operation_outcome_is_ignored() {
    let mut w = connected();
    w.started(OperationId(2), OpKind::Device {
        id: DeviceId::new(1),
        policy: DevicePolicy::Allow,
        persistence: Persistence::Permanent,
        name: "Keyboard".into(),
    });
    let (op, _) = w.cancel_device_op(DeviceId::new(1));
    let effects = w.apply(
        UiEvent::OperationFinished { op: op.unwrap(), result: Ok(OperationOutcome::DevicePolicyApplied { rule: None }) },
        true,
    );
    assert!(effects.is_empty());
}

#[test]
fn message_keys() {
    assert_eq!(access_summary(&AccessState::DeniedByIpcAcl), "Refused by USBGuard’s access control");
    assert_eq!(app_error_template(&AppError::Unreachable("x".into())), "USBGuard cannot be reached: {detail}");
    let denied = AppError::Denied(AccessState::NoPolkitAgent);
    assert_eq!(
        fill(app_error_template(&denied), &[("reason", access_summary(&AccessState::NoPolkitAgent))]),
        "Not permitted: No Polkit authentication agent is running"
    );
    assert_eq!(parse_error_message(ParseErrorKind::TooManyValues), "Too many values in one set");
    assert_eq!(value_hint(AttributeName::Label), "text");
    assert_eq!(value_hint(AttributeName::ParentHash), "hash as shown by usbguard");
    assert_eq!(field_error_template(&FieldErrorKind::Empty), "Enter at least one value");
}

#[test]
fn position_entries() {
    let long = "allow name \"".to_string() + &"x".repeat(60) + "\"";
    let rules = vec![handle(4, "block", 0), handle(9, &long, 1)];
    let labels = position_labels(&rules);
    assert_eq!(labels.len(), 3);
    assert_eq!(labels[0], "At the end");
    assert_eq!(labels[1], "After 1. block");
    assert_eq!(labels[2], format!("After 2. {}…", &long[..48]));
}

#[test]
fn a_notification_button_acts_only_on_the_device_it_described() {
    let stick = device(3, r#"block id 1234:5678 name "Stick""#);
    let mut w = WindowState::new();
    w.apply(UiEvent::DeviceSnapshot(vec![stick.clone()]), false);
    let mut offers = Offers::new();
    offers.announced(&[stick.clone()]);
    assert!(offers.may_allow(&w.devices, DeviceId::new(3)));
    assert!(!offers.may_allow(&w.devices, DeviceId::new(4)));
    w.apply(UiEvent::DeviceSnapshot(vec![device(3, r#"block id 9999:0001 name "Other""#)]), false);
    assert!(!offers.may_allow(&w.devices, DeviceId::new(3)));
}

#[test]
fn how_states_are_shown() {
    assert_eq!(indicator_presentation(Indicator::ReadOnly), ("changes-prevent-symbolic", "Read-only"));
    assert_eq!(state_presentation(Target::Other(9)), ("dialog-question-symbolic", "Unknown"));
    assert_eq!(state_presentation(Target::Block).1, "Blocked");
    assert_eq!(pending_message(PendingKind::WaitingForAuthentication), "Waiting for authentication");
    assert_eq!(
        fill(device_done_template(DevicePolicy::Reject, Persistence::Permanent), &[("device", "Disk")]),
        "Rejected “Disk” permanently"
    );
    assert!(background_notice(true).contains("status icon to reopen"));
    assert!(background_notice(false).contains("{app}"));
    assert_eq!(tray_change(true, false), TrayChange::Start);
    assert_eq!(tray_change(false, true), TrayChange::Stop);
    assert_eq!(tray_change(true, true), TrayChange::Keep);
    assert_eq!(tray_change(false, false), TrayChange::Keep);
    assert!(supports_actions(&["body".to_string(), "actions".to_string()]));
    assert!(!supports_actions(&["body".to_string()]));
}

#[test]
fn the_preselected_persistence() {
    assert_eq!(persistence_of_setting(Some(1)), Persistence::Permanent);
    assert_eq!(persistence_of_setting(Some(0)), Persistence::RuntimeOnly);
    assert_eq!(persistence_of_setting(None), Persistence::RuntimeOnly);
}
