use usbguard_gui::model::access::{AccessState, Capabilities};
use usbguard_gui::model::device::DeviceAttributes;
use usbguard_gui::model::event::UiEvent;
use usbguard_gui::model::ids::{DeviceId, IdPart, InterfaceType, RuleId};
use usbguard_gui::model::ids::UsbId;
use usbguard_gui::model::parameter::Parameter;
use usbguard_gui::model::target::{DeviceEvent, DevicePolicy, Persistence, Target};
use usbguard_gui::VERSION;

#[test]
fn version_is_not_empty() {
    assert!(!VERSION.is_empty());
}

#[test]
fn writes_start_optimistic_reads_pessimistic() {
    let caps = Capabilities::default();
    assert!(caps.modify_devices && caps.modify_rules && caps.set_parameters);
    assert!(!caps.list_devices && !caps.list_rules && !caps.get_parameters);
}

#[test]
fn denied_classification() {
    assert!(AccessState::DeniedByIpcAcl.is_denied());
    assert!(!AccessState::BridgeNotInstalled.is_denied());
    assert!(!AccessState::Connected { caps: Capabilities::default() }.is_denied());
}

#[test]
fn signal_map_is_forgiving() {
    let m: Vec<(String, String)> = vec![
        ("id".into(), "not-an-id".into()),
        ("name".into(), "Keyboard".into()),
        ("with-interface".into(), "{ 03:01:01 bogus 03:00:00 }".into()),
        ("unexpected".into(), "ignored".into()),
    ];
    let a = DeviceAttributes::from_signal_map(&m);
    assert_eq!(a.name.as_deref(), Some("Keyboard"));
    assert!(a.usb_id.is_none());
    assert_eq!(a.with_interface.len(), 2);
    assert!(a.serial.is_none());
}

#[test]
fn merge_keeps_old_values_newer_wins() {
    let mut a = DeviceAttributes { name: Some("old".into()), serial: Some("S".into()), ..DeviceAttributes::default() };
    a.merge_from(DeviceAttributes { name: Some("new".into()), ..DeviceAttributes::default() });
    assert_eq!(a.name.as_deref(), Some("new"));
    assert_eq!(a.serial.as_deref(), Some("S"));
}

fn assert_send<T: Send + 'static>() {}

#[test]
fn ui_event_crosses_threads() {
    assert_send::<UiEvent>();
}

#[test]
fn device_id_round_trip() {
    let id = DeviceId::new(42);
    assert_eq!(id.get(), 42);
}

#[test]
fn rule_id_round_trip() {
    let id = RuleId::new(7);
    assert_eq!(id.get(), 7);
}

#[test]
fn append_last_is_the_upstream_convention() {
    assert_eq!(RuleId::append_last().get(), 4_294_967_293);
}

#[test]
fn equality_same_value() {
    assert_eq!(DeviceId::new(1), DeviceId::new(1));
    assert_ne!(DeviceId::new(1), DeviceId::new(2));
}

#[test]
fn debug_format_includes_type_name() {
    let output = format!("{:?}", DeviceId::new(99));
    assert!(output.contains("DeviceId"));
    assert!(output.contains("99"));
}

#[test]
fn usb_id_parses_and_renders_lowercase() {
    let id = UsbId::parse(b"1D6B:0002").unwrap();
    assert_eq!(id.vendor(), IdPart::Value(0x1d6b));
    assert_eq!(id.to_string(), "1d6b:0002");
}

#[test]
fn usb_id_wildcards() {
    assert_eq!(UsbId::parse(b"*:*").unwrap().to_string(), "*:*");
    assert_eq!(UsbId::parse(b"1234:*").unwrap().to_string(), "1234:*");
    assert!(UsbId::parse(b"*:1234").is_none());
}

#[test]
fn usb_id_rejects_malformed() {
    for bad in [&b"123:4567"[..], b"12345:1234", b"12g4:0000", b"1234", b"", b":"] {
        assert!(UsbId::parse(bad).is_none(), "{bad:?}");
    }
}

#[test]
fn interface_type_forms() {
    assert_eq!(InterfaceType::parse(b"09:00:00").unwrap().to_string(), "09:00:00");
    assert_eq!(InterfaceType::parse(b"03:*:*").unwrap().to_string(), "03:*:*");
    assert_eq!(InterfaceType::parse(b"03:01:*").unwrap().to_string(), "03:01:*");
    assert!(InterfaceType::parse(b"03:*:01").is_none());
    assert!(InterfaceType::parse(b"*:00:00").is_none());
    assert!(InterfaceType::parse(b"3:00:00").is_none());
    assert!(InterfaceType::parse(b"03:00").is_none());
}

#[test]
fn names_round_trip() {
    for p in Parameter::all() {
        assert_eq!(Parameter::from_name(p.name()), Some(p));
    }
    assert_eq!(Parameter::from_name("RuleFile"), None);
}

#[test]
fn target_decoding_is_total() {
    assert_eq!(Target::from(0), Target::Allow);
    assert_eq!(Target::from(1), Target::Block);
    assert_eq!(Target::from(2), Target::Reject);
    assert_eq!(Target::from(3), Target::Other(3));
    assert_eq!(Target::from(u32::MAX), Target::Other(u32::MAX));
}

#[test]
fn unknown_target_cannot_become_a_command() {
    assert!(DevicePolicy::try_from(Target::Other(5)).is_err());
    for p in [DevicePolicy::Allow, DevicePolicy::Block, DevicePolicy::Reject] {
        assert_eq!(DevicePolicy::try_from(Target::from(p)), Ok(p));
        assert_eq!(Target::from(p.wire()), Target::from(p));
    }
}

#[test]
fn event_decoding_is_total() {
    assert_eq!(DeviceEvent::from(3), DeviceEvent::Remove);
    assert_eq!(DeviceEvent::from(9), DeviceEvent::Other(9));
}

#[test]
fn persistence_booleans_are_inverse() {
    for p in [Persistence::Permanent, Persistence::RuntimeOnly] {
        assert_ne!(p.as_temporary(), p.as_permanent());
    }
    assert!(Persistence::Permanent.as_permanent());
    assert!(Persistence::RuntimeOnly.as_temporary());
    assert_eq!(Persistence::default(), Persistence::RuntimeOnly);
}

#[test]
fn access_state_text_names_the_detail() {
    let s = AccessState::DeniedUnattributed { detail: "boom".into() };
    assert_eq!(s.to_string(), "access denied: boom");
    let p = AccessState::DeniedByPolkit { action: Some("org.usbguard.Policy1.listRules".into()) };
    assert_eq!(p.to_string(), "denied by Polkit (org.usbguard.Policy1.listRules)");
    assert_eq!(AccessState::BusUnavailable.to_string(), "no system D-Bus");
}

#[test]
fn parsed_ids_render_as_their_text_in_lowercase() {
    for text in ["1D6B:00aF", "abCD:*", "*:*"] {
        assert_eq!(UsbId::parse(text.as_bytes()).unwrap().to_string(), text.to_ascii_lowercase());
    }
    for text in ["0A:Bc:*", "FF:*:*"] {
        assert_eq!(InterfaceType::parse(text.as_bytes()).unwrap().to_string(), text.to_ascii_lowercase());
    }
}
