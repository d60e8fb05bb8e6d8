use usbguard_gui::model::access::{AccessState, Capabilities};
use usbguard_gui::remedy::{commands_to_copy, remedy, Distro, HOST_OS_RELEASE, OS_RELEASE};

#[test]
fn distro_detection() {
    assert_eq!(Distro::from_os_release("ID=fedora\n"), Distro::Fedora);
    assert_eq!(Distro::from_os_release("ID=linuxmint\nID_LIKE=\"ubuntu debian\"\n"), Distro::Debian);
    assert_eq!(Distro::from_os_release("ID=endeavouros\nID_LIKE=arch\n"), Distro::Arch);
    assert_eq!(Distro::from_os_release("ID=\"rocky\"\nID_LIKE=\"rhel centos fedora\"\n"), Distro::Fedora);
    assert_eq!(Distro::from_os_release("ID=nixos\n"), Distro::Unknown);
    assert_eq!(Distro::from_os_release(""), Distro::Unknown);
}

#[test]
fn detection_reads_the_host_file_first() {
    assert_eq!(Distro::os_release_path(true), HOST_OS_RELEASE);
    assert_eq!(Distro::os_release_path(false), OS_RELEASE);
    assert_eq!(Distro::detect(None), Distro::Unknown);
    assert_eq!(Distro::detect(Some("NAME=x\r\nID='Arch'\r\n")), Distro::Arch);
    assert_eq!(Distro::detect(Some("IDX=fedora\nID=debian")), Distro::Debian);
}

#[test]
fn not_installed_and_not_running_have_different_remedies() {
    let a = remedy(&AccessState::BridgeNotInstalled, Distro::Fedora).unwrap();
    let b = remedy(&AccessState::BridgeNotRunning { daemon_running: Some(true) }, Distro::Fedora).unwrap();
    assert_ne!(a, b);
    assert_eq!(a.commands[0], "sudo dnf install usbguard-dbus");
    assert!(!b.commands.iter().any(|c| c.contains("install")));
}

#[test]
fn stopped_daemon_is_started_first() {
    let r = remedy(&AccessState::BridgeNotRunning { daemon_running: Some(false) }, Distro::Arch).unwrap();
    assert!(r.commands[0].contains("usbguard.service"));
}

#[test]
fn ok_has_no_remedy() {
    assert!(remedy(&AccessState::Connected { caps: Capabilities::default() }, Distro::Unknown).is_none());
}

#[test]
fn unattributed_denials_list_both_remedies() {
    let r = remedy(&AccessState::DeniedUnattributed { detail: String::new() }, Distro::Unknown).unwrap();
    assert_eq!(r.commands.len(), 2);
    assert_eq!(
        r.commands[0],
        "sudo install -m 0644 /usr/share/doc/usbguard-gui/70-usbguard-gui.rules.example /etc/polkit-1/rules.d/70-usbguard-gui.rules"
    );
    assert!(r.commands[1].starts_with("sudo usbguard add-user \"$USER\""));
}

#[test]
fn the_commands_to_copy_are_the_remedy_lines() {
    let state = AccessState::BridgeNotInstalled;
    let m = remedy(&state, Distro::Fedora).unwrap();
    assert_eq!(commands_to_copy(&state, Distro::Fedora), Some(m.commands.join("\n")));
    let connected = AccessState::Connected {
        caps: Capabilities {
            list_devices: true,
            modify_devices: true,
            list_rules: true,
            modify_rules: true,
            get_parameters: true,
            set_parameters: true,
        },
    };
    assert_eq!(commands_to_copy(&connected, Distro::Fedora), None);
}
