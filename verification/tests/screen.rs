use thinkpoint::app::{button_label, App, Device, Focus, PropRow, Status, Tab};
use thinkpoint::screen::{prop_label, range_text};
use thinkpoint::sysfs::{Attr, AttrKind, Node};
use thinkpoint::xinput::{Kind, Prop, PropValue, XDevice};

fn attr(name: &str, value: &str, pending: &str, kind: AttrKind) -> Attr {
    Attr {
        name: name.to_string(),
        help: "Force needed to move the pointer.",
        kind,
        value: value.to_string(),
        original: value.to_string(),
        pending: pending.to_string(),
        writable_directly: false,
        path: format!("/sys/devices/platform/i8042/serio1/{name}"),
    }
}

fn trackpoint() -> Device {
    Device {
        x: Some(XDevice {
            id: 13,
            name: "TPPS/2 Elan TrackPoint".into(),
            kind: Kind::SlavePointer,
        }),
        name: "TPPS/2 Elan TrackPoint".into(),
        buttons: vec![1, 2, 3, 4, 5, 6, 7],
        pending_buttons: vec![1, 0, 3, 4, 5, 6, 7],
        original_buttons: vec![1, 2, 3, 4, 5, 6, 7],
        props: vec![PropRow {
            prop: Prop {
                name: "libinput Accel Speed".into(),
                value: PropValue::Numbers(vec!["0.000000".into()]),
                read_only: false,
            },
            pending: vec!["0.000000".into()],
            original: vec!["0.000000".into()],
        }],
        enabled: true,
        originally_enabled: true,
        sysfs: Some(Node {
            path: "/sys/devices/platform/i8042/serio1".into(),
            description: "i8042 AUX port".into(),
            firmware_id: "PNP: LEN0321".into(),
            input_names: vec!["TPPS/2 Elan TrackPoint".into()],
            attrs: vec![
                attr("sensitivity", "128", "90", AttrKind::Range(0, 255)),
                attr("press_to_select", "0", "0", AttrKind::Bool),
            ],
        }),
        note: None,
    }
}

fn app(tab: Tab) -> App {
    App {
        devices: vec![trackpoint()],
        sel_device: 0,
        sel_button: 1,
        sel_prop: 0,
        sel_attr: 0,
        focus: Focus::Detail,
        tab,
        modal: None,
        status: Status::default(),
        should_quit: false,
        x11: true,
    }
}

#[test]
fn a_staged_disable_shows_the_live_value() {
    let a = app(Tab::Buttons);
    let d = a.device();
    assert_eq!(d.staged_note(1).as_deref(), Some("   (staged, live: 2)"));
    assert_eq!(d.staged_note(0), None);
    assert!(button_label(2).contains("middle"));
    assert_eq!(button_label(10), "");
}

#[test]
fn the_buttons_hint_is_the_xinput_command() {
    let hint = app(Tab::Buttons).hint();
    assert_eq!(hint.title, " equivalent command ");
    assert_eq!(
        hint.command,
        "xinput set-button-map \"TPPS/2 Elan TrackPoint\" 1 0 3 4 5 6 7"
    );
}

#[test]
fn the_sysfs_hint_writes_the_pending_value() {
    let hint = app(Tab::Sysfs).hint();
    assert_eq!(
        hint.command,
        "echo 90 | sudo tee /sys/devices/platform/i8042/serio1/sensitivity"
    );
    assert_eq!(range_text(AttrKind::Range(0, 255)), "0–255");
    assert_eq!(range_text(AttrKind::Range(-5, 5)), "-5–5");
    assert_eq!(range_text(AttrKind::Bool), "0/1");
}

#[test]
fn the_libinput_hint_sets_the_property() {
    let hint = app(Tab::Libinput).hint();
    assert_eq!(
        hint.command,
        "xinput set-prop \"TPPS/2 Elan TrackPoint\" \"libinput Accel Speed\" 0.000000"
    );
    assert_eq!(prop_label("libinput Accel Speed"), "Accel Speed");
    assert_eq!(prop_label("Device Enabled"), "Device Enabled");
}

#[test]
fn the_device_list_hint_is_what_t_would_run() {
    let mut a = app(Tab::Buttons);
    a.focus = Focus::Devices;
    let hint = a.hint();
    assert_eq!(hint.title, " what t would run ");
    assert_eq!(hint.command, "xinput disable \"TPPS/2 Elan TrackPoint\"");
    a.devices[0].enabled = false;
    assert_eq!(a.hint().command, "xinput enable \"TPPS/2 Elan TrackPoint\"");
}

#[test]
fn a_row_with_no_x_device_shows_its_tab_command_from_the_list() {
    let mut a = app(Tab::Sysfs);
    a.focus = Focus::Devices;
    a.devices[0].x = None;
    assert_eq!(a.hint().title, " equivalent command ");
}

#[test]
fn tags_and_titles_describe_the_device() {
    let a = app(Tab::Buttons);
    let d = a.device();
    assert_eq!(d.tags(), "  id 13 \u{b7} 7 buttons \u{b7} sysfs");
    assert_eq!(d.detail_title(), "TPPS/2 Elan TrackPoint");
    let mut off = trackpoint();
    off.enabled = false;
    off.x = None;
    off.buttons.clear();
    assert_eq!(off.detail_title(), "TPPS/2 Elan TrackPoint \u{2014} disabled");
    assert_eq!(off.tags(), "  sysfs");
}

#[test]
fn the_password_echo_is_one_dot_per_character() {
    assert_eq!(thinkpoint::screen::masked("hunter2"), "•••••••");
    assert_eq!(thinkpoint::screen::masked(""), "");
    assert_eq!(thinkpoint::screen::masked("päss"), "••••");
}
