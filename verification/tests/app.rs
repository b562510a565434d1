use thinkpoint::app::{App, Device, Focus, Level, Status, Tab};
use thinkpoint::sysfs::{Attr, AttrKind, Node};
use thinkpoint::xinput::{Kind, XDevice};

fn attr(name: &str, value: &str, kind: AttrKind) -> Attr {
    Attr {
        name: name.to_string(),
        help: "",
        kind,
        value: value.to_string(),
        original: value.to_string(),
        pending: value.to_string(),
        writable_directly: false,
        path: format!("/sys/devices/platform/i8042/serio1/{name}"),
    }
}

fn device(attrs: Vec<Attr>) -> Device {
    Device {
        x: None,
        name: "TPPS/2 Elan TrackPoint".into(),
        buttons: vec![1, 2, 3],
        pending_buttons: vec![1, 2, 3],
        original_buttons: vec![1, 2, 3],
        props: Vec::new(),
        enabled: true,
        originally_enabled: true,
        sysfs: if attrs.is_empty() {
            None
        } else {
            Some(Node {
                path: "/sys/devices/platform/i8042/serio1".into(),
                description: String::new(),
                firmware_id: String::new(),
                input_names: Vec::new(),
                attrs,
            })
        },
        note: None,
    }
}

fn app(attrs: Vec<Attr>) -> App {
    App {
        devices: vec![device(attrs)],
        sel_device: 0,
        sel_button: 0,
        sel_prop: 0,
        sel_attr: 0,
        focus: Focus::Devices,
        tab: Tab::Buttons,
        modal: None,
        status: Status::default(),
        should_quit: false,
        x11: true,
    }
}

fn pending(app: &App, name: &str) -> Option<String> {
    app.device()
        .sysfs
        .as_ref()?
        .attrs
        .iter()
        .find(|a| a.name == name)
        .map(|a| a.pending.clone())
}

#[test]
fn drift_preset_lowers_sensitivity_by_a_quarter() {
    let mut a = app(vec![attr("sensitivity", "128", AttrKind::Range(0, 255))]);
    a.apply_drift_preset();
    assert_eq!(pending(&a, "sensitivity").as_deref(), Some("96"));
    assert_eq!(a.status.level, Level::Good);
}

#[test]
fn drift_preset_stops_before_the_stick_becomes_unusable() {
    let mut a = app(vec![attr("sensitivity", "45", AttrKind::Range(0, 255))]);
    a.apply_drift_preset();
    assert_eq!(pending(&a, "sensitivity").as_deref(), Some("40"));
}

#[test]
fn drift_preset_raises_drift_time_where_the_device_has_one() {
    let mut a = app(vec![
        attr("sensitivity", "128", AttrKind::Range(0, 255)),
        attr("drift_time", "5", AttrKind::Range(0, 255)),
    ]);
    a.apply_drift_preset();
    assert_eq!(pending(&a, "drift_time").as_deref(), Some("20"));
    assert!(!a.status.text.contains("no drift_time"));
}

#[test]
fn drift_preset_says_so_when_there_is_no_drift_time() {
    // The Elan case: sensitivity is the only lever the kernel offers.
    let mut a = app(vec![attr("sensitivity", "128", AttrKind::Range(0, 255))]);
    a.apply_drift_preset();
    assert!(
        a.status.text.contains("no drift_time on this device"),
        "should not imply it tuned something it cannot: {}",
        a.status.text
    );
}

#[test]
fn drift_preset_stages_rather_than_writes() {
    let mut a = app(vec![attr("sensitivity", "128", AttrKind::Range(0, 255))]);
    a.apply_drift_preset();
    let node = a.device().sysfs.as_ref().unwrap();
    let sensitivity = &node.attrs[0];
    assert!(sensitivity.is_dirty(), "staged");
    assert_eq!(sensitivity.value, "128", "kernel value untouched until apply");
    assert!(a.status.text.contains("press a to apply"));
}

#[test]
fn drift_preset_moves_you_to_the_tab_showing_the_change() {
    let mut a = app(vec![attr("sensitivity", "128", AttrKind::Range(0, 255))]);
    a.apply_drift_preset();
    assert_eq!(a.tab, Tab::Sysfs);
}

#[test]
fn drift_preset_is_idempotent_at_the_floor() {
    let mut a = app(vec![attr("sensitivity", "40", AttrKind::Range(0, 255))]);
    a.apply_drift_preset();
    assert_eq!(a.status.level, Level::Warn);
    assert!(a.status.text.contains("Already at or below"));
}

#[test]
fn a_disabled_device_is_carried_into_the_profile() {
    let mut a = app(vec![attr("sensitivity", "128", AttrKind::Range(0, 255))]);
    a.devices[0].x = Some(XDevice {
        id: 12,
        name: "SynPS/2 Synaptics TouchPad".into(),
        kind: Kind::SlavePointer,
    });
    a.devices[0].name = "SynPS/2 Synaptics TouchPad".into();

    assert!(a.x_settings().is_empty(), "nothing customised yet");

    // Simulate the toggle having gone through, without invoking xinput.
    a.devices[0].enabled = false;
    let settings = a.x_settings();
    assert_eq!(settings.len(), 1);
    assert_eq!(settings[0].enabled, Some(false));
}

#[test]
fn a_device_left_enabled_is_not_carried_into_the_profile() {
    let mut a = app(vec![attr("sensitivity", "128", AttrKind::Range(0, 255))]);
    a.devices[0].x = Some(XDevice {
        id: 12,
        name: "Some Mouse".into(),
        kind: Kind::SlavePointer,
    });
    assert!(a.x_settings().is_empty());
}

#[test]
fn toggling_a_row_with_no_x_device_says_why() {
    let mut a = app(vec![attr("sensitivity", "128", AttrKind::Range(0, 255))]);
    a.toggle_device_enabled(true);
    assert_eq!(a.status.level, Level::Bad);
    assert!(a.status.text.contains("no X device"));
}

#[test]
fn drift_preset_on_a_device_without_sysfs_explains_itself() {
    let mut a = app(Vec::new());
    a.apply_drift_preset();
    assert_eq!(a.status.level, Level::Bad);
    assert!(a.status.text.contains("No sysfs node"));
}

#[test]
fn a_second_preset_stops_at_the_floor() {
    let mut a = app(vec![
        attr("sensitivity", "50", AttrKind::Range(0, 255)),
        attr("drift_time", "5", AttrKind::Range(0, 255)),
    ]);
    a.apply_drift_preset();
    assert_eq!(pending(&a, "sensitivity").as_deref(), Some("40"));
    assert_eq!(pending(&a, "drift_time").as_deref(), Some("20"));
    a.apply_drift_preset();
    assert_eq!(a.status.level, Level::Warn);
    assert_eq!(a.status.text, "Already at or below the preset's values");
    assert_eq!(pending(&a, "drift_time").as_deref(), Some("20"));
}

#[test]
fn the_preset_says_what_it_staged() {
    let mut a = app(vec![
        attr("sensitivity", "128", AttrKind::Range(0, 255)),
        attr("drift_time", "5", AttrKind::Range(0, 255)),
    ]);
    a.apply_drift_preset();
    assert_eq!(
        a.status.text,
        "Staged: sensitivity 128 \u{2192} 96, drift_time 5 \u{2192} 20  \u{b7}  press a to apply"
    );
}

#[test]
fn a_device_with_no_drift_attributes_says_so() {
    let mut a = app(vec![attr("press_to_select", "0", AttrKind::Bool)]);
    a.apply_drift_preset();
    assert_eq!(a.status.text, "This device exposes no drift-related attributes");
}

#[test]
fn a_confirmed_map_leaves_nothing_staged() {
    let mut a = app(Vec::new());
    a.devices[0].x = Some(XDevice {
        id: 13,
        name: "TPPS/2 Elan TrackPoint".into(),
        kind: Kind::SlavePointer,
    });
    a.devices[0].pending_buttons = vec![1, 0, 3];
    let map = vec![1, 0, 3];
    assert_eq!(a.finish_buttons(&map, vec![1, 0, 3]).unwrap(), "Button map applied \u{2014} disabled: 2");
    assert!(!a.device().buttons_dirty());
    match a.apply().unwrap() {
        thinkpoint::app::ApplyRequest::Nothing(m) => {
            assert_eq!(m, "Button map already matches what is staged")
        }
        _ => panic!("nothing should be left to apply"),
    }
}

#[test]
fn a_map_the_server_kept_is_an_error() {
    let mut a = app(Vec::new());
    let map = vec![1, 0, 3];
    let e = a.finish_buttons(&map, vec![1, 2, 3]).unwrap_err();
    assert_eq!(e.0, "the X server accepted the call but kept the old map");
    assert_eq!(a.device().buttons, vec![1, 2, 3]);
}

#[test]
fn writing_an_attribute_makes_it_live() {
    let mut a = app(vec![attr("sensitivity", "128", AttrKind::Range(0, 255))]);
    a.devices[0].sysfs.as_mut().unwrap().attrs[0].pending = "90".into();
    a.mark_written(0);
    let at = &a.device().sysfs.as_ref().unwrap().attrs[0];
    assert_eq!(at.value, "90");
    assert!(!at.is_dirty());
    assert!(at.is_customised());
    assert_eq!(thinkpoint::app::written_message(1, true), "Wrote 1 sysfs attribute(s) via sudo");
    assert_eq!(thinkpoint::app::written_message(2, false), "Wrote 2 sysfs attribute(s)");
}

#[test]
fn reloading_keeps_the_tab_and_a_valid_row() {
    let mut a = app(Vec::new());
    a.tab = Tab::Libinput;
    a.sel_device = 0;
    let fresh = app(Vec::new());
    a.refreshed(Ok(fresh));
    assert_eq!(a.tab, Tab::Libinput);
    assert_eq!(a.sel_device, 0);
    assert_eq!(a.status.text, "Reloaded from the system");
    a.refreshed(Err(thinkpoint::error::Error::new("xinput: gone")));
    assert_eq!(a.status.level, Level::Bad);
}

#[test]
fn names_for_ids_fall_back_to_the_number() {
    let mut a = app(Vec::new());
    a.devices[0].x = Some(XDevice {
        id: 13,
        name: "TPPS/2 Elan TrackPoint".into(),
        kind: Kind::SlavePointer,
    });
    assert_eq!(a.device_name_for_id(13), "TPPS/2 Elan TrackPoint");
    assert_eq!(a.device_name_for_id(99), "device 99 (not in this list)");
}

#[test]
fn the_preset_never_raises_a_low_sensitivity() {
    let mut a = app(vec![attr("sensitivity", "30", AttrKind::Range(0, 255))]);
    a.apply_drift_preset();
    assert_eq!(pending(&a, "sensitivity").as_deref(), Some("30"));
    assert_eq!(a.status.level, Level::Warn);
    assert!(a.status.text.contains("Already at or below"));
}
