use thinkpoint::app::{App, ApplyRequest, Device, Focus, Level, Modal, PropRow, Status, Tab};
use thinkpoint::keys::{Command, Key, KeyPress};
use thinkpoint::error::Error;
use thinkpoint::sysfs::{Attr, AttrKind, Node, WriteVia};
use thinkpoint::xinput::{Kind, Prop, PropValue, XDevice};

fn attr(name: &str, value: &str, pending: &str, kind: AttrKind) -> Attr {
    Attr {
        name: name.to_string(),
        help: "Force needed to move the pointer.",
        kind,
        value: value.to_string(),
        original: value.to_string(),
        pending: pending.to_string(),
        writable_directly: false,
        path: format!("/sys/devices/platform/i8042/serio1/{name}"),
    }
}

fn trackpoint() -> Device {
    Device {
        x: Some(XDevice {
            id: 13,
            name: "TPPS/2 Elan TrackPoint".into(),
            kind: Kind::SlavePointer,
        }),
        name: "TPPS/2 Elan TrackPoint".into(),
        buttons: vec![1, 2, 3, 4, 5, 6, 7],
        pending_buttons: vec![1, 0, 3, 4, 5, 6, 7],
        original_buttons: vec![1, 2, 3, 4, 5, 6, 7],
        props: vec![
            PropRow {
                prop: Prop {
                    name: "libinput Accel Speed".into(),
                    value: PropValue::Numbers(vec!["0.000000".into()]),
                    read_only: false,
                },
                pending: vec!["0.000000".into()],
                original: vec!["0.000000".into()],
            },
            PropRow {
                prop: Prop {
                    name: "libinput Natural Scrolling Enabled".into(),
                    value: PropValue::Numbers(vec!["0".into()]),
                    read_only: false,
                },
                pending: vec!["0".into()],
                original: vec!["0".into()],
            },
        ],
        enabled: true,
        originally_enabled: true,
        sysfs: Some(Node {
            path: "/sys/devices/platform/i8042/serio1".into(),
            description: "i8042 AUX port".into(),
            firmware_id: "PNP: LEN0321".into(),
            input_names: vec!["TPPS/2 Elan TrackPoint".into()],
            attrs: vec![
                attr("sensitivity", "128", "90", AttrKind::Range(0, 255)),
                attr("press_to_select", "0", "0", AttrKind::Bool),
            ],
        }),
        note: None,
    }
}

fn touchpad() -> Device {
    Device {
        x: Some(XDevice {
            id: 12,
            name: "SynPS/2 Synaptics TouchPad".into(),
            kind: Kind::SlavePointer,
        }),
        name: "SynPS/2 Synaptics TouchPad".into(),
        buttons: vec![1, 2, 3],
        pending_buttons: vec![1, 2, 3],
        original_buttons: vec![1, 2, 3],
        props: Vec::new(),
        enabled: true,
        originally_enabled: true,
        sysfs: None,
        note: None,
    }
}

fn app(tab: Tab) -> App {
    App {
        devices: vec![trackpoint(), touchpad()],
        sel_device: 0,
        sel_button: 1,
        sel_prop: 0,
        sel_attr: 0,
        focus: Focus::Detail,
        tab,
        modal: None,
        status: Status::default(),
        should_quit: false,
        x11: true,
    }
}

fn press(key: Key) -> KeyPress {
    KeyPress { key, ctrl: false }
}

fn send(a: &mut App, key: Key) -> Command {
    let k = press(key);
    assert!(a.key_fits(k));
    a.handle_key(k)
}

#[test]
fn q_and_esc_quit_from_the_page() {
    let mut a = app(Tab::Buttons);
    send(&mut a, Key::Char('q'));
    assert!(a.should_quit);
    let mut b = app(Tab::Buttons);
    send(&mut b, Key::Esc);
    assert!(b.should_quit);
    let mut c = app(Tab::Buttons);
    let k = KeyPress { key: Key::Char('c'), ctrl: true };
    c.handle_key(k);
    assert!(c.should_quit);
    let mut d = app(Tab::Buttons);
    send(&mut d, Key::Char('c'));
    assert!(!d.should_quit, "a plain c does nothing");
}

#[test]
fn esc_closes_a_panel_rather_than_quitting() {
    let mut a = app(Tab::Buttons);
    send(&mut a, Key::Char('?'));
    assert!(matches!(a.modal, Some(Modal::Help)));
    send(&mut a, Key::Esc);
    assert!(a.modal.is_none());
    assert!(!a.should_quit);
}

#[test]
fn tab_cycles_the_sections_and_focuses_the_detail() {
    let mut a = app(Tab::Buttons);
    a.focus = Focus::Devices;
    send(&mut a, Key::Tab);
    assert_eq!((a.tab, a.focus), (Tab::Libinput, Focus::Detail));
    send(&mut a, Key::Tab);
    send(&mut a, Key::Tab);
    assert_eq!(a.tab, Tab::Buttons);
    send(&mut a, Key::BackTab);
    assert_eq!(a.tab, Tab::Sysfs);
}

#[test]
fn moving_down_past_the_last_device_wraps_round() {
    let mut a = app(Tab::Buttons);
    a.focus = Focus::Devices;
    send(&mut a, Key::Down);
    assert_eq!(a.sel_device, 1);
    send(&mut a, Key::Char('j'));
    assert_eq!(a.sel_device, 0);
    send(&mut a, Key::Up);
    assert_eq!(a.sel_device, 1);
}

#[test]
fn space_stages_a_button_without_touching_the_live_map() {
    let mut a = app(Tab::Buttons);
    a.sel_button = 2;
    let command = send(&mut a, Key::Char(' '));
    assert!(matches!(command, Command::Nothing));
    assert_eq!(a.devices[0].pending_buttons, vec![1, 0, 0, 4, 5, 6, 7]);
    assert_eq!(a.devices[0].buttons, vec![1, 2, 3, 4, 5, 6, 7], "live map untouched");
    // And back: button 3 restored from the start-up map.
    send(&mut a, Key::Char(' '));
    assert_eq!(a.devices[0].pending_buttons, vec![1, 0, 3, 4, 5, 6, 7]);
}

#[test]
fn apply_hands_back_the_staged_map() {
    let mut a = app(Tab::Buttons);
    match send(&mut a, Key::Char('a')) {
        Command::Apply(ApplyRequest::Buttons { id, map }) => {
            assert_eq!(id, 13);
            assert_eq!(map, vec![1, 0, 3, 4, 5, 6, 7]);
        }
        _ => panic!("expected a button map to apply"),
    }
}

#[test]
fn applying_a_clean_map_says_so_and_asks_for_nothing() {
    let mut a = app(Tab::Buttons);
    a.sel_device = 1;
    let command = send(&mut a, Key::Enter);
    assert!(matches!(command, Command::Nothing));
    assert_eq!(a.status.level, Level::Good);
    assert_eq!(a.status.text, "Button map already matches what is staged");
}

#[test]
fn applying_sysfs_names_the_dirty_attributes() {
    let mut a = app(Tab::Sysfs);
    match send(&mut a, Key::Char('a')) {
        Command::Apply(ApplyRequest::Sysfs { indices }) => assert_eq!(indices, vec![0]),
        _ => panic!("expected attributes to write"),
    }
}

#[test]
fn arrows_on_the_libinput_tab_ask_for_a_nudge() {
    let mut a = app(Tab::Libinput);
    assert!(matches!(send(&mut a, Key::Right), Command::NudgeProp { up: true }));
    assert!(matches!(send(&mut a, Key::Left), Command::NudgeProp { up: false }));
}

#[test]
fn arrows_on_the_sysfs_tab_step_by_five() {
    let mut a = app(Tab::Sysfs);
    send(&mut a, Key::Right);
    assert_eq!(a.devices[0].sysfs.as_ref().unwrap().attrs[0].pending, "95");
    send(&mut a, Key::Char('h'));
    send(&mut a, Key::Char('h'));
    assert_eq!(a.devices[0].sysfs.as_ref().unwrap().attrs[0].pending, "85");
    assert_eq!(a.devices[0].sysfs.as_ref().unwrap().attrs[0].value, "128");
}

#[test]
fn the_detector_needs_xinput() {
    let mut a = app(Tab::Buttons);
    assert!(matches!(send(&mut a, Key::Char('d')), Command::StartDetector));
    a.x11 = false;
    assert!(matches!(send(&mut a, Key::Char('d')), Command::Nothing));
    assert_eq!(a.status.level, Level::Bad);
    assert_eq!(a.status.text, "Needs xinput, which is not available here");
    assert!(matches!(send(&mut a, Key::Char('m')), Command::Nothing));
}

#[test]
fn t_acts_on_the_live_state_and_keeps_what_reads_back() {
    let mut a = app(Tab::Buttons);
    match send(&mut a, Key::Char('t')) {
        Command::ToggleEnabled { id } => assert_eq!(id, 13),
        _ => panic!("expected a toggle"),
    }
    // The recorded flag says enabled, but the server says it is off already:
    // the toggle follows the server.
    assert_eq!(a.toggle_device_enabled(false), Some((13, true)));
    a.device_enabled_set(true, Ok(true));
    assert!(a.devices[0].enabled);
    assert_eq!(a.status.text, "TPPS/2 Elan TrackPoint enabled");
    assert_eq!(a.toggle_device_enabled(true), Some((13, false)));
    a.device_enabled_set(false, Ok(false));
    assert!(!a.devices[0].enabled);
    assert_eq!(a.status.level, Level::Warn);
}

#[test]
fn a_toggle_the_server_ignored_is_reported() {
    let mut a = app(Tab::Buttons);
    a.device_enabled_set(false, Ok(true));
    assert!(a.devices[0].enabled, "the read-back is what is recorded");
    assert_eq!(a.status.level, Level::Bad);
    assert_eq!(
        a.status.text,
        "TPPS/2 Elan TrackPoint did not change: the X server still reports it enabled"
    );
    a.device_enabled_set(true, Err(Error::new("xinput: gone")));
    assert_eq!(a.status.text, "xinput: gone");
}

#[test]
fn t_on_a_row_without_an_x_device_says_why() {
    let mut a = app(Tab::Buttons);
    a.devices[0].x = None;
    assert!(matches!(send(&mut a, Key::Char('t')), Command::Nothing));
    assert_eq!(a.status.level, Level::Bad);
    assert!(a.status.text.contains("no X device"));
}

#[test]
fn writes_go_on_until_the_first_failure() {
    let mut a = app(Tab::Sysfs);
    assert_eq!(a.attr_write_done(0, Ok(WriteVia::Direct), false), Some(false));
    assert_eq!(a.devices[0].sysfs.as_ref().unwrap().attrs[0].value, "90");
    assert_eq!(a.attr_write_done(1, Ok(WriteVia::SudoCached), false), Some(true));
    assert_eq!(a.attr_write_done(1, Ok(WriteVia::Direct), true), Some(true));
    assert_eq!(a.attr_write_done(0, Err(Error::new("sudo refused the command")), true), None);
    assert_eq!(a.status.level, Level::Bad);
    assert_eq!(a.status.text, "sudo refused the command");
    assert!(a.modal.is_none());
}

#[test]
fn a_write_that_needs_a_password_asks_for_one() {
    let mut a = app(Tab::Sysfs);
    assert_eq!(a.attr_write_done(0, Err(Error::needs_password()), false), None);
    match &a.modal {
        Some(Modal::Password { buffer, error }) => {
            assert!(buffer.is_empty());
            assert!(error.is_none());
        }
        _ => panic!("expected the password prompt"),
    }
    assert_eq!(a.devices[0].sysfs.as_ref().unwrap().attrs[0].value, "128", "nothing written");
    send(&mut a, Key::Char('h'));
    send(&mut a, Key::Char('u'));
    send(&mut a, Key::Char('x'));
    send(&mut a, Key::Backspace);
    match send(&mut a, Key::Enter) {
        Command::RetryWithPassword(p) => assert_eq!(p, "hu"),
        _ => panic!("expected the password to be handed on"),
    }
    assert!(a.modal.is_none());
}

#[test]
fn a_rejected_password_says_so_on_the_retry() {
    let mut a = app(Tab::Sysfs);
    a.attr_write_done(0, Err(Error::new("that password was not accepted")), false);
    match &a.modal {
        Some(Modal::Password { error, .. }) => {
            assert_eq!(error.as_deref(), Some("that password was not accepted"))
        }
        _ => panic!("expected the password prompt again"),
    }
    send(&mut a, Key::Char('x'));
    send(&mut a, Key::Esc);
    assert!(a.modal.is_none());
    assert_eq!(a.status.text, "Cancelled \u{2014} nothing was written");
    assert!(!a.should_quit);
}

#[test]
fn typing_a_value_stages_it() {
    let mut a = app(Tab::Sysfs);
    send(&mut a, Key::Char('e'));
    match &a.modal {
        Some(Modal::Edit { title, buffer, .. }) => {
            assert_eq!(title, "sensitivity");
            assert_eq!(buffer, "90");
        }
        _ => panic!("expected the editor"),
    }
    send(&mut a, Key::Backspace);
    send(&mut a, Key::Backspace);
    send(&mut a, Key::Char('3'));
    send(&mut a, Key::Char('0'));
    send(&mut a, Key::Char('0'));
    send(&mut a, Key::Enter);
    assert!(a.modal.is_none());
    // 300 is clamped into the documented range.
    assert_eq!(a.devices[0].sysfs.as_ref().unwrap().attrs[0].pending, "255");
    assert_eq!(a.status.text, "Staged \u{2014} press a to apply");
}

#[test]
fn a_word_is_not_a_whole_number() {
    let mut a = app(Tab::Sysfs);
    send(&mut a, Key::Char('e'));
    send(&mut a, Key::Char('x'));
    send(&mut a, Key::Enter);
    assert_eq!(a.status.level, Level::Bad);
    assert_eq!(a.status.text, "Expected a whole number");
    assert_eq!(a.devices[0].sysfs.as_ref().unwrap().attrs[0].pending, "90");
}

#[test]
fn a_property_takes_as_many_values_as_it_has() {
    let mut a = app(Tab::Libinput);
    send(&mut a, Key::Char('e'));
    send(&mut a, Key::Char(' '));
    send(&mut a, Key::Char('1'));
    send(&mut a, Key::Enter);
    assert_eq!(a.status.text, "That property takes 1 value(s)");
    assert_eq!(a.status.level, Level::Bad);
}

#[test]
fn the_save_panel_switches_and_writes() {
    let mut a = app(Tab::Buttons);
    a.modal = Some(Modal::Persist {
        rule: "ACTION==\"add\", ATTR{sensitivity}=\"90\"\n".into(),
        profile: "profile".into(),
        choice: 0,
    });
    send(&mut a, Key::Right);
    match &a.modal {
        Some(Modal::Persist { choice, .. }) => assert_eq!(*choice, 1),
        _ => panic!("panel should still be open"),
    }
    assert!(matches!(send(&mut a, Key::Enter), Command::WriteProfile));
    assert!(a.modal.is_none());

    a.modal = Some(Modal::Persist {
        rule: "ACTION==\"add\", ATTR{sensitivity}=\"90\"\n".into(),
        profile: String::new(),
        choice: 0,
    });
    match send(&mut a, Key::Enter) {
        Command::WriteUdev(rule) => assert!(rule.contains("ATTR{sensitivity}")),
        _ => panic!("expected the rule to write"),
    }
}

#[test]
fn an_empty_rule_is_not_written() {
    let mut a = app(Tab::Buttons);
    a.modal = Some(Modal::Persist {
        rule: "# Nothing to persist\n".into(),
        profile: String::new(),
        choice: 0,
    });
    assert!(matches!(send(&mut a, Key::Enter), Command::Nothing));
    assert_eq!(a.status.level, Level::Warn);
    assert_eq!(a.status.text, "Nothing has changed, so there is nothing to write");
}

#[test]
fn a_preset_that_would_overflow_does_not_fit() {
    let mut a = app(Tab::Sysfs);
    a.devices[0].sysfs.as_mut().unwrap().attrs[0].pending = "9223372036854775807".into();
    assert!(!a.key_fits(press(Key::Char('p'))));
    assert!(a.key_fits(press(Key::Char('q'))));
    a.sel_device = 5;
    assert!(!a.key_fits(press(Key::Char('q'))), "the selection must name a device");
}

#[test]
fn committing_only_needs_the_edited_attribute_to_have_a_proper_range() {
    let mut a = app(Tab::Sysfs);
    // A broken range on another device does not stand in the way.
    a.devices[1].sysfs = Some(Node {
        path: "/sys/devices/platform/i8042/serio2".into(),
        description: String::new(),
        firmware_id: String::new(),
        input_names: Vec::new(),
        attrs: vec![attr("speed", "5", "5", AttrKind::Range(9, 1))],
    });
    send(&mut a, Key::Char('e'));
    send(&mut a, Key::Char('1'));
    send(&mut a, Key::Enter);
    assert_eq!(a.devices[0].sysfs.as_ref().unwrap().attrs[0].pending, "255");
    // On the edited attribute itself it does.
    a.devices[0].sysfs.as_mut().unwrap().attrs[0].kind = AttrKind::Range(9, 1);
    send(&mut a, Key::Char('e'));
    assert!(!a.key_fits(KeyPress { key: Key::Enter, ctrl: false }));
}
