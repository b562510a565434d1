use thinkpoint::sysfs::{
    event_name, file_name_exec, known_attr, node_at, root_file_script, sudo_args, sudo_outcome,
    sudo_refusal,
    write_attr_script, AttrKind, AttrProbe, Node, WriteVia, KNOWN_COUNT,
};

const DIR: &str = "/sys/devices/platform/i8042/serio1";

/// The probes for a directory holding these files, as `name -> content`.
fn probes(files: &[(&str, &str)]) -> Vec<AttrProbe> {
    (0..KNOWN_COUNT)
        .map(|i| {
            let name = known_attr(i).name;
            AttrProbe {
                content: files.iter().find(|(n, _)| *n == name).map(|(_, v)| v.to_string()),
                writable: false,
            }
        })
        .collect()
}

fn lookup(files: &[(&str, &str)], name: &str) -> Option<String> {
    files.iter().find(|(n, _)| *n == name).map(|(_, v)| v.to_string())
}

fn node_with_names(files: &[(&str, &str)], names: &[Option<String>]) -> Option<Node> {
    node_at(
        DIR,
        &probes(files),
        &lookup(files, "description"),
        &lookup(files, "firmware_id"),
        names,
    )
}

fn node(files: &[(&str, &str)]) -> Option<Node> {
    node_with_names(files, &[])
}

#[test]
fn discovers_only_the_attributes_that_exist() {
    // An Elan TrackPoint: sensitivity and press_to_select, no drift_time.
    let node = node(&[
        ("sensitivity", "128\n"),
        ("press_to_select", "0\n"),
        ("resync_time", "0\n"),
        ("description", "i8042 AUX port\n"),
    ])
    .expect("should find a node");
    let names: Vec<&str> = node.attrs.iter().map(|a| a.name.as_str()).collect();
    assert_eq!(names, vec!["sensitivity", "press_to_select", "resync_time"]);
    assert_eq!(node.description, "i8042 AUX port");
}

#[test]
fn an_ibm_trackpoint_exposes_drift_time_too() {
    let node = node(&[("sensitivity", "128"), ("drift_time", "5"), ("inertia", "6")]).unwrap();
    assert!(node.attrs.iter().any(|a| a.name == "drift_time"));
}

#[test]
fn a_directory_with_nothing_known_is_not_a_node() {
    assert!(node(&[("modalias", "serio:ty01pr00id00ex00"), ("uevent", "MODALIAS=serio")]).is_none());
}

#[test]
fn non_numeric_attributes_are_skipped() {
    // `protocol` reads back as a name, not a number.
    let node = node(&[("sensitivity", "128"), ("rate", "PS/2")]).unwrap();
    assert_eq!(node.attrs.len(), 1);
}

#[test]
fn nudging_clamps_to_the_documented_range() {
    let mut node = node(&[("sensitivity", "250")]).unwrap();
    let attr = &mut node.attrs[0];
    attr.nudge(20);
    assert_eq!(attr.pending, "255");
    attr.nudge(-1000);
    assert_eq!(attr.pending, "0");
}

#[test]
fn booleans_toggle_rather_than_count() {
    let mut node = node(&[("press_to_select", "0")]).unwrap();
    let attr = &mut node.attrs[0];
    attr.toggle();
    assert_eq!(attr.pending, "1");
    attr.toggle();
    assert_eq!(attr.pending, "0");
}

#[test]
fn dirty_and_customised_are_different_questions() {
    let mut node = node(&[("sensitivity", "128")]).unwrap();
    let attr = &mut node.attrs[0];

    attr.pending = "90".into();
    assert!(attr.is_dirty(), "staged but not written");
    assert!(attr.is_customised());

    // Simulate a successful write: the kernel now agrees with us.
    attr.value = "90".into();
    assert!(!attr.is_dirty(), "written, so no longer staged");
    assert!(attr.is_customised(), "still differs from boot, so worth saving");
}

#[test]
fn a_node_reports_the_input_devices_behind_it() {
    let node = node_with_names(
        &[("sensitivity", "128")],
        &[Some("TPPS/2 Elan TrackPoint\n".to_string())],
    )
    .unwrap();
    assert_eq!(node.input_names, vec!["TPPS/2 Elan TrackPoint"]);
}

#[test]
fn a_node_without_an_input_directory_still_parses() {
    assert!(node(&[("sensitivity", "128")]).unwrap().input_names.is_empty());
}

#[test]
fn shell_unsafe_values_are_refused_before_they_reach_a_shell() {
    let mut node = node(&[("sensitivity", "128")]).unwrap();
    node.attrs[0].pending = "90; rm -rf /".into();
    node.attrs[0].writable_directly = false;
    assert!(write_attr_script(&node.attrs[0]).is_err());
}

#[test]
fn attributes_know_their_kind_path_and_value() {
    let node = node(&[("sensitivity", " 128 \n"), ("press_to_select", "1")]).unwrap();
    let s = &node.attrs[0];
    assert_eq!(s.kind, AttrKind::Range(0, 255));
    assert_eq!(s.path, "/sys/devices/platform/i8042/serio1/sensitivity");
    assert_eq!((s.value.as_str(), s.original.as_str(), s.pending.as_str()), ("128", "128", "128"));
    assert_eq!(s.as_int(), Some(128));
    assert_eq!(node.attrs[1].kind, AttrKind::Bool);
}

#[test]
fn a_safe_value_gets_a_printf_line() {
    let mut node = node(&[("sensitivity", "128")]).unwrap();
    node.attrs[0].pending = "90".into();
    assert_eq!(
        write_attr_script(&node.attrs[0]).unwrap(),
        "printf '%s' '90' > '/sys/devices/platform/i8042/serio1/sensitivity'"
    );
}

#[test]
fn a_quote_in_the_path_is_refused() {
    let mut node = node(&[("sensitivity", "128")]).unwrap();
    node.attrs[0].path = "/tmp/it's".into();
    assert_eq!(
        write_attr_script(&node.attrs[0]).unwrap_err().0,
        "refusing to shell out with a quote in the path"
    );
    assert!(root_file_script("/etc/it's").is_err());
    assert_eq!(
        root_file_script("/etc/udev/rules.d/70-thinkpoint.rules").unwrap(),
        "cat > '/etc/udev/rules.d/70-thinkpoint.rules'"
    );
}

#[test]
fn labels_name_the_port() {
    let node = node(&[("sensitivity", "128"), ("description", "i8042 AUX port")]).unwrap();
    assert_eq!(node.label(), "serio1 \u{2014} i8042 AUX port");
    let bare = self::node(&[("sensitivity", "128")]).unwrap();
    assert_eq!(bare.label(), "serio1");
    assert!(!bare.dirty());
}

#[test]
fn event_names_come_from_the_last_component() {
    assert_eq!(event_name("/dev/input/event10"), Some("event10".to_string()));
    assert_eq!(event_name("/dev/input/mouse0"), None);
    let name: String = file_name_exec(&"/a/b/serio2".chars().collect::<Vec<_>>())
        .unwrap()
        .into_iter()
        .collect();
    assert_eq!(name, "serio2");
}

#[test]
fn sudo_is_asked_without_a_prompt_first() {
    assert_eq!(sudo_args("true", false, true).unwrap(), vec!["-n", "/bin/sh", "-c", "true"]);
    assert_eq!(
        sudo_args("true", true, false).unwrap(),
        vec!["-S", "-p", "", "/bin/sh", "-c", "true"]
    );
    let e = sudo_args("true", false, false).unwrap_err();
    assert!(e.is_needs_password());
}

#[test]
fn sudo_outcomes_are_told_apart() {
    assert_eq!(sudo_outcome(true, false, b"").unwrap(), WriteVia::SudoCached);
    assert_eq!(sudo_outcome(true, true, b"").unwrap(), WriteVia::SudoPassword);
    assert_eq!(
        sudo_outcome(false, true, b"Sorry, try again.\n").unwrap_err().0,
        "that password was not accepted"
    );
    assert_eq!(
        sudo_outcome(false, true, b"INCORRECT PASSWORD attempt").unwrap_err().0,
        "that password was not accepted"
    );
    assert_eq!(sudo_outcome(false, false, b"no tty").unwrap_err().0, "sudo refused the command");
}

#[test]
fn a_rejected_password_is_told_apart() {
    assert_eq!(sudo_refusal("sorry, try again.").0, "that password was not accepted");
    assert_eq!(sudo_refusal("1 incorrect password attempt").0, "that password was not accepted");
    assert_eq!(sudo_refusal("a terminal is required").0, "sudo refused the command");
    // The caller lowercases first; this text is taken as it stands.
    assert_eq!(sudo_refusal("Sorry, try again.").0, "sudo refused the command");
}
