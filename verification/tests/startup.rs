use thinkpoint::app::{App, Level, Tab, XProbe};
use thinkpoint::error::Error;
use thinkpoint::sysfs::{Attr, AttrKind, Node};
use thinkpoint::xinput::{parse_props, Kind, XDevice};

fn node(path: &str, names: &[&str]) -> Node {
    Node {
        path: path.into(),
        description: "i8042 AUX port".into(),
        firmware_id: String::new(),
        input_names: names.iter().map(|n| n.to_string()).collect(),
        attrs: vec![Attr {
            name: "sensitivity".into(),
            help: "",
            kind: AttrKind::Range(0, 255),
            value: "128".into(),
            original: "128".into(),
            pending: "128".into(),
            writable_directly: false,
            path: format!("{path}/sensitivity"),
        }],
    }
}

fn probe(id: u32, name: &str, kind: Kind, props: &str, node: Option<Node>) -> XProbe {
    XProbe {
        x: XDevice {
            id,
            name: name.into(),
            kind,
        },
        buttons: vec![1, 2, 3],
        props: parse_props(props),
        node,
    }
}

const ENABLED: &str = "Device 'x':\n\tDevice Enabled (176):\t1\n\tlibinput Accel Speed (317):\t0.000000\n\tlibinput Accel Speed Default (318):\t0.000000\n";
const DISABLED: &str = "Device 'x':\n\tDevice Enabled (176):\t0\n";

#[test]
fn slave_pointers_become_rows_and_claim_their_nodes() {
    let serio1 = "/sys/devices/platform/i8042/serio1";
    let listing = vec![
        probe(2, "Virtual core pointer", Kind::MasterPointer, ENABLED, None),
        probe(13, "TPPS/2 Elan TrackPoint", Kind::SlavePointer, ENABLED, Some(node(serio1, &[]))),
    ];
    let app = App::new(true, Ok(listing), vec![node(serio1, &["TPPS/2 Elan TrackPoint"])]).unwrap();
    assert_eq!(app.devices.len(), 1, "the master is not a row, the claimed node is not a second one");
    let d = &app.devices[0];
    assert_eq!(d.id(), Some(13));
    assert!(d.enabled);
    assert_eq!(d.props.len(), 1, "only the interesting properties are rows");
    assert_eq!(d.sysfs.as_ref().unwrap().path, serio1);
    assert_eq!(app.status.level, Level::Info);
    assert_eq!(app.tab, Tab::Buttons);
}

#[test]
fn a_disabled_device_without_a_node_is_matched_by_name() {
    let serio1 = "/sys/devices/platform/i8042/serio1";
    let listing = vec![probe(13, "TPPS/2 Elan TrackPoint", Kind::SlavePointer, DISABLED, None)];
    let app = App::new(true, Ok(listing), vec![node(serio1, &["TPPS/2 Elan TrackPoint"])]).unwrap();
    assert_eq!(app.devices.len(), 1, "no dead sysfs-only twin");
    assert!(!app.devices[0].enabled);
    assert_eq!(app.devices[0].sysfs.as_ref().unwrap().path, serio1);
}

#[test]
fn unclaimed_nodes_get_rows_of_their_own() {
    let listing = vec![probe(12, "SynPS/2 Synaptics TouchPad", Kind::SlavePointer, ENABLED, None)];
    let app = App::new(true, Ok(listing), vec![node("/sys/devices/platform/i8042/serio1", &[])]).unwrap();
    assert_eq!(app.devices.len(), 2);
    let extra = &app.devices[1];
    assert!(extra.x.is_none());
    assert_eq!(extra.name, "serio1 \u{2014} i8042 AUX port");
    assert_eq!(extra.note.as_deref(), Some("sysfs only \u{2014} not matched to an X device"));
}

#[test]
fn without_xinput_only_sysfs_remains() {
    let app = App::new(false, Ok(Vec::new()), vec![node("/sys/devices/platform/i8042/serio1", &[])]).unwrap();
    assert_eq!(app.devices.len(), 1);
    assert_eq!(app.status.level, Level::Warn);
    assert_eq!(app.status.text, "xinput unavailable \u{2014} sysfs tuning only");
}

#[test]
fn a_failed_listing_goes_on_the_status_line() {
    let app = App::new(
        true,
        Err(Error::new("xinput reported no pointer devices")),
        vec![node("/sys/devices/platform/i8042/serio1", &[])],
    )
    .unwrap();
    assert_eq!(app.status.text, "xinput reported no pointer devices");
    assert_eq!(app.status.level, Level::Warn);
}

#[test]
fn nothing_at_all_is_an_error() {
    let e = App::new(false, Ok(Vec::new()), Vec::new()).err().unwrap();
    assert_eq!(e.0, "no pointer devices found via xinput or /sys/bus/serio");
}

#[test]
fn a_device_without_a_button_map_says_so() {
    let mut p = probe(12, "Some Mouse", Kind::SlavePointer, ENABLED, None);
    p.buttons.clear();
    let app = App::new(true, Ok(vec![p]), Vec::new()).unwrap();
    assert_eq!(app.devices[0].note.as_deref(), Some("no button map reported"));
}

#[test]
fn every_node_naming_a_listed_device_is_claimed() {
    let listing = vec![probe(12, "D", Kind::SlavePointer, DISABLED, None)];
    let nodes = vec![
        node("/sys/devices/platform/i8042/serio1", &["D"]),
        node("/sys/devices/platform/i8042/serio2", &["D"]),
    ];
    let app = App::new(true, Ok(listing), nodes).unwrap();
    assert_eq!(app.devices.len(), 1, "the device is listed once");
    assert_eq!(
        app.devices[0].sysfs.as_ref().unwrap().path,
        "/sys/devices/platform/i8042/serio1"
    );
}

#[test]
fn a_node_naming_only_other_devices_still_gets_a_row() {
    let listing = vec![probe(12, "D", Kind::SlavePointer, ENABLED, None)];
    let nodes = vec![node("/sys/devices/platform/i8042/serio2", &["E"])];
    let app = App::new(true, Ok(listing), nodes).unwrap();
    assert_eq!(app.devices.len(), 2);
    assert!(app.devices[1].x.is_none());
}
