use thinkpoint::xinput::{
    button_map_command, failure_from_text, device_node, get_button_map, is_enabled, is_interesting, list_pointers,
    list_props, parse_pointers, parse_props, run_failure, set_button_map,
    set_enabled, set_enabled_command, set_prop, set_prop_command, Kind, Prop, PropValue,
};

// Real `xinput list` output from a ThinkPad, tabs and box-drawing
// characters included, since those are what the parser has to survive.
const LIST: &str = "\u{23a1} Virtual core pointer                     \tid=2\t[master pointer  (3)]\n\
    \u{239c}   \u{21b3} Virtual core XTEST pointer               \tid=4\t[slave  pointer  (2)]\n\
    \u{239c}   \u{21b3} SynPS/2 Synaptics TouchPad               \tid=12\t[slave  pointer  (2)]\n\
    \u{239c}   \u{21b3} TPPS/2 Elan TrackPoint                   \tid=13\t[slave  pointer  (2)]\n\
    \u{23a3} Virtual core keyboard                    \tid=3\t[master keyboard (2)]\n\
    \u{20}    \u{21b3} AT Translated Set 2 keyboard             \tid=14\t[slave  keyboard (3)]\n";

const PROPS: &str = "Device 'TPPS/2 Elan TrackPoint':\n\
    \tDevice Enabled (176):\t1\n\
    \tCoordinate Transformation Matrix (178):\t1.000000, 0.000000, 0.000000, 0.000000, 1.000000, 0.000000, 0.000000, 0.000000, 1.000000\n\
    \tlibinput Accel Speed (317):\t0.000000\n\
    \tlibinput Accel Speed Default (318):\t0.000000\n\
    \tlibinput Natural Scrolling Enabled (321):\t0\n\
    \tlibinput Scroll Methods Available (330):\t0, 0, 1\n\
    \tlibinput Middle Emulation Enabled (334):\t0\n\
    \tDevice Node (280):\t\"/dev/input/event10\"\n\
    \tDevice Product ID (281):\t2, 10\n";

fn props() -> Vec<Prop> {
    parse_props(PROPS)
}

#[test]
fn parses_pointer_devices_and_drops_keyboards() {
    let devices = parse_pointers(LIST);
    let names: Vec<&str> = devices.iter().map(|d| d.name.as_str()).collect();
    assert_eq!(
        names,
        vec![
            "Virtual core pointer",
            "SynPS/2 Synaptics TouchPad",
            "TPPS/2 Elan TrackPoint"
        ]
    );
}

#[test]
fn drops_the_xtest_device() {
    assert!(!parse_pointers(LIST).iter().any(|d| d.name.contains("XTEST")));
}

#[test]
fn separates_masters_from_slaves() {
    let devices = parse_pointers(LIST);
    let trackpoint = devices.iter().find(|d| d.name.contains("TrackPoint")).unwrap();
    assert_eq!(trackpoint.id, 13);
    assert_eq!(trackpoint.kind, Kind::SlavePointer);
    assert_eq!(devices[0].kind, Kind::MasterPointer);
}

#[test]
fn parses_property_names_and_values() {
    let props = props();
    let accel = props.iter().find(|p| p.name == "libinput Accel Speed").unwrap();
    assert_eq!(accel.float_text().and_then(|t| t.parse::<f32>().ok()), Some(0.0));

    let natural = props
        .iter()
        .find(|p| p.name == "libinput Natural Scrolling Enabled")
        .unwrap();
    assert_eq!(natural.as_bool(), Some(false));
}

#[test]
fn hides_default_and_available_mirrors() {
    let props = props();
    let shown: Vec<&str> = props
        .iter()
        .filter(|p| is_interesting(p))
        .map(|p| p.name.as_str())
        .collect();
    assert_eq!(
        shown,
        vec![
            "libinput Accel Speed",
            "libinput Natural Scrolling Enabled",
            "libinput Middle Emulation Enabled"
        ]
    );
}

#[test]
fn finds_the_device_node() {
    assert_eq!(device_node(&props()), Some("/dev/input/event10".to_string()));
}

#[test]
fn quoted_strings_are_not_editable_numbers() {
    let props = props();
    let node = props.iter().find(|p| p.name == "Device Node").unwrap();
    assert!(matches!(node.value, PropValue::Opaque(_)));
}

#[test]
fn renders_the_command_it_claims_to_run() {
    assert_eq!(
        button_map_command("TPPS/2 Elan TrackPoint", &[1, 0, 3, 4, 5, 6, 7]),
        "xinput set-button-map \"TPPS/2 Elan TrackPoint\" 1 0 3 4 5 6 7"
    );
}

#[test]
fn an_empty_listing_is_an_error() {
    let e = list_pointers("\u{23a3} Virtual core keyboard\tid=3\t[master keyboard (2)]\n").unwrap_err();
    assert_eq!(e.0, "xinput reported no pointer devices");
    assert_eq!(list_pointers(LIST).unwrap().len(), 3);
}

#[test]
fn reads_a_button_map() {
    assert_eq!(get_button_map("1 2 3 4 5 6 7 \n").unwrap(), vec![1, 2, 3, 4, 5, 6, 7]);
}

#[test]
fn a_button_map_with_a_word_in_it_is_refused() {
    assert!(get_button_map("1 two 3\n").is_err());
}

#[test]
fn list_props_keeps_every_line() {
    let all = list_props(PROPS);
    assert_eq!(all.len(), 9);
    assert_eq!(all[0].name, "Device Enabled");
    assert_eq!(all[8].value, PropValue::Numbers(vec!["2".to_string(), "10".to_string()]));
}

#[test]
fn the_enabled_property_decides_the_state() {
    assert!(is_enabled(&props()));
    let off = parse_props("Device 'x':\n\tDevice Enabled (176):\t0\n");
    assert!(!is_enabled(&off));
    // A device that does not report the property counts as enabled.
    assert!(is_enabled(&[]));
}

#[test]
fn argument_lists_name_the_device_by_id() {
    assert_eq!(set_button_map(13, &[1, 0, 3]), vec!["set-button-map", "13", "1", "0", "3"]);
    assert_eq!(
        set_prop(13, "libinput Accel Speed", &["0.5".to_string()]),
        vec!["set-prop", "13", "libinput Accel Speed", "0.5"]
    );
    assert_eq!(set_enabled(12, false), vec!["disable", "12"]);
    assert_eq!(set_enabled(12, true), vec!["enable", "12"]);
}

#[test]
fn commands_quote_the_device_name() {
    assert_eq!(
        set_prop_command("TPPS/2 Elan TrackPoint", "libinput Accel Speed", &["-0.5".to_string()]),
        "xinput set-prop \"TPPS/2 Elan TrackPoint\" \"libinput Accel Speed\" -0.5"
    );
    assert_eq!(
        set_enabled_command("SynPS/2 Synaptics TouchPad", false),
        "xinput disable \"SynPS/2 Synaptics TouchPad\""
    );
}

#[test]
fn a_failed_run_reports_stderr_or_the_command() {
    let args = vec!["list-props".to_string(), "99".to_string()];
    assert_eq!(run_failure(&args, b"  unable to find device 99\n").0, "unable to find device 99");
    assert_eq!(run_failure(&args, b"  \n").0, "xinput list-props 99 failed");
}

#[test]
fn failure_text_is_trimmed_or_names_the_call() {
    let args = vec!["set-prop".to_string(), "13".to_string(), "x".to_string()];
    assert_eq!(failure_from_text(&args, "\n  X Error: BadValue \n").0, "X Error: BadValue");
    assert_eq!(failure_from_text(&args, " \t\n").0, "xinput set-prop 13 x failed");
}

#[test]
fn a_sent_map_reads_back_as_itself() {
    let args = set_button_map(13, &[1, 0, 3, 4, 5, 6, 7]);
    let printed = args[2..].join(" ");
    assert_eq!(get_button_map(&printed).unwrap(), vec![1, 0, 3, 4, 5, 6, 7]);
}

#[test]
fn a_head_with_its_brackets_the_wrong_way_round_is_not_a_property() {
    assert!(parse_props("\tx) (y:\t1\n").is_empty());
    assert!(parse_props("\tx ():\t1\n").is_empty());
    assert_eq!(parse_props("\tx) (y (5):\t1\n").len(), 1);
}
