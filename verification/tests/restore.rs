use thinkpoint::app::XSetting;
use thinkpoint::restore::{restore_plan, RestoreStep};
use thinkpoint::xinput::{Kind, XDevice};

fn devices() -> Vec<XDevice> {
    vec![
        XDevice { id: 2, name: "Virtual core pointer".into(), kind: Kind::MasterPointer },
        XDevice { id: 12, name: "SynPS/2 Synaptics TouchPad".into(), kind: Kind::SlavePointer },
        XDevice { id: 13, name: "TPPS/2 Elan TrackPoint".into(), kind: Kind::SlavePointer },
    ]
}

fn call(step: &RestoreStep) -> Vec<&str> {
    match step {
        RestoreStep::Call(args) => args.iter().map(|a| a.as_str()).collect(),
        RestoreStep::Missing(name) => panic!("{name} should be connected"),
    }
}

#[test]
fn a_saved_device_replays_state_map_then_properties() {
    let settings = vec![XSetting {
        device: "SynPS/2 Synaptics TouchPad".into(),
        enabled: Some(false),
        button_map: Some(vec![1, 0, 3]),
        props: vec![("libinput Accel Speed".into(), vec!["0.5".into()])],
    }];
    let plan = restore_plan(&settings, &devices());
    assert_eq!(plan.len(), 3);
    assert_eq!(call(&plan[0]), vec!["disable", "12"]);
    assert_eq!(call(&plan[1]), vec!["set-button-map", "12", "1", "0", "3"]);
    assert_eq!(call(&plan[2]), vec!["set-prop", "12", "libinput Accel Speed", "0.5"]);
}

#[test]
fn a_device_that_is_not_connected_is_skipped() {
    let settings = vec![
        XSetting {
            device: "USB Mouse".into(),
            enabled: Some(true),
            button_map: None,
            props: Vec::new(),
        },
        XSetting {
            device: "TPPS/2 Elan TrackPoint".into(),
            enabled: None,
            button_map: None,
            props: vec![("libinput Accel Speed".into(), vec!["-0.25".into()])],
        },
    ];
    let plan = restore_plan(&settings, &devices());
    assert_eq!(plan.len(), 2);
    assert!(matches!(&plan[0], RestoreStep::Missing(n) if n == "USB Mouse"));
    assert_eq!(call(&plan[1]), vec!["set-prop", "13", "libinput Accel Speed", "-0.25"]);
}

#[test]
fn an_empty_profile_asks_for_nothing() {
    assert!(restore_plan(&Vec::new(), &devices()).is_empty());
}
