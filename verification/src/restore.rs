//! Replaying saved X settings at login: which `xinput` calls a profile asks
//! for on the devices that are connected now.
use vstd::prelude::*;

use crate::app::{setting_views, XSetting, XSettingView};
use crate::text::str_eq;
use crate::xinput::{
    device_views, set_button_map, set_button_map_args, set_enabled, set_enabled_args, set_prop,
    set_prop_args, string_views, XDevice, XDeviceView,
};

verus! {

/// One step of a restore.
pub enum RestoreStep {
    /// No connected device has this name, so its settings are skipped.
    Missing(String),
    /// Run `xinput` with these arguments.
    Call(Vec<String>),
}

pub enum RestoreStepView {
    Missing(Seq<char>),
    Call(Seq<Seq<char>>),
}

impl View for RestoreStep {
    type V = RestoreStepView;

    open spec fn view(&self) -> RestoreStepView {
        match self {
            RestoreStep::Missing(name) => RestoreStepView::Missing(name@),
            RestoreStep::Call(args) => RestoreStepView::Call(string_views(args@)),
        }
    }
}

pub open spec fn step_views(v: Seq<RestoreStep>) -> Seq<RestoreStepView> {
    Seq::new(v.len(), |i: int| v[i]@)
}

/// The first connected device with this name.
pub open spec fn first_named(devs: Seq<XDeviceView>, name: Seq<char>) -> Option<int> {
    if exists|i: int| 0 <= i < devs.len() && devs[i].name == name && forall|j: int|
        0 <= j < i ==> (#[trigger] devs[j]).name != name {
        Some(
            choose|i: int|
                0 <= i < devs.len() && devs[i].name == name && forall|j: int|
                    0 <= j < i ==> (#[trigger] devs[j]).name != name,
        )
    } else {
        None
    }
}

/// The calls one saved device asks for: its on/off state, its button map,
/// then each property, in that order.
pub open spec fn setting_calls(s: XSettingView, id: u32) -> Seq<RestoreStepView> {
    let on: Seq<RestoreStepView> = match s.enabled {
        Some(e) => seq![RestoreStepView::Call(set_enabled_args(id, e))],
        None => seq![],
    };
    let map: Seq<RestoreStepView> = match s.button_map {
        Some(m) => seq![RestoreStepView::Call(set_button_map_args(id, m))],
        None => seq![],
    };
    on + map + Seq::new(
        s.props.len(),
        |j: int| RestoreStepView::Call(set_prop_args(id, s.props[j].0, s.props[j].1)),
    )
}

/// The whole replay, setting by setting.
pub open spec fn restore_steps(settings: Seq<XSettingView>, devs: Seq<XDeviceView>) -> Seq<
    RestoreStepView,
>
    decreases settings.len(),
{
    if settings.len() == 0 {
        seq![]
    } else {
        restore_steps(settings.drop_last(), devs) + device_steps(settings.last(), devs)
    }
}

/// The steps for one saved device.
#[verifier::opaque]
pub open spec fn device_steps(s: XSettingView, devs: Seq<XDeviceView>) -> Seq<RestoreStepView> {
    match first_named(devs, s.device) {
        None => seq![RestoreStepView::Missing(s.device)],
        Some(i) => setting_calls(s, devs[i].id),
    }
}

fn first_named_exec(devs: &Vec<XDevice>, name: &str) -> (r: Option<usize>)
    ensures
        match r {
            Some(k) => first_named(device_views(devs@), name@) == Some(k as int) && k < devs.len(),
            None => first_named(device_views(devs@), name@) is None,
        },
{
    let ghost dv = device_views(devs@);
    let mut i: usize = 0;
    while i < devs.len()
        invariant
            i <= devs.len(),
            dv == device_views(devs@),
            forall|j: int| 0 <= j < i ==> (#[trigger] dv[j]).name != name@,
        decreases devs.len() - i,
    {
        assert(dv[i as int] == devs[i as int]@);
        if str_eq(devs[i].name.as_str(), name) {
            proof {
                let k = choose|k: int|
                    0 <= k < dv.len() && dv[k].name == name@ && forall|j: int|
                        0 <= j < k ==> (#[trigger] dv[j]).name != name@;
                if k < i {
                    assert(dv[k].name != name@);
                } else if i < k {
                    assert(dv[i as int].name != name@);
                }
            }
            return Some(i);
        }
        i += 1;
    }
    None
}

/// Append the calls one saved device asks for.
fn push_setting_calls(out: &mut Vec<RestoreStep>, s: &XSetting, id: u32)
    ensures
        step_views(final(out)@) == step_views(old(out)@) + setting_calls(s@, id),
{
    let ghost before = step_views(out@);
    let ghost mut got: Seq<RestoreStepView> = seq![];
    match s.enabled {
        Some(e) => {
            out.push(RestoreStep::Call(set_enabled(id, e)));
            proof {
                got = got.push(RestoreStepView::Call(set_enabled_args(id, e)));
            }
        },
        None => {},
    }
    assert(step_views(out@) =~= before + got);
    match &s.button_map {
        Some(m) => {
            out.push(RestoreStep::Call(set_button_map(id, m.as_slice())));
            proof {
                got = got.push(RestoreStepView::Call(set_button_map_args(id, m@)));
            }
        },
        None => {},
    }
    assert(step_views(out@) =~= before + got);
    let ghost head = got;
    let ghost props = s@.props;
    let mut j: usize = 0;
    while j < s.props.len()
        invariant
            j <= s.props.len(),
            props == s@.props,
            props.len() == s.props.len(),
            step_views(out@) == before + head + Seq::new(
                j as nat,
                |q: int| RestoreStepView::Call(set_prop_args(id, props[q].0, props[q].1)),
            ),
        decreases s.props.len() - j,
    {
        let ghost prev = step_views(out@);
        let call = set_prop(id, s.props[j].0.as_str(), s.props[j].1.as_slice());
        assert(props[j as int] == (s.props[j as int].0@, string_views(s.props[j as int].1@)));
        out.push(RestoreStep::Call(call));
        assert(step_views(out@) =~= prev.push(out@.last()@));
        assert(Seq::new(
            (j + 1) as nat,
            |q: int| RestoreStepView::Call(set_prop_args(id, props[q].0, props[q].1)),
        ) =~= Seq::new(
            j as nat,
            |q: int| RestoreStepView::Call(set_prop_args(id, props[q].0, props[q].1)),
        ).push(RestoreStepView::Call(set_prop_args(id, props[j as int].0, props[j as int].1))));
        j += 1;
    }
    assert(step_views(out@) =~= before + setting_calls(s@, id));
}

/// Append the steps for one saved device.
fn push_device_steps(out: &mut Vec<RestoreStep>, s: &XSetting, devices: &Vec<XDevice>)
    ensures
        step_views(final(out)@) == step_views(old(out)@) + device_steps(s@, device_views(devices@)),
{
    let ghost before = step_views(out@);
    reveal(device_steps);
    match first_named_exec(devices, s.device.as_str()) {
        None => {
            out.push(RestoreStep::Missing(s.device.clone()));
            assert(step_views(out@) =~= before.push(RestoreStepView::Missing(s@.device)));
        },
        Some(i) => {
            assert(device_views(devices@)[i as int].id == devices[i as int].id);
            push_setting_calls(out, s, devices[i].id);
        },
    }
}

/// What replaying a saved profile does on the devices connected now: for
/// each saved device, in order, either a note that it is missing or the
/// `xinput` calls that restore it.
pub fn restore_plan(settings: &Vec<XSetting>, devices: &Vec<XDevice>) -> (r: Vec<RestoreStep>)
    ensures
        step_views(r@) == restore_steps(setting_views(settings@), device_views(devices@)),
{
    let ghost sv = setting_views(settings@);
    let ghost dv = device_views(devices@);
    let mut out: Vec<RestoreStep> = Vec::new();
    assert(step_views(out@) =~= Seq::<RestoreStepView>::empty());
    assert(sv.take(0) =~= Seq::<XSettingView>::empty());
    let mut k: usize = 0;
    while k < settings.len()
        invariant
            k <= settings.len(),
            sv == setting_views(settings@),
            dv == device_views(devices@),
            step_views(out@) == restore_steps(sv.take(k as int), dv),
        decreases settings.len() - k,
    {
        let ghost before = step_views(out@);
        push_device_steps(&mut out, &settings[k], devices);
        proof {
            assert(sv.take(k + 1).drop_last() =~= sv.take(k as int));
            assert(sv.take(k + 1).last() == settings[k as int]@);
            assert(restore_steps(sv.take(k + 1), dv) == restore_steps(sv.take(k as int), dv) + device_steps(
                settings[k as int]@,
                dv,
            ));
        }
        k += 1;
    }
    assert(sv.take(settings.len() as int) =~= sv);
    out
}

} // verus!
