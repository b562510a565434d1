//! Application state and the actions the key bindings drive. Everything
//! here is a change to that state; where an action needs the system (xinput,
//! sysfs, a terminal), it is split into the decision made before the call
//! and the one made with what the call returned, and the caller runs the
//! call in between.
use vstd::prelude::*;

use crate::error::{Error, Result, NEEDS_PASSWORD};
use crate::num::{decimal, decimal_int, decimal_u64, decimal_i64, is_float_literal, is_float_literal_exec, parse_i64, parse_i64_exec};
use crate::sysfs::{
    attr_views, kind_ok, nudge_fits, nudged, pending_int, toggled, Attr, AttrKind, AttrView, Node,
    NodeView, WriteVia,
};
use crate::text::{
    chars_of, concat, join, join_chars, str_eq, string_of, strings_of, trim, trim_chars,
    views, words, words_of,
};
use crate::xinput::{
    clone_strings, prop_bool, string_views, Kind, Prop, PropValue, PropValueView, PropView,
    XDevice, XDeviceView,
};

verus! {

#[derive(Debug, Clone, Copy, PartialEq, Eq, Structural)]
pub enum Tab {
    Buttons,
    Libinput,
    Sysfs,
}

/// The tabs in display order.
pub const TABS: [Tab; 3] = [Tab::Buttons, Tab::Libinput, Tab::Sysfs];

pub open spec fn tab_index(t: Tab) -> int {
    match t {
        Tab::Buttons => 0,
        Tab::Libinput => 1,
        Tab::Sysfs => 2,
    }
}

pub open spec fn tab_at(i: int) -> Tab {
    if i == 0 {
        Tab::Buttons
    } else if i == 1 {
        Tab::Libinput
    } else {
        Tab::Sysfs
    }
}

pub open spec fn tab_title(t: Tab) -> Seq<char> {
    match t {
        Tab::Buttons => "Buttons"@,
        Tab::Libinput => "libinput"@,
        Tab::Sysfs => "sysfs"@,
    }
}

impl Tab {
    pub fn title(self) -> (r: &'static str)
        ensures
            r@ == tab_title(self),
    {
        match self {
            Tab::Buttons => "Buttons",
            Tab::Libinput => "libinput",
            Tab::Sysfs => "sysfs",
        }
    }

    pub fn index(self) -> (r: usize)
        ensures
            r == tab_index(self),
    {
        match self {
            Tab::Buttons => 0,
            Tab::Libinput => 1,
            Tab::Sysfs => 2,
        }
    }

    pub fn next(self) -> (r: Tab)
        ensures
            r == tab_at((tab_index(self) + 1) % 3),
    {
        let tabs = TABS;
        tabs[(self.index() + 1) % 3]
    }

    pub fn prev(self) -> (r: Tab)
        ensures
            r == tab_at((tab_index(self) + 3 - 1) % 3),
    {
        let tabs = TABS;
        tabs[(self.index() + 3 - 1) % 3]
    }
}

/// Cycling forward and back are inverses, and three steps come round to
/// where they started.
pub proof fn lemma_tab_cycle(t: Tab)
    ensures
        tab_at((tab_index(tab_at((tab_index(t) + 1) % 3)) + 2) % 3) == t,
        tab_at((tab_index(tab_at((tab_index(t) + 2) % 3)) + 1) % 3) == t,
        tab_at(
            (tab_index(tab_at((tab_index(tab_at((tab_index(t) + 1) % 3)) + 1) % 3)) + 1) % 3,
        ) == t,
        tab_at(tab_index(t)) == t,
        0 <= tab_index(t) < 3,
{
}

#[derive(Debug, Clone, Copy, PartialEq, Eq, Structural)]
pub enum Focus {
    Devices,
    Detail,
}

#[derive(Debug, Clone, Copy, PartialEq, Eq, Structural)]
pub enum Level {
    Info,
    Good,
    Warn,
    Bad,
}

#[derive(Debug)]
pub struct Status {
    pub text: String,
    pub level: Level,
}

pub struct StatusView {
    pub text: Seq<char>,
    pub level: Level,
}

impl View for Status {
    type V = StatusView;

    open spec fn view(&self) -> StatusView {
        StatusView { text: self.text@, level: self.level }
    }
}

impl Clone for Status {
    fn clone(&self) -> (r: Self)
        ensures
            r@ == self@,
    {
        Status { text: self.text.clone(), level: self.level }
    }
}

pub open spec fn default_status() -> StatusView {
    StatusView { text: "? for help  \u{b7}  q to quit"@, level: Level::Info }
}

impl Default for Status {
    fn default() -> (r: Self)
        ensures
            r@ == default_status(),
    {
        Status { text: string_of(chars_of("? for help  \u{b7}  q to quit").as_slice()), level: Level::Info }
    }
}

// ---- Property rows -------------------------------------------------------

pub struct PropRow {
    pub prop: Prop,
    pub pending: Vec<String>,
    pub original: Vec<String>,
}

pub struct PropRowView {
    pub prop: PropView,
    pub pending: Seq<Seq<char>>,
    pub original: Seq<Seq<char>>,
}

impl View for PropRow {
    type V = PropRowView;

    open spec fn view(&self) -> PropRowView {
        PropRowView {
            prop: self.prop@,
            pending: string_views(self.pending@),
            original: string_views(self.original@),
        }
    }
}

impl Clone for PropRow {
    fn clone(&self) -> (r: Self)
        ensures
            r@ == self@,
    {
        PropRow {
            prop: self.prop.clone(),
            pending: clone_strings(&self.pending),
            original: clone_strings(&self.original),
        }
    }
}

/// The values a property row starts from: the numbers, or the text as a
/// single value.
pub open spec fn prop_values(p: PropView) -> Seq<Seq<char>> {
    match p.value {
        PropValueView::Numbers(v) => v,
        PropValueView::Opaque(s) => seq![s],
    }
}

pub open spec fn row_dirty(r: PropRowView) -> bool {
    match r.prop.value {
        PropValueView::Numbers(v) => r.pending != v,
        PropValueView::Opaque(_) => false,
    }
}

pub open spec fn row_customised(r: PropRowView) -> bool {
    r.pending != r.original
}

/// Equality of two lists of strings.
pub fn strings_eq(a: &Vec<String>, b: &Vec<String>) -> (r: bool)
    ensures
        r == (string_views(a@) == string_views(b@)),
{
    if a.len() != b.len() {
        assert(string_views(a@).len() != string_views(b@).len());
        return false;
    }
    let mut i: usize = 0;
    while i < a.len()
        invariant
            i <= a.len(),
            a.len() == b.len(),
            forall|k: int| 0 <= k < i ==> #[trigger] a[k]@ == b[k]@,
        decreases a.len() - i,
    {
        if !str_eq(a[i].as_str(), b[i].as_str()) {
            assert(string_views(a@)[i as int] != string_views(b@)[i as int]);
            return false;
        }
        i += 1;
    }
    assert(string_views(a@) =~= string_views(b@));
    true
}

/// Equality of two byte lists.
pub fn bytes_eq(a: &Vec<u8>, b: &Vec<u8>) -> (r: bool)
    ensures
        r == (a@ == b@),
{
    if a.len() != b.len() {
        return false;
    }
    let mut i: usize = 0;
    while i < a.len()
        invariant
            i <= a.len(),
            a.len() == b.len(),
            forall|k: int| 0 <= k < i ==> a[k] == b[k],
        decreases a.len() - i,
    {
        if a[i] != b[i] {
            return false;
        }
        i += 1;
    }
    assert(a@ =~= b@);
    true
}

fn clone_bytes(a: &Vec<u8>) -> (r: Vec<u8>)
    ensures
        r@ == a@,
{
    let mut out: Vec<u8> = Vec::new();
    let mut i: usize = 0;
    while i < a.len()
        invariant
            i <= a.len(),
            out@ == a@.take(i as int),
        decreases a.len() - i,
    {
        out.push(a[i]);
        i += 1;
        assert(out@ =~= a@.take(i as int));
    }
    assert(a@.take(a.len() as int) =~= a@);
    out
}

impl PropRow {
    pub fn new(prop: Prop) -> (r: PropRow)
        ensures
            r@ == (PropRowView { prop: prop@, pending: prop_values(prop@), original: prop_values(prop@) }),
    {
        let values: Vec<String> = match &prop.value {
            PropValue::Numbers(v) => clone_strings(v),
            PropValue::Opaque(s) => {
                let mut v: Vec<String> = Vec::new();
                v.push(s.clone());
                assert(string_views(v@) =~= seq![s@]);
                v
            },
        };
        PropRow { pending: clone_strings(&values), original: values, prop }
    }

    pub fn is_dirty(&self) -> (r: bool)
        ensures
            r == row_dirty(self@),
    {
        match &self.prop.value {
            PropValue::Numbers(v) => !strings_eq(&self.pending, v),
            PropValue::Opaque(_) => false,
        }
    }

    pub fn is_customised(&self) -> (r: bool)
        ensures
            r == row_customised(self@),
    {
        !strings_eq(&self.pending, &self.original)
    }

    pub fn display(&self) -> (r: String)
        ensures
            r@ == join(self@.pending, ", "@),
    {
        let mut vs: Vec<Vec<char>> = Vec::new();
        let mut i: usize = 0;
        while i < self.pending.len()
            invariant
                i <= self.pending.len(),
                views(vs@) =~= string_views(self.pending@).take(i as int),
            decreases self.pending.len() - i,
        {
            let ghost before = vs@;
            vs.push(chars_of(self.pending[i].as_str()));
            assert(views(vs@) =~= views(before).push(self.pending@[i as int]@));
            i += 1;
        }
        assert(string_views(self.pending@).take(self.pending.len() as int) =~= string_views(
            self.pending@,
        ));
        string_of(join_chars(&vs, chars_of(", ").as_slice()).as_slice())
    }
}

// ---- Devices -------------------------------------------------------------

pub struct Device {
    pub x: Option<XDevice>,
    pub name: String,
    /// Live button map as last read from the X server.
    pub buttons: Vec<u8>,
    /// Staged map, written on apply.
    pub pending_buttons: Vec<u8>,
    /// Map as it was when the tool started.
    pub original_buttons: Vec<u8>,
    pub props: Vec<PropRow>,
    pub sysfs: Option<Node>,
    /// Whether the X server is currently delivering this device's events.
    pub enabled: bool,
    /// State at start-up, so the profile only carries deliberate changes.
    pub originally_enabled: bool,
    /// Set when a device could be listed but not fully interrogated.
    pub note: Option<String>,
}

pub struct DeviceView {
    pub x: Option<XDeviceView>,
    pub name: Seq<char>,
    pub buttons: Seq<u8>,
    pub pending_buttons: Seq<u8>,
    pub original_buttons: Seq<u8>,
    pub props: Seq<PropRowView>,
    pub sysfs: Option<NodeView>,
    pub enabled: bool,
    pub originally_enabled: bool,
    pub note: Option<Seq<char>>,
}

pub open spec fn row_views(v: Seq<PropRow>) -> Seq<PropRowView> {
    Seq::new(v.len(), |i: int| v[i]@)
}

pub open spec fn opt_string(o: Option<String>) -> Option<Seq<char>> {
    match o {
        Some(s) => Some(s@),
        None => None,
    }
}

impl View for Device {
    type V = DeviceView;

    open spec fn view(&self) -> DeviceView {
        DeviceView {
            x: match self.x {
                Some(x) => Some(x@),
                None => None,
            },
            name: self.name@,
            buttons: self.buttons@,
            pending_buttons: self.pending_buttons@,
            original_buttons: self.original_buttons@,
            props: row_views(self.props@),
            sysfs: match self.sysfs {
                Some(n) => Some(n@),
                None => None,
            },
            enabled: self.enabled,
            originally_enabled: self.originally_enabled,
            note: opt_string(self.note),
        }
    }
}

pub open spec fn device_id(d: DeviceView) -> Option<u32> {
    match d.x {
        Some(x) => Some(x.id),
        None => None,
    }
}

pub open spec fn props_dirty_spec(d: DeviceView) -> bool {
    exists|i: int| 0 <= i < d.props.len() && row_dirty(#[trigger] d.props[i])
}

pub open spec fn sysfs_dirty_spec(d: DeviceView) -> bool {
    match d.sysfs {
        Some(n) => exists|i: int| 0 <= i < n.attrs.len() && #[trigger] n.attrs[i].pending != n.attrs[i].value,
        None => false,
    }
}

pub open spec fn device_dirty(d: DeviceView) -> bool {
    d.pending_buttons != d.buttons || props_dirty_spec(d) || sysfs_dirty_spec(d)
}

pub open spec fn props_customised(d: DeviceView) -> bool {
    exists|i: int| 0 <= i < d.props.len() && row_customised(#[trigger] d.props[i])
}

impl Device {
    pub fn id(&self) -> (r: Option<u32>)
        ensures
            r == device_id(self@),
    {
        match &self.x {
            Some(x) => Some(x.id),
            None => None,
        }
    }

    pub fn buttons_dirty(&self) -> (r: bool)
        ensures
            r == (self@.pending_buttons != self@.buttons),
    {
        !bytes_eq(&self.pending_buttons, &self.buttons)
    }

    pub fn buttons_customised(&self) -> (r: bool)
        ensures
            r == (self@.pending_buttons != self@.original_buttons),
    {
        !bytes_eq(&self.pending_buttons, &self.original_buttons)
    }

    pub fn props_dirty(&self) -> (r: bool)
        ensures
            r == props_dirty_spec(self@),
    {
        let mut i: usize = 0;
        while i < self.props.len()
            invariant
                i <= self.props.len(),
                forall|k: int| 0 <= k < i ==> !row_dirty(#[trigger] row_views(self.props@)[k]),
            decreases self.props.len() - i,
        {
            if self.props[i].is_dirty() {
                assert(row_dirty(self@.props[i as int]));
                return true;
            }
            i += 1;
        }
        false
    }

    pub fn sysfs_dirty(&self) -> (r: bool)
        ensures
            r == sysfs_dirty_spec(self@),
    {
        match &self.sysfs {
            Some(n) => {
                let r = n.dirty();
                proof {
                    if r {
                        let i = choose|i: int| 0 <= i < n.attrs.len() && #[trigger] n.attrs[i].pending@ != n.attrs[i].value@;
                        assert(attr_views(n.attrs@)[i].pending != attr_views(n.attrs@)[i].value);
                    } else {
                        assert forall|i: int| 0 <= i < attr_views(n.attrs@).len() implies #[trigger] attr_views(n.attrs@)[i].pending == attr_views(n.attrs@)[i].value by {
                            assert(n.attrs[i].pending@ == n.attrs[i].value@);
                        }
                    }
                }
                r
            },
            None => false,
        }
    }

    pub fn dirty(&self) -> (r: bool)
        ensures
            r == device_dirty(self@),
    {
        self.buttons_dirty() || self.props_dirty() || self.sysfs_dirty()
    }

    pub fn enabled_customised(&self) -> (r: bool)
        ensures
            r == (self.enabled != self.originally_enabled),
    {
        self.enabled != self.originally_enabled
    }
}

/// What a button number conventionally does.
pub open spec fn button_label_text(n: int) -> Seq<char> {
    if n == 1 {
        "left click"@
    } else if n == 2 {
        "middle \u{2014} primary-selection paste, TrackPoint scroll"@
    } else if n == 3 {
        "right click"@
    } else if n == 4 {
        "scroll up"@
    } else if n == 5 {
        "scroll down"@
    } else if n == 6 {
        "scroll left"@
    } else if n == 7 {
        "scroll right"@
    } else if n == 8 {
        "back"@
    } else if n == 9 {
        "forward"@
    } else {
        ""@
    }
}

/// What a button number conventionally does, so the UI can explain itself.
pub fn button_label(n: usize) -> (r: &'static str)
    ensures
        r@ == button_label_text(n as int),
{
    if n == 1 {
        "left click"
    } else if n == 2 {
        "middle \u{2014} primary-selection paste, TrackPoint scroll"
    } else if n == 3 {
        "right click"
    } else if n == 4 {
        "scroll up"
    } else if n == 5 {
        "scroll down"
    } else if n == 6 {
        "scroll left"
    } else if n == 7 {
        "scroll right"
    } else if n == 8 {
        "back"
    } else if n == 9 {
        "forward"
    } else {
        ""
    }
}

// ---- The application ----------------------------------------------------

#[derive(Debug, Clone, Copy, PartialEq, Eq, Structural)]
pub enum EditTarget {
    Prop(usize),
    Attr(usize),
}

/// What covers the page. The detector and the drift meter are running
/// processes; the caller keeps those next to the state and this records only
/// that their panel is open.
pub enum Modal {
    Help,
    Detect,
    Meter,
    Persist {
        rule: String,
        profile: String,
        /// 0 = udev rule, 1 = X profile.
        choice: usize,
    },
    Edit { title: String, buffer: String, target: EditTarget },
    /// Writing needs root and sudo wants a password: what has been typed so
    /// far, and why the last one was turned down, if it was.
    Password { buffer: String, error: Option<String> },
}

pub enum ModalView {
    Help,
    Detect,
    Meter,
    Persist { rule: Seq<char>, profile: Seq<char>, choice: usize },
    Edit { title: Seq<char>, buffer: Seq<char>, target: EditTarget },
    Password { buffer: Seq<char>, error: Option<Seq<char>> },
}

impl View for Modal {
    type V = ModalView;

    open spec fn view(&self) -> ModalView {
        match self {
            Modal::Help => ModalView::Help,
            Modal::Detect => ModalView::Detect,
            Modal::Meter => ModalView::Meter,
            Modal::Persist { rule, profile, choice } => ModalView::Persist {
                rule: rule@,
                profile: profile@,
                choice: *choice,
            },
            Modal::Edit { title, buffer, target } => ModalView::Edit {
                title: title@,
                buffer: buffer@,
                target: *target,
            },
            Modal::Password { buffer, error } => ModalView::Password {
                buffer: buffer@,
                error: opt_string(*error),
            },
        }
    }
}

pub struct App {
    pub devices: Vec<Device>,
    pub sel_device: usize,
    pub sel_button: usize,
    pub sel_prop: usize,
    pub sel_attr: usize,
    pub focus: Focus,
    pub tab: Tab,
    pub modal: Option<Modal>,
    pub status: Status,
    pub should_quit: bool,
    pub x11: bool,
}

pub struct AppView {
    pub devices: Seq<DeviceView>,
    pub sel_device: usize,
    pub sel_button: usize,
    pub sel_prop: usize,
    pub sel_attr: usize,
    pub focus: Focus,
    pub tab: Tab,
    pub modal: Option<ModalView>,
    pub status: StatusView,
    pub should_quit: bool,
    pub x11: bool,
}

pub open spec fn device_views(v: Seq<Device>) -> Seq<DeviceView> {
    Seq::new(v.len(), |i: int| v[i]@)
}

impl View for App {
    type V = AppView;

    open spec fn view(&self) -> AppView {
        AppView {
            devices: device_views(self.devices@),
            sel_device: self.sel_device,
            sel_button: self.sel_button,
            sel_prop: self.sel_prop,
            sel_attr: self.sel_attr,
            focus: self.focus,
            tab: self.tab,
            modal: match self.modal {
                Some(m) => Some(m@),
                None => None,
            },
            status: self.status@,
            should_quit: self.should_quit,
            x11: self.x11,
        }
    }
}

/// The selected device exists.
pub open spec fn wf(a: AppView) -> bool {
    a.sel_device < a.devices.len()
}

pub open spec fn sel(a: AppView) -> DeviceView {
    a.devices[a.sel_device as int]
}

/// The state with the selected device replaced.
pub open spec fn with_device(a: AppView, d: DeviceView) -> AppView {
    AppView { devices: a.devices.update(a.sel_device as int, d), ..a }
}

/// The state with a new status line.
pub open spec fn said(a: AppView, text: Seq<char>, level: Level) -> AppView {
    AppView { status: StatusView { text, level }, ..a }
}

impl App {
    pub fn device(&self) -> (r: &Device)
        requires
            wf(self@),
        ensures
            r@ == sel(self@),
    {
        &self.devices[self.sel_device]
    }

    pub fn say(&mut self, text: String, level: Level)
        ensures
            final(self)@ == said(old(self)@, text@, level),
    {
        self.status = Status { text, level };
    }

    fn say_str(&mut self, text: &str, level: Level)
        ensures
            final(self)@ == said(old(self)@, text@, level),
    {
        self.say(string_of(chars_of(text).as_slice()), level);
    }

    /// Put a changed device back in its place.
    fn replace_device(&mut self, d: Device)
        requires
            wf(old(self)@),
        ensures
            final(self)@ == with_device(old(self)@, d@),
    {
        let i = self.sel_device;
        let ghost before = self.devices@;
        self.devices.set(i, d);
        assert(device_views(self.devices@) =~= device_views(before).update(i as int, d@));
    }

    /// Take the selected device out to change it. The slot keeps a copy
    /// until `replace_device` puts the changed one back.
    fn take_device(&mut self) -> (d: Device)
        requires
            wf(old(self)@),
        ensures
            d@ == sel(old(self)@),
            wf(final(self)@),
            final(self)@ == old(self)@,
    {
        let i = self.sel_device;
        let ghost before = self.devices@;
        let d = self.devices.remove(i);
        let copy = Device {
            x: match &d.x {
                Some(x) => Some(x.clone()),
                None => None,
            },
            name: d.name.clone(),
            buttons: clone_bytes(&d.buttons),
            pending_buttons: clone_bytes(&d.pending_buttons),
            original_buttons: clone_bytes(&d.original_buttons),
            props: clone_rows(&d.props),
            sysfs: match &d.sysfs {
                Some(n) => Some(n.clone()),
                None => None,
            },
            enabled: d.enabled,
            originally_enabled: d.originally_enabled,
            note: match &d.note {
                Some(s) => Some(s.clone()),
                None => None,
            },
        };
        assert(copy@ == d@);
        self.devices.insert(i, copy);
        assert(device_views(self.devices@) =~= device_views(before));
        d
    }
}

fn clone_rows(v: &Vec<PropRow>) -> (r: Vec<PropRow>)
    ensures
        row_views(r@) == row_views(v@),
{
    let mut out: Vec<PropRow> = Vec::new();
    let mut i: usize = 0;
    while i < v.len()
        invariant
            i <= v.len(),
            row_views(out@) =~= row_views(v@).take(i as int),
        decreases v.len() - i,
    {
        let ghost before = out@;
        out.push(v[i].clone());
        assert(row_views(out@) =~= row_views(before).push(v[i as int]@));
        i += 1;
    }
    out
}

// ---- Buttons -------------------------------------------------------------

/// What space does on the buttons tab: a disabled button gets its start-up
/// mapping back, any other is disabled, and the status line says which.
pub open spec fn toggle_button_spec(a: AppView) -> AppView {
    let d = sel(a);
    let i = a.sel_button as int;
    if i >= d.pending_buttons.len() {
        a
    } else {
        let physical = i + 1;
        if d.pending_buttons[i] == 0 {
            said(
                with_device(a, DeviceView { pending_buttons: d.pending_buttons.update(i, d.original_buttons[i]), ..d }),
                "Button "@ + decimal(physical as nat) + " restored (staged) \u{2014} press a to apply"@,
                Level::Info,
            )
        } else {
            let b = with_device(a, DeviceView { pending_buttons: d.pending_buttons.update(i, 0), ..d });
            if physical == 1 {
                said(
                    b,
                    "Button 1 staged as disabled \u{2014} that is your left click. Press space again to undo."@,
                    Level::Warn,
                )
            } else {
                said(
                    b,
                    "Button "@ + decimal(physical as nat) + " staged as disabled \u{2014} press a to apply"@,
                    Level::Info,
                )
            }
        }
    }
}

/// Restoring a disabled button reads its start-up mapping, which must be
/// there.
pub open spec fn toggle_button_ok(a: AppView) -> bool {
    let d = sel(a);
    let i = a.sel_button as int;
    i < d.pending_buttons.len() && d.pending_buttons[i] == 0 ==> i < d.original_buttons.len()
}

impl App {
    pub fn toggle_button(&mut self)
        requires
            wf(old(self)@),
            toggle_button_ok(old(self)@),
        ensures
            final(self)@ == toggle_button_spec(old(self)@),
    {
        let index = self.sel_button;
        if index >= self.devices[self.sel_device].pending_buttons.len() {
            return;
        }
        let mut d = self.take_device();
        let physical = index + 1;
        let ghost a = self@;
        if d.pending_buttons[index] == 0 {
            let restore = d.original_buttons[index];
            d.pending_buttons.set(index, restore);
            self.replace_device(d);
            let a1 = concat(chars_of("Button ").as_slice(), decimal_u64(physical as u64).as_slice());
            let msg = concat(a1.as_slice(), chars_of(" restored (staged) \u{2014} press a to apply").as_slice());
            self.say(string_of(msg.as_slice()), Level::Info);
        } else {
            d.pending_buttons.set(index, 0);
            self.replace_device(d);
            if physical == 1 {
                self.say_str(
                    "Button 1 staged as disabled \u{2014} that is your left click. Press space again to undo.",
                    Level::Warn,
                );
            } else {
                let a1 = concat(chars_of("Button ").as_slice(), decimal_u64(physical as u64).as_slice());
                let msg = concat(a1.as_slice(), chars_of(" staged as disabled \u{2014} press a to apply").as_slice());
                self.say(string_of(msg.as_slice()), Level::Info);
            }
        }
    }

    pub fn reset_buttons(&mut self)
        requires
            wf(old(self)@),
        ensures
            final(self)@ == said(
                with_device(old(self)@, DeviceView { pending_buttons: sel(old(self)@).original_buttons, ..sel(old(self)@) }),
                "Button map reset to its start-up state (staged)"@,
                Level::Info,
            ),
    {
        let mut d = self.take_device();
        d.pending_buttons = clone_bytes(&d.original_buttons);
        self.replace_device(d);
        self.say_str("Button map reset to its start-up state (staged)", Level::Info);
    }
}

/// Space on a button twice gives back what was staged, whenever the staged
/// mapping was the start-up one or the button was disabled with a non-zero
/// start-up mapping.
pub proof fn lemma_toggle_button_twice(a: AppView)
    requires
        wf(a),
        a.sel_button < sel(a).pending_buttons.len(),
        a.sel_button < sel(a).original_buttons.len(),
        sel(a).original_buttons[a.sel_button as int] != 0,
        sel(a).pending_buttons[a.sel_button as int] == 0 || sel(a).pending_buttons[a.sel_button as int]
            == sel(a).original_buttons[a.sel_button as int],
    ensures
        toggle_button_ok(a),
        toggle_button_ok(toggle_button_spec(a)),
        sel(toggle_button_spec(toggle_button_spec(a))).pending_buttons == sel(a).pending_buttons,
        toggle_button_spec(toggle_button_spec(a)).devices.len() == a.devices.len(),
{
    let b = toggle_button_spec(a);
    let c = toggle_button_spec(b);
    assert(sel(c).pending_buttons =~= sel(a).pending_buttons);
}

// ---- libinput properties -------------------------------------------------

/// What space does to an on/off value: `1` becomes `0`, anything else `1`.
pub open spec fn flipped(pending: Seq<Seq<char>>) -> Seq<Seq<char>> {
    if pending.len() > 0 && pending[0] == "1"@ {
        seq!["0"@]
    } else {
        seq!["1"@]
    }
}

/// The selected device with one property row's staged values replaced.
pub open spec fn with_row_pending(a: AppView, i: int, pending: Seq<Seq<char>>) -> AppView {
    let d = sel(a);
    with_device(a, DeviceView { props: d.props.update(i, PropRowView { pending, ..d.props[i] }), ..d })
}

pub open spec fn selected_row_is_bool(a: AppView) -> bool {
    let d = sel(a);
    a.sel_prop < d.props.len() && prop_bool(d.props[a.sel_prop as int].prop) is Some
}

pub open spec fn toggle_prop_spec(a: AppView) -> AppView {
    if !selected_row_is_bool(a) {
        said(a, "Not an on/off property \u{2014} press e to edit its values"@, Level::Info)
    } else {
        let i = a.sel_prop as int;
        with_row_pending(a, i, flipped(sel(a).props[i].pending))
    }
}

/// The attribute `sel_attr` picks on the selected device, if there is one.
pub open spec fn selected_attr(a: AppView) -> Option<AttrView> {
    match sel(a).sysfs {
        Some(n) => if a.sel_attr < n.attrs.len() {
            Some(n.attrs[a.sel_attr as int])
        } else {
            None
        },
        None => None,
    }
}

/// The selected device with its selected attribute replaced.
pub open spec fn with_attr(a: AppView, attr: AttrView) -> AppView {
    let d = sel(a);
    let n = d.sysfs->0;
    with_device(
        a,
        DeviceView { sysfs: Some(NodeView { attrs: n.attrs.update(a.sel_attr as int, attr), ..n }), ..d },
    )
}

impl App {
    /// Stage new values on the selected property row.
    fn stage_row(&mut self, values: Vec<String>)
        requires
            wf(old(self)@),
            old(self).sel_prop < sel(old(self)@).props.len(),
        ensures
            final(self)@ == with_row_pending(old(self)@, old(self).sel_prop as int, string_views(values@)),
    {
        let i = self.sel_prop;
        let mut d = self.take_device();
        let ghost rows = d.props@;
        let mut row = d.props.remove(i);
        row.pending = values;
        d.props.insert(i, row);
        assert(row_views(d.props@) =~= row_views(rows).update(i as int, row_views(d.props@)[i as int]));
        self.replace_device(d);
    }

    /// Stage a value typed or nudged elsewhere on the selected property row,
    /// when the row exists.
    pub fn stage_prop_value(&mut self, value: String)
        requires
            wf(old(self)@),
        ensures
            old(self).sel_prop < sel(old(self)@).props.len() ==> final(self)@ == with_row_pending(
                old(self)@,
                old(self).sel_prop as int,
                seq![value@],
            ),
            old(self).sel_prop >= sel(old(self)@).props.len() ==> final(self)@ == old(self)@,
    {
        if self.sel_prop < self.devices[self.sel_device].props.len() {
            let mut v: Vec<String> = Vec::new();
            v.push(value);
            assert(string_views(v@) =~= seq![v@[0]@]);
            self.stage_row(v);
        }
    }

    /// Flip the selected property row's staged value between 0 and 1.
    pub fn flip_prop(&mut self)
        requires
            wf(old(self)@),
        ensures
            old(self).sel_prop < sel(old(self)@).props.len() ==> final(self)@ == with_row_pending(
                old(self)@,
                old(self).sel_prop as int,
                flipped(sel(old(self)@).props[old(self).sel_prop as int].pending),
            ),
            old(self).sel_prop >= sel(old(self)@).props.len() ==> final(self)@ == old(self)@,
    {
        let i = self.sel_prop;
        if i >= self.devices[self.sel_device].props.len() {
            return;
        }
        let row = &self.devices[self.sel_device].props[i];
        assert(row@ == sel(self@).props[i as int]);
        let current = row.pending.len() > 0 && str_eq(row.pending[0].as_str(), "1");
        let mut v: Vec<String> = Vec::new();
        v.push(string_of(chars_of(if current { "0" } else { "1" }).as_slice()));
        assert(string_views(v@) =~= flipped(sel(self@).props[i as int].pending));
        self.stage_row(v);
    }

    pub fn toggle_prop(&mut self)
        requires
            wf(old(self)@),
        ensures
            final(self)@ == toggle_prop_spec(old(self)@),
    {
        let index = self.sel_prop;
        let d = &self.devices[self.sel_device];
        let is_bool = index < d.props.len() && d.props[index].prop.as_bool().is_some();
        proof {
            if index < d.props.len() {
                assert(d.props[index as int].prop@ == sel(self@).props[index as int].prop);
            }
        }
        if !is_bool {
            self.say_str("Not an on/off property \u{2014} press e to edit its values", Level::Info);
            return;
        }
        self.flip_prop();
    }
}

// ---- sysfs ---------------------------------------------------------------

/// Every attribute on every device has bounds in order.
/// Space on an on/off property switches what is staged: a staged `0`
/// becomes `1` and a staged `1` becomes `0`, nothing else on the device or
/// any other device changes, and a second press gives back what was staged
/// before the first.
pub proof fn lemma_space_flips_a_switch(a: AppView)
    requires
        wf(a),
        selected_row_is_bool(a),
        sel(a).props[a.sel_prop as int].pending == seq!["0"@] || sel(a).props[a.sel_prop as int].pending
            == seq!["1"@],
    ensures
        ({
            let i = a.sel_prop as int;
            let p = sel(a).props[i].pending;
            let b = toggle_prop_spec(a);
            let c = toggle_prop_spec(b);
            &&& p == seq!["0"@] ==> sel(b).props[i].pending == seq!["1"@]
            &&& p == seq!["1"@] ==> sel(b).props[i].pending == seq!["0"@]
            &&& sel(b).props[i].pending != p
            &&& sel(b).props[i].prop == sel(a).props[i].prop
            &&& b.devices.len() == a.devices.len()
            &&& forall|j: int| 0 <= j < a.devices.len() && j != a.sel_device ==> b.devices[j] == a.devices[j]
            &&& forall|j: int| 0 <= j < sel(a).props.len() && j != i ==> sel(b).props[j] == sel(a).props[j]
            &&& c.devices == a.devices
        }),
{
    reveal_strlit("0");
    reveal_strlit("1");
    let i = a.sel_prop as int;
    let b = toggle_prop_spec(a);
    let c = toggle_prop_spec(b);
    assert("0"@ != "1"@) by {
        assert("0"@[0] != "1"@[0]);
    }
    assert(seq!["0"@] != seq!["1"@]) by {
        assert(seq!["0"@][0] != seq!["1"@][0]);
    }
    assert(selected_row_is_bool(b));
    assert(sel(c).props =~= sel(a).props);
    assert(c.devices =~= a.devices);
}

/// Typed values reach a numeric property only when there are as many of
/// them as the property holds: with any other count the state is left as
/// it was apart from a Bad status naming the count it takes; with the same
/// count they become the row's staged values, the property itself and the
/// other rows untouched.
pub proof fn lemma_commit_needs_matching_count(a: AppView, buffer: Seq<char>, index: usize)
    requires
        wf(a),
        index < sel(a).props.len(),
        sel(a).props[index as int].prop.value is Numbers,
        typed_numbers(buffer),
    ensures
        ({
            let cur = sel(a).props[index as int].prop.value->Numbers_0;
            let r = commit_editor_spec(a, buffer, EditTarget::Prop(index));
            &&& words(buffer).len() != cur.len() ==> {
                &&& r.devices == a.devices
                &&& r.status.level == Level::Bad
                &&& r.status.text == "That property takes "@ + decimal(cur.len()) + " value(s)"@
            }
            &&& words(buffer).len() == cur.len() ==> {
                &&& r.devices.len() == a.devices.len()
                &&& sel(r).props.len() == sel(a).props.len()
                &&& sel(r).props[index as int].pending == words(buffer)
                &&& sel(r).props[index as int].prop == sel(a).props[index as int].prop
                &&& forall|j: int| 0 <= j < sel(a).props.len() && j != index ==> sel(r).props[j] == sel(a).props[j]
                &&& r.status.level == Level::Info
            }
        }),
{
}

/// Committing an edit clamps a typed attribute into its kind's range, and
/// `i64::clamp` panics on a range whose low end is above its high end: the
/// attribute being edited has a proper range.
pub open spec fn commit_ok(a: AppView, target: EditTarget) -> bool {
    match target {
        EditTarget::Attr(i) => match selected_attr(AppView { sel_attr: i, ..a }) {
            Some(at) => kind_ok(at.kind),
            None => true,
        },
        EditTarget::Prop(_) => true,
    }
}

pub open spec fn kinds_ok(a: AppView) -> bool {
    kinds_all_ok(a.devices)
}

/// Every attribute kind on these devices is a proper range.
pub open spec fn kinds_all_ok(ds: Seq<DeviceView>) -> bool {
    forall|k: int, j: int|
        0 <= k < ds.len() && ds[k].sysfs is Some && 0 <= j < ds[k].sysfs->0.attrs.len()
            ==> kind_ok(#[trigger] ds[k].sysfs->0.attrs[j].kind)
}

pub open spec fn adjust_attr_spec(a: AppView, delta: i64) -> AppView {
    match selected_attr(a) {
        Some(attr) => with_attr(a, AttrView { pending: nudged(attr, delta), ..attr }),
        None => a,
    }
}

pub open spec fn toggle_attr_spec(a: AppView) -> AppView {
    match selected_attr(a) {
        Some(attr) => if attr.kind == AttrKind::Bool {
            with_attr(a, AttrView { pending: toggled(attr), ..attr })
        } else {
            said(a, "Use \u{2190} / \u{2192} to adjust, or e to type a value"@, Level::Info)
        },
        None => said(a, "Use \u{2190} / \u{2192} to adjust, or e to type a value"@, Level::Info),
    }
}

/// `adjust_attr(delta)` stays clear of overflow.
pub open spec fn adjust_attr_ok(a: AppView, delta: i64) -> bool {
    match selected_attr(a) {
        Some(attr) => nudge_fits(attr, delta) && kind_ok(attr.kind),
        None => true,
    }
}

impl App {
    /// Replace the selected attribute with what `f` made of it.
    fn update_attr(&mut self, attr: Attr)
        requires
            wf(old(self)@),
            selected_attr(old(self)@) is Some,
        ensures
            final(self)@ == with_attr(old(self)@, attr@),
    {
        let j = self.sel_attr;
        let mut d = self.take_device();
        let mut node = match d.sysfs {
            Some(n) => n,
            None => {
                assert(false);
                return;
            },
        };
        let ghost attrs = node.attrs@;
        node.attrs.set(j, attr);
        assert(attr_views(node.attrs@) =~= attr_views(attrs).update(j as int, attr@));
        d.sysfs = Some(node);
        self.replace_device(d);
    }

    /// A copy of the selected attribute.
    fn selected_attr_copy(&self) -> (r: Option<Attr>)
        requires
            wf(self@),
        ensures
            match selected_attr(self@) {
                Some(a) => r matches Some(x) && x@ == a,
                None => r is None,
            },
    {
        match &self.devices[self.sel_device].sysfs {
            Some(n) => {
                if self.sel_attr < n.attrs.len() {
                    Some(n.attrs[self.sel_attr].clone())
                } else {
                    None
                }
            },
            None => None,
        }
    }

    pub fn adjust_attr(&mut self, delta: i64)
        requires
            wf(old(self)@),
            adjust_attr_ok(old(self)@, delta),
        ensures
            final(self)@ == adjust_attr_spec(old(self)@, delta),
    {
        match self.selected_attr_copy() {
            Some(mut attr) => {
                attr.nudge(delta);
                self.update_attr(attr);
            },
            None => {},
        }
    }

    pub fn toggle_attr(&mut self)
        requires
            wf(old(self)@),
        ensures
            final(self)@ == toggle_attr_spec(old(self)@),
    {
        match self.selected_attr_copy() {
            Some(mut attr) => {
                if attr.kind == AttrKind::Bool {
                    attr.toggle();
                    self.update_attr(attr);
                } else {
                    self.say_str("Use \u{2190} / \u{2192} to adjust, or e to type a value", Level::Info);
                }
            },
            None => {
                self.say_str("Use \u{2190} / \u{2192} to adjust, or e to type a value", Level::Info);
            },
        }
    }
}

// ---- Editing -------------------------------------------------------------

pub open spec fn open_editor_spec(a: AppView) -> AppView {
    match a.tab {
        Tab::Libinput => {
            let i = a.sel_prop as int;
            if i < sel(a).props.len() {
                let row = sel(a).props[i];
                AppView {
                    modal: Some(
                        ModalView::Edit {
                            title: row.prop.name,
                            buffer: join(row.pending, " "@),
                            target: EditTarget::Prop(a.sel_prop),
                        },
                    ),
                    ..a
                }
            } else {
                a
            }
        },
        Tab::Sysfs => match selected_attr(a) {
            Some(attr) => AppView {
                modal: Some(
                    ModalView::Edit {
                        title: attr.name,
                        buffer: attr.pending,
                        target: EditTarget::Attr(a.sel_attr),
                    },
                ),
                ..a
            },
            None => a,
        },
        Tab::Buttons => said(a, "Nothing to type here \u{2014} space toggles a button"@, Level::Info),
    }
}

/// The typed values, when every one reads as a number and there is at
/// least one.
pub open spec fn typed_numbers(buffer: Seq<char>) -> bool {
    let vs = words(buffer);
    vs.len() > 0 && forall|i: int| 0 <= i < vs.len() ==> is_float_literal(#[trigger] vs[i])
}

pub open spec fn staged_message() -> Seq<char> {
    "Staged \u{2014} press a to apply"@
}

pub open spec fn commit_editor_spec(a: AppView, buffer: Seq<char>, target: EditTarget) -> AppView {
    match target {
        EditTarget::Prop(index) => {
            let vs = words(buffer);
            if !typed_numbers(buffer) {
                said(a, "Expected one or more numbers"@, Level::Bad)
            } else {
                let i = index as int;
                let rows = sel(a).props;
                let expected: Option<int> = if i < rows.len() {
                    match rows[i].prop.value {
                        PropValueView::Numbers(cur) => Some(cur.len() as int),
                        _ => None,
                    }
                } else {
                    None
                };
                if expected is Some && expected->0 != vs.len() {
                    said(
                        a,
                        "That property takes "@ + decimal(expected->0 as nat) + " value(s)"@,
                        Level::Bad,
                    )
                } else if i < rows.len() {
                    said(with_row_pending(a, i, vs), staged_message(), Level::Info)
                } else {
                    said(a, staged_message(), Level::Info)
                }
            }
        },
        EditTarget::Attr(index) => {
            let t = trim(buffer);
            if parse_i64(t) is None {
                said(a, "Expected a whole number"@, Level::Bad)
            } else {
                let b = AppView { sel_attr: index, ..a };
                match selected_attr(b) {
                    Some(attr) => {
                        let typed = AttrView { pending: t, ..attr };
                        said(
                            AppView {
                                sel_attr: a.sel_attr,
                                ..with_attr(b, AttrView { pending: nudged(typed, 0), ..attr })
                            },
                            staged_message(),
                            Level::Info,
                        )
                    },
                    None => said(a, staged_message(), Level::Info),
                }
            }
        },
    }
}

impl App {
    pub fn open_editor(&mut self)
        requires
            wf(old(self)@),
        ensures
            final(self)@ == open_editor_spec(old(self)@),
    {
        match self.tab {
            Tab::Libinput => {
                let index = self.sel_prop;
                let d = &self.devices[self.sel_device];
                if index >= d.props.len() {
                    return;
                }
                let row = &d.props[index];
                assert(row@ == sel(self@).props[index as int]);
                let mut vs: Vec<Vec<char>> = Vec::new();
                let mut k: usize = 0;
                while k < row.pending.len()
                    invariant
                        k <= row.pending.len(),
                        views(vs@) =~= string_views(row.pending@).take(k as int),
                    decreases row.pending.len() - k,
                {
                    let ghost before = vs@;
                    vs.push(chars_of(row.pending[k].as_str()));
                    assert(views(vs@) =~= views(before).push(row.pending@[k as int]@));
                    k += 1;
                }
                assert(string_views(row.pending@).take(row.pending.len() as int) =~= string_views(row.pending@));
                let buffer = string_of(join_chars(&vs, chars_of(" ").as_slice()).as_slice());
                let title = row.prop.name.clone();
                self.modal = Some(Modal::Edit { title, buffer, target: EditTarget::Prop(index) });
            },
            Tab::Sysfs => {
                match self.selected_attr_copy() {
                    Some(attr) => {
                        self.modal = Some(
                            Modal::Edit {
                                title: attr.name,
                                buffer: attr.pending,
                                target: EditTarget::Attr(self.sel_attr),
                            },
                        );
                    },
                    None => {},
                }
            },
            Tab::Buttons => {
                self.say_str("Nothing to type here \u{2014} space toggles a button", Level::Info);
            },
        }
    }

    pub fn commit_editor(&mut self, buffer: String, target: EditTarget)
        requires
            wf(old(self)@),
            commit_ok(old(self)@, target),
        ensures
            final(self)@ == commit_editor_spec(old(self)@, buffer@, target),
    {
        match target {
            EditTarget::Prop(index) => {
                let vs = words_of(chars_of(buffer.as_str()).as_slice());
                let mut ok = vs.len() > 0;
                let mut k: usize = 0;
                while k < vs.len()
                    invariant
                        k <= vs.len(),
                        ok == (vs.len() > 0 && forall|j: int| 0 <= j < k ==> is_float_literal(#[trigger] views(vs@)[j])),
                    decreases vs.len() - k,
                {
                    let good = is_float_literal_exec(vs[k].as_slice());
                    assert(views(vs@)[k as int] == vs[k as int]@);
                    ok = ok && good;
                    k += 1;
                }
                if !ok {
                    self.say_str("Expected one or more numbers", Level::Bad);
                    return;
                }
                let rows = &self.devices[self.sel_device].props;
                let expected: Option<usize> = if index < rows.len() {
                    assert(rows[index as int]@ == sel(self@).props[index as int]);
                    match &rows[index].prop.value {
                        PropValue::Numbers(cur) => Some(cur.len()),
                        PropValue::Opaque(_) => None,
                    }
                } else {
                    None
                };
                match expected {
                    Some(e) => {
                        if e != vs.len() {
                            let a1 = concat(chars_of("That property takes ").as_slice(), decimal_u64(e as u64).as_slice());
                            let msg = concat(a1.as_slice(), chars_of(" value(s)").as_slice());
                            self.say(string_of(msg.as_slice()), Level::Bad);
                            return;
                        }
                    },
                    None => {},
                }
                if index < self.devices[self.sel_device].props.len() {
                    let values = strings_of(&vs);
                    assert(string_views(values@) =~= words(buffer@));
                    let keep = self.sel_prop;
                    self.sel_prop = index;
                    self.stage_row(values);
                    self.sel_prop = keep;
                }
                self.say_str("Staged \u{2014} press a to apply", Level::Info);
            },
            EditTarget::Attr(index) => {
                let t = trim_chars(chars_of(buffer.as_str()).as_slice());
                if parse_i64_exec(t.as_slice()).is_none() {
                    self.say_str("Expected a whole number", Level::Bad);
                    return;
                }
                let keep = self.sel_attr;
                self.sel_attr = index;
                match self.selected_attr_copy() {
                    Some(mut attr) => {
                        assert(kind_ok(attr@.kind));
                        attr.pending = string_of(t.as_slice());
                        proof {
                            assert(pending_int(attr@) is Some);
                        }
                        attr.nudge(0);
                        self.update_attr(attr);
                    },
                    None => {},
                }
                self.sel_attr = keep;
                self.say_str("Staged \u{2014} press a to apply", Level::Info);
            },
        }
    }
}

// ---- Moving around --------------------------------------------------------

pub open spec fn detail_len_spec(a: AppView) -> int {
    match a.tab {
        Tab::Buttons => sel(a).buttons.len() as int,
        Tab::Libinput => sel(a).props.len() as int,
        Tab::Sysfs => match sel(a).sysfs {
            Some(n) => n.attrs.len() as int,
            None => 0,
        },
    }
}

pub open spec fn detail_cursor_spec(a: AppView) -> usize {
    match a.tab {
        Tab::Buttons => a.sel_button,
        Tab::Libinput => a.sel_prop,
        Tab::Sysfs => a.sel_attr,
    }
}

pub open spec fn with_detail_cursor(a: AppView, v: usize) -> AppView {
    match a.tab {
        Tab::Buttons => AppView { sel_button: v, ..a },
        Tab::Libinput => AppView { sel_prop: v, ..a },
        Tab::Sysfs => AppView { sel_attr: v, ..a },
    }
}

/// One step of `delta` from `pos` through `len` places, wrapping round.
pub open spec fn wrapped(pos: int, delta: int, len: int) -> int {
    (pos + delta) % len
}

pub open spec fn move_cursor_spec(a: AppView, delta: int) -> AppView {
    match a.focus {
        Focus::Devices => {
            let len = a.devices.len() as int;
            if len == 0 {
                a
            } else {
                AppView {
                    sel_device: wrapped(a.sel_device as int, delta, len) as usize,
                    sel_button: 0,
                    sel_prop: 0,
                    sel_attr: 0,
                    ..a
                }
            }
        },
        Focus::Detail => {
            let len = detail_len_spec(a);
            if len == 0 {
                a
            } else {
                with_detail_cursor(a, wrapped(detail_cursor_spec(a) as int, delta, len) as usize)
            }
        },
    }
}

/// The positions and the step fit an `isize`, as the arithmetic on them
/// assumes.
pub open spec fn move_cursor_ok(a: AppView, delta: int) -> bool {
    let pos = match a.focus {
        Focus::Devices => a.sel_device as int,
        Focus::Detail => detail_cursor_spec(a) as int,
    };
    &&& pos <= isize::MAX
    &&& a.devices.len() <= isize::MAX
    &&& (a.focus == Focus::Detail ==> detail_len_spec(a) <= isize::MAX)
    &&& isize::MIN <= pos + delta <= isize::MAX
}

/// `(pos + delta) mod len` for a position and a signed step.
fn wrap(pos: usize, delta: isize, len: usize) -> (r: usize)
    requires
        len > 0,
        len <= isize::MAX,
        pos <= isize::MAX,
    ensures
        r == wrapped(pos as int, delta as int, len as int),
        r < len,
{
    let p = pos as u128;
    let n = len as u128;
    if delta >= 0 {
        let r = (p + delta as u128) % n;
        r as usize
    } else {
        let d = ((-(delta as i128)) as u128) % n;
        let base = p % n;
        let r = (base + n - d) % n;
        proof {
            let pi = pos as int;
            let di = delta as int;
            let ni = len as int;
            let dd = (-di) % ni;
            assert(0 <= dd < ni) by (nonlinear_arith)
                requires
                    ni > 0,
                    dd == (-di) % ni,
            ;
            vstd::arithmetic::div_mod::lemma_fundamental_div_mod(-di, ni);
            vstd::arithmetic::div_mod::lemma_fundamental_div_mod(pi, ni);
            let q1 = (-di) / ni;
            let q2 = pi / ni;
            assert(pi + di == ni * (q2 - q1 - 1) + ((pi % ni) + ni - dd)) by (nonlinear_arith)
                requires
                    -di == ni * q1 + dd,
                    pi == ni * q2 + (pi % ni),
            ;
            vstd::arithmetic::div_mod::lemma_mod_multiples_vanish(
                q2 - q1 - 1,
                (pi % ni) + ni - dd,
                ni,
            );
            assert(d as int == dd);
            assert(base as int == pi % ni);
        }
        r as usize
    }
}

impl App {
    pub fn detail_len(&self) -> (r: usize)
        requires
            wf(self@),
        ensures
            r == detail_len_spec(self@),
    {
        let d = &self.devices[self.sel_device];
        match self.tab {
            Tab::Buttons => d.buttons.len(),
            Tab::Libinput => d.props.len(),
            Tab::Sysfs => match &d.sysfs {
                Some(n) => n.attrs.len(),
                None => 0,
            },
        }
    }

    pub fn detail_cursor(&self) -> (r: usize)
        ensures
            r == detail_cursor_spec(self@),
    {
        match self.tab {
            Tab::Buttons => self.sel_button,
            Tab::Libinput => self.sel_prop,
            Tab::Sysfs => self.sel_attr,
        }
    }

    fn set_detail_cursor(&mut self, value: usize)
        ensures
            final(self)@ == with_detail_cursor(old(self)@, value),
    {
        match self.tab {
            Tab::Buttons => self.sel_button = value,
            Tab::Libinput => self.sel_prop = value,
            Tab::Sysfs => self.sel_attr = value,
        }
    }

    pub fn move_cursor(&mut self, delta: isize)
        requires
            wf(old(self)@),
            move_cursor_ok(old(self)@, delta as int),
        ensures
            final(self)@ == move_cursor_spec(old(self)@, delta as int),
            wf(final(self)@),
    {
        match self.focus {
            Focus::Devices => {
                let len = self.devices.len();
                if len == 0 {
                    return;
                }
                self.sel_device = wrap(self.sel_device, delta, len);
                self.sel_button = 0;
                self.sel_prop = 0;
                self.sel_attr = 0;
            },
            Focus::Detail => {
                let len = self.detail_len();
                if len == 0 {
                    return;
                }
                let next = wrap(self.detail_cursor(), delta, len);
                self.set_detail_cursor(next);
            },
        }
    }
}

/// Moving down and then up (or the reverse) comes back to the same row.
pub proof fn lemma_move_there_and_back(pos: int, len: int, delta: int)
    requires
        len > 0,
        0 <= pos < len,
    ensures
        wrapped(wrapped(pos, delta, len), -delta, len) == pos,
        0 <= wrapped(pos, delta, len) < len,
{
    let m = wrapped(pos, delta, len);
    vstd::arithmetic::div_mod::lemma_fundamental_div_mod(pos + delta, len);
    let q = (pos + delta) / len;
    assert(m - delta == pos - q * len) by (nonlinear_arith)
        requires
            pos + delta == len * q + m,
    ;
    vstd::arithmetic::div_mod::lemma_mod_multiples_vanish(-q, pos, len);
    assert(pos - q * len == -q * len + pos) by (nonlinear_arith);
    vstd::arithmetic::div_mod::lemma_small_mod(pos as nat, len as nat);
    assert(0 <= m < len) by (nonlinear_arith)
        requires
            len > 0,
            m == (pos + delta) % len,
    ;
}

// ---- Drift preset --------------------------------------------------------

/// Integer division by four rounding toward zero, as `i64`'s `/` does.
pub open spec fn quarter(x: int) -> int {
    if x >= 0 {
        x / 4
    } else {
        -((-x) / 4)
    }
}

/// Three quarters of the current sensitivity, floored at 40: below that the
/// stick gets unusable well before the drift stops mattering. The preset
/// only ever lowers it, so one already at or below 40 stays as it is.
pub open spec fn preset_sensitivity(current: int) -> int {
    let t = quarter(current * 3);
    if current <= 40 {
        current
    } else if t >= 40 {
        t
    } else {
        40
    }
}

/// The preset's arithmetic on this sensitivity fits an `i64`: tripling is
/// only done on values above 40.
pub open spec fn sensitivity_fits(a: AttrView) -> bool {
    current_or(a, 128) <= 40 || current_or(a, 128) * 3 <= i64::MAX
}

pub open spec fn current_or(a: AttrView, fallback: int) -> int {
    match pending_int(a) {
        Some(v) => v as int,
        None => fallback,
    }
}

/// What the preset does to one attribute, and the note it makes of it.
pub open spec fn preset_step(a: AttrView) -> (AttrView, Option<Seq<char>>) {
    if a.name == "sensitivity"@ {
        let current = current_or(a, 128);
        let target = preset_sensitivity(current);
        if target != current {
            (
                AttrView { pending: decimal_int(target), ..a },
                Some("sensitivity "@ + decimal_int(current) + " \u{2192} "@ + decimal_int(target)),
            )
        } else {
            (a, None)
        }
    } else if a.name == "drift_time"@ {
        let current = current_or(a, 5);
        if current < 20 {
            (
                AttrView { pending: decimal_int(20), ..a },
                Some("drift_time "@ + decimal_int(current) + " \u{2192} "@ + decimal_int(20)),
            )
        } else {
            (a, None)
        }
    } else {
        (a, None)
    }
}

pub open spec fn preset_attrs(attrs: Seq<AttrView>) -> Seq<AttrView> {
    Seq::new(attrs.len(), |i: int| preset_step(attrs[i]).0)
}

/// The notes the preset makes, in attribute order.
pub open spec fn preset_notes(attrs: Seq<AttrView>) -> Seq<Seq<char>>
    decreases attrs.len(),
{
    if attrs.len() == 0 {
        seq![]
    } else {
        let prev = preset_notes(attrs.drop_last());
        match preset_step(attrs.last()).1 {
            Some(n) => prev.push(n),
            None => prev,
        }
    }
}

pub open spec fn has_named(attrs: Seq<AttrView>, name: Seq<char>) -> bool {
    exists|i: int| 0 <= i < attrs.len() && #[trigger] attrs[i].name == name
}

/// Tripling a sensitivity reading stays inside `i64`.
pub open spec fn preset_ok(a: AppView) -> bool {
    match sel(a).sysfs {
        Some(n) => forall|i: int|
            0 <= i < n.attrs.len() && #[trigger] n.attrs[i].name == "sensitivity"@ ==> sensitivity_fits(
                n.attrs[i],
            ),
        None => true,
    }
}

pub open spec fn drift_preset_spec(a: AppView) -> AppView {
    match sel(a).sysfs {
        None => said(a, "No sysfs node on this device, so no kernel-side drift settings"@, Level::Bad),
        Some(n) => {
            let notes = preset_notes(n.attrs);
            let d = sel(a);
            let b = AppView {
                tab: Tab::Sysfs,
                focus: Focus::Detail,
                ..with_device(a, DeviceView { sysfs: Some(NodeView { attrs: preset_attrs(n.attrs), ..n }), ..d })
            };
            if notes.len() == 0 {
                said(
                    b,
                    if has_named(n.attrs, "sensitivity"@) {
                        "Already at or below the preset's values"@
                    } else {
                        "This device exposes no drift-related attributes"@
                    },
                    Level::Warn,
                )
            } else {
                let note = if has_named(n.attrs, "drift_time"@) {
                    ""@
                } else {
                    "  \u{b7}  no drift_time on this device, so firmware drift correction cannot be tuned"@
                };
                said(b, "Staged: "@ + join(notes, ", "@) + note + "  \u{b7}  press a to apply"@, Level::Good)
            }
        },
    }
}

/// Apply the preset's rule to one attribute.
fn preset_attr(a: &mut Attr) -> (note: Option<Vec<char>>)
    requires
        old(a)@.name == "sensitivity"@ ==> sensitivity_fits(old(a)@),
    ensures
        final(a)@ == preset_step(old(a)@).0,
        match preset_step(old(a)@).1 {
            Some(n) => note matches Some(v) && v@ == n,
            None => note is None,
        },
{
    if str_eq(a.name.as_str(), "sensitivity") {
        let current = match a.as_int() {
            Some(v) => v,
            None => 128,
        };
        let target: i64 = if current <= 40 {
            current
        } else {
            let q: i64 = (current * 3) / 4;
            if q >= 40 {
                q
            } else {
                40
            }
        };
        if target != current {
            a.pending = string_of(decimal_i64(target).as_slice());
            let n1 = concat(chars_of("sensitivity ").as_slice(), decimal_i64(current).as_slice());
            let n2 = concat(n1.as_slice(), chars_of(" \u{2192} ").as_slice());
            let n3 = concat(n2.as_slice(), decimal_i64(target).as_slice());
            return Some(n3);
        }
        None
    } else if str_eq(a.name.as_str(), "drift_time") {
        let current = match a.as_int() {
            Some(v) => v,
            None => 5,
        };
        if current < 20 {
            a.pending = string_of(decimal_i64(20).as_slice());
            let n1 = concat(chars_of("drift_time ").as_slice(), decimal_i64(current).as_slice());
            let n2 = concat(n1.as_slice(), chars_of(" \u{2192} ").as_slice());
            let n3 = concat(n2.as_slice(), decimal_i64(20).as_slice());
            return Some(n3);
        }
        None
    } else {
        None
    }
}

impl App {
    /// Stage the settings that reduce drift, and say plainly which of them this
    /// device can actually take.
    ///
    /// Lowering `sensitivity` does not stop the underlying creep — it scales
    /// the motion the same spurious force produces, which is usually enough to
    /// stop it being noticeable. `drift_time` is the real correction knob, and
    /// the kernel only exposes it on IBM TrackPoints, so on an Elan, ALPS or
    /// NXP stick there is nothing here to tune and the honest answer is to say
    /// so rather than to pretend the preset did more than it did.
    pub fn apply_drift_preset(&mut self)
        requires
            wf(old(self)@),
            preset_ok(old(self)@),
        ensures
            final(self)@ == drift_preset_spec(old(self)@),
    {
        if self.devices[self.sel_device].sysfs.is_none() {
            self.say_str("No sysfs node on this device, so no kernel-side drift settings", Level::Bad);
            return;
        }
        let mut d = self.take_device();
        let mut node = match d.sysfs {
            Some(n) => n,
            None => {
                return;
            },
        };
        let mut attrs = node.attrs;
        let ghost start = attr_views(attrs@);
        let mut notes: Vec<Vec<char>> = Vec::new();
        let mut had_sensitivity = false;
        let mut has_drift_time = false;
        let mut i: usize = 0;
        while i < attrs.len()
            invariant
                i <= attrs.len(),
                attrs.len() == start.len(),
                forall|k: int| 0 <= k < i ==> #[trigger] attr_views(attrs@)[k] == preset_step(start[k]).0,
                forall|k: int| i <= k < start.len() ==> #[trigger] attr_views(attrs@)[k] == start[k],
                views(notes@) == preset_notes(start.take(i as int)),
                had_sensitivity == has_named(start.take(i as int), "sensitivity"@),
                has_drift_time == has_named(start.take(i as int), "drift_time"@),
                forall|k: int|
                    0 <= k < start.len() && #[trigger] start[k].name == "sensitivity"@ ==> sensitivity_fits(
                        start[k],
                    ),
            decreases attrs.len() - i,
        {
            let ghost before = attrs@;
            let ghost notes_before = notes@;
            assert(attr_views(attrs@)[i as int] == start[i as int]);
            let mut a = attrs.remove(i);
            assert(a@ == start[i as int]);
            if str_eq(a.name.as_str(), "sensitivity") {
                had_sensitivity = true;
            }
            if str_eq(a.name.as_str(), "drift_time") {
                has_drift_time = true;
            }
            let note = preset_attr(&mut a);
            attrs.insert(i, a);
            assert(attrs@ =~= before.update(i as int, attrs@[i as int]));
            assert(start.take(i + 1).drop_last() =~= start.take(i as int));
            assert(start.take(i + 1).last() == start[i as int]);
            match note {
                Some(n) => {
                    notes.push(n);
                    assert(views(notes@) =~= views(notes_before).push(notes@.last()@));
                },
                None => {},
            }
            assert forall|k: int| 0 <= k < i + 1 implies #[trigger] attr_views(attrs@)[k] == preset_step(start[k]).0 by {
                if k < i {
                    assert(attrs@[k] == before[k]);
                    assert(attr_views(before)[k] == preset_step(start[k]).0);
                }
            }
            assert forall|k: int| i + 1 <= k < start.len() implies #[trigger] attr_views(attrs@)[k] == start[k] by {
                assert(attrs@[k] == before[k]);
                assert(attr_views(before)[k] == start[k]);
            }
            proof {
                let s1 = start.take(i + 1);
                let s0 = start.take(i as int);
                if has_named(s1, "sensitivity"@) && !(start[i as int].name == "sensitivity"@) {
                    let j = choose|j: int| 0 <= j < s1.len() && #[trigger] s1[j].name == "sensitivity"@;
                    assert(s0[j].name == "sensitivity"@);
                }
                if has_named(s0, "sensitivity"@) {
                    let j = choose|j: int| 0 <= j < s0.len() && #[trigger] s0[j].name == "sensitivity"@;
                    assert(s1[j].name == "sensitivity"@);
                }
                if start[i as int].name == "sensitivity"@ {
                    assert(s1[i as int].name == "sensitivity"@);
                }
                if has_named(s1, "drift_time"@) && !(start[i as int].name == "drift_time"@) {
                    let j = choose|j: int| 0 <= j < s1.len() && #[trigger] s1[j].name == "drift_time"@;
                    assert(s0[j].name == "drift_time"@);
                }
                if has_named(s0, "drift_time"@) {
                    let j = choose|j: int| 0 <= j < s0.len() && #[trigger] s0[j].name == "drift_time"@;
                    assert(s1[j].name == "drift_time"@);
                }
                if start[i as int].name == "drift_time"@ {
                    assert(s1[i as int].name == "drift_time"@);
                }
            }
            i += 1;
        }
        assert(start.take(start.len() as int) =~= start);
        assert(attr_views(attrs@) =~= preset_attrs(start));
        node.attrs = attrs;
        let ghost a0 = old(self)@;
        let ghost n0 = sel(a0).sysfs->0;
        assert(start == n0.attrs);
        d.sysfs = Some(node);
        assert(d@ == DeviceView { sysfs: Some(NodeView { attrs: preset_attrs(n0.attrs), ..n0 }), ..sel(a0) });
        self.replace_device(d);
        self.tab = Tab::Sysfs;
        self.focus = Focus::Detail;
        assert(views(notes@) == preset_notes(n0.attrs));
        assert(had_sensitivity == has_named(n0.attrs, "sensitivity"@));
        if notes.len() == 0 {
            if had_sensitivity {
                self.say_str("Already at or below the preset's values", Level::Warn);
            } else {
                self.say_str("This device exposes no drift-related attributes", Level::Warn);
            }
            return;
        }
        proof {
            reveal_strlit("");
        }
        assert(has_drift_time == has_named(n0.attrs, "drift_time"@));
        let note = if has_drift_time {
            Vec::new()
        } else {
            chars_of("  \u{b7}  no drift_time on this device, so firmware drift correction cannot be tuned")
        };
        let joined = join_chars(&notes, chars_of(", ").as_slice());
        let m1 = concat(chars_of("Staged: ").as_slice(), joined.as_slice());
        let m2 = concat(m1.as_slice(), note.as_slice());
        let m3 = concat(m2.as_slice(), chars_of("  \u{b7}  press a to apply").as_slice());
        self.say(string_of(m3.as_slice()), Level::Good);
    }
}

/// Applying the preset again to what it staged: a `drift_time` it raised is
/// left alone, and a `sensitivity` it lowered is left alone exactly when
/// lowering the new value would give the same value again.
pub proof fn lemma_preset_idempotent(a: AttrView)
    requires
        a.name == "sensitivity"@ ==> sensitivity_fits(a) && i64::MIN
            <= preset_sensitivity(current_or(a, 128)) <= i64::MAX,
        a.name == "drift_time"@ ==> current_or(a, 5) >= 0,
    ensures
        a.name == "sensitivity"@ && preset_step(a).1 is Some ==> (preset_step(preset_step(a).0).1 is None
            <==> preset_sensitivity(preset_sensitivity(current_or(a, 128))) == preset_sensitivity(
            current_or(a, 128),
        )),
        a.name == "drift_time"@ && preset_step(a).1 is Some ==> preset_step(preset_step(a).0).1 is None,
{
    if a.name == "sensitivity"@ && preset_step(a).1 is Some {
        let t = preset_sensitivity(current_or(a, 128));
        crate::sysfs::lemma_trim_decimal(t as i64);
        crate::num::lemma_parse_decimal_i64(t as i64);
    }
    reveal_strlit("drift_time");
    reveal_strlit("sensitivity");
    if a.name == "drift_time"@ && preset_step(a).1 is Some {
        crate::sysfs::lemma_trim_decimal(20);
        crate::num::lemma_parse_decimal_i64(20);
        let b = preset_step(a).0;
        assert(b.name == a.name);
        assert(b.pending == decimal_int(20));
        assert(pending_int(b) == Some(20i64));
        assert(current_or(b, 5) == 20);
        assert("drift_time"@ != "sensitivity"@);
    }
}

/// At the floor the preset has nothing to do: a sensitivity of 40 stays 40,
/// and anything from 40 to 53 lands on 40.
pub proof fn lemma_preset_floor(current: int)
    requires
        40 <= current <= 53,
    ensures
        preset_sensitivity(current) == 40,
{
}

/// The preset never raises a sensitivity: one at or below 40 is left as
/// it is, and any other ends up no higher than it was.
pub proof fn lemma_preset_never_raises(current: int)
    ensures
        preset_sensitivity(current) <= current,
        current <= 40 ==> preset_sensitivity(current) == current,
{
}

/// The preset lowers a sensitivity of at least 54 by a quarter, rounding
/// the quarter up, and never below 40.
pub proof fn lemma_preset_lowers(current: int)
    requires
        current >= 54,
    ensures
        preset_sensitivity(current) == (current * 3) / 4,
        40 <= preset_sensitivity(current) < current,
{
}

// ---- Persistence ---------------------------------------------------------

/// The X-side settings of one device worth replaying at login: whether it is
/// enabled, its button map and its properties, each only where it differs
/// from how the session started.
pub struct XSetting {
    pub device: String,
    pub enabled: Option<bool>,
    pub button_map: Option<Vec<u8>>,
    pub props: Vec<(String, Vec<String>)>,
}

pub struct XSettingView {
    pub device: Seq<char>,
    pub enabled: Option<bool>,
    pub button_map: Option<Seq<u8>>,
    pub props: Seq<(Seq<char>, Seq<Seq<char>>)>,
}

pub open spec fn pair_views(v: Seq<(String, Vec<String>)>) -> Seq<(Seq<char>, Seq<Seq<char>>)> {
    Seq::new(v.len(), |i: int| (v[i].0@, string_views(v[i].1@)))
}

impl View for XSetting {
    type V = XSettingView;

    open spec fn view(&self) -> XSettingView {
        XSettingView {
            device: self.device@,
            enabled: self.enabled,
            button_map: match self.button_map {
                Some(m) => Some(m@),
                None => None,
            },
            props: pair_views(self.props@),
        }
    }
}

/// A device carries something into the profile.
pub open spec fn carried(d: DeviceView) -> bool {
    &&& d.x is Some
    &&& (d.pending_buttons != d.original_buttons || d.enabled != d.originally_enabled
        || props_customised(d))
}

/// The customised property rows, as name and staged values.
pub open spec fn customised_props(rows: Seq<PropRowView>) -> Seq<(Seq<char>, Seq<Seq<char>>)>
    decreases rows.len(),
{
    if rows.len() == 0 {
        seq![]
    } else {
        let prev = customised_props(rows.drop_last());
        if row_customised(rows.last()) {
            prev.push((rows.last().prop.name, rows.last().pending))
        } else {
            prev
        }
    }
}

pub open spec fn setting_of(d: DeviceView) -> XSettingView {
    XSettingView {
        device: d.name,
        enabled: if d.enabled != d.originally_enabled {
            Some(d.enabled)
        } else {
            None
        },
        button_map: if d.pending_buttons != d.original_buttons {
            Some(d.pending_buttons)
        } else {
            None
        },
        props: customised_props(d.props),
    }
}

/// The profile's entries: one per device that carries something, in device
/// order.
pub open spec fn settings_of(devs: Seq<DeviceView>) -> Seq<XSettingView>
    decreases devs.len(),
{
    if devs.len() == 0 {
        seq![]
    } else {
        let prev = settings_of(devs.drop_last());
        if carried(devs.last()) {
            prev.push(setting_of(devs.last()))
        } else {
            prev
        }
    }
}

pub open spec fn setting_views(v: Seq<XSetting>) -> Seq<XSettingView> {
    Seq::new(v.len(), |i: int| v[i]@)
}

fn customised_rows(rows: &Vec<PropRow>) -> (r: Vec<(String, Vec<String>)>)
    ensures
        pair_views(r@) == customised_props(row_views(rows@)),
{
    let mut out: Vec<(String, Vec<String>)> = Vec::new();
    let mut i: usize = 0;
    while i < rows.len()
        invariant
            i <= rows.len(),
            pair_views(out@) == customised_props(row_views(rows@).take(i as int)),
        decreases rows.len() - i,
    {
        let ghost before = out@;
        assert(row_views(rows@).take(i + 1).drop_last() =~= row_views(rows@).take(i as int));
        assert(row_views(rows@).take(i + 1).last() == rows[i as int]@);
        if rows[i].is_customised() {
            out.push((rows[i].prop.name.clone(), clone_strings(&rows[i].pending)));
            assert(pair_views(out@) =~= pair_views(before).push((rows[i as int].prop.name@, string_views(rows[i as int].pending@))));
        }
        i += 1;
    }
    assert(row_views(rows@).take(rows.len() as int) =~= row_views(rows@));
    out
}

impl App {
    /// The X settings worth saving: every listed X device whose button map,
    /// enabled state or properties differ from start-up.
    pub fn x_settings(&self) -> (r: Vec<XSetting>)
        ensures
            setting_views(r@) == settings_of(self@.devices),
    {
        let mut out: Vec<XSetting> = Vec::new();
        let mut i: usize = 0;
        while i < self.devices.len()
            invariant
                i <= self.devices.len(),
                setting_views(out@) == settings_of(self@.devices.take(i as int)),
            decreases self.devices.len() - i,
        {
            let ghost before = out@;
            let d = &self.devices[i];
            assert(self@.devices.take(i + 1).drop_last() =~= self@.devices.take(i as int));
            assert(self@.devices.take(i + 1).last() == d@);
            let buttons = d.buttons_customised();
            let enabled = d.enabled_customised();
            let props = customised_rows(&d.props);
            let any_prop = props.len() > 0;
            proof {
                lemma_customised_props_empty(d@.props);
            }
            if d.x.is_some() && (buttons || enabled || any_prop) {
                let s = XSetting {
                    device: d.name.clone(),
                    enabled: if enabled {
                        Some(d.enabled)
                    } else {
                        None
                    },
                    button_map: if buttons {
                        Some(clone_bytes(&d.pending_buttons))
                    } else {
                        None
                    },
                    props,
                };
                out.push(s);
                assert(setting_views(out@) =~= setting_views(before).push(setting_of(d@)));
            }
            i += 1;
        }
        assert(self@.devices.take(self.devices.len() as int) =~= self@.devices);
        out
    }
}

proof fn lemma_customised_props_empty(rows: Seq<PropRowView>)
    ensures
        customised_props(rows).len() == 0 <==> !(exists|i: int| 0 <= i < rows.len() && row_customised(#[trigger] rows[i])),
    decreases rows.len(),
{
    if rows.len() > 0 {
        lemma_customised_props_empty(rows.drop_last());
        if exists|i: int| 0 <= i < rows.drop_last().len() && row_customised(#[trigger] rows.drop_last()[i]) {
            let i = choose|i: int| 0 <= i < rows.drop_last().len() && row_customised(#[trigger] rows.drop_last()[i]);
            assert(rows[i] == rows.drop_last()[i]);
        }
        if exists|i: int| 0 <= i < rows.len() && row_customised(#[trigger] rows[i]) {
            let i = choose|i: int| 0 <= i < rows.len() && row_customised(#[trigger] rows[i]);
            if i < rows.len() - 1 {
                assert(rows.drop_last()[i] == rows[i]);
            }
        }
    }
}

/// What the profile carries is exactly what differs from start-up: a device
/// left as it was contributes nothing, and a device whose only change is
/// being switched off contributes just that.
pub proof fn lemma_profile_carries_changes(d: DeviceView)
    requires
        d.x is Some,
    ensures
        d.pending_buttons == d.original_buttons && d.enabled == d.originally_enabled && !props_customised(d)
            ==> settings_of(seq![d]).len() == 0,
        d.pending_buttons == d.original_buttons && d.enabled != d.originally_enabled && !props_customised(d)
            ==> settings_of(seq![d]) == seq![
            XSettingView { device: d.name, enabled: Some(d.enabled), button_map: None, props: seq![] },
        ],
{
    assert(seq![d].drop_last() =~= Seq::<DeviceView>::empty());
    assert(seq![d].last() == d);
    assert(settings_of(Seq::<DeviceView>::empty()) == Seq::<XSettingView>::empty());
    lemma_customised_props_empty(d.props);
    if !props_customised(d) {
        assert(customised_props(d.props) =~= Seq::<(Seq<char>, Seq<Seq<char>>)>::empty());
    }
}

// ---- Looking devices up ---------------------------------------------------

/// The first device with this X id.
pub open spec fn first_with_id(devs: Seq<DeviceView>, id: u32) -> Option<int> {
    if exists|i: int| 0 <= i < devs.len() && device_id(devs[i]) == Some(id) && forall|j: int|
        0 <= j < i ==> device_id(#[trigger] devs[j]) != Some(id) {
        Some(
            choose|i: int|
                0 <= i < devs.len() && device_id(devs[i]) == Some(id) && forall|j: int|
                    0 <= j < i ==> device_id(#[trigger] devs[j]) != Some(id),
        )
    } else {
        None
    }
}

pub open spec fn name_for_id(devs: Seq<DeviceView>, id: u32) -> Seq<char> {
    match first_with_id(devs, id) {
        Some(i) => devs[i].name,
        None => "device "@ + decimal(id as nat) + " (not in this list)"@,
    }
}

impl App {
    /// The name shown for a device the detector or meter reports by id.
    pub fn device_name_for_id(&self, id: u32) -> (r: String)
        ensures
            r@ == name_for_id(self@.devices, id),
    {
        let ghost devs = self@.devices;
        let mut i: usize = 0;
        while i < self.devices.len()
            invariant
                i <= self.devices.len(),
                devs == self@.devices,
                forall|j: int| 0 <= j < i ==> device_id(#[trigger] devs[j]) != Some(id),
            decreases self.devices.len() - i,
        {
            assert(devs[i as int] == self.devices[i as int]@);
            if self.devices[i].id() == Some(id) {
                proof {
                    let k = choose|k: int|
                        0 <= k < devs.len() && device_id(devs[k]) == Some(id) && forall|j: int|
                            0 <= j < k ==> device_id(#[trigger] devs[j]) != Some(id);
                    if k < i {
                        assert(device_id(devs[k]) != Some(id));
                    } else if i < k {
                        assert(device_id(devs[i as int]) != Some(id));
                    }
                }
                return self.devices[i].name.clone();
            }
            i += 1;
        }
        let a = concat(chars_of("device ").as_slice(), decimal_u64(id as u64).as_slice());
        let b = concat(a.as_slice(), chars_of(" (not in this list)").as_slice());
        string_of(b.as_slice())
    }
}

// ---- Applying ------------------------------------------------------------

/// What applying the staged values of the current tab asks of the system.
pub enum ApplyRequest {
    /// Nothing to send; the message says why.
    Nothing(String),
    /// Set this button map, then read it back.
    Buttons { id: u32, map: Vec<u8> },
    /// Set these properties, then list them again.
    Props { id: u32, changes: Vec<(String, Vec<String>)> },
    /// Write these attributes of the selected device's node, in order.
    Sysfs { indices: Vec<usize> },
}

pub enum ApplyRequestView {
    Nothing(Seq<char>),
    Buttons { id: u32, map: Seq<u8> },
    Props { id: u32, changes: Seq<(Seq<char>, Seq<Seq<char>>)> },
    Sysfs { indices: Seq<usize> },
}

impl View for ApplyRequest {
    type V = ApplyRequestView;

    open spec fn view(&self) -> ApplyRequestView {
        match self {
            ApplyRequest::Nothing(m) => ApplyRequestView::Nothing(m@),
            ApplyRequest::Buttons { id, map } => ApplyRequestView::Buttons { id: *id, map: map@ },
            ApplyRequest::Props { id, changes } => ApplyRequestView::Props {
                id: *id,
                changes: pair_views(changes@),
            },
            ApplyRequest::Sysfs { indices } => ApplyRequestView::Sysfs { indices: indices@ },
        }
    }
}

/// The dirty property rows, as name and staged values.
pub open spec fn dirty_props(rows: Seq<PropRowView>) -> Seq<(Seq<char>, Seq<Seq<char>>)>
    decreases rows.len(),
{
    if rows.len() == 0 {
        seq![]
    } else {
        let prev = dirty_props(rows.drop_last());
        if row_dirty(rows.last()) {
            prev.push((rows.last().prop.name, rows.last().pending))
        } else {
            prev
        }
    }
}

/// A row's staged values differ from the values the X server last
/// reported for its property.
pub open spec fn differs_from_live(r: PropRowView) -> bool {
    r.prop.value matches PropValueView::Numbers(v) && r.pending != v
}

/// This change is the name and staged values of a row whose staged values
/// differ from the live ones.
pub open spec fn change_of_differing_row(rows: Seq<PropRowView>, c: (Seq<char>, Seq<Seq<char>>)) -> bool {
    exists|j: int| 0 <= j < rows.len() && differs_from_live(#[trigger] rows[j]) && c == (rows[j].prop.name, rows[j].pending)
}

/// Applying the libinput tab sends exactly the rows whose staged values
/// differ from the live ones, whatever the start-up values were: every
/// such row is among the changes, with its staged values, and every change
/// is such a row's name and staged values.
pub proof fn lemma_props_sent_are_the_differing_rows(rows: Seq<PropRowView>)
    ensures
        forall|i: int|
            0 <= i < rows.len() && differs_from_live(#[trigger] rows[i]) ==> dirty_props(rows).contains(
                (rows[i].prop.name, rows[i].pending),
            ),
        forall|k: int|
            0 <= k < dirty_props(rows).len() ==> change_of_differing_row(rows, #[trigger] dirty_props(rows)[k]),
    decreases rows.len(),
{
    if rows.len() > 0 {
        let init = rows.drop_last();
        lemma_props_sent_are_the_differing_rows(init);
        let prev = dirty_props(init);
        let d = dirty_props(rows);
        let last = rows.last();
        if row_dirty(last) {
            assert(d == prev.push((last.prop.name, last.pending)));
        } else {
            assert(d == prev);
        }
        assert forall|i: int| 0 <= i < rows.len() && differs_from_live(#[trigger] rows[i]) implies d.contains(
            (rows[i].prop.name, rows[i].pending),
        ) by {
            if i < rows.len() - 1 {
                assert(rows[i] == init[i]);
                assert(differs_from_live(init[i]));
                let k = choose|k: int| 0 <= k < prev.len() && prev[k] == (init[i].prop.name, init[i].pending);
                assert(d[k] == prev[k]);
            } else {
                assert(d[d.len() - 1] == (last.prop.name, last.pending));
            }
        }
        assert forall|k: int| 0 <= k < d.len() implies change_of_differing_row(rows, #[trigger] d[k]) by {
            if k < prev.len() {
                assert(d[k] == prev[k]);
                assert(change_of_differing_row(init, prev[k]));
                let j = choose|j: int|
                    0 <= j < init.len() && differs_from_live(#[trigger] init[j]) && prev[k] == (
                        init[j].prop.name,
                        init[j].pending,
                    );
                assert(init[j] == rows[j]);
                assert(differs_from_live(rows[j]) && d[k] == (rows[j].prop.name, rows[j].pending));
            } else {
                let j = rows.len() - 1;
                assert(rows[j] == last);
                assert(differs_from_live(rows[j]) && d[k] == (rows[j].prop.name, rows[j].pending));
            }
        }
    }
}

/// Positions of the staged-but-unwritten attributes.
pub open spec fn dirty_attrs(attrs: Seq<AttrView>) -> Seq<usize>
    decreases attrs.len(),
{
    if attrs.len() == 0 {
        seq![]
    } else {
        let prev = dirty_attrs(attrs.drop_last());
        if attrs.last().pending != attrs.last().value {
            prev.push((attrs.len() - 1) as usize)
        } else {
            prev
        }
    }
}

/// What `apply` asks for on the current tab.
pub open spec fn apply_request_of(a: AppView) -> std::result::Result<ApplyRequestView, Seq<char>> {
    let d = sel(a);
    match a.tab {
        Tab::Buttons => if d.pending_buttons == d.buttons {
            Ok(ApplyRequestView::Nothing("Button map already matches what is staged"@))
        } else {
            match device_id(d) {
                None => Err("this device has no X id"@),
                Some(id) => Ok(ApplyRequestView::Buttons { id, map: d.pending_buttons }),
            }
        },
        Tab::Libinput => match device_id(d) {
            None => Err("this device has no X id"@),
            Some(id) => if dirty_props(d.props).len() == 0 {
                Ok(ApplyRequestView::Nothing("No staged property changes"@))
            } else {
                Ok(ApplyRequestView::Props { id, changes: dirty_props(d.props) })
            },
        },
        Tab::Sysfs => match d.sysfs {
            None => Err("this device has no sysfs attributes"@),
            Some(n) => if dirty_attrs(n.attrs).len() == 0 {
                Ok(ApplyRequestView::Nothing("No staged sysfs changes"@))
            } else {
                Ok(ApplyRequestView::Sysfs { indices: dirty_attrs(n.attrs) })
            },
        },
    }
}

/// Once the X server confirms the map that `apply` sent, the Buttons tab
/// has nothing left staged: applying again asks for nothing.
pub proof fn lemma_applied_buttons_are_clean(a: AppView, id: u32, map: Seq<u8>)
    requires
        wf(a),
        apply_request_of(a) == Ok::<ApplyRequestView, Seq<char>>(ApplyRequestView::Buttons { id, map }),
    ensures
        ({
            let b = with_device(a, DeviceView { buttons: map, ..sel(a) });
            &&& wf(b)
            &&& apply_request_of(b) == Ok::<ApplyRequestView, Seq<char>>(
                ApplyRequestView::Nothing("Button map already matches what is staged"@),
            )
        }),
{
}

/// The buttons a map disables, numbered from 1.
pub open spec fn disabled_numbers(map: Seq<u8>) -> Seq<Seq<char>>
    decreases map.len(),
{
    if map.len() == 0 {
        seq![]
    } else {
        let prev = disabled_numbers(map.drop_last());
        if map.last() == 0 {
            prev.push(decimal(map.len() as nat))
        } else {
            prev
        }
    }
}

pub open spec fn buttons_applied_text(map: Seq<u8>) -> Seq<char> {
    if disabled_numbers(map).len() == 0 {
        "Button map applied \u{2014} all buttons active"@
    } else {
        "Button map applied \u{2014} disabled: "@ + join(disabled_numbers(map), ", "@)
    }
}

/// A property row after the properties were listed again: the first listed
/// property with its name replaces the one it held.
pub open spec fn refreshed_row(row: PropRowView, listed: Seq<PropView>) -> PropRowView {
    match crate::xinput::first_named(listed, row.prop.name) {
        Some(i) => PropRowView { prop: listed[i], ..row },
        None => row,
    }
}

fn dirty_rows_exec(rows: &Vec<PropRow>) -> (r: Vec<(String, Vec<String>)>)
    ensures
        pair_views(r@) == dirty_props(row_views(rows@)),
{
    let mut out: Vec<(String, Vec<String>)> = Vec::new();
    let mut i: usize = 0;
    while i < rows.len()
        invariant
            i <= rows.len(),
            pair_views(out@) == dirty_props(row_views(rows@).take(i as int)),
        decreases rows.len() - i,
    {
        let ghost before = out@;
        assert(row_views(rows@).take(i + 1).drop_last() =~= row_views(rows@).take(i as int));
        assert(row_views(rows@).take(i + 1).last() == rows[i as int]@);
        if rows[i].is_dirty() {
            out.push((rows[i].prop.name.clone(), clone_strings(&rows[i].pending)));
            assert(pair_views(out@) =~= pair_views(before).push((rows[i as int].prop.name@, string_views(rows[i as int].pending@))));
        }
        i += 1;
    }
    assert(row_views(rows@).take(rows.len() as int) =~= row_views(rows@));
    out
}

fn dirty_attrs_exec(attrs: &Vec<Attr>) -> (r: Vec<usize>)
    ensures
        r@ == dirty_attrs(attr_views(attrs@)),
{
    let mut out: Vec<usize> = Vec::new();
    let mut i: usize = 0;
    while i < attrs.len()
        invariant
            i <= attrs.len(),
            out@ == dirty_attrs(attr_views(attrs@).take(i as int)),
        decreases attrs.len() - i,
    {
        assert(attr_views(attrs@).take(i + 1).drop_last() =~= attr_views(attrs@).take(i as int));
        assert(attr_views(attrs@).take(i + 1).last() == attrs[i as int]@);
        if attrs[i].is_dirty() {
            out.push(i);
        }
        i += 1;
    }
    assert(attr_views(attrs@).take(attrs.len() as int) =~= attr_views(attrs@));
    out
}

fn disabled_numbers_exec(map: &Vec<u8>) -> (r: Vec<Vec<char>>)
    ensures
        views(r@) == disabled_numbers(map@),
{
    let mut out: Vec<Vec<char>> = Vec::new();
    let mut i: usize = 0;
    while i < map.len()
        invariant
            i <= map.len(),
            views(out@) == disabled_numbers(map@.take(i as int)),
        decreases map.len() - i,
    {
        let ghost before = out@;
        assert(map@.take(i + 1).drop_last() =~= map@.take(i as int));
        assert(map@.take(i + 1).last() == map[i as int]);
        if map[i] == 0 {
            out.push(decimal_u64((i + 1) as u64));
            assert(views(out@) =~= views(before).push(decimal((i + 1) as nat)));
        }
        i += 1;
    }
    assert(map@.take(map.len() as int) =~= map@);
    out
}

impl App {
    /// Turn a result into the status line: its message as good news, or its
    /// error as bad.
    pub fn report(&mut self, result: Result<String>)
        ensures
            match result {
                Ok(m) => final(self)@ == said(old(self)@, m@, Level::Good),
                Err(e) => final(self)@ == said(old(self)@, e.0@, Level::Bad),
            },
    {
        match result {
            Ok(message) => self.say(message, Level::Good),
            Err(e) => self.say(e.0, Level::Bad),
        }
    }

    /// What applying the current tab needs done; the caller does it and
    /// hands the outcome to the matching `finish_` method.
    pub fn apply(&self) -> (r: Result<ApplyRequest>)
        requires
            wf(self@),
        ensures
            match apply_request_of(self@) {
                Ok(req) => r matches Ok(x) && x@ == req,
                Err(m) => r matches Err(e) && e.0@ == m,
            },
    {
        let d = &self.devices[self.sel_device];
        match self.tab {
            Tab::Buttons => {
                if !d.buttons_dirty() {
                    return Ok(ApplyRequest::Nothing(string_of(chars_of("Button map already matches what is staged").as_slice())));
                }
                match d.id() {
                    None => Err(Error::new("this device has no X id")),
                    Some(id) => Ok(ApplyRequest::Buttons { id, map: clone_bytes(&d.pending_buttons) }),
                }
            },
            Tab::Libinput => {
                match d.id() {
                    None => Err(Error::new("this device has no X id")),
                    Some(id) => {
                        let changes = dirty_rows_exec(&d.props);
                        if changes.len() == 0 {
                            Ok(ApplyRequest::Nothing(string_of(chars_of("No staged property changes").as_slice())))
                        } else {
                            Ok(ApplyRequest::Props { id, changes })
                        }
                    },
                }
            },
            Tab::Sysfs => {
                match &d.sysfs {
                    None => Err(Error::new("this device has no sysfs attributes")),
                    Some(n) => {
                        let indices = dirty_attrs_exec(&n.attrs);
                        if indices.len() == 0 {
                            Ok(ApplyRequest::Nothing(string_of(chars_of("No staged sysfs changes").as_slice())))
                        } else {
                            Ok(ApplyRequest::Sysfs { indices })
                        }
                    },
                }
            },
        }
    }

    /// Record the map the X server reports after a set, and check it took:
    /// the server can accept the call and keep the old map.
    pub fn finish_buttons(&mut self, map: &Vec<u8>, confirmed: Vec<u8>) -> (r: Result<String>)
        requires
            wf(old(self)@),
        ensures
            final(self)@ == with_device(old(self)@, DeviceView { buttons: confirmed@, ..sel(old(self)@) }),
            confirmed@ != map@ ==> (r matches Err(e) && e.0@ == "the X server accepted the call but kept the old map"@),
            confirmed@ == map@ ==> (r matches Ok(m) && m@ == buttons_applied_text(map@)),
    {
        let same = bytes_eq(&confirmed, map);
        let mut d = self.take_device();
        d.buttons = confirmed;
        self.replace_device(d);
        if !same {
            return Err(Error::new("the X server accepted the call but kept the old map"));
        }
        let disabled = disabled_numbers_exec(map);
        if disabled.len() == 0 {
            Ok(string_of(chars_of("Button map applied \u{2014} all buttons active").as_slice()))
        } else {
            let joined = join_chars(&disabled, chars_of(", ").as_slice());
            let m = concat(chars_of("Button map applied \u{2014} disabled: ").as_slice(), joined.as_slice());
            Ok(string_of(m.as_slice()))
        }
    }

    /// Take the properties as listed after a set into the rows, and say how
    /// many changes went out.
    pub fn finish_props(&mut self, listed: &Vec<Prop>, sent: usize) -> (r: String)
        requires
            wf(old(self)@),
        ensures
            final(self)@ == with_device(
                old(self)@,
                DeviceView {
                    props: Seq::new(
                        sel(old(self)@).props.len(),
                        |k: int| refreshed_row(sel(old(self)@).props[k], crate::xinput::prop_views(listed@)),
                    ),
                    ..sel(old(self)@)
                },
            ),
            r@ == "Applied "@ + decimal(sent as nat) + " property change(s)"@,
    {
        let mut d = self.take_device();
        let ghost start = row_views(d.props@);
        let ghost lv = crate::xinput::prop_views(listed@);
        let mut rows: Vec<PropRow> = Vec::new();
        let mut i: usize = 0;
        while i < d.props.len()
            invariant
                i <= d.props.len(),
                start == row_views(d.props@),
                lv == crate::xinput::prop_views(listed@),
                row_views(rows@) =~= Seq::new(i as nat, |k: int| refreshed_row(start[k], lv)),
            decreases d.props.len() - i,
        {
            let ghost before = rows@;
            let row = &d.props[i];
            assert(row@ == start[i as int]);
            let mut copy = row.clone();
            match crate::xinput::position_named(listed.as_slice(), row.prop.name.as_str()) {
                Some(j) => {
                    copy.prop = listed[j].clone();
                },
                None => {},
            }
            rows.push(copy);
            assert(row_views(rows@) =~= row_views(before).push(refreshed_row(start[i as int], lv)));
            i += 1;
        }
        d.props = rows;
        self.replace_device(d);
        let a = concat(chars_of("Applied ").as_slice(), decimal_u64(sent as u64).as_slice());
        let b = concat(a.as_slice(), chars_of(" property change(s)").as_slice());
        string_of(b.as_slice())
    }

    /// An attribute was written: the kernel now holds its staged value.
    pub fn mark_written(&mut self, index: usize)
        requires
            wf(old(self)@),
        ensures
            final(self)@ == written_spec(old(self)@, index),
    {
        let keep = self.sel_attr;
        self.sel_attr = index;
        match self.selected_attr_copy() {
            Some(mut attr) => {
                attr.value = attr.pending.clone();
                self.update_attr(attr);
            },
            None => {},
        }
        self.sel_attr = keep;
    }
}

/// The state once the attribute at `index` of the selected device holds
/// its staged value in the kernel.
pub open spec fn written_spec(a: AppView, index: usize) -> AppView {
    let b = AppView { sel_attr: index, ..a };
    match selected_attr(b) {
        Some(attr) => AppView { sel_attr: a.sel_attr, ..with_attr(b, AttrView { value: attr.pending, ..attr }) },
        None => a,
    }
}

/// One step of writing the sysfs tab: what comes of the write of the
/// attribute at `index`, given whether an earlier write needed sudo. A
/// write that went through leaves the attribute written and the loop goes
/// on; the first failure ends it. A failure for want of a password, or
/// because sudo turned the password down, opens the password prompt (with
/// the reason in the second case); any other goes on the status line.
pub open spec fn write_step_spec(a: AppView, index: usize, outcome: std::result::Result<WriteVia, Seq<char>>, elevated: bool) -> (
    AppView,
    Option<bool>,
) {
    match outcome {
        Ok(via) => (written_spec(a, index), Some(elevated || via != WriteVia::Direct)),
        Err(m) => if m == NEEDS_PASSWORD@ {
            (AppView { modal: Some(ModalView::Password { buffer: Seq::empty(), error: None }), ..a }, None)
        } else if m == password_refused() {
            (AppView { modal: Some(ModalView::Password { buffer: Seq::empty(), error: Some(m) }), ..a }, None)
        } else {
            (said(a, m, Level::Bad), None)
        },
    }
}

pub open spec fn password_refused() -> Seq<char> {
    "that password was not accepted"@
}

impl App {
    /// Take the outcome of writing one staged attribute: `Some` with
    /// whether any write so far needed sudo when the loop should go on to
    /// the next index, `None` when it stops here.
    pub fn attr_write_done(&mut self, index: usize, outcome: Result<WriteVia>, elevated: bool) -> (r: Option<bool>)
        requires
            wf(old(self)@),
        ensures
            match outcome {
                Ok(via) => (final(self)@, r) == write_step_spec(old(self)@, index, Ok(via), elevated),
                Err(e) => (final(self)@, r) == write_step_spec(old(self)@, index, Err(e.0@), elevated),
            },
    {
        match outcome {
            Ok(via) => {
                self.mark_written(index);
                let needed_root = match via {
                    WriteVia::Direct => false,
                    _ => true,
                };
                Some(elevated || needed_root)
            },
            Err(e) => {
                if e.is_needs_password() {
                    self.modal = Some(Modal::Password { buffer: String::new(), error: None });
                } else if str_eq(e.0.as_str(), "that password was not accepted") {
                    self.modal = Some(Modal::Password { buffer: String::new(), error: Some(e.0) });
                } else {
                    self.say(e.0, Level::Bad);
                }
                None
            },
        }
    }
}

/// The report after writing attributes.
pub open spec fn written_text(count: nat, elevated: bool) -> Seq<char> {
    "Wrote "@ + decimal(count) + " sysfs attribute(s)"@ + (if elevated {
        " via sudo"@
    } else {
        ""@
    })
}

pub fn written_message(count: usize, elevated: bool) -> (r: String)
    ensures
        r@ == written_text(count as nat, elevated),
{
    proof {
        reveal_strlit("");
    }
    let a = concat(chars_of("Wrote ").as_slice(), decimal_u64(count as u64).as_slice());
    let b = concat(a.as_slice(), chars_of(" sysfs attribute(s)").as_slice());
    let c = concat(b.as_slice(), chars_of(if elevated { " via sudo" } else { "" }).as_slice());
    string_of(c.as_slice())
}

// ---- Device on/off, detector, meter, reload ------------------------------

pub open spec fn no_x_device() -> Seq<char> {
    "This row has no X device, so there is nothing to enable or disable"@
}

/// What turning the selected device off or on asks for, given whether the
/// X server reports it enabled right now: the opposite of that live state,
/// whatever this state last recorded.
pub open spec fn toggle_enabled_spec(a: AppView, live: bool) -> (AppView, Option<(u32, bool)>) {
    match device_id(sel(a)) {
        None => (said(a, no_x_device(), Level::Bad), None),
        Some(id) => (a, Some((id, !live))),
    }
}

/// The state after asking for `target`: on a read-back, the device holds
/// the state the X server reports, and a read-back that is not the target
/// is reported as a failure; on an error, only the status line changes.
pub open spec fn enabled_set_spec(
    a: AppView,
    target: bool,
    result: std::result::Result<bool, Seq<char>>,
) -> AppView {
    match result {
        Ok(now) => {
            let d = sel(a);
            let b = with_device(a, DeviceView { enabled: now, ..d });
            if now != target {
                said(
                    b,
                    d.name + " did not change: the X server still reports it "@ + (if now {
                        "enabled"@
                    } else {
                        "disabled"@
                    }),
                    Level::Bad,
                )
            } else if now {
                said(b, d.name + " enabled"@, Level::Good)
            } else {
                said(b, d.name + " disabled \u{2014} press t again to bring it back"@, Level::Warn)
            }
        },
        Err(m) => said(a, m, Level::Bad),
    }
}

impl App {
    /// Turn the selected device off or on: the device and the state to set,
    /// or `None` (with the reason on the status line) for a row with no X
    /// device. `live` is whether the X server reports the device enabled
    /// just now; the state recorded here may be stale, so it is not what
    /// decides. Unlike the value editors this applies at once: it is one
    /// call, it is undone by the same key, and disabling leaves every other
    /// setting on the device untouched.
    pub fn toggle_device_enabled(&mut self, live: bool) -> (r: Option<(u32, bool)>)
        requires
            wf(old(self)@),
        ensures
            (final(self)@, r) == toggle_enabled_spec(old(self)@, live),
    {
        match self.devices[self.sel_device].id() {
            None => {
                self.say_str("This row has no X device, so there is nothing to enable or disable", Level::Bad);
                None
            },
            Some(id) => Some((id, !live)),
        }
    }

    /// Record how setting the enabled state went: `result` is the state the
    /// X server reports after the call, read back, or the error that stopped
    /// the call or the read.
    pub fn device_enabled_set(&mut self, target: bool, result: Result<bool>)
        requires
            wf(old(self)@),
        ensures
            match result {
                Ok(now) => final(self)@ == enabled_set_spec(old(self)@, target, Ok(now)),
                Err(e) => final(self)@ == enabled_set_spec(old(self)@, target, Err(e.0@)),
            },
    {
        match result {
            Ok(now) => {
                let mut d = self.take_device();
                d.enabled = now;
                let name = chars_of(d.name.as_str());
                self.replace_device(d);
                if now != target {
                    let m = concat(name.as_slice(), chars_of(" did not change: the X server still reports it ").as_slice());
                    let m2 = concat(m.as_slice(), chars_of(if now { "enabled" } else { "disabled" }).as_slice());
                    self.say(string_of(m2.as_slice()), Level::Bad);
                } else if now {
                    let m = concat(name.as_slice(), chars_of(" enabled").as_slice());
                    self.say(string_of(m.as_slice()), Level::Good);
                } else {
                    let m = concat(name.as_slice(), chars_of(" disabled \u{2014} press t again to bring it back").as_slice());
                    self.say(string_of(m.as_slice()), Level::Warn);
                }
            },
            Err(e) => self.say(e.0, Level::Bad),
        }
    }

    /// Whether the detector can start; without xinput the status line says
    /// why not.
    pub fn open_detector(&mut self) -> (r: bool)
        ensures
            r == old(self).x11,
            r ==> final(self)@ == old(self)@,
            !r ==> final(self)@ == said(old(self)@, "Needs xinput, which is not available here"@, Level::Bad),
    {
        if !self.x11 {
            self.say_str("Needs xinput, which is not available here", Level::Bad);
            return false;
        }
        true
    }

    /// Record how starting the detector went.
    pub fn detector_started(&mut self, result: Result<()>)
        ensures
            match result {
                Ok(()) => final(self)@ == said(
                    AppView { modal: Some(ModalView::Detect), ..old(self)@ },
                    "Click a button to see which device sends it"@,
                    Level::Info,
                ),
                Err(e) => final(self)@ == said(old(self)@, e.0@, Level::Bad),
            },
    {
        match result {
            Ok(()) => {
                self.modal = Some(Modal::Detect);
                self.say_str("Click a button to see which device sends it", Level::Info);
            },
            Err(e) => self.say(e.0, Level::Bad),
        }
    }

    /// Whether the drift meter can start; without xinput the status line
    /// says why not.
    pub fn open_meter(&mut self) -> (r: bool)
        ensures
            r == old(self).x11,
            r ==> final(self)@ == old(self)@,
            !r ==> final(self)@ == said(old(self)@, "Needs xinput, which is not available here"@, Level::Bad),
    {
        self.open_detector()
    }

    /// Record how starting the drift meter went.
    pub fn meter_started(&mut self, result: Result<()>)
        ensures
            match result {
                Ok(()) => final(self)@ == said(
                    AppView { modal: Some(ModalView::Meter), ..old(self)@ },
                    "Take your hands off the machine and watch"@,
                    Level::Info,
                ),
                Err(e) => final(self)@ == said(old(self)@, e.0@, Level::Bad),
            },
    {
        match result {
            Ok(()) => {
                self.modal = Some(Modal::Meter);
                self.say_str("Take your hands off the machine and watch", Level::Info);
            },
            Err(e) => self.say(e.0, Level::Bad),
        }
    }

    /// Take a freshly read state, keeping the selected row (as near as the
    /// new list allows) and the tab.
    pub fn refreshed(&mut self, fresh: Result<App>)
        ensures
            match fresh {
                Ok(f) => final(self)@ == said(
                    AppView {
                        sel_device: if old(self).sel_device < f@.devices.len() {
                            old(self).sel_device
                        } else if f@.devices.len() > 0 {
                            (f@.devices.len() - 1) as usize
                        } else {
                            0
                        },
                        tab: old(self).tab,
                        ..f@
                    },
                    "Reloaded from the system"@,
                    Level::Good,
                ),
                Err(e) => final(self)@ == said(old(self)@, e.0@, Level::Bad),
            },
    {
        match fresh {
            Ok(f) => {
                let len = f.devices.len();
                let last = if len > 0 {
                    len - 1
                } else {
                    0
                };
                let selected = if self.sel_device < last {
                    self.sel_device
                } else {
                    last
                };
                let tab = self.tab;
                *self = f;
                self.sel_device = selected;
                self.tab = tab;
                self.say_str("Reloaded from the system", Level::Good);
            },
            Err(e) => self.say(e.0, Level::Bad),
        }
    }
}

/// The state a toggle asked for.
pub open spec fn asked_state(r: Option<(u32, bool)>) -> bool {
    match r {
        Some((_, on)) => on,
        None => false,
    }
}

/// `t` undoes itself. Whatever state was recorded, a press asks for the
/// opposite of what the X server reports; when the server then reports
/// that state back, a second press asks for the state the device was in
/// before the first, and after it the device is recorded in that state.
pub proof fn lemma_enable_toggle_twice(a: AppView, live: bool)
    requires
        wf(a),
        device_id(sel(a)) is Some,
    ensures
        ({
            let (a1, r1) = toggle_enabled_spec(a, live);
            let a2 = enabled_set_spec(a1, asked_state(r1), Ok(!live));
            let (a3, r2) = toggle_enabled_spec(a2, !live);
            let a4 = enabled_set_spec(a3, asked_state(r2), Ok(live));
            &&& r1 == Some((device_id(sel(a))->0, !live))
            &&& sel(a2).enabled == !live
            &&& r2 == Some((device_id(sel(a))->0, live))
            &&& sel(a4).enabled == live
            &&& a4.devices == a.devices.update(a.sel_device as int, DeviceView { enabled: live, ..sel(a) })
        }),
{
    let (a1, r1) = toggle_enabled_spec(a, live);
    let a2 = enabled_set_spec(a1, asked_state(r1), Ok(!live));
    let (a3, r2) = toggle_enabled_spec(a2, !live);
    let a4 = enabled_set_spec(a3, asked_state(r2), Ok(live));
    assert(a4.devices =~= a.devices.update(a.sel_device as int, DeviceView { enabled: live, ..sel(a) }));
}

// ---- Building the state ---------------------------------------------------

/// What was learned about one device `xinput list` reported: its button
/// map (empty when it could not be read), all its properties (empty when
/// they could not be listed) and the serio node its event node leads to.
pub struct XProbe {
    pub x: XDevice,
    pub buttons: Vec<u8>,
    pub props: Vec<Prop>,
    pub node: Option<Node>,
}

pub struct XProbeView {
    pub x: XDeviceView,
    pub buttons: Seq<u8>,
    pub props: Seq<PropView>,
    pub node: Option<NodeView>,
}

impl View for XProbe {
    type V = XProbeView;

    open spec fn view(&self) -> XProbeView {
        XProbeView {
            x: self.x@,
            buttons: self.buttons@,
            props: crate::xinput::prop_views(self.props@),
            node: match self.node {
                Some(n) => Some(n@),
                None => None,
            },
        }
    }
}

pub open spec fn probe_views(v: Seq<XProbe>) -> Seq<XProbeView> {
    Seq::new(v.len(), |i: int| v[i]@)
}

pub open spec fn node_views(v: Seq<Node>) -> Seq<NodeView> {
    Seq::new(v.len(), |i: int| v[i]@)
}

/// The rows the libinput tab shows for a property list.
pub open spec fn rows_of(props: Seq<PropView>) -> Seq<PropRowView>
    decreases props.len(),
{
    if props.len() == 0 {
        seq![]
    } else {
        let prev = rows_of(props.drop_last());
        let p = props.last();
        if crate::xinput::interesting(p) {
            prev.push(PropRowView { prop: p, pending: prop_values(p), original: prop_values(p) })
        } else {
            prev
        }
    }
}

/// The first scanned node that names this input device beneath it.
pub open spec fn node_naming(nodes: Seq<NodeView>, name: Seq<char>) -> Option<int> {
    if exists|i: int| 0 <= i < nodes.len() && nodes[i].input_names.contains(name) && forall|j: int|
        0 <= j < i ==> !(#[trigger] nodes[j]).input_names.contains(name) {
        Some(
            choose|i: int|
                0 <= i < nodes.len() && nodes[i].input_names.contains(name) && forall|j: int|
                    0 <= j < i ==> !(#[trigger] nodes[j]).input_names.contains(name),
        )
    } else {
        None
    }
}

/// The row for a slave pointer. Its node is the one its event node led to,
/// or, when the X server reported none (a disabled device may stop
/// reporting its `Device Node`), the serio node that names it beneath it.
pub open spec fn device_of_probe(p: XProbeView, nodes: Seq<NodeView>) -> DeviceView {
    DeviceView {
        x: Some(p.x),
        name: p.x.name,
        buttons: p.buttons,
        pending_buttons: p.buttons,
        original_buttons: p.buttons,
        props: rows_of(p.props),
        sysfs: match p.node {
            Some(n) => Some(n),
            None => match node_naming(nodes, p.x.name) {
                Some(i) => Some(nodes[i]),
                None => None,
            },
        },
        enabled: crate::xinput::enabled_of(p.props),
        originally_enabled: crate::xinput::enabled_of(p.props),
        note: if p.buttons.len() == 0 {
            Some("no button map reported"@)
        } else {
            None
        },
    }
}

/// The rows for the slave pointers among the probes, in order.
pub open spec fn x_rows(probes: Seq<XProbeView>, nodes: Seq<NodeView>) -> Seq<DeviceView>
    decreases probes.len(),
{
    if probes.len() == 0 {
        seq![]
    } else {
        let prev = x_rows(probes.drop_last(), nodes);
        if probes.last().x.kind == Kind::SlavePointer {
            prev.push(device_of_probe(probes.last(), nodes))
        } else {
            prev
        }
    }
}

/// A listed row stands for this serio node: it already holds a node at the
/// same path, or it is an X device whose name is one of the input device
/// names under the node. A disabled device may stop reporting its `Device
/// Node`, so the name is what still ties the two together.
pub open spec fn holds_node(d: DeviceView, n: NodeView) -> bool {
    ||| (d.sysfs is Some && d.sysfs->0.path == n.path)
    ||| (d.x is Some && n.input_names.contains(d.name))
}

/// Some listed row stands for this node.
pub open spec fn claimed(rows: Seq<DeviceView>, n: NodeView) -> bool {
    exists|i: int| 0 <= i < rows.len() && holds_node(#[trigger] rows[i], n)
}

/// The row for a serio node no X device claimed: under Wayland, that is the
/// only view there is.
pub open spec fn sysfs_only_row(n: NodeView) -> DeviceView {
    DeviceView {
        x: None,
        name: crate::sysfs::node_label(n),
        buttons: seq![],
        pending_buttons: seq![],
        original_buttons: seq![],
        props: seq![],
        sysfs: Some(n),
        enabled: true,
        originally_enabled: true,
        note: Some("sysfs only \u{2014} not matched to an X device"@),
    }
}

pub open spec fn extra_rows(nodes: Seq<NodeView>, rows: Seq<DeviceView>) -> Seq<DeviceView>
    decreases nodes.len(),
{
    if nodes.len() == 0 {
        seq![]
    } else {
        let prev = extra_rows(nodes.drop_last(), rows);
        if claimed(rows, nodes.last()) {
            prev
        } else {
            prev.push(sysfs_only_row(nodes.last()))
        }
    }
}

/// A serio node gets a row of its own only when no listed row stands for
/// it: every sysfs-only row's node is held by no listed row, and none of
/// its input device names is the name of a listed X device. So a device
/// matched to a node, by its event node or by name, never shows up a
/// second time as a sysfs-only row, whichever of the nodes naming it that
/// row would have been for.
pub proof fn lemma_no_sysfs_twin(nodes: Seq<NodeView>, rows: Seq<DeviceView>, i: int)
    requires
        0 <= i < extra_rows(nodes, rows).len(),
    ensures
        extra_rows(nodes, rows)[i].x is None,
        extra_rows(nodes, rows)[i].sysfs is Some,
        !claimed(rows, extra_rows(nodes, rows)[i].sysfs->0),
        forall|j: int|
            0 <= j < rows.len() && (#[trigger] rows[j]).x is Some ==> !extra_rows(nodes, rows)[i].sysfs->0.input_names.contains(
                rows[j].name,
            ),
        forall|j: int|
            0 <= j < rows.len() && (#[trigger] rows[j]).sysfs is Some ==> rows[j].sysfs->0.path != extra_rows(
                nodes,
                rows,
            )[i].sysfs->0.path,
    decreases nodes.len(),
{
    if nodes.len() > 0 {
        let prev = extra_rows(nodes.drop_last(), rows);
        if i < prev.len() {
            lemma_no_sysfs_twin(nodes.drop_last(), rows, i);
        }
    }
    let n = extra_rows(nodes, rows)[i].sysfs->0;
    assert forall|j: int| 0 <= j < rows.len() && (#[trigger] rows[j]).x is Some implies !n.input_names.contains(
        rows[j].name,
    ) by {
        if n.input_names.contains(rows[j].name) {
            assert(holds_node(rows[j], n));
        }
    }
    assert forall|j: int| 0 <= j < rows.len() && (#[trigger] rows[j]).sysfs is Some implies rows[j].sysfs->0.path
        != n.path by {
        if rows[j].sysfs->0.path == n.path {
            assert(holds_node(rows[j], n));
        }
    }
}

/// The state `new` builds, or the message when there is nothing to show.
pub open spec fn new_app(
    x11: bool,
    listing: std::result::Result<Seq<XProbeView>, Seq<char>>,
    nodes: Seq<NodeView>,
) -> std::result::Result<AppView, Seq<char>> {
    let xs = if x11 {
        match listing {
            Ok(ps) => x_rows(ps, nodes),
            Err(_) => seq![],
        }
    } else {
        seq![]
    };
    let note: Option<Seq<char>> = if x11 {
        match listing {
            Ok(_) => None,
            Err(m) => Some(m),
        }
    } else {
        Some("xinput unavailable \u{2014} sysfs tuning only"@)
    };
    let devices = xs + extra_rows(nodes, xs);
    if devices.len() == 0 {
        Err("no pointer devices found via xinput or /sys/bus/serio"@)
    } else {
        Ok(
            AppView {
                devices,
                sel_device: 0,
                sel_button: 0,
                sel_prop: 0,
                sel_attr: 0,
                focus: Focus::Devices,
                tab: Tab::Buttons,
                modal: None,
                status: match note {
                    Some(text) => StatusView { text, level: Level::Warn },
                    None => default_status(),
                },
                should_quit: false,
                x11,
            },
        )
    }
}

/// A fresh state always has its selection on a device that exists.
pub proof fn lemma_new_selects_a_device(
    x11: bool,
    listing: std::result::Result<Seq<XProbeView>, Seq<char>>,
    nodes: Seq<NodeView>,
)
    ensures
        new_app(x11, listing, nodes) matches Ok(a) ==> wf(a) && a.modal is None && !a.should_quit,
{
}

fn rows_of_exec(props: &Vec<Prop>) -> (r: Vec<PropRow>)
    ensures
        row_views(r@) == rows_of(crate::xinput::prop_views(props@)),
{
    let ghost pv = crate::xinput::prop_views(props@);
    let mut out: Vec<PropRow> = Vec::new();
    let mut i: usize = 0;
    while i < props.len()
        invariant
            i <= props.len(),
            pv == crate::xinput::prop_views(props@),
            row_views(out@) == rows_of(pv.take(i as int)),
        decreases props.len() - i,
    {
        let ghost before = out@;
        assert(pv.take(i + 1).drop_last() =~= pv.take(i as int));
        assert(pv.take(i + 1).last() == props[i as int]@);
        if crate::xinput::is_interesting(&props[i]) {
            out.push(PropRow::new(props[i].clone()));
            assert(row_views(out@) =~= row_views(before).push(out@.last()@));
        }
        i += 1;
    }
    assert(pv.take(props.len() as int) =~= pv);
    out
}

fn strings_contain(v: &Vec<String>, s: &str) -> (r: bool)
    ensures
        r == string_views(v@).contains(s@),
{
    let mut i: usize = 0;
    while i < v.len()
        invariant
            i <= v.len(),
            forall|k: int| 0 <= k < i ==> v[k]@ != s@,
        decreases v.len() - i,
    {
        if str_eq(v[i].as_str(), s) {
            assert(string_views(v@)[i as int] == s@);
            return true;
        }
        i += 1;
    }
    assert forall|k: int| 0 <= k < string_views(v@).len() implies string_views(v@)[k] != s@ by {
        assert(string_views(v@)[k] == v[k]@);
    }
    false
}

/// Where the first node naming this device stands.
fn node_naming_exec(nodes: &Vec<Node>, name: &str) -> (r: Option<usize>)
    ensures
        match r {
            Some(k) => node_naming(node_views(nodes@), name@) == Some(k as int) && k < nodes.len(),
            None => node_naming(node_views(nodes@), name@) is None,
        },
{
    let ghost nv = node_views(nodes@);
    let mut i: usize = 0;
    while i < nodes.len()
        invariant
            i <= nodes.len(),
            nv == node_views(nodes@),
            forall|j: int| 0 <= j < i ==> !(#[trigger] nv[j]).input_names.contains(name@),
        decreases nodes.len() - i,
    {
        assert(nv[i as int] == nodes[i as int]@);
        if strings_contain(&nodes[i].input_names, name) {
            proof {
                let k = choose|k: int|
                    0 <= k < nv.len() && nv[k].input_names.contains(name@) && forall|j: int|
                        0 <= j < k ==> !(#[trigger] nv[j]).input_names.contains(name@);
                if k < i {
                    assert(!nv[k].input_names.contains(name@));
                } else if i < k {
                    assert(!nv[i as int].input_names.contains(name@));
                }
            }
            return Some(i);
        }
        i += 1;
    }
    None
}

/// Whether one of the first `upto` rows stands for this node.
fn claimed_exec(rows: &Vec<Device>, upto: usize, node: &Node) -> (r: bool)
    requires
        upto <= rows.len(),
    ensures
        r == claimed(device_views(rows@).take(upto as int), node@),
{
    let ghost dv = device_views(rows@).take(upto as int);
    let mut i: usize = 0;
    while i < upto
        invariant
            i <= upto,
            upto <= rows.len(),
            dv == device_views(rows@).take(upto as int),
            forall|k: int| 0 <= k < i ==> !holds_node(#[trigger] dv[k], node@),
        decreases upto - i,
    {
        assert(dv[i as int] == rows[i as int]@);
        let by_path = match &rows[i].sysfs {
            Some(n) => str_eq(n.path.as_str(), node.path.as_str()),
            None => false,
        };
        let by_name = rows[i].x.is_some() && strings_contain(&node.input_names, rows[i].name.as_str());
        if by_path || by_name {
            assert(holds_node(dv[i as int], node@));
            return true;
        }
        i += 1;
    }
    false
}

/// The row for one slave pointer.
fn device_of_probe_exec(p: &XProbe, nodes: &Vec<Node>) -> (d: Device)
    ensures
        d@ == device_of_probe(p@, node_views(nodes@)),
{
    let node: Option<Node> = match &p.node {
        Some(n) => Some(n.clone()),
        None => match node_naming_exec(nodes, p.x.name.as_str()) {
            Some(k) => {
                assert(node_views(nodes@)[k as int] == nodes[k as int]@);
                Some(nodes[k].clone())
            },
            None => None,
        },
    };
    let enabled = crate::xinput::is_enabled(p.props.as_slice());
    let note = if p.buttons.len() == 0 {
        Some(string_of(chars_of("no button map reported").as_slice()))
    } else {
        None
    };
    let d = Device {
        x: Some(p.x.clone()),
        name: p.x.name.clone(),
        buttons: clone_bytes(&p.buttons),
        pending_buttons: clone_bytes(&p.buttons),
        original_buttons: clone_bytes(&p.buttons),
        props: rows_of_exec(&p.props),
        sysfs: node,
        enabled,
        originally_enabled: enabled,
        note,
    };
    proof {
        let want = device_of_probe(p@, node_views(nodes@));
        assert(d@.props == want.props);
        assert(d@.sysfs == want.sysfs);
        assert(d@.note == want.note);
    }
    d
}

/// The rows for the slave pointers xinput listed.
fn x_rows_exec(list: &Vec<XProbe>, nodes: &Vec<Node>) -> (r: Vec<Device>)
    ensures
        device_views(r@) == x_rows(probe_views(list@), node_views(nodes@)),
{
    let ghost pv = probe_views(list@);
    let ghost nv = node_views(nodes@);
    let mut devices: Vec<Device> = Vec::new();
    let mut i: usize = 0;
    while i < list.len()
        invariant
            i <= list.len(),
            pv == probe_views(list@),
            nv == node_views(nodes@),
            device_views(devices@) == x_rows(pv.take(i as int), nv),
        decreases list.len() - i,
    {
        let ghost before = devices@;
        assert(pv.take(i + 1).drop_last() =~= pv.take(i as int));
        assert(pv.take(i + 1).last() == list[i as int]@);
        if list[i].x.kind == Kind::SlavePointer {
            let d = device_of_probe_exec(&list[i], nodes);
            devices.push(d);
            assert(device_views(devices@) =~= device_views(before).push(d@));
        }
        i += 1;
    }
    assert(pv.take(list.len() as int) =~= pv);
    devices
}

/// Appends a row for each node that none of the first `n_x` rows claims.
fn push_extra_rows(devices: &mut Vec<Device>, nodes: &Vec<Node>)
    ensures
        device_views(final(devices)@) == device_views(old(devices)@) + extra_rows(
            node_views(nodes@),
            device_views(old(devices)@),
        ),
{
    let ghost xs = device_views(devices@);
    let ghost nv = node_views(nodes@);
    let n_x = devices.len();
    let mut k: usize = 0;
    while k < nodes.len()
        invariant
            k <= nodes.len(),
            n_x <= devices.len(),
            nv == node_views(nodes@),
            xs.len() == n_x,
            device_views(devices@).take(n_x as int) == xs,
            device_views(devices@).skip(n_x as int) == extra_rows(nv.take(k as int), xs),
        decreases nodes.len() - k,
    {
        let ghost before = devices@;
        assert(nv.take(k + 1).drop_last() =~= nv.take(k as int));
        assert(nv.take(k + 1).last() == nodes[k as int]@);
        let taken = claimed_exec(devices, n_x, &nodes[k]);
        if !taken {
            let n = nodes[k].clone();
            let empty_rows: Vec<PropRow> = Vec::new();
            assert(row_views(empty_rows@) =~= Seq::<PropRowView>::empty());
            let d = Device {
                x: None,
                name: n.label(),
                buttons: Vec::new(),
                pending_buttons: Vec::new(),
                original_buttons: Vec::new(),
                props: empty_rows,
                sysfs: Some(n),
                enabled: true,
                originally_enabled: true,
                note: Some(string_of(chars_of("sysfs only \u{2014} not matched to an X device").as_slice())),
            };
            devices.push(d);
            assert(device_views(devices@) =~= device_views(before).push(d@));
            assert(device_views(devices@).take(n_x as int) =~= device_views(before).take(n_x as int));
            assert(device_views(devices@).skip(n_x as int) =~= device_views(before).skip(n_x as int).push(d@));
        }
        k += 1;
    }
    assert(nv.take(nodes.len() as int) =~= nv);
    assert(device_views(devices@) =~= device_views(devices@).take(n_x as int) + device_views(devices@).skip(n_x as int));
}

impl App {
    /// The state for what xinput and the serio bus reported: a row for each
    /// slave pointer xinput listed, then one for each serio node that no
    /// listed device stands for, by its node's path or by its name among the
    /// node's input devices. `listing` is only read when `x11` is set; its
    /// error becomes the status line.
    pub fn new(x11: bool, listing: Result<Vec<XProbe>>, nodes: Vec<Node>) -> (r: Result<App>)
        ensures
            match new_app(
                x11,
                match listing {
                    Ok(ps) => Ok(probe_views(ps@)),
                    Err(e) => Err(e.0@),
                },
                node_views(nodes@),
            ) {
                Ok(a) => r matches Ok(x) && x@ == a,
                Err(m) => r matches Err(e) && e.0@ == m,
            },
    {
        let mut devices: Vec<Device>;
        let note: Option<String>;
        if x11 {
            match listing {
                Ok(list) => {
                    devices = x_rows_exec(&list, &nodes);
                    note = None;
                },
                Err(e) => {
                    devices = Vec::new();
                    assert(device_views(devices@) =~= Seq::<DeviceView>::empty());
                    note = Some(e.0);
                },
            }
        } else {
            devices = Vec::new();
            assert(device_views(devices@) =~= Seq::<DeviceView>::empty());
            note = Some(string_of(chars_of("xinput unavailable \u{2014} sysfs tuning only").as_slice()));
        }
        push_extra_rows(&mut devices, &nodes);
        if devices.len() == 0 {
            return Err(Error::new("no pointer devices found via xinput or /sys/bus/serio"));
        }
        let status = match note {
            Some(text) => Status { text, level: Level::Warn },
            None => Status::default(),
        };
        Ok(
            App {
                devices,
                sel_device: 0,
                sel_button: 0,
                sel_prop: 0,
                sel_attr: 0,
                focus: Focus::Devices,
                tab: Tab::Buttons,
                modal: None,
                status,
                should_quit: false,
                x11,
            },
        )
    }
}

} // verus!
