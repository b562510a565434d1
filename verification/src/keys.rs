//! What each key does. A key either changes the state by itself or asks the
//! caller for work only it can do (run xinput, start a watcher, write a
//! file); the state change happens here and the work comes back as a
//! [`Command`].
use vstd::prelude::*;

use crate::app::{
    adjust_attr_ok, adjust_attr_spec, apply_request_of, commit_editor_spec, current_or, sensitivity_fits,
    commit_ok, drift_preset_spec, flipped, kinds_ok, move_cursor_ok, move_cursor_spec,
    open_editor_spec, preset_attrs, preset_ok, preset_step, said, sel, selected_attr,
    selected_row_is_bool, tab_at, tab_index, toggle_attr_spec, toggle_button_ok, toggle_button_spec,
    device_id, no_x_device, toggle_prop_spec, wf, with_attr, with_device, with_row_pending, App,
    AppView, ApplyRequest, ApplyRequestView, Device, DeviceView, EditTarget, Focus, Level, Modal,
    ModalView, PropRowView, Tab,
};
use crate::error::scrub;
use crate::sysfs::{kind_ok, nudged, toggled, AttrKind, AttrView, NodeView};
use crate::text::{chars_eq, chars_of, contains, contains_chars, push_char, string_of, trim, words};

verus! {

/// A key, as far as the interface tells keys apart.
#[derive(Debug, Clone, Copy, PartialEq, Eq, Structural)]
pub enum Key {
    Char(char),
    Esc,
    Enter,
    Tab,
    BackTab,
    Up,
    Down,
    Left,
    Right,
    Backspace,
    Other,
}

/// A key press, with whether Control was held.
#[derive(Debug, Clone, Copy, PartialEq, Eq, Structural)]
pub struct KeyPress {
    pub key: Key,
    pub ctrl: bool,
}

/// Work a key asks of the caller, after the state has taken the key.
pub enum Command {
    /// Nothing beyond the state change.
    Nothing,
    /// Carry out this request and hand the outcome to the matching
    /// `finish_` method.
    Apply(ApplyRequest),
    /// Start watching for button presses, then call `detector_started`.
    StartDetector,
    /// Start the drift meter, then call `meter_started`.
    StartMeter,
    /// Turn this X device off or on: read whether it is enabled now, hand
    /// that to `toggle_device_enabled`, set the state it asks for, read the
    /// state back and hand it to `device_enabled_set`.
    ToggleEnabled { id: u32 },
    /// Show what can be saved: the udev rule and the X profile.
    OpenPersist,
    /// Read everything again and hand it to `refreshed`.
    Refresh,
    /// Step the selected libinput property up or down.
    NudgeProp { up: bool },
    /// Write this udev rule.
    WriteUdev(String),
    /// Save the X settings as the profile.
    WriteProfile,
    /// Write the staged attributes again, handing sudo this password; wipe
    /// it with `scrub` once sudo has it.
    RetryWithPassword(String),
}

pub enum CommandView {
    Nothing,
    Apply(ApplyRequestView),
    StartDetector,
    StartMeter,
    ToggleEnabled { id: u32 },
    OpenPersist,
    Refresh,
    NudgeProp { up: bool },
    WriteUdev(Seq<char>),
    WriteProfile,
    RetryWithPassword(Seq<char>),
}

impl View for Command {
    type V = CommandView;

    open spec fn view(&self) -> CommandView {
        match self {
            Command::Nothing => CommandView::Nothing,
            Command::Apply(r) => CommandView::Apply(r@),
            Command::StartDetector => CommandView::StartDetector,
            Command::StartMeter => CommandView::StartMeter,
            Command::ToggleEnabled { id } => CommandView::ToggleEnabled { id: *id },
            Command::OpenPersist => CommandView::OpenPersist,
            Command::Refresh => CommandView::Refresh,
            Command::NudgeProp { up } => CommandView::NudgeProp { up: *up },
            Command::WriteUdev(rule) => CommandView::WriteUdev(rule@),
            Command::WriteProfile => CommandView::WriteProfile,
            Command::RetryWithPassword(p) => CommandView::RetryWithPassword(p@),
        }
    }
}

pub open spec fn no_xinput() -> Seq<char> {
    "Needs xinput, which is not available here"@
}

pub open spec fn quit(a: AppView) -> AppView {
    AppView { should_quit: true, ..a }
}

pub open spec fn closed(a: AppView) -> AppView {
    AppView { modal: None, ..a }
}

pub open spec fn reset_buttons_spec(a: AppView) -> AppView {
    said(
        with_device(a, DeviceView { pending_buttons: sel(a).original_buttons, ..sel(a) }),
        "Button map reset to its start-up state (staged)"@,
        Level::Info,
    )
}

/// Applying the current tab: an error or an empty request goes straight to
/// the status line; anything else is work for the caller.
pub open spec fn apply_step(a: AppView) -> (AppView, CommandView) {
    match apply_request_of(a) {
        Err(m) => (said(a, m, Level::Bad), CommandView::Nothing),
        Ok(ApplyRequestView::Nothing(m)) => (said(a, m, Level::Good), CommandView::Nothing),
        Ok(req) => (a, CommandView::Apply(req)),
    }
}

/// A key with no panel open.
pub open spec fn main_key_step(a: AppView, k: KeyPress) -> (AppView, CommandView) {
    let none = CommandView::Nothing;
    match k.key {
        Key::Char('q') | Key::Esc => (quit(a), none),
        Key::Char('c') if k.ctrl => (quit(a), none),
        Key::Char('?') => (AppView { modal: Some(ModalView::Help), ..a }, none),
        Key::Char('d') => if a.x11 {
            (a, CommandView::StartDetector)
        } else {
            (said(a, no_xinput(), Level::Bad), none)
        },
        Key::Char('m') => if a.x11 {
            (a, CommandView::StartMeter)
        } else {
            (said(a, no_xinput(), Level::Bad), none)
        },
        Key::Char('t') => match device_id(sel(a)) {
            Some(id) => (a, CommandView::ToggleEnabled { id }),
            None => (said(a, no_x_device(), Level::Bad), none),
        },
        Key::Char('p') => (drift_preset_spec(a), none),
        Key::Char('s') => (a, CommandView::OpenPersist),
        Key::Char('r') => (a, CommandView::Refresh),
        Key::Char('a') => apply_step(a),
        Key::Char('e') => (open_editor_spec(a), none),
        Key::Char('u') => (reset_buttons_spec(a), none),
        Key::Tab => (AppView { tab: tab_at((tab_index(a.tab) + 1) % 3), focus: Focus::Detail, ..a }, none),
        Key::BackTab => (
            AppView { tab: tab_at((tab_index(a.tab) + 3 - 1) % 3), focus: Focus::Detail, ..a },
            none,
        ),
        Key::Down | Key::Char('j') => (move_cursor_spec(a, 1), none),
        Key::Up | Key::Char('k') => (move_cursor_spec(a, -1), none),
        Key::Left | Key::Char('h') => match a.focus {
            Focus::Devices => (a, none),
            Focus::Detail => match a.tab {
                Tab::Buttons => (AppView { focus: Focus::Devices, ..a }, none),
                Tab::Libinput => (a, CommandView::NudgeProp { up: false }),
                Tab::Sysfs => (adjust_attr_spec(a, -5i64), none),
            },
        },
        Key::Right | Key::Char('l') => match a.focus {
            Focus::Devices => (AppView { focus: Focus::Detail, ..a }, none),
            Focus::Detail => match a.tab {
                Tab::Buttons => (a, none),
                Tab::Libinput => (a, CommandView::NudgeProp { up: true }),
                Tab::Sysfs => (adjust_attr_spec(a, 5i64), none),
            },
        },
        Key::Enter => match a.focus {
            Focus::Devices => (AppView { focus: Focus::Detail, ..a }, none),
            Focus::Detail => apply_step(a),
        },
        Key::Char(' ') => match a.tab {
            Tab::Buttons => (toggle_button_spec(a), none),
            Tab::Libinput => (toggle_prop_spec(a), none),
            Tab::Sysfs => (toggle_attr_spec(a), none),
        },
        _ => (a, none),
    }
}

pub open spec fn nothing_to_persist() -> Seq<char> {
    "Nothing to persist"@
}

/// A key while a panel is open. Text entry takes almost every key.
pub open spec fn modal_key_step(a: AppView, m: ModalView, k: KeyPress) -> (AppView, CommandView) {
    let none = CommandView::Nothing;
    match m {
        ModalView::Edit { title, buffer, target } => match k.key {
            Key::Esc => (closed(a), none),
            Key::Enter => (commit_editor_spec(closed(a), buffer, target), none),
            Key::Backspace => (
                AppView {
                    modal: Some(
                        ModalView::Edit {
                            title,
                            buffer: if buffer.len() > 0 {
                                buffer.drop_last()
                            } else {
                                buffer
                            },
                            target,
                        },
                    ),
                    ..a
                },
                none,
            ),
            Key::Char(c) => (
                AppView { modal: Some(ModalView::Edit { title, buffer: buffer.push(c), target }), ..a },
                none,
            ),
            _ => (a, none),
        },
        ModalView::Password { buffer, error } => match k.key {
            Key::Esc => (said(closed(a), "Cancelled \u{2014} nothing was written"@, Level::Info), none),
            Key::Enter => (closed(a), CommandView::RetryWithPassword(buffer)),
            Key::Backspace => (
                AppView {
                    modal: Some(
                        ModalView::Password {
                            buffer: if buffer.len() > 0 {
                                buffer.drop_last()
                            } else {
                                buffer
                            },
                            error,
                        },
                    ),
                    ..a
                },
                none,
            ),
            Key::Char(c) => (
                AppView { modal: Some(ModalView::Password { buffer: buffer.push(c), error }), ..a },
                none,
            ),
            _ => (a, none),
        },
        ModalView::Persist { rule, profile, choice } => match k.key {
            Key::Esc | Key::Char('q') => (closed(a), none),
            Key::Left | Key::Right | Key::Tab => (
                AppView {
                    modal: Some(ModalView::Persist { rule, profile, choice: (1 - choice) as usize }),
                    ..a
                },
                none,
            ),
            Key::Enter => if choice == 0 {
                if contains(rule, nothing_to_persist()) {
                    (
                        said(closed(a), "Nothing has changed, so there is nothing to write"@, Level::Warn),
                        none,
                    )
                } else {
                    (closed(a), CommandView::WriteUdev(rule))
                }
            } else {
                (closed(a), CommandView::WriteProfile)
            },
            _ => (a, none),
        },
        _ => match k.key {
            Key::Esc | Key::Char('q') => (closed(a), none),
            _ => (a, none),
        },
    }
}

/// What a key does to the state, and the work it leaves for the caller.
pub open spec fn key_step(a: AppView, k: KeyPress) -> (AppView, CommandView) {
    match a.modal {
        Some(m) => modal_key_step(a, m, k),
        None => main_key_step(a, k),
    }
}

/// The inputs on which the key's handling stays within its arithmetic:
/// the selected device exists, and the step the key takes fits its types.
pub open spec fn key_ok(a: AppView, k: KeyPress) -> bool {
    &&& wf(a)
    &&& match a.modal {
        Some(ModalView::Edit { target, .. }) => k.key == Key::Enter ==> commit_ok(a, target),
        Some(ModalView::Persist { choice, .. }) => (k.key == Key::Left || k.key == Key::Right || k.key
            == Key::Tab) ==> choice <= 1,
        Some(_) => true,
        None => match k.key {
            Key::Char('p') => preset_ok(a),
            Key::Down | Key::Char('j') => move_cursor_ok(a, 1),
            Key::Up | Key::Char('k') => move_cursor_ok(a, -1),
            Key::Left | Key::Char('h') => a.focus == Focus::Detail && a.tab == Tab::Sysfs
                ==> adjust_attr_ok(a, -5i64),
            Key::Right | Key::Char('l') => a.focus == Focus::Detail && a.tab == Tab::Sysfs
                ==> adjust_attr_ok(a, 5i64),
            Key::Char(' ') => a.tab == Tab::Buttons ==> toggle_button_ok(a),
            _ => true,
        },
    }
}

/// The characters of a string without its last one, if it has one.
fn without_last(s: &String) -> (r: String)
    ensures
        r@ == if s@.len() > 0 {
            s@.drop_last()
        } else {
            s@
        },
{
    let cs = chars_of(s.as_str());
    if cs.len() == 0 {
        return string_of(cs.as_slice());
    }
    let mut out: Vec<char> = Vec::new();
    let mut i: usize = 0;
    while i + 1 < cs.len()
        invariant
            cs@ == s@,
            cs.len() > 0,
            i + 1 <= cs.len(),
            out@ == cs@.take(i as int),
        decreases cs.len() - i,
    {
        out.push(cs[i]);
        assert(out@ =~= cs@.take(i + 1));
        i += 1;
    }
    assert(out@ =~= s@.drop_last());
    string_of(out.as_slice())
}

/// Whether the sensitivity arithmetic of the preset fits an `i64` on this
/// device.
fn preset_fits(d: &Device) -> (r: bool)
    ensures
        r == match d@.sysfs {
            Some(n) => forall|i: int|
                0 <= i < n.attrs.len() && #[trigger] n.attrs[i].name == "sensitivity"@
                    ==> sensitivity_fits(n.attrs[i]),
            None => true,
        },
{
    match &d.sysfs {
        None => true,
        Some(n) => {
            let sens = chars_of("sensitivity");
            let mut i: usize = 0;
            while i < n.attrs.len()
                invariant
                    i <= n.attrs.len(),
                    d@.sysfs == Some(n@),
                    sens@ == "sensitivity"@,
                    forall|q: int|
                        0 <= q < i && #[trigger] n@.attrs[q].name == "sensitivity"@
                            ==> sensitivity_fits(n@.attrs[q]),
                decreases n.attrs.len() - i,
            {
                assert(n@.attrs[i as int] == n.attrs[i as int]@);
                if chars_eq(chars_of(n.attrs[i].name.as_str()).as_slice(), sens.as_slice()) {
                    let current: i64 = match n.attrs[i].as_int() {
                        Some(v) => v,
                        None => 128,
                    };
                    if current > 40 && current > 3074457345618258602 {
                        assert(n@.attrs[i as int].name == "sensitivity"@);
                        assert(current_or(n@.attrs[i as int], 128) == current as int);
                        return false;
                    }
                }
                i += 1;
            }
            true
        },
    }
}

impl App {
    /// Whether `handle_key` can take this key in this state: the selection
    /// names a device and the arithmetic the key sets off fits its types.
    /// Where this is false, the step the key would take overflows or reads
    /// past the end of a list.
    pub fn key_fits(&self, k: KeyPress) -> (r: bool)
        ensures
            r == key_ok(self@, k),
    {
        if self.sel_device >= self.devices.len() {
            return false;
        }
        match &self.modal {
            Some(Modal::Edit { target, .. }) => {
                if k.key == Key::Enter {
                    self.commit_fits(*target)
                } else {
                    true
                }
            },
            Some(Modal::Persist { choice, .. }) => {
                if k.key == Key::Left || k.key == Key::Right || k.key == Key::Tab {
                    *choice <= 1
                } else {
                    true
                }
            },
            Some(_) => true,
            None => {
                let d = &self.devices[self.sel_device];
                match k.key {
                    Key::Char('p') => preset_fits(d),
                    Key::Down | Key::Char('j') => self.cursor_fits(1),
                    Key::Up | Key::Char('k') => self.cursor_fits(-1),
                    Key::Left | Key::Char('h') => {
                        if self.focus == Focus::Detail && self.tab == Tab::Sysfs {
                            self.attr_step_fits(-5)
                        } else {
                            true
                        }
                    },
                    Key::Right | Key::Char('l') => {
                        if self.focus == Focus::Detail && self.tab == Tab::Sysfs {
                            self.attr_step_fits(5)
                        } else {
                            true
                        }
                    },
                    Key::Char(' ') => {
                        if self.tab == Tab::Buttons {
                            let i = self.sel_button;
                            !(i < d.pending_buttons.len() && d.pending_buttons[i] == 0) || i
                                < d.original_buttons.len()
                        } else {
                            true
                        }
                    },
                    _ => true,
                }
            },
        }
    }

    fn commit_fits(&self, target: EditTarget) -> (r: bool)
        requires
            wf(self@),
        ensures
            r == commit_ok(self@, target),
    {
        match target {
            EditTarget::Prop(_) => true,
            EditTarget::Attr(i) => {
                let d = &self.devices[self.sel_device];
                match &d.sysfs {
                    Some(n) => if i < n.attrs.len() {
                        assert(n@.attrs[i as int] == n.attrs[i as int]@);
                        match n.attrs[i].kind {
                            AttrKind::Range(lo, hi) => lo <= hi,
                            AttrKind::Bool => true,
                        }
                    } else {
                        true
                    },
                    None => true,
                }
            },
        }
    }

    fn attr_step_fits(&self, delta: i64) -> (r: bool)
        requires
            wf(self@),
        ensures
            r == adjust_attr_ok(self@, delta),
    {
        let d = &self.devices[self.sel_device];
        match &d.sysfs {
            Some(n) => if self.sel_attr < n.attrs.len() {
                let a = &n.attrs[self.sel_attr];
                assert(n@.attrs[self.sel_attr as int] == a@);
                let kind_fine = match a.kind {
                    AttrKind::Range(lo, hi) => lo <= hi,
                    AttrKind::Bool => true,
                };
                a.can_nudge(delta) && kind_fine
            } else {
                true
            },
            None => true,
        }
    }

    fn cursor_fits(&self, delta: isize) -> (r: bool)
        requires
            wf(self@),
        ensures
            r == move_cursor_ok(self@, delta as int),
    {
        let max = isize::MAX as usize;
        let pos = match self.focus {
            Focus::Devices => self.sel_device,
            Focus::Detail => self.detail_cursor(),
        };
        if pos > max || self.devices.len() > max {
            return false;
        }
        if self.focus == Focus::Detail && self.detail_len() > max {
            return false;
        }
        let sum = pos as i128 + delta as i128;
        -9223372036854775808i128 <= sum && sum <= 9223372036854775807i128 && isize::MIN as i128 <= sum
            && sum <= isize::MAX as i128
    }
}

impl App {
    fn apply_key(&mut self) -> (r: Command)
        requires
            wf(old(self)@),
        ensures
            (final(self)@, r@) == apply_step(old(self)@),
    {
        match self.apply() {
            Err(e) => {
                self.say(e.0, Level::Bad);
                Command::Nothing
            },
            Ok(ApplyRequest::Nothing(m)) => {
                self.say(m, Level::Good);
                Command::Nothing
            },
            Ok(req) => Command::Apply(req),
        }
    }

    fn main_key(&mut self, k: KeyPress) -> (r: Command)
        requires
            old(self).modal is None,
            key_ok(old(self)@, k),
        ensures
            (final(self)@, r@) == main_key_step(old(self)@, k),
    {
        match k.key {
            Key::Char('q') | Key::Esc => {
                self.should_quit = true;
                Command::Nothing
            },
            Key::Char('c') if k.ctrl => {
                self.should_quit = true;
                Command::Nothing
            },
            Key::Char('?') => {
                self.modal = Some(Modal::Help);
                Command::Nothing
            },
            Key::Char('d') => if self.open_detector() {
                Command::StartDetector
            } else {
                Command::Nothing
            },
            Key::Char('m') => if self.open_meter() {
                Command::StartMeter
            } else {
                Command::Nothing
            },
            Key::Char('t') => match self.devices[self.sel_device].id() {
                Some(id) => Command::ToggleEnabled { id },
                None => {
                    self.say(string_of(chars_of("This row has no X device, so there is nothing to enable or disable").as_slice()), Level::Bad);
                    Command::Nothing
                },
            },
            Key::Char('p') => {
                self.apply_drift_preset();
                Command::Nothing
            },
            Key::Char('s') => Command::OpenPersist,
            Key::Char('r') => Command::Refresh,
            Key::Char('a') => self.apply_key(),
            Key::Char('e') => {
                self.open_editor();
                Command::Nothing
            },
            Key::Char('u') => {
                self.reset_buttons();
                Command::Nothing
            },
            Key::Tab => {
                self.tab = self.tab.next();
                self.focus = Focus::Detail;
                Command::Nothing
            },
            Key::BackTab => {
                self.tab = self.tab.prev();
                self.focus = Focus::Detail;
                Command::Nothing
            },
            Key::Down | Key::Char('j') => {
                self.move_cursor(1);
                Command::Nothing
            },
            Key::Up | Key::Char('k') => {
                self.move_cursor(-1);
                Command::Nothing
            },
            Key::Left | Key::Char('h') => match self.focus {
                Focus::Devices => Command::Nothing,
                Focus::Detail => match self.tab {
                    Tab::Buttons => {
                        self.focus = Focus::Devices;
                        Command::Nothing
                    },
                    Tab::Libinput => Command::NudgeProp { up: false },
                    Tab::Sysfs => {
                        self.adjust_attr(-5);
                        Command::Nothing
                    },
                },
            },
            Key::Right | Key::Char('l') => match self.focus {
                Focus::Devices => {
                    self.focus = Focus::Detail;
                    Command::Nothing
                },
                Focus::Detail => match self.tab {
                    Tab::Buttons => Command::Nothing,
                    Tab::Libinput => Command::NudgeProp { up: true },
                    Tab::Sysfs => {
                        self.adjust_attr(5);
                        Command::Nothing
                    },
                },
            },
            Key::Enter => match self.focus {
                Focus::Devices => {
                    self.focus = Focus::Detail;
                    Command::Nothing
                },
                Focus::Detail => self.apply_key(),
            },
            Key::Char(' ') => {
                match self.tab {
                    Tab::Buttons => self.toggle_button(),
                    Tab::Libinput => self.toggle_prop(),
                    Tab::Sysfs => self.toggle_attr(),
                }
                Command::Nothing
            },
            _ => Command::Nothing,
        }
    }

    fn modal_key(&mut self, k: KeyPress) -> (r: Command)
        requires
            old(self).modal is Some,
            key_ok(old(self)@, k),
        ensures
            (final(self)@, r@) == modal_key_step(old(self)@, old(self)@.modal->0, k),
    {
        let m = self.modal.take();
        let ghost a = old(self)@;
        match m {
            Some(Modal::Edit { title, buffer, target }) => match k.key {
                Key::Esc => Command::Nothing,
                Key::Enter => {
                    self.commit_editor(buffer, target);
                    Command::Nothing
                },
                Key::Backspace => {
                    let shorter = without_last(&buffer);
                    self.modal = Some(Modal::Edit { title, buffer: shorter, target });
                    Command::Nothing
                },
                Key::Char(c) => {
                    let mut longer = buffer;
                    push_char(&mut longer, c);
                    self.modal = Some(Modal::Edit { title, buffer: longer, target });
                    Command::Nothing
                },
                _ => {
                    self.modal = Some(Modal::Edit { title, buffer, target });
                    Command::Nothing
                },
            },
            Some(Modal::Password { buffer, error }) => match k.key {
                Key::Esc => {
                    let mut typed = buffer;
                    scrub(&mut typed);
                    self.say(string_of(chars_of("Cancelled \u{2014} nothing was written").as_slice()), Level::Info);
                    Command::Nothing
                },
                Key::Enter => Command::RetryWithPassword(buffer),
                Key::Backspace => {
                    let shorter = without_last(&buffer);
                    let mut typed = buffer;
                    scrub(&mut typed);
                    self.modal = Some(Modal::Password { buffer: shorter, error });
                    Command::Nothing
                },
                Key::Char(c) => {
                    let mut longer = buffer;
                    push_char(&mut longer, c);
                    self.modal = Some(Modal::Password { buffer: longer, error });
                    Command::Nothing
                },
                _ => {
                    self.modal = Some(Modal::Password { buffer, error });
                    Command::Nothing
                },
            },
            Some(Modal::Persist { rule, profile, choice }) => match k.key {
                Key::Esc | Key::Char('q') => Command::Nothing,
                Key::Left | Key::Right | Key::Tab => {
                    self.modal = Some(Modal::Persist { rule, profile, choice: 1 - choice });
                    Command::Nothing
                },
                Key::Enter => {
                    if choice == 0 {
                        let nothing = chars_of("Nothing to persist");
                        if contains_chars(chars_of(rule.as_str()).as_slice(), nothing.as_slice()) {
                            self.say(
                                string_of(chars_of("Nothing has changed, so there is nothing to write").as_slice()),
                                Level::Warn,
                            );
                            Command::Nothing
                        } else {
                            Command::WriteUdev(rule)
                        }
                    } else {
                        Command::WriteProfile
                    }
                },
                _ => {
                    self.modal = Some(Modal::Persist { rule, profile, choice });
                    Command::Nothing
                },
            },
            Some(other) => match k.key {
                Key::Esc | Key::Char('q') => Command::Nothing,
                _ => {
                    self.modal = Some(other);
                    Command::Nothing
                },
            },
            None => Command::Nothing,
        }
    }

    /// Take one key press: change the state as the key says and return the
    /// work it leaves for the caller.
    pub fn handle_key(&mut self, k: KeyPress) -> (r: Command)
        requires
            key_ok(old(self)@, k),
        ensures
            (final(self)@, r@) == key_step(old(self)@, k),
    {
        if self.modal.is_some() {
            self.modal_key(k)
        } else {
            self.main_key(k)
        }
    }
}

/// Whatever key is pressed, the selection still names a device: no key
/// adds or removes rows, and those that move the selection wrap it round.
pub proof fn lemma_key_keeps_selection(a: AppView, k: KeyPress)
    requires
        key_ok(a, k),
    ensures
        wf(key_step(a, k).0),
        key_step(a, k).0.devices.len() == a.devices.len(),
{
}

/// What the system currently holds for a device, as this state last read
/// it: its button map, whether it is on, its properties and its kernel
/// attributes' values and kinds.
pub open spec fn live_same(a: DeviceView, b: DeviceView) -> bool {
    &&& b.buttons == a.buttons
    &&& b.enabled == a.enabled
    &&& b.props.len() == a.props.len()
    &&& forall|j: int| 0 <= j < a.props.len() ==> (#[trigger] b.props[j]).prop == a.props[j].prop
    &&& b.sysfs is Some == a.sysfs is Some
    &&& a.sysfs is Some ==> {
        let (m, n) = (a.sysfs->0, b.sysfs->0);
        &&& n.path == m.path
        &&& n.attrs.len() == m.attrs.len()
        &&& forall|j: int| 0 <= j < m.attrs.len() ==> (#[trigger] n.attrs[j]).value == m.attrs[j].value
            && n.attrs[j].kind == m.attrs[j].kind
    }
}

/// Keys only stage. Whatever key is pressed, every device keeps the live
/// values it was read with: button maps, on/off state, properties and
/// attribute values change only through the work a key hands back, never
/// through the key itself.
#[verifier::rlimit(40)]
pub proof fn lemma_keys_only_stage(a: AppView, k: KeyPress, i: int)
    requires
        key_ok(a, k),
        0 <= i < a.devices.len(),
    ensures
        live_same(a.devices[i], key_step(a, k).0.devices[i]),
{
    let b = key_step(a, k).0;
    lemma_live_same_refl(a.devices[i]);
    match a.modal {
        Some(m) => match m {
            ModalView::Edit { title, buffer, target } => {
                if k.key == Key::Enter {
                    lemma_commit_stages(closed(a), buffer, target, i);
                }
            },
            _ => {},
        },
        None => {
            if k.key == Key::Char('p') {
                lemma_preset_stages(a, i);
            } else if k.key == Key::Char(' ') {
                lemma_toggles_stage(a, i);
            } else if k.key == Key::Left || k.key == Key::Char('h') {
                lemma_adjust_stages(a, -5i64, i);
            } else if k.key == Key::Right || k.key == Key::Char('l') {
                lemma_adjust_stages(a, 5i64, i);
            } else if k.key == Key::Char('u') {
                lemma_stage_device(a, DeviceView { pending_buttons: sel(a).original_buttons, ..sel(a) }, i);
            }
        },
    }
}

proof fn lemma_live_same_refl(d: DeviceView)
    ensures
        live_same(d, d),
{
}

/// Putting back a device with the same live values changes no device's
/// live values.
proof fn lemma_stage_device(a: AppView, d: DeviceView, i: int)
    requires
        wf(a),
        live_same(sel(a), d),
        0 <= i < a.devices.len(),
    ensures
        live_same(a.devices[i], with_device(a, d).devices[i]),
{
    if i != a.sel_device {
        lemma_live_same_refl(a.devices[i]);
    }
}

proof fn lemma_stage_attr(a: AppView, attr: AttrView, i: int)
    requires
        wf(a),
        selected_attr(a) is Some,
        attr.value == selected_attr(a)->0.value,
        attr.kind == selected_attr(a)->0.kind,
        0 <= i < a.devices.len(),
    ensures
        live_same(a.devices[i], with_attr(a, attr).devices[i]),
{
    let d = sel(a);
    let n = d.sysfs->0;
    let n2 = NodeView { attrs: n.attrs.update(a.sel_attr as int, attr), ..n };
    assert(live_same(d, DeviceView { sysfs: Some(n2), ..d }));
    lemma_stage_device(a, DeviceView { sysfs: Some(n2), ..d }, i);
}

proof fn lemma_stage_row(a: AppView, j: int, pending: Seq<Seq<char>>, i: int)
    requires
        wf(a),
        0 <= j < sel(a).props.len(),
        0 <= i < a.devices.len(),
    ensures
        live_same(a.devices[i], with_row_pending(a, j, pending).devices[i]),
{
    let d = sel(a);
    let d2 = DeviceView { props: d.props.update(j, PropRowView { pending, ..d.props[j] }), ..d };
    assert(live_same(d, d2));
    lemma_stage_device(a, d2, i);
}

proof fn lemma_adjust_stages(a: AppView, delta: i64, i: int)
    requires
        wf(a),
        0 <= i < a.devices.len(),
    ensures
        live_same(a.devices[i], adjust_attr_spec(a, delta).devices[i]),
{
    lemma_live_same_refl(a.devices[i]);
    match selected_attr(a) {
        Some(attr) => lemma_stage_attr(a, AttrView { pending: nudged(attr, delta), ..attr }, i),
        None => {},
    }
}

proof fn lemma_toggles_stage(a: AppView, i: int)
    requires
        wf(a),
        a.tab == Tab::Buttons ==> toggle_button_ok(a),
        0 <= i < a.devices.len(),
    ensures
        live_same(a.devices[i], main_key_step(a, KeyPress { key: Key::Char(' '), ctrl: false }).0.devices[i]),
{
    lemma_live_same_refl(a.devices[i]);
    match a.tab {
        Tab::Buttons => {
            let d = sel(a);
            let j = a.sel_button as int;
            if j < d.pending_buttons.len() {
                let p = if d.pending_buttons[j] == 0 {
                    d.pending_buttons.update(j, d.original_buttons[j])
                } else {
                    d.pending_buttons.update(j, 0u8)
                };
                lemma_stage_device(a, DeviceView { pending_buttons: p, ..d }, i);
            }
        },
        Tab::Libinput => {
            if selected_row_is_bool(a) {
                let j = a.sel_prop as int;
                lemma_stage_row(a, j, flipped(sel(a).props[j].pending), i);
            }
        },
        Tab::Sysfs => {
            match selected_attr(a) {
                Some(attr) => if attr.kind == AttrKind::Bool {
                    lemma_stage_attr(a, AttrView { pending: toggled(attr), ..attr }, i);
                },
                None => {},
            }
        },
    }
}

proof fn lemma_preset_stages(a: AppView, i: int)
    requires
        wf(a),
        0 <= i < a.devices.len(),
    ensures
        live_same(a.devices[i], drift_preset_spec(a).devices[i]),
{
    lemma_live_same_refl(a.devices[i]);
    match sel(a).sysfs {
        Some(n) => {
            let d = sel(a);
            let n2 = NodeView { attrs: preset_attrs(n.attrs), ..n };
            assert forall|j: int| 0 <= j < n.attrs.len() implies (#[trigger] n2.attrs[j]).value
                == n.attrs[j].value && n2.attrs[j].kind == n.attrs[j].kind by {
                assert(n2.attrs[j] == preset_step(n.attrs[j]).0);
            }
            assert(live_same(d, DeviceView { sysfs: Some(n2), ..d }));
            lemma_stage_device(a, DeviceView { sysfs: Some(n2), ..d }, i);
        },
        None => {},
    }
}

proof fn lemma_commit_stages(a: AppView, buffer: Seq<char>, target: EditTarget, i: int)
    requires
        wf(a),
        0 <= i < a.devices.len(),
    ensures
        live_same(a.devices[i], commit_editor_spec(a, buffer, target).devices[i]),
{
    lemma_live_same_refl(a.devices[i]);
    match target {
        EditTarget::Prop(index) => {
            let j = index as int;
            if j < sel(a).props.len() {
                lemma_stage_row(a, j, words(buffer), i);
            }
        },
        EditTarget::Attr(index) => {
            let b = AppView { sel_attr: index, ..a };
            match selected_attr(b) {
                Some(attr) => {
                    let typed = AttrView { pending: trim(buffer), ..attr };
                    lemma_stage_attr(b, AttrView { pending: nudged(typed, 0), ..attr }, i);
                },
                None => {},
            }
        },
    }
}

/// Nothing reaches the system behind the user's back: a key asks for the
/// staged values to be applied only when it is `a`, or Enter in the detail
/// pane, with no panel open; it asks for a file to be written only when it
/// is Enter on the save panel; and it hands a password on only when it is
/// Enter on the password prompt.
pub proof fn lemma_writes_need_asking(a: AppView, k: KeyPress)
    ensures
        key_step(a, k).1 is Apply ==> a.modal is None && (k.key == Key::Char('a') || (k.key == Key::Enter
            && a.focus == Focus::Detail)),
        (key_step(a, k).1 is WriteUdev || key_step(a, k).1 is WriteProfile) ==> k.key == Key::Enter
            && a.modal matches Some(ModalView::Persist { .. }),
        key_step(a, k).1 is RetryWithPassword ==> k.key == Key::Enter && a.modal matches Some(
            ModalView::Password { .. },
        ),
{
}

/// Every attribute keeps its kind, so a state whose kinds are proper
/// ranges stays that way whatever keys are pressed.
pub proof fn lemma_keys_keep_kinds(a: AppView, k: KeyPress)
    requires
        key_ok(a, k),
        kinds_ok(a),
    ensures
        kinds_ok(key_step(a, k).0),
{
    let b = key_step(a, k).0;
    lemma_key_keeps_selection(a, k);
    assert forall|p: int, j: int|
        0 <= p < b.devices.len() && b.devices[p].sysfs is Some && 0 <= j < b.devices[p].sysfs->0.attrs.len()
            implies kind_ok(#[trigger] b.devices[p].sysfs->0.attrs[j].kind) by {
        lemma_keys_only_stage(a, k, p);
        assert(kind_ok(a.devices[p].sysfs->0.attrs[j].kind));
    }
}

} // verus!
