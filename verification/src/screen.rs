//! The words the interface puts on screen: what each row says about a
//! device, and the shell command that does what the selected setting does.
//! Colours and layout are the front end's business; the text is decided here.
use vstd::prelude::*;

use crate::app::{device_id, sel, selected_attr, wf, App, AppView, Device, DeviceView, Focus, Tab};
use crate::num::{decimal, decimal_int, decimal_i64, decimal_u64};
use crate::sysfs::AttrKind;
use crate::text::{chars_of, concat, join, join_chars, starts_with, starts_with_chars, slice_chars, string_of, views};
use crate::xinput::{
    button_map_command, button_map_command_text, set_enabled_command, set_enabled_command_text,
    set_prop_command, set_prop_command_text,
};

verus! {

/// The line under the detail panel: a title for it and the command.
pub struct Hint {
    pub title: String,
    pub command: String,
}

pub open spec fn hint_of(a: AppView) -> (Seq<char>, Seq<char>) {
    let d = sel(a);
    if a.focus == Focus::Devices && device_id(d) is Some {
        // With the device list focused the action in reach is the on/off
        // toggle, so that is the command to show.
        (" what t would run "@, set_enabled_command_text(d.name, !d.enabled))
    } else {
        (
            " equivalent command "@,
            match a.tab {
                Tab::Buttons => if d.pending_buttons.len() > 0 {
                    button_map_command_text(d.name, d.pending_buttons)
                } else {
                    Seq::empty()
                },
                Tab::Libinput => if a.sel_prop < d.props.len() {
                    let row = d.props[a.sel_prop as int];
                    set_prop_command_text(d.name, row.prop.name, row.pending)
                } else {
                    Seq::empty()
                },
                Tab::Sysfs => match selected_attr(a) {
                    Some(at) => "echo "@ + at.pending + " | sudo tee "@ + at.path,
                    None => Seq::empty(),
                },
            },
        )
    }
}


/// The tags under a device's name in the list.
pub open spec fn device_tags_of(d: DeviceView) -> Seq<char> {
    let id: Seq<Seq<char>> = match device_id(d) {
        Some(id) => seq!["id "@ + decimal(id as nat)],
        None => seq![],
    };
    let buttons: Seq<Seq<char>> = if d.buttons.len() > 0 {
        seq![decimal(d.buttons.len()) + " buttons"@]
    } else {
        seq![]
    };
    let sysfs: Seq<Seq<char>> = if d.sysfs is Some {
        seq!["sysfs"@]
    } else {
        seq![]
    };
    "  "@ + join(id + buttons + sysfs, " \u{b7} "@)
}

/// The detail panel's title: the device's name, marked when it is off.
pub open spec fn detail_title_of(d: DeviceView) -> Seq<char> {
    if d.enabled {
        d.name
    } else {
        d.name + " \u{2014} disabled"@
    }
}

/// The range column of an attribute row.
pub open spec fn range_text_of(k: AttrKind) -> Seq<char> {
    match k {
        AttrKind::Range(lo, hi) => decimal_int(lo as int) + "\u{2013}"@ + decimal_int(hi as int),
        AttrKind::Bool => "0/1"@,
    }
}

/// A property's name without the `libinput ` every one of them starts with,
/// removed as often as it repeats.
pub open spec fn prop_label_of(name: Seq<char>) -> Seq<char>
    decreases name.len(),
{
    if name.len() >= 9 && starts_with(name, "libinput "@) {
        prop_label_of(name.skip(9))
    } else {
        name
    }
}

/// What a button row says after its target when the staged target differs
/// from the live one.
pub open spec fn staged_note_of(d: DeviceView, i: int) -> Option<Seq<char>> {
    let target = d.pending_buttons[i];
    let live = if i < d.buttons.len() {
        d.buttons[i]
    } else {
        target
    };
    if target != live {
        Some("   (staged, live: "@ + decimal(live as nat) + ")"@)
    } else {
        None
    }
}

impl App {
    /// The command under the detail panel, with the panel line's title.
    pub fn hint(&self) -> (h: Hint)
        requires
            wf(self@),
        ensures
            (h.title@, h.command@) == hint_of(self@),
    {
        let d = &self.devices[self.sel_device];
        if self.focus == Focus::Devices && d.id().is_some() {
            return Hint {
                title: string_of(chars_of(" what t would run ").as_slice()),
                command: set_enabled_command(d.name.as_str(), !d.enabled),
            };
        }
        let command = match self.tab {
            Tab::Buttons => if d.pending_buttons.len() > 0 {
                button_map_command(d.name.as_str(), d.pending_buttons.as_slice())
            } else {
                String::new()
            },
            Tab::Libinput => if self.sel_prop < d.props.len() {
                let row = &d.props[self.sel_prop];
                assert(d@.props[self.sel_prop as int] == row@);
                set_prop_command(d.name.as_str(), row.prop.name.as_str(), row.pending.as_slice())
            } else {
                String::new()
            },
            Tab::Sysfs => match &d.sysfs {
                Some(n) => if self.sel_attr < n.attrs.len() {
                    let at = &n.attrs[self.sel_attr];
                    assert(n@.attrs[self.sel_attr as int] == at@);
                    let a = concat(chars_of("echo ").as_slice(), chars_of(at.pending.as_str()).as_slice());
                    let b = concat(a.as_slice(), chars_of(" | sudo tee ").as_slice());
                    let c = concat(b.as_slice(), chars_of(at.path.as_str()).as_slice());
                    string_of(c.as_slice())
                } else {
                    String::new()
                },
                None => String::new(),
            },
        };
        Hint { title: string_of(chars_of(" equivalent command ").as_slice()), command }
    }
}

impl Device {
    /// The tags under the device's name: its X id, how many buttons it has
    /// and whether it has kernel-side tuning.
    pub fn tags(&self) -> (r: String)
        ensures
            r@ == device_tags_of(self@),
    {
        let mut parts: Vec<Vec<char>> = Vec::new();
        let ghost mut want: Seq<Seq<char>> = seq![];
        match self.id() {
            Some(id) => {
                parts.push(concat(chars_of("id ").as_slice(), decimal_u64(id as u64).as_slice()));
                proof {
                    want = seq!["id "@ + decimal(id as nat)];
                }
            },
            None => {},
        }
        assert(views(parts@) =~= want);
        if self.buttons.len() > 0 {
            let ghost before = parts@;
            parts.push(concat(decimal_u64(self.buttons.len() as u64).as_slice(), chars_of(" buttons").as_slice()));
            proof {
                want = want + seq![decimal(self@.buttons.len()) + " buttons"@];
            }
            assert(views(parts@) =~= views(before).push(parts@.last()@));
        }
        assert(views(parts@) =~= want);
        if self.sysfs.is_some() {
            let ghost before = parts@;
            parts.push(chars_of("sysfs"));
            proof {
                want = want + seq!["sysfs"@];
            }
            assert(views(parts@) =~= views(before).push(parts@.last()@));
        }
        assert(views(parts@) =~= want);
        let ghost d = self@;
        let ghost id_part: Seq<Seq<char>> = match device_id(d) {
            Some(id) => seq!["id "@ + decimal(id as nat)],
            None => seq![],
        };
        let ghost b_part: Seq<Seq<char>> = if d.buttons.len() > 0 {
            seq![decimal(d.buttons.len()) + " buttons"@]
        } else {
            seq![]
        };
        let ghost s_part: Seq<Seq<char>> = if d.sysfs is Some {
            seq!["sysfs"@]
        } else {
            seq![]
        };
        assert(want =~= id_part + b_part + s_part);
        let joined = join_chars(&parts, chars_of(" \u{b7} ").as_slice());
        string_of(concat(chars_of("  ").as_slice(), joined.as_slice()).as_slice())
    }

    /// The detail panel's title.
    pub fn detail_title(&self) -> (r: String)
        ensures
            r@ == detail_title_of(self@),
    {
        if self.enabled {
            string_of(chars_of(self.name.as_str()).as_slice())
        } else {
            let t = concat(chars_of(self.name.as_str()).as_slice(), chars_of(" \u{2014} disabled").as_slice());
            string_of(t.as_slice())
        }
    }

    /// The note a button row carries while its staged target differs from
    /// the live one.
    pub fn staged_note(&self, i: usize) -> (r: Option<String>)
        requires
            i < self.pending_buttons.len(),
        ensures
            match staged_note_of(self@, i as int) {
                Some(t) => r matches Some(s) && s@ == t,
                None => r is None,
            },
    {
        let target = self.pending_buttons[i];
        let live = if i < self.buttons.len() {
            self.buttons[i]
        } else {
            target
        };
        if target != live {
            let a = concat(chars_of("   (staged, live: ").as_slice(), decimal_u64(live as u64).as_slice());
            let b = concat(a.as_slice(), chars_of(")").as_slice());
            Some(string_of(b.as_slice()))
        } else {
            None
        }
    }
}

/// The range column of an attribute row: `lo–hi`, or `0/1` for a switch.
pub fn range_text(k: AttrKind) -> (r: String)
    ensures
        r@ == range_text_of(k),
{
    match k {
        AttrKind::Range(lo, hi) => {
            let a = concat(decimal_i64(lo).as_slice(), chars_of("\u{2013}").as_slice());
            let b = concat(a.as_slice(), decimal_i64(hi).as_slice());
            string_of(b.as_slice())
        },
        AttrKind::Bool => string_of(chars_of("0/1").as_slice()),
    }
}

/// A property's name as the libinput tab lists it.
pub fn prop_label(name: &str) -> (r: String)
    ensures
        r@ == prop_label_of(name@),
{
    let prefix = chars_of("libinput ");
    proof {
        reveal_strlit("libinput ");
    }
    let mut rest = chars_of(name);
    while rest.len() >= 9 && starts_with_chars(rest.as_slice(), prefix.as_slice())
        invariant
            prefix@ == "libinput "@,
            prop_label_of(rest@) == prop_label_of(name@),
        decreases rest.len(),
    {
        rest = slice_chars(rest.as_slice(), 9, rest.len());
    }
    string_of(rest.as_slice())
}

/// The password prompt's echo: one dot for each character typed, so the
/// length shows and the text does not.
pub fn masked(typed: &str) -> (r: String)
    ensures
        r@ == Seq::new(typed@.len(), |i: int| '\u{2022}'),
{
    let n = chars_of(typed).len();
    let mut out: Vec<char> = Vec::new();
    let mut i: usize = 0;
    while i < n
        invariant
            i <= n,
            n == typed@.len(),
            out@ == Seq::new(i as nat, |j: int| '\u{2022}'),
        decreases n - i,
    {
        out.push('\u{2022}');
        assert(out@ =~= Seq::new((i + 1) as nat, |j: int| '\u{2022}'));
        i += 1;
    }
    string_of(out.as_slice())
}

} // verus!
