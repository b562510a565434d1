//! The psmouse/trackpoint knobs under /sys: which attributes a serio node
//! offers, their staged values, and the shell lines that write them as root.
//!
//! Which attributes exist depends on the TrackPoint variant. The kernel's
//! trackpoint driver only exposes the full set (drift_time, inertia, thresh,
//! and friends) for genuine IBM sticks; Elan, ALPS and NXP variants get just
//! `sensitivity` and `press_to_select`. That is why a node is built from what
//! is present rather than from a fixed list. Reading the files is the
//! caller's business; what they held is handed in.
use vstd::prelude::*;

use crate::error::{ensure_shell_safe, Error, Result, NEEDS_PASSWORD};
use crate::num::{decimal_i64, decimal_int, parse_i64, parse_i64_exec};
use crate::text::{
    chars_of, concat, contains, contains_chars, split, split_chars, starts_with, starts_with_chars,
    str_eq, string_of, trim, trim_chars, views,
};
use crate::xinput::{string_views, utf8_lossy, lossy_text};

verus! {

#[derive(Debug, Clone, Copy, PartialEq, Eq, Structural)]
pub enum AttrKind {
    Range(i64, i64),
    Bool,
}

/// The bounds a kind allows: its range, or 0 and 1.
pub open spec fn kind_bounds(k: AttrKind) -> (int, int) {
    match k {
        AttrKind::Range(lo, hi) => (lo as int, hi as int),
        AttrKind::Bool => (0, 1),
    }
}

/// A range whose low end is not above its high end; `i64::clamp` panics on
/// any other.
pub open spec fn kind_ok(k: AttrKind) -> bool {
    kind_bounds(k).0 <= kind_bounds(k).1
}

#[derive(Debug)]
pub struct Attr {
    pub name: String,
    pub help: &'static str,
    pub kind: AttrKind,
    /// Value as it currently reads from the kernel.
    pub value: String,
    /// Value as it read when the tool started — what "changed" is measured
    /// against, and what decides whether an attribute is worth persisting.
    pub original: String,
    /// Staged value, applied when the user presses `a`.
    pub pending: String,
    /// Whether this process can write it without elevation.
    pub writable_directly: bool,
    pub path: String,
}

pub struct AttrView {
    pub name: Seq<char>,
    pub help: Seq<char>,
    pub kind: AttrKind,
    pub value: Seq<char>,
    pub original: Seq<char>,
    pub pending: Seq<char>,
    pub writable_directly: bool,
    pub path: Seq<char>,
}

impl View for Attr {
    type V = AttrView;

    open spec fn view(&self) -> AttrView {
        AttrView {
            name: self.name@,
            help: self.help@,
            kind: self.kind,
            value: self.value@,
            original: self.original@,
            pending: self.pending@,
            writable_directly: self.writable_directly,
            path: self.path@,
        }
    }
}

impl Clone for Attr {
    fn clone(&self) -> (r: Self)
        ensures
            r@ == self@,
    {
        Attr {
            name: self.name.clone(),
            help: self.help,
            kind: self.kind,
            value: self.value.clone(),
            original: self.original.clone(),
            pending: self.pending.clone(),
            writable_directly: self.writable_directly,
            path: self.path.clone(),
        }
    }
}

/// The staged value read as a whole number, as `as_int` gives it.
pub open spec fn pending_int(a: AttrView) -> Option<i64> {
    parse_i64(trim(a.pending))
}

/// The staged value `nudge` leaves: the current one (or the low bound when
/// it does not read as a number) moved by `delta` and clamped to the kind's
/// bounds.
pub open spec fn nudged(a: AttrView, delta: i64) -> Seq<char> {
    let (lo, hi) = kind_bounds(a.kind);
    let current = match pending_int(a) {
        Some(v) => v as int,
        None => lo,
    };
    let next = current + delta;
    decimal_int(
        if next < lo {
            lo
        } else if next > hi {
            hi
        } else {
            next
        },
    )
}

/// Moving by `delta` stays within `i64`; outside that the sum overflows.
pub open spec fn nudge_fits(a: AttrView, delta: i64) -> bool {
    let lo = kind_bounds(a.kind).0;
    let current = match pending_int(a) {
        Some(v) => v as int,
        None => lo,
    };
    i64::MIN <= current + delta <= i64::MAX
}

/// The staged value `toggle` leaves on an on/off attribute.
pub open spec fn toggled(a: AttrView) -> Seq<char> {
    let current = match pending_int(a) {
        Some(v) => v as int,
        None => 0,
    };
    if current == 0 {
        "1"@
    } else {
        "0"@
    }
}

impl Attr {
    /// Staged but not yet written to the kernel.
    pub fn is_dirty(&self) -> (r: bool)
        ensures
            r == (self.pending@ != self.value@),
    {
        !str_eq(self.pending.as_str(), self.value.as_str())
    }

    /// Differs from how the machine booted, so worth writing into a udev rule.
    pub fn is_customised(&self) -> (r: bool)
        ensures
            r == (self.pending@ != self.original@),
    {
        !str_eq(self.pending.as_str(), self.original.as_str())
    }

    pub fn as_int(&self) -> (r: Option<i64>)
        ensures
            r == pending_int(self@),
    {
        parse_i64_exec(trim_chars(chars_of(self.pending.as_str()).as_slice()).as_slice())
    }

    /// Whether `nudge(delta)` stays clear of overflow.
    pub fn can_nudge(&self, delta: i64) -> (r: bool)
        ensures
            r == nudge_fits(self@, delta),
    {
        let lo = match self.kind {
            AttrKind::Range(lo, _) => lo,
            AttrKind::Bool => 0,
        };
        let current = match self.as_int() {
            Some(v) => v,
            None => lo,
        };
        let sum = current as i128 + delta as i128;
        -9223372036854775808i128 <= sum && sum <= 9223372036854775807i128
    }

    pub fn nudge(&mut self, delta: i64)
        requires
            kind_ok(old(self).kind),
            nudge_fits(old(self)@, delta),
        ensures
            final(self)@ == (AttrView { pending: nudged(old(self)@, delta), ..old(self)@ }),
    {
        let (lo, hi) = match self.kind {
            AttrKind::Range(lo, hi) => (lo, hi),
            AttrKind::Bool => (0i64, 1i64),
        };
        let current = match self.as_int() {
            Some(v) => v,
            None => lo,
        };
        let sum = current + delta;
        let next = if sum < lo {
            lo
        } else if sum > hi {
            hi
        } else {
            sum
        };
        self.pending = string_of(decimal_i64(next).as_slice());
    }

    pub fn toggle(&mut self)
        ensures
            old(self).kind == AttrKind::Bool ==> final(self)@ == (AttrView {
                pending: toggled(old(self)@),
                ..old(self)@
            }),
            old(self).kind != AttrKind::Bool ==> final(self)@ == old(self)@,
    {
        if self.kind == AttrKind::Bool {
            let current = match self.as_int() {
                Some(v) => v,
                None => 0,
            };
            self.pending = string_of(
                chars_of(
                    if current == 0 {
                        "1"
                    } else {
                        "0"
                    },
                ).as_slice(),
            );
        }
    }
}

/// Staging a nudge and clamping agree: whatever the staged text was, a
/// nudge leaves a number inside the kind's bounds.
pub proof fn lemma_nudge_in_bounds(a: AttrView, delta: i64)
    requires
        kind_ok(a.kind),
        nudge_fits(a, delta),
    ensures
        ({
            let b = AttrView { pending: nudged(a, delta), ..a };
            &&& pending_int(b) is Some
            &&& kind_bounds(a.kind).0 <= pending_int(b)->0 <= kind_bounds(a.kind).1
        }),
{
    let (lo, hi) = kind_bounds(a.kind);
    let current = match pending_int(a) {
        Some(v) => v as int,
        None => lo,
    };
    let next = current + delta;
    let c = if next < lo {
        lo
    } else if next > hi {
        hi
    } else {
        next
    };
    lemma_trim_decimal(c as i64);
    crate::num::lemma_parse_decimal_i64(c as i64);
}

/// Printed numbers carry no surrounding whitespace.
pub proof fn lemma_trim_decimal(v: i64)
    ensures
        trim(decimal_int(v as int)) == decimal_int(v as int),
{
    let s = decimal_int(v as int);
    if v < 0 {
        crate::num::lemma_decimal_digits((-(v as int)) as nat);
        let d = crate::num::decimal((-(v as int)) as nat);
        assert(s.last() == d.last());
        assert(crate::num::is_digit(d[d.len() - 1]));
    } else {
        crate::num::lemma_decimal_digits(v as nat);
        assert(crate::num::is_digit(s[0]));
        assert(crate::num::is_digit(s[s.len() - 1]));
    }
    assert(!crate::text::is_ws(s[0]));
    assert(!crate::text::is_ws(s.last()));
}

/// Nudging by nothing clamps a staged value into range and leaves one that
/// is already in range as it reads.
pub proof fn lemma_nudge_zero_keeps_in_range(a: AttrView)
    requires
        kind_ok(a.kind),
        pending_int(a) is Some,
        kind_bounds(a.kind).0 <= pending_int(a)->0 <= kind_bounds(a.kind).1,
    ensures
        nudged(a, 0) == decimal_int(pending_int(a)->0 as int),
{
}

/// Toggling an on/off attribute twice from a staged `0` or `1` gives back
/// the value it started with.
pub proof fn lemma_toggle_twice(a: AttrView)
    requires
        a.pending == "0"@ || a.pending == "1"@,
    ensures
        toggled(AttrView { pending: toggled(a), ..a }) == a.pending,
{
    reveal_strlit("0");
    reveal_strlit("1");
    let z: Seq<char> = "0"@;
    let o: Seq<char> = "1"@;
    assert(crate::num::is_digit(z[0]));
    assert(crate::num::is_digit(o[0]));
    assert(trim(z) == z) by {
        assert(!crate::text::is_ws(z[0]));
    }
    assert(trim(o) == o) by {
        assert(!crate::text::is_ws(o[0]));
    }
    assert(z.drop_last() =~= Seq::<char>::empty());
    assert(o.drop_last() =~= Seq::<char>::empty());
    assert(crate::num::digits_value(Seq::<char>::empty()) == 0);
    assert(z.last() == z[0]);
    assert(o.last() == o[0]);
    assert(crate::num::digits_value(z) == crate::num::digits_value(z.drop_last()) * 10
        + crate::num::digit_val(z.last()));
    assert(crate::num::digits_value(o) == crate::num::digits_value(o.drop_last()) * 10
        + crate::num::digit_val(o.last()));
    assert(crate::num::digits_value(z) == 0);
    assert(crate::num::digits_value(o) == 1);
    assert(crate::num::unsigned_body(z) == z);
    assert(crate::num::unsigned_body(o) == o);
}

// ---- Known attributes ----------------------------------------------------

/// Attributes we know how to describe, in the order we want to show them.
/// Anything not listed here is ignored, which keeps `uevent`, `modalias` and
/// the other plumbing files out of the UI.
pub struct KnownAttr {
    pub name: &'static str,
    pub help: &'static str,
    pub kind: AttrKind,
}

pub const KNOWN_COUNT: usize = 18;

/// The name, help text and kind of the `i`th known attribute.
pub open spec fn known(i: int) -> (Seq<char>, Seq<char>, AttrKind) {
    if i == 0 {
        ("sensitivity"@, "Force needed to move the pointer. Lower values reduce visible drift."@, AttrKind::Range(0, 255))
    } else if i == 1 {
        ("speed"@, "Pointer speed multiplier applied inside the device."@, AttrKind::Range(0, 255))
    } else if i == 2 {
        ("press_to_select"@, "Tapping the stick acts as a click."@, AttrKind::Bool)
    } else if i == 3 {
        ("drift_time"@, "Drift-correction window in ~20ms units. IBM TrackPoints only."@, AttrKind::Range(0, 255))
    } else if i == 4 {
        ("inertia"@, "Negative inertia factor: how sharply motion decays."@, AttrKind::Range(0, 255))
    } else if i == 5 {
        ("reach"@, "Backup range for the press-to-select gesture."@, AttrKind::Range(0, 255))
    } else if i == 6 {
        ("draghys"@, "Drag hysteresis: resistance before a drag starts."@, AttrKind::Range(0, 255))
    } else if i == 7 {
        ("mindrag"@, "Minimum force that will sustain a drag."@, AttrKind::Range(0, 255))
    } else if i == 8 {
        ("thresh"@, "Movement threshold before the stick reports anything."@, AttrKind::Range(0, 255))
    } else if i == 9 {
        ("upthresh"@, "Force threshold for press-to-select."@, AttrKind::Range(0, 255))
    } else if i == 10 {
        ("ztime"@, "Timing window for press-to-select."@, AttrKind::Range(0, 255))
    } else if i == 11 {
        ("jenks"@, "Jenks curvature: shape of the force-to-speed curve."@, AttrKind::Range(0, 255))
    } else if i == 12 {
        ("skipback"@, "Suppress the backup movement after a press-to-select."@, AttrKind::Bool)
    } else if i == 13 {
        ("ext_dev"@, "External pointing device passthrough."@, AttrKind::Bool)
    } else if i == 14 {
        ("rate"@, "PS/2 report rate in Hz."@, AttrKind::Range(0, 200))
    } else if i == 15 {
        ("resolution"@, "PS/2 resolution in counts per millimetre."@, AttrKind::Range(0, 8))
    } else if i == 16 {
        ("resetafter"@, "Reset the device after this many bad packets. 0 disables."@, AttrKind::Range(0, 255))
    } else {
        ("resync_time"@, "Seconds before psmouse tries to resync a wedged device."@, AttrKind::Range(0, 255))
    }
}

/// The `i`th known attribute.
pub fn known_attr(i: usize) -> (r: KnownAttr)
    requires
        i < KNOWN_COUNT,
    ensures
        (r.name@, r.help@, r.kind) == known(i as int),
{
    if i == 0 {
        KnownAttr { name: "sensitivity", help: "Force needed to move the pointer. Lower values reduce visible drift.", kind: AttrKind::Range(0, 255) }
    } else if i == 1 {
        KnownAttr { name: "speed", help: "Pointer speed multiplier applied inside the device.", kind: AttrKind::Range(0, 255) }
    } else if i == 2 {
        KnownAttr { name: "press_to_select", help: "Tapping the stick acts as a click.", kind: AttrKind::Bool }
    } else if i == 3 {
        KnownAttr { name: "drift_time", help: "Drift-correction window in ~20ms units. IBM TrackPoints only.", kind: AttrKind::Range(0, 255) }
    } else if i == 4 {
        KnownAttr { name: "inertia", help: "Negative inertia factor: how sharply motion decays.", kind: AttrKind::Range(0, 255) }
    } else if i == 5 {
        KnownAttr { name: "reach", help: "Backup range for the press-to-select gesture.", kind: AttrKind::Range(0, 255) }
    } else if i == 6 {
        KnownAttr { name: "draghys", help: "Drag hysteresis: resistance before a drag starts.", kind: AttrKind::Range(0, 255) }
    } else if i == 7 {
        KnownAttr { name: "mindrag", help: "Minimum force that will sustain a drag.", kind: AttrKind::Range(0, 255) }
    } else if i == 8 {
        KnownAttr { name: "thresh", help: "Movement threshold before the stick reports anything.", kind: AttrKind::Range(0, 255) }
    } else if i == 9 {
        KnownAttr { name: "upthresh", help: "Force threshold for press-to-select.", kind: AttrKind::Range(0, 255) }
    } else if i == 10 {
        KnownAttr { name: "ztime", help: "Timing window for press-to-select.", kind: AttrKind::Range(0, 255) }
    } else if i == 11 {
        KnownAttr { name: "jenks", help: "Jenks curvature: shape of the force-to-speed curve.", kind: AttrKind::Range(0, 255) }
    } else if i == 12 {
        KnownAttr { name: "skipback", help: "Suppress the backup movement after a press-to-select.", kind: AttrKind::Bool }
    } else if i == 13 {
        KnownAttr { name: "ext_dev", help: "External pointing device passthrough.", kind: AttrKind::Bool }
    } else if i == 14 {
        KnownAttr { name: "rate", help: "PS/2 report rate in Hz.", kind: AttrKind::Range(0, 200) }
    } else if i == 15 {
        KnownAttr { name: "resolution", help: "PS/2 resolution in counts per millimetre.", kind: AttrKind::Range(0, 8) }
    } else if i == 16 {
        KnownAttr { name: "resetafter", help: "Reset the device after this many bad packets. 0 disables.", kind: AttrKind::Range(0, 255) }
    } else {
        KnownAttr { name: "resync_time", help: "Seconds before psmouse tries to resync a wedged device.", kind: AttrKind::Range(0, 255) }
    }
}

/// Every known attribute's kind is a well-formed range.
pub proof fn lemma_known_kinds_ok(i: int)
    ensures
        kind_ok(known(i).2),
{
}

// ---- Nodes ---------------------------------------------------------------

#[derive(Debug)]
pub struct Node {
    pub path: String,
    pub description: String,
    pub firmware_id: String,
    /// Names of the input devices this serio node produces, e.g.
    /// "TPPS/2 Elan TrackPoint". Used to recognise a node as belonging to a
    /// device already listed by xinput, even when the X server is no longer
    /// reporting a device node for it.
    pub input_names: Vec<String>,
    pub attrs: Vec<Attr>,
}

pub struct NodeView {
    pub path: Seq<char>,
    pub description: Seq<char>,
    pub firmware_id: Seq<char>,
    pub input_names: Seq<Seq<char>>,
    pub attrs: Seq<AttrView>,
}

pub open spec fn attr_views(v: Seq<Attr>) -> Seq<AttrView> {
    Seq::new(v.len(), |i: int| v[i]@)
}

impl View for Node {
    type V = NodeView;

    open spec fn view(&self) -> NodeView {
        NodeView {
            path: self.path@,
            description: self.description@,
            firmware_id: self.firmware_id@,
            input_names: string_views(self.input_names@),
            attrs: attr_views(self.attrs@),
        }
    }
}

pub fn clone_attrs(v: &Vec<Attr>) -> (r: Vec<Attr>)
    ensures
        attr_views(r@) == attr_views(v@),
{
    let mut out: Vec<Attr> = Vec::new();
    let mut i: usize = 0;
    while i < v.len()
        invariant
            i <= v.len(),
            attr_views(out@) =~= attr_views(v@).take(i as int),
        decreases v.len() - i,
    {
        let ghost before = out@;
        out.push(v[i].clone());
        assert(attr_views(out@) =~= attr_views(before).push(v[i as int]@));
        i += 1;
    }
    out
}

impl Clone for Node {
    fn clone(&self) -> (r: Self)
        ensures
            r@ == self@,
    {
        Node {
            path: self.path.clone(),
            description: self.description.clone(),
            firmware_id: self.firmware_id.clone(),
            input_names: crate::xinput::clone_strings(&self.input_names),
            attrs: clone_attrs(&self.attrs),
        }
    }
}

/// The last component of a path that names something, as
/// `Path::file_name` finds it: empty and `.` components are skipped, and a
/// path ending in `..` names nothing.
pub open spec fn last_named(parts: Seq<Seq<char>>) -> Option<Seq<char>>
    decreases parts.len(),
{
    if parts.len() == 0 {
        None
    } else if parts.last().len() > 0 && parts.last() != "."@ {
        Some(parts.last())
    } else {
        last_named(parts.drop_last())
    }
}

pub open spec fn file_name(path: Seq<char>) -> Option<Seq<char>> {
    match last_named(split(path, '/')) {
        Some(c) => if c == ".."@ {
            None
        } else {
            Some(c)
        },
        None => None,
    }
}

pub fn file_name_exec(path: &[char]) -> (r: Option<Vec<char>>)
    ensures
        match file_name(path@) {
            Some(c) => r matches Some(v) && v@ == c,
            None => r is None,
        },
{
    let parts = split_chars(path, '/');
    let ghost ps = split(path@, '/');
    let dot = chars_of(".");
    let dotdot = chars_of("..");
    let mut i = parts.len();
    assert(ps.take(i as int) =~= ps);
    while i > 0
        invariant
            i <= parts.len(),
            views(parts@) == ps,
            dot@ == "."@,
            dotdot@ == ".."@,
            ps == split(path@, '/'),
            last_named(ps) == last_named(ps.take(i as int)),
        decreases i,
    {
        let p = &parts[i - 1];
        assert(ps.take(i as int).last() == p@);
        assert(ps.take(i as int).drop_last() =~= ps.take(i - 1));
        if p.len() > 0 && !crate::text::chars_eq(p.as_slice(), dot.as_slice()) {
            assert(last_named(ps.take(i as int)) == Some(p@));
            assert(file_name(path@) == (if p@ == ".."@ {
                None
            } else {
                Some(p@)
            }));
            if crate::text::chars_eq(p.as_slice(), dotdot.as_slice()) {
                return None;
            }
            return Some(crate::text::slice_chars(p.as_slice(), 0, p.len()));
        }
        i -= 1;
    }
    None
}

/// How a node is labelled in the device list: its directory name, then the
/// port description after a dash when there is one.
pub open spec fn node_label(n: NodeView) -> Seq<char> {
    let base = match file_name(n.path) {
        Some(c) => c,
        None => n.path,
    };
    if n.description.len() == 0 {
        base
    } else {
        base + " \u{2014} "@ + n.description
    }
}

impl Node {
    pub fn label(&self) -> (r: String)
        ensures
            r@ == node_label(self@),
    {
        let path = chars_of(self.path.as_str());
        let base = match file_name_exec(path.as_slice()) {
            Some(c) => c,
            None => path,
        };
        let description = chars_of(self.description.as_str());
        if description.len() == 0 {
            string_of(base.as_slice())
        } else {
            let a = concat(base.as_slice(), chars_of(" \u{2014} ").as_slice());
            let b = concat(a.as_slice(), description.as_slice());
            string_of(b.as_slice())
        }
    }

    pub fn dirty(&self) -> (r: bool)
        ensures
            r == exists|i: int| 0 <= i < self.attrs.len() && #[trigger] self.attrs[i].pending@ != self.attrs[i].value@,
    {
        let mut i: usize = 0;
        while i < self.attrs.len()
            invariant
                i <= self.attrs.len(),
                forall|k: int| 0 <= k < i ==> #[trigger] self.attrs[k].pending@ == self.attrs[k].value@,
            decreases self.attrs.len() - i,
        {
            if self.attrs[i].is_dirty() {
                return true;
            }
            i += 1;
        }
        false
    }
}

/// What reading a file gave: its content trimmed, unless it could not be
/// read or held only whitespace.
pub open spec fn read_trimmed(content: Option<Seq<char>>) -> Option<Seq<char>> {
    match content {
        Some(s) => if trim(s).len() > 0 {
            Some(trim(s))
        } else {
            None
        },
        None => None,
    }
}

fn read_trimmed_exec(content: &Option<String>) -> (r: Option<Vec<char>>)
    ensures
        match read_trimmed(
            match content {
                Some(s) => Some(s@),
                None => None,
            },
        ) {
            Some(t) => r matches Some(v) && v@ == t,
            None => r is None,
        },
{
    match content {
        Some(s) => {
            let t = trim_chars(chars_of(s.as_str()).as_slice());
            if t.len() > 0 {
                Some(t)
            } else {
                None
            }
        },
        None => None,
    }
}

/// `PathBuf::push` of a relative name.
pub open spec fn join_path(dir: Seq<char>, name: Seq<char>) -> Seq<char> {
    if dir.len() == 0 || dir.last() == '/' {
        dir + name
    } else {
        dir + "/"@ + name
    }
}

fn join_path_exec(dir: &[char], name: &str) -> (r: Vec<char>)
    ensures
        r@ == join_path(dir@, name@),
{
    if dir.len() == 0 || dir[dir.len() - 1] == '/' {
        concat(dir, chars_of(name).as_slice())
    } else {
        let a = concat(dir, chars_of("/").as_slice());
        concat(a.as_slice(), chars_of(name).as_slice())
    }
}

/// What was found for one known attribute: the file's content, if it exists
/// and could be read, and whether this process may write it directly.
pub struct AttrProbe {
    pub content: Option<String>,
    pub writable: bool,
}

pub open spec fn probe_content(p: AttrProbe) -> Option<Seq<char>> {
    match p.content {
        Some(s) => Some(s@),
        None => None,
    }
}

/// The attribute the `i`th known name gives, if its file held a plain
/// integer. Some attributes read back as text (protocol, for one); the
/// editors here assume numbers, so those are skipped.
pub open spec fn probed_attr(dir: Seq<char>, i: int, p: AttrProbe) -> Option<AttrView> {
    match read_trimmed(probe_content(p)) {
        Some(v) => if parse_i64(v) is Some {
            let (name, help, kind) = known(i);
            Some(
                AttrView {
                    name,
                    help,
                    kind,
                    value: v,
                    original: v,
                    pending: v,
                    writable_directly: p.writable,
                    path: join_path(dir, name),
                },
            )
        } else {
            None
        },
        None => None,
    }
}

/// The attributes found, in the known order.
pub open spec fn probed_attrs(dir: Seq<char>, probes: Seq<AttrProbe>) -> Seq<AttrView>
    decreases probes.len(),
{
    if probes.len() == 0 {
        seq![]
    } else {
        let prev = probed_attrs(dir, probes.drop_last());
        match probed_attr(dir, probes.len() - 1, probes.last()) {
            Some(a) => prev.push(a),
            None => prev,
        }
    }
}

/// The input device names found, trimmed, without the unreadable or blank.
pub open spec fn probed_names(files: Seq<Option<String>>) -> Seq<Seq<char>>
    decreases files.len(),
{
    if files.len() == 0 {
        seq![]
    } else {
        let prev = probed_names(files.drop_last());
        match read_trimmed(
            match files.last() {
                Some(s) => Some(s@),
                None => None,
            },
        ) {
            Some(n) => prev.push(n),
            None => prev,
        }
    }
}

/// The node a sysfs directory makes, if it holds any attribute we know.
pub open spec fn node_of(
    dir: Seq<char>,
    probes: Seq<AttrProbe>,
    description: Option<Seq<char>>,
    firmware_id: Option<Seq<char>>,
    name_files: Seq<Option<String>>,
) -> Option<NodeView> {
    let attrs = probed_attrs(dir, probes);
    if attrs.len() == 0 {
        None
    } else {
        Some(
            NodeView {
                path: dir,
                description: match read_trimmed(description) {
                    Some(d) => d,
                    None => Seq::<char>::empty(),
                },
                firmware_id: match read_trimmed(firmware_id) {
                    Some(f) => f,
                    None => Seq::<char>::empty(),
                },
                input_names: probed_names(name_files),
                attrs,
            },
        )
    }
}

/// Build the node for a sysfs directory from what its files held: one probe
/// per known attribute, in the known order, the `description` and
/// `firmware_id` files, and every `input/inputN/name` file under it.
pub fn node_at(
    dir: &str,
    probes: &[AttrProbe],
    description: &Option<String>,
    firmware_id: &Option<String>,
    name_files: &[Option<String>],
) -> (r: Option<Node>)
    requires
        probes@.len() == KNOWN_COUNT,
    ensures
        match node_of(
            dir@,
            probes@,
            match description {
                Some(s) => Some(s@),
                None => None,
            },
            match firmware_id {
                Some(s) => Some(s@),
                None => None,
            },
            name_files@,
        ) {
            Some(n) => r matches Some(x) && x@ == n,
            None => r is None,
        },
{
    let dir_chars = chars_of(dir);
    let mut attrs: Vec<Attr> = Vec::new();
    let mut i: usize = 0;
    while i < KNOWN_COUNT
        invariant
            i <= KNOWN_COUNT,
            probes@.len() == KNOWN_COUNT,
            dir_chars@ == dir@,
            attr_views(attrs@) == probed_attrs(dir@, probes@.take(i as int)),
        decreases KNOWN_COUNT - i,
    {
        let ghost prev = attrs@;
        assert(probes@.take(i + 1).drop_last() =~= probes@.take(i as int));
        assert(probes@.take(i + 1).last() == probes@[i as int]);
        let k = known_attr(i);
        let probe = &probes[i];
        match read_trimmed_exec(&probe.content) {
            Some(v) => {
                if parse_i64_exec(v.as_slice()).is_some() {
                    let value = string_of(v.as_slice());
                    let a = Attr {
                        name: string_of(chars_of(k.name).as_slice()),
                        help: k.help,
                        kind: k.kind,
                        value: value.clone(),
                        original: value.clone(),
                        pending: value,
                        writable_directly: probe.writable,
                        path: string_of(join_path_exec(dir_chars.as_slice(), k.name).as_slice()),
                    };
                    attrs.push(a);
                    assert(attr_views(attrs@) =~= attr_views(prev).push(attrs@.last()@));
                }
            },
            None => {},
        }
        i += 1;
    }
    assert(probes@.take(KNOWN_COUNT as int) =~= probes@);
    if attrs.len() == 0 {
        return None;
    }
    let mut names: Vec<String> = Vec::new();
    let mut j: usize = 0;
    while j < name_files.len()
        invariant
            j <= name_files@.len(),
            string_views(names@) == probed_names(name_files@.take(j as int)),
        decreases name_files@.len() - j,
    {
        let ghost prev = names@;
        assert(name_files@.take(j + 1).drop_last() =~= name_files@.take(j as int));
        assert(name_files@.take(j + 1).last() == name_files@[j as int]);
        match read_trimmed_exec(&name_files[j]) {
            Some(n) => {
                names.push(string_of(n.as_slice()));
                assert(string_views(names@) =~= string_views(prev).push(names@.last()@));
            },
            None => {},
        }
        j += 1;
    }
    assert(name_files@.take(name_files@.len() as int) =~= name_files@);
    let description = match read_trimmed_exec(description) {
        Some(d) => string_of(d.as_slice()),
        None => String::new(),
    };
    let firmware_id = match read_trimmed_exec(firmware_id) {
        Some(f) => string_of(f.as_slice()),
        None => String::new(),
    };
    Some(
        Node {
            path: string_of(dir_chars.as_slice()),
            description,
            firmware_id,
            input_names: names,
            attrs,
        },
    )
}

/// The `eventN` name of an event node path, which is where a walk up to
/// its serio device starts.
pub open spec fn event_name_of(dev_node: Seq<char>) -> Option<Seq<char>> {
    let name = split(dev_node, '/').last();
    if starts_with(name, "event"@) {
        Some(name)
    } else {
        None
    }
}

/// The `eventN` part of `/dev/input/eventN`, if that is what it names.
pub fn event_name(dev_node: &str) -> (r: Option<String>)
    ensures
        match event_name_of(dev_node@) {
            Some(n) => r matches Some(x) && x@ == n,
            None => r is None,
        },
{
    let parts = split_chars(chars_of(dev_node).as_slice(), '/');
    proof {
        crate::text::lemma_split_len(dev_node@, '/');
    }
    let last = &parts[parts.len() - 1];
    assert(views(parts@).last() == last@);
    if starts_with_chars(last.as_slice(), chars_of("event").as_slice()) {
        Some(string_of(last.as_slice()))
    } else {
        None
    }
}

// ---- Writing as root ----------------------------------------------------

/// How a write was carried out, so the UI can say something accurate.
#[derive(Debug, Clone, Copy, PartialEq, Eq, Structural)]
pub enum WriteVia {
    Direct,
    /// sudo accepted us without asking: either NOPASSWD, or a timestamp still
    /// valid from an earlier authentication.
    SudoCached,
    SudoPassword,
}

/// The arguments after `sudo` that run `script` under `/bin/sh`.
pub open spec fn sudo_args_of(script: Seq<char>, password_given: bool, cached: bool) -> Option<
    Seq<Seq<char>>,
> {
    if !password_given && !cached {
        None
    } else if cached && !password_given {
        Some(seq!["-n"@, "/bin/sh"@, "-c"@, script])
    } else {
        // -S reads the password from stdin, -p '' suppresses sudo's own prompt
        // since we have already asked for it ourselves.
        Some(seq!["-S"@, "-p"@, ""@, "/bin/sh"@, "-c"@, script])
    }
}

fn push_str(v: &mut Vec<String>, s: &str)
    ensures
        string_views(final(v)@) == string_views(old(v)@).push(s@),
{
    let ghost before = v@;
    v.push(string_of(chars_of(s).as_slice()));
    assert(string_views(v@) =~= string_views(before).push(s@));
}

/// How to run a shell snippet as root. The ladder is: sudo without a prompt
/// when its timestamp is live, then sudo with the password the user gave,
/// which goes on stdin; with neither, the answer is that a password is
/// needed. The password never appears in the argument list, where it would
/// be visible to anyone running ps.
pub fn sudo_args(script: &str, password_given: bool, cached: bool) -> (r: Result<Vec<String>>)
    ensures
        match sudo_args_of(script@, password_given, cached) {
            Some(a) => r matches Ok(v) && string_views(v@) == a,
            None => r matches Err(e) && e.0@ == NEEDS_PASSWORD@,
        },
{
    if !password_given && !cached {
        return Err(Error::needs_password());
    }
    let mut args: Vec<String> = Vec::new();
    if cached && !password_given {
        push_str(&mut args, "-n");
    } else {
        push_str(&mut args, "-S");
        push_str(&mut args, "-p");
        push_str(&mut args, "");
    }
    push_str(&mut args, "/bin/sh");
    push_str(&mut args, "-c");
    push_str(&mut args, script);
    assert(string_views(args@) =~= sudo_args_of(script@, password_given, cached)->0);
    Ok(args)
}

/// What `str::to_lowercase` returns.
pub uninterp spec fn lowercase(s: Seq<char>) -> Seq<char>;

/// `str::to_lowercase`. Claimed: the result depends on the text alone. The
/// Unicode case mapping itself is left to the name.
#[verifier::external_body]
fn to_lowercase(s: &str) -> (r: String)
    ensures
        r@ == lowercase(s@),
{
    s.to_lowercase()
}

/// The message a failed sudo run earns, from its lowercased stderr.
pub open spec fn refusal_text(lowered: Seq<char>) -> Seq<char> {
    if contains(lowered, "incorrect password"@) || contains(lowered, "sorry, try again"@) {
        "that password was not accepted"@
    } else {
        "sudo refused the command"@
    }
}

pub open spec fn sudo_failure_text(stderr: Seq<u8>) -> Seq<char> {
    refusal_text(lowercase(utf8_lossy(stderr)))
}

/// The error for a failed sudo run whose stderr, lowercased, reads as
/// `lowered`: a rejected password is told apart from any other refusal.
pub fn sudo_refusal(lowered: &str) -> (e: Error)
    ensures
        e.0@ == refusal_text(lowered@),
{
    let text = chars_of(lowered);
    if contains_chars(text.as_slice(), chars_of("incorrect password").as_slice()) || contains_chars(
        text.as_slice(),
        chars_of("sorry, try again").as_slice(),
    ) {
        return Error::new("that password was not accepted");
    }
    Error::new("sudo refused the command")
}

/// Interpret a finished sudo run.
pub fn sudo_outcome(success: bool, password_given: bool, stderr: &[u8]) -> (r: Result<WriteVia>)
    ensures
        success ==> r == Ok::<WriteVia, Error>(
            if password_given {
                WriteVia::SudoPassword
            } else {
                WriteVia::SudoCached
            },
        ),
        !success ==> (r matches Err(e) && e.0@ == sudo_failure_text(stderr@)),
{
    if success {
        return Ok(
            if password_given {
                WriteVia::SudoPassword
            } else {
                WriteVia::SudoCached
            },
        );
    }
    Err(sudo_refusal(to_lowercase(lossy_text(stderr).as_str()).as_str()))
}

pub open spec fn has_quote(s: Seq<char>) -> bool {
    contains(s, "'"@)
}

/// The shell line that writes a staged value into its attribute file.
pub open spec fn attr_script(pending: Seq<char>, path: Seq<char>) -> Seq<char> {
    "printf '%s' '"@ + pending + "' > '"@ + path + "'"@
}

/// The root shell line for writing an attribute, once the value has passed
/// the shell check and the path holds no quote.
pub fn write_attr_script(attr: &Attr) -> (r: Result<String>)
    ensures
        match ensure_shell_safe_spec_ok(attr.pending@) {
            false => r is Err,
            true => if has_quote(attr.path@) {
                r matches Err(e) && e.0@ == "refusing to shell out with a quote in the path"@
            } else {
                r matches Ok(s) && s@ == attr_script(attr.pending@, attr.path@)
            },
        },
{
    match ensure_shell_safe(attr.pending.as_str()) {
        Ok(()) => {},
        Err(e) => {
            return Err(e);
        },
    }
    let path = chars_of(attr.path.as_str());
    if contains_chars(path.as_slice(), chars_of("'").as_slice()) {
        return Err(Error::new("refusing to shell out with a quote in the path"));
    }
    let a = concat(chars_of("printf '%s' '").as_slice(), chars_of(attr.pending.as_str()).as_slice());
    let b = concat(a.as_slice(), chars_of("' > '").as_slice());
    let c = concat(b.as_slice(), path.as_slice());
    let d = concat(c.as_slice(), chars_of("'").as_slice());
    Ok(string_of(d.as_slice()))
}

/// The value passes `ensure_shell_safe`.
pub open spec fn ensure_shell_safe_spec_ok(value: Seq<char>) -> bool {
    &&& value.len() > 0
    &&& crate::error::utf8_len(value) <= 64
    &&& forall|i: int| 0 <= i < value.len() ==> crate::error::shell_safe_char(#[trigger] value[i])
}

/// The root shell line that writes a file from stdin, so its content never
/// has to survive a trip through the shell.
pub open spec fn root_file_script_of(target: Seq<char>) -> Seq<char> {
    "cat > '"@ + target + "'"@
}

pub fn root_file_script(target: &str) -> (r: Result<String>)
    ensures
        has_quote(target@) ==> (r matches Err(e) && e.0@
            == "refusing to shell out with a quote in the path"@),
        !has_quote(target@) ==> (r matches Ok(s) && s@ == root_file_script_of(target@)),
{
    let t = chars_of(target);
    if contains_chars(t.as_slice(), chars_of("'").as_slice()) {
        return Err(Error::new("refusing to shell out with a quote in the path"));
    }
    let a = concat(chars_of("cat > '").as_slice(), t.as_slice());
    let b = concat(a.as_slice(), chars_of("'").as_slice());
    Ok(string_of(b.as_slice()))
}

} // verus!
