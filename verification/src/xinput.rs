//! The `xinput` command line: parsers for what it prints, and the argument
//! lists and echoed commands for what is sent to it. Running it is the
//! caller's business; everything here works on its text.
use vstd::prelude::*;

use crate::error::{Error, Result};
use crate::num::{all_digits, decimal, float_char, is_digit, decimal_u64, is_float_literal, is_float_literal_exec, parse_u32, parse_u32_exec, parse_u8, parse_u8_exec};
use crate::text::{
    chars_of, concat, contains, contains_chars, ends_with, ends_with_chars, find_chars,
    first_match, join, join_chars, last_match, lines, lines_of, replace_all, replace_chars,
    rfind_chars, slice_chars, split, split_chars, starts_with, starts_with_chars, str_eq, string_of,
    strings_of, trim, trim_char, trim_char_exec, trim_chars, trim_each, trim_each_exec, views,
    is_ws, lemma_split_without_sep, lemma_trim_unchanged, lemma_words_join, matches_at,
    words, words_of,
};

verus! {

#[derive(Debug, Clone, Copy, PartialEq, Eq, Structural)]
pub enum Kind {
    MasterPointer,
    SlavePointer,
    Other,
}

#[derive(Debug)]
pub struct XDevice {
    pub id: u32,
    pub name: String,
    pub kind: Kind,
}

pub struct XDeviceView {
    pub id: u32,
    pub name: Seq<char>,
    pub kind: Kind,
}

impl View for XDevice {
    type V = XDeviceView;

    open spec fn view(&self) -> XDeviceView {
        XDeviceView { id: self.id, name: self.name@, kind: self.kind }
    }
}

impl Clone for XDevice {
    fn clone(&self) -> (r: Self)
        ensures
            r@ == self@,
    {
        XDevice { id: self.id, name: self.name.clone(), kind: self.kind }
    }
}

#[derive(Debug, PartialEq, Eq)]
pub enum PropValue {
    /// Numbers we understand well enough to edit.
    Numbers(Vec<String>),
    /// Atoms, strings and anything else: displayed but not editable.
    Opaque(String),
}

pub enum PropValueView {
    Numbers(Seq<Seq<char>>),
    Opaque(Seq<char>),
}

/// The contents of a list of strings.
pub open spec fn string_views(v: Seq<String>) -> Seq<Seq<char>> {
    Seq::new(v.len(), |i: int| v[i]@)
}

impl View for PropValue {
    type V = PropValueView;

    open spec fn view(&self) -> PropValueView {
        match self {
            PropValue::Numbers(v) => PropValueView::Numbers(string_views(v@)),
            PropValue::Opaque(s) => PropValueView::Opaque(s@),
        }
    }
}

/// A copy of a list of strings.
pub fn clone_strings(v: &Vec<String>) -> (r: Vec<String>)
    ensures
        string_views(r@) == string_views(v@),
{
    let mut out: Vec<String> = Vec::new();
    let mut i: usize = 0;
    while i < v.len()
        invariant
            i <= v.len(),
            string_views(out@) =~= string_views(v@).take(i as int),
        decreases v.len() - i,
    {
        let ghost before = out@;
        out.push(v[i].clone());
        assert(string_views(out@) =~= string_views(before).push(v[i as int]@));
        i += 1;
    }
    out
}

impl Clone for PropValue {
    fn clone(&self) -> (r: Self)
        ensures
            r@ == self@,
    {
        match self {
            PropValue::Numbers(v) => PropValue::Numbers(clone_strings(v)),
            PropValue::Opaque(s) => PropValue::Opaque(s.clone()),
        }
    }
}

#[derive(Debug)]
pub struct Prop {
    pub name: String,
    pub value: PropValue,
    /// True when xinput reports the property as read-only.
    pub read_only: bool,
}

pub struct PropView {
    pub name: Seq<char>,
    pub value: PropValueView,
    pub read_only: bool,
}

impl View for Prop {
    type V = PropView;

    open spec fn view(&self) -> PropView {
        PropView { name: self.name@, value: self.value@, read_only: self.read_only }
    }
}

impl Clone for Prop {
    fn clone(&self) -> (r: Self)
        ensures
            r@ == self@,
    {
        Prop { name: self.name.clone(), value: self.value.clone(), read_only: self.read_only }
    }
}

/// A single `0`/`1` value, i.e. something a spacebar can toggle.
pub open spec fn prop_bool(p: PropView) -> Option<bool> {
    match p.value {
        PropValueView::Numbers(v) => if v.len() == 1 && (v[0] == "0"@ || v[0] == "1"@) {
            Some(v[0] == "1"@)
        } else {
            None
        },
        _ => None,
    }
}

impl Prop {
    /// A single 0/1 value, i.e. something a spacebar can toggle.
    pub fn as_bool(&self) -> (r: Option<bool>)
        ensures
            r == prop_bool(self@),
    {
        match &self.value {
            PropValue::Numbers(v) => {
                if v.len() == 1 {
                    let zero = str_eq(v[0].as_str(), "0");
                    let one = str_eq(v[0].as_str(), "1");
                    if zero || one {
                        Some(one)
                    } else {
                        None
                    }
                } else {
                    None
                }
            },
            PropValue::Opaque(_) => None,
        }
    }

    /// The text of a single value with a decimal point: the candidate for a
    /// floating-point setting that the arrow keys nudge. Reading it as a
    /// number is left to the caller.
    pub fn float_text(&self) -> (r: Option<String>)
        ensures
            match self@.value {
                PropValueView::Numbers(v) => if v.len() == 1 && contains(v[0], "."@) {
                    r matches Some(t) && t@ == v[0]
                } else {
                    r is None
                },
                _ => r is None,
            },
    {
        match &self.value {
            PropValue::Numbers(v) => {
                if v.len() == 1 {
                    let c = chars_of(v[0].as_str());
                    let dot = chars_of(".");
                    if contains_chars(c.as_slice(), dot.as_slice()) {
                        Some(v[0].clone())
                    } else {
                        None
                    }
                } else {
                    None
                }
            },
            PropValue::Opaque(_) => None,
        }
    }
}

// ---- xinput list ---------------------------------------------------------

/// The box-drawing and arrow glyphs `xinput list` indents names with.
pub open spec fn is_tree_glyph(c: char) -> bool {
    let n = c as u32;
    ||| n == 0x23a1
    ||| n == 0x239c
    ||| n == 0x23a3
    ||| n == 0x23a2
    ||| n == 0x23a5
    ||| n == 0x23a6
    ||| n == 0x21b3
    ||| n == 0x223c
    ||| n == 0x20
}

/// Leading tree glyphs and spaces removed.
pub open spec fn strip_tree(s: Seq<char>) -> Seq<char>
    decreases s.len(),
{
    if s.len() > 0 && is_tree_glyph(s[0]) {
        strip_tree(s.drop_first())
    } else {
        s
    }
}

fn tree_glyph(c: char) -> (r: bool)
    ensures
        r == is_tree_glyph(c),
{
    let n = c as u32;
    n == 0x23a1 || n == 0x239c || n == 0x23a3 || n == 0x23a2 || n == 0x23a5 || n == 0x23a6 || n
        == 0x21b3 || n == 0x223c || n == 0x20
}

fn strip_tree_exec(s: &[char]) -> (r: Vec<char>)
    ensures
        r@ == strip_tree(s@),
{
    let mut lo: usize = 0;
    assert(s@.skip(0) =~= s@);
    while lo < s.len() && tree_glyph(s[lo])
        invariant
            lo <= s@.len(),
            strip_tree(s@) == strip_tree(s@.skip(lo as int)),
        decreases s@.len() - lo,
    {
        assert(s@.skip(lo as int).drop_first() =~= s@.skip(lo + 1));
        lo += 1;
    }
    slice_chars(s, lo, s.len())
}

/// How the type column classifies a device.
pub open spec fn kind_of(t: Seq<char>) -> Kind {
    if contains(t, "slave"@) && contains(t, "pointer"@) {
        Kind::SlavePointer
    } else if contains(t, "master"@) && contains(t, "pointer"@) {
        Kind::MasterPointer
    } else {
        Kind::Other
    }
}

/// The pointer a line of `xinput list` describes, if it describes one worth
/// listing. Lines look like
/// `⎜   ↳ TPPS/2 Elan TrackPoint            \tid=13\t[slave  pointer  (2)]`.
pub open spec fn pointer_line(line: Seq<char>) -> Option<XDeviceView> {
    let f = split(line, '\t');
    if f.len() < 2 {
        None
    } else {
        let t = if f.len() >= 3 {
            f[2]
        } else {
            Seq::<char>::empty()
        };
        let idf = trim(f[1]);
        if !starts_with(idf, "id="@) {
            None
        } else {
            match parse_u32(trim(idf.skip("id="@.len() as int))) {
                None => None,
                Some(id) => {
                    let kind = kind_of(t);
                    let name = trim(strip_tree(trim(f[0])));
                    if kind == Kind::Other || name.len() == 0 || contains(name, "XTEST"@) {
                        None
                    } else {
                        Some(XDeviceView { id, name, kind })
                    }
                },
            }
        }
    }
}

/// The pointers a run of `xinput list` lines describes, in order.
pub open spec fn pointers_in(ls: Seq<Seq<char>>) -> Seq<XDeviceView>
    decreases ls.len(),
{
    if ls.len() == 0 {
        seq![]
    } else {
        let prev = pointers_in(ls.drop_last());
        match pointer_line(ls.last()) {
            Some(d) => prev.push(d),
            None => prev,
        }
    }
}

pub open spec fn device_views(v: Seq<XDevice>) -> Seq<XDeviceView> {
    Seq::new(v.len(), |i: int| v[i]@)
}

fn kind_of_exec(t: &[char]) -> (k: Kind)
    ensures
        k == kind_of(t@),
{
    let slave = chars_of("slave");
    let master = chars_of("master");
    let pointer = chars_of("pointer");
    let has_pointer = contains_chars(t, pointer.as_slice());
    if contains_chars(t, slave.as_slice()) && has_pointer {
        Kind::SlavePointer
    } else if contains_chars(t, master.as_slice()) && has_pointer {
        Kind::MasterPointer
    } else {
        Kind::Other
    }
}

fn pointer_line_exec(line: &[char]) -> (r: Option<XDevice>)
    ensures
        match pointer_line(line@) {
            Some(d) => r matches Some(x) && x@ == d,
            None => r is None,
        },
{
    let f = split_chars(line, '\t');
    if f.len() < 2 {
        return None;
    }
    let empty: Vec<char> = Vec::new();
    let t: &Vec<char> = if f.len() >= 3 {
        &f[2]
    } else {
        &empty
    };
    assert(t@ == (if f@.len() >= 3 {
        split(line@, '\t')[2]
    } else {
        Seq::<char>::empty()
    }));
    let idf = trim_chars(f[1].as_slice());
    let prefix = chars_of("id=");
    if !starts_with_chars(idf.as_slice(), prefix.as_slice()) {
        return None;
    }
    let digits = slice_chars(idf.as_slice(), prefix.len(), idf.len());
    let digits = trim_chars(digits.as_slice());
    let id = match parse_u32_exec(digits.as_slice()) {
        Some(id) => id,
        None => {
            return None;
        },
    };
    let kind = kind_of_exec(t.as_slice());
    let name = trim_chars(strip_tree_exec(trim_chars(f[0].as_slice()).as_slice()).as_slice());
    let xtest = chars_of("XTEST");
    if kind == Kind::Other || name.len() == 0 || contains_chars(name.as_slice(), xtest.as_slice()) {
        return None;
    }
    Some(XDevice { id, name: string_of(name.as_slice()), kind })
}

/// Parse the device tree printed by a bare `xinput list`: every master and
/// slave pointer, in the order listed, except the XTEST one.
pub fn parse_pointers(out: &str) -> (r: Vec<XDevice>)
    ensures
        device_views(r@) == pointers_in(lines(out@)),
{
    let text = chars_of(out);
    let ls = lines_of(text.as_slice());
    let mut devices: Vec<XDevice> = Vec::new();
    let mut i: usize = 0;
    while i < ls.len()
        invariant
            i <= ls.len(),
            views(ls@) == lines(out@),
            device_views(devices@) == pointers_in(lines(out@).take(i as int)),
        decreases ls.len() - i,
    {
        let ghost prev = devices@;
        assert(lines(out@).take(i + 1).drop_last() =~= lines(out@).take(i as int));
        assert(lines(out@).take(i + 1).last() == ls[i as int]@);
        match pointer_line_exec(ls[i].as_slice()) {
            Some(d) => {
                devices.push(d);
                assert(device_views(devices@) =~= device_views(prev).push(devices@.last()@));
            },
            None => {},
        }
        i += 1;
    }
    assert(lines(out@).take(ls.len() as int) =~= lines(out@));
    devices
}

/// The pointers in the output of `xinput list`, or an error when it lists
/// none.
pub fn list_pointers(out: &str) -> (r: Result<Vec<XDevice>>)
    ensures
        match r {
            Ok(v) => device_views(v@) == pointers_in(lines(out@)) && v.len() > 0,
            Err(e) => pointers_in(lines(out@)).len() == 0 && e.0@
                == "xinput reported no pointer devices"@,
        },
{
    let devices = parse_pointers(out);
    if devices.len() == 0 {
        return Err(Error::new("xinput reported no pointer devices"));
    }
    Ok(devices)
}

// ---- Button maps ---------------------------------------------------------

/// The button map `xinput get-button-map` printed, if every word is a byte.
pub open spec fn button_map_of(out: Seq<char>) -> Option<Seq<u8>> {
    let w = words(out);
    if forall|i: int| 0 <= i < w.len() ==> parse_u8(#[trigger] w[i]) is Some {
        Some(Seq::new(w.len(), |i: int| parse_u8(w[i])->0))
    } else {
        None
    }
}

/// The map `set_button_map` sends reads back as the same map: the numbers
/// it passes after the device id, printed with a space between each (as
/// `xinput get-button-map` prints a map), are what `get_button_map` parses.
pub proof fn lemma_button_map_round_trip(id: u32, map: Seq<u8>)
    ensures
        set_button_map_args(id, map).skip(2) == byte_words(map),
        button_map_of(join(byte_words(map), " "@)) == Some(map),
{
    let ws = byte_words(map);
    assert(set_button_map_args(id, map).skip(2) =~= ws);
    assert forall|k: int| 0 <= k < ws.len() implies (#[trigger] ws[k]).len() > 0 && all_digits(ws[k])
        && parse_u8(ws[k]) == Some(map[k]) by {
        crate::num::lemma_decimal_digits(map[k] as nat);
        crate::num::lemma_parse_decimal(map[k] as nat, 255);
    }
    assert forall|k: int, i: int| 0 <= k < ws.len() && 0 <= i < ws[k].len() implies !is_ws(
        #[trigger] ws[k][i],
    ) by {
        assert(all_digits(ws[k]));
        assert(is_digit(ws[k][i]));
    }
    lemma_words_join(ws);
    let w = words(join(ws, " "@));
    assert(w == ws);
    assert(Seq::new(w.len(), |i: int| parse_u8(w[i])->0) =~= map);
}

/// Read the output of `xinput get-button-map`.
pub fn get_button_map(out: &str) -> (r: Result<Vec<u8>>)
    ensures
        match button_map_of(out@) {
            None => r matches Err(e) && e.0@ == "could not parse the button map"@,
            Some(m) => if m.len() == 0 {
                r matches Err(e) && e.0@ == "device reports no buttons"@
            } else {
                r matches Ok(v) && v@ == m
            },
        },
{
    let text = chars_of(out);
    let w = words_of(text.as_slice());
    let ghost ws = words(out@);
    let mut map: Vec<u8> = Vec::new();
    let mut i: usize = 0;
    while i < w.len()
        invariant
            i <= w.len(),
            views(w@) == ws,
            ws == words(out@),
            map@.len() == i,
            forall|k: int| 0 <= k < i ==> parse_u8(#[trigger] ws[k]) == Some(map@[k]),
        decreases w.len() - i,
    {
        assert(ws[i as int] == w[i as int]@);
        match parse_u8_exec(w[i].as_slice()) {
            Some(b) => map.push(b),
            None => {
                return Err(Error::new("could not parse the button map"));
            },
        }
        i += 1;
    }
    assert(map@ =~= Seq::new(ws.len(), |k: int| parse_u8(ws[k])->0));
    if map.len() == 0 {
        return Err(Error::new("device reports no buttons"));
    }
    Ok(map)
}

/// The printed form of each byte.
pub open spec fn byte_words(map: Seq<u8>) -> Seq<Seq<char>> {
    Seq::new(map.len(), |i: int| decimal(map[i] as nat))
}

fn byte_words_exec(map: &[u8]) -> (r: Vec<Vec<char>>)
    ensures
        views(r@) == byte_words(map@),
{
    let mut out: Vec<Vec<char>> = Vec::new();
    let mut i: usize = 0;
    while i < map.len()
        invariant
            i <= map@.len(),
            views(out@) =~= byte_words(map@).take(i as int),
        decreases map@.len() - i,
    {
        let ghost before = out@;
        out.push(decimal_u64(map[i] as u64));
        assert(views(out@) =~= views(before).push(decimal(map@[i as int] as nat)));
        i += 1;
    }
    out
}

/// The argument list of `xinput set-button-map`.
pub open spec fn set_button_map_args(id: u32, map: Seq<u8>) -> Seq<Seq<char>> {
    seq!["set-button-map"@, decimal(id as nat)] + byte_words(map)
}

/// Arguments for `xinput` that set a device's button map.
pub fn set_button_map(id: u32, map: &[u8]) -> (r: Vec<String>)
    ensures
        string_views(r@) == set_button_map_args(id, map@),
{
    let mut args: Vec<String> = Vec::new();
    args.push(string_of(chars_of("set-button-map").as_slice()));
    args.push(string_of(decimal_u64(id as u64).as_slice()));
    let words = byte_words_exec(map);
    let mut i: usize = 0;
    while i < words.len()
        invariant
            i <= words.len(),
            views(words@) == byte_words(map@),
            string_views(args@) =~= seq!["set-button-map"@, decimal(id as nat)] + byte_words(
                map@,
            ).take(i as int),
        decreases words.len() - i,
    {
        let ghost before = args@;
        args.push(string_of(words[i].as_slice()));
        assert(string_views(args@) =~= string_views(before).push(words[i as int]@));
        i += 1;
    }
    assert(byte_words(map@).take(words.len() as int) =~= byte_words(map@));
    args
}

/// The command a user would type to reproduce a map.
pub open spec fn button_map_command_text(name: Seq<char>, map: Seq<u8>) -> Seq<char> {
    "xinput set-button-map \""@ + name + "\" "@ + join(byte_words(map), " "@)
}

/// The command a user would type to reproduce the current map — shown in the
/// UI and written into generated scripts.
pub fn button_map_command(name: &str, map: &[u8]) -> (r: String)
    ensures
        r@ == button_map_command_text(name@, map@),
{
    let head = chars_of("xinput set-button-map \"");
    let mid = chars_of("\" ");
    let words = byte_words_exec(map);
    let joined = join_chars(&words, chars_of(" ").as_slice());
    let a = concat(head.as_slice(), chars_of(name).as_slice());
    let b = concat(a.as_slice(), mid.as_slice());
    let c = concat(b.as_slice(), joined.as_slice());
    string_of(c.as_slice())
}

// ---- xinput list-props ---------------------------------------------------

/// A value column read as numbers when every comma-separated part is one,
/// and otherwise kept as text.
pub open spec fn classify_value(value: Seq<char>) -> PropValueView {
    if starts_with(value, "\""@) || value.len() == 0 {
        PropValueView::Opaque(value)
    } else {
        let parts = trim_each(split(value, ','));
        if forall|i: int| 0 <= i < parts.len() ==> is_float_literal(#[trigger] parts[i]) {
            PropValueView::Numbers(parts)
        } else {
            PropValueView::Opaque(value)
        }
    }
}

/// A value column holding one number that `f64` reads, with or without a
/// sign, is that number as an editable value.
pub proof fn lemma_a_number_is_numbers(x: Seq<char>)
    requires
        is_float_literal(x),
    ensures
        classify_value(x) == PropValueView::Numbers(seq![x]),
{
    crate::num::lemma_float_literal_chars(x);
    assert(float_char(x[0]));
    reveal_strlit("\"");
    assert(!starts_with(x, "\""@)) by {
        assert("\""@[0] == '"');
        if starts_with(x, "\""@) {
            assert(matches_at(x, "\""@, 0));
            assert(x.subrange(0, 1)[0] == x[0]);
        }
    }
    assert forall|i: int| 0 <= i < x.len() implies #[trigger] x[i] != ',' by {
        assert(float_char(x[i]));
    }
    lemma_split_without_sep(x, ',');
    assert(float_char(x[x.len() - 1]));
    lemma_trim_unchanged(x);
    let parts = trim_each(split(x, ','));
    assert(parts =~= seq![x]);
}

/// A value column that is not quoted and not empty, whose comma-separated
/// pieces all read as numbers once trimmed, is those numbers, in order,
/// whatever their signs.
pub proof fn lemma_number_lists_are_numbers(value: Seq<char>)
    requires
        value.len() > 0,
        value[0] != '"',
        forall|i: int| 0 <= i < split(value, ',').len() ==> is_float_literal(trim(#[trigger] split(value, ',')[i])),
    ensures
        classify_value(value) == PropValueView::Numbers(Seq::new(split(value, ',').len(), |i: int| trim(split(value, ',')[i]))),
{
    reveal_strlit("\"");
    if starts_with(value, "\""@) {
        assert(matches_at(value, "\""@, 0));
        assert(value.subrange(0, 1)[0] == value[0]);
        assert("\""@[0] == '"');
    }
    let parts = trim_each(split(value, ','));
    assert forall|i: int| 0 <= i < parts.len() implies is_float_literal(#[trigger] parts[i]) by {
        assert(parts[i] == trim(split(value, ',')[i]));
    }
}

/// The name column of a property line, before the atom id is found in it.
pub open spec fn prop_head(line: Seq<char>) -> Seq<char> {
    let h = match first_match(line, ":\t"@) {
        Some(i) => line.take(i),
        None => line,
    };
    replace_all(trim(h), " (read-only)"@, Seq::<char>::empty())
}

/// The value column of a property line.
pub open spec fn prop_value_text(line: Seq<char>) -> Seq<char> {
    match first_match(line, ":\t"@) {
        Some(i) => trim(line.skip(i + ":\t"@.len())),
        None => Seq::<char>::empty(),
    }
}

/// The property a line of `xinput list-props` describes, if it is one.
/// Lines look like `\tlibinput Accel Speed (317):\t0.000000`.
pub open spec fn prop_line(line: Seq<char>) -> Option<PropView> {
    if !starts_with(line, "\t"@) {
        None
    } else {
        let h = match first_match(line, ":\t"@) {
            Some(i) => line.take(i),
            None => line,
        };
        let read_only = contains(trim(h), "(read-only)"@);
        let head = prop_head(line);
        match last_match(head, " ("@) {
            None => None,
            Some(open) => match last_match(head, ")"@) {
                None => None,
                // A line whose last `)` comes before its last ` (` carries no
                // atom id, so it is not a property line.
                Some(close) => if close < open + " ("@.len() || parse_u32(
                    head.subrange(open + " ("@.len(), close),
                ) is None {
                    None
                } else {
                    Some(
                        PropView {
                            name: trim(head.take(open)),
                            value: classify_value(prop_value_text(line)),
                            read_only,
                        },
                    )
                },
            },
        }
    }
}

/// The properties a run of `xinput list-props` lines describes, in order.
pub open spec fn props_in(ls: Seq<Seq<char>>) -> Seq<PropView>
    decreases ls.len(),
{
    if ls.len() == 0 {
        seq![]
    } else {
        let prev = props_in(ls.drop_last());
        match prop_line(ls.last()) {
            Some(p) => prev.push(p),
            None => prev,
        }
    }
}

pub open spec fn prop_views(v: Seq<Prop>) -> Seq<PropView> {
    Seq::new(v.len(), |i: int| v[i]@)
}

fn classify_value_exec(value: Vec<char>) -> (r: PropValue)
    ensures
        r@ == classify_value(value@),
{
    let quote = chars_of("\"");
    if starts_with_chars(value.as_slice(), quote.as_slice()) || value.len() == 0 {
        return PropValue::Opaque(string_of(value.as_slice()));
    }
    let parts = trim_each_exec(&split_chars(value.as_slice(), ','));
    let mut i: usize = 0;
    while i < parts.len()
        invariant
            i <= parts.len(),
            views(parts@) == trim_each(split(value@, ',')),
            !(starts_with(value@, "\""@) || value@.len() == 0),
            forall|k: int| 0 <= k < i ==> is_float_literal(#[trigger] views(parts@)[k]),
        decreases parts.len() - i,
    {
        if !is_float_literal_exec(parts[i].as_slice()) {
            assert(views(parts@)[i as int] == parts[i as int]@);
            return PropValue::Opaque(string_of(value.as_slice()));
        }
        assert(views(parts@)[i as int] == parts[i as int]@);
        i += 1;
    }
    let strings = strings_of(&parts);
    assert(string_views(strings@) =~= views(parts@));
    PropValue::Numbers(strings)
}

fn prop_line_exec(line: &[char]) -> (r: Option<Prop>)
    ensures
        match prop_line(line@) {
            Some(p) => r matches Some(x) && x@ == p,
            None => r is None,
        },
{
    let tab = chars_of("\t");
    if !starts_with_chars(line, tab.as_slice()) {
        return None;
    }
    let sep = chars_of(":\t");
    let (h, value) = match find_chars(line, sep.as_slice()) {
        Some(i) => {
            assert(i + sep@.len() <= line@.len());
            assert(line@.len() == line.len());
            let v = slice_chars(line, i + sep.len(), line.len());
            assert(v@ =~= line@.skip(i + ":\t"@.len()));
            (slice_chars(line, 0, i), trim_chars(v.as_slice()))
        },
        None => (slice_chars(line, 0, line.len()), Vec::new()),
    };
    assert(h@ =~= (match first_match(line@, ":\t"@) {
        Some(i) => line@.take(i),
        None => line@,
    }));
    assert(value@ =~= prop_value_text(line@));
    let head0 = trim_chars(h.as_slice());
    let ro = chars_of("(read-only)");
    let read_only = contains_chars(head0.as_slice(), ro.as_slice());
    let ro_spaced = chars_of(" (read-only)");
    proof {
        reveal_strlit(" (read-only)");
    }
    let head = replace_chars(head0.as_slice(), ro_spaced.as_slice(), Vec::<char>::new().as_slice());
    assert(head@ == prop_head(line@));
    let open_pat = chars_of(" (");
    let open = match rfind_chars(head.as_slice(), open_pat.as_slice()) {
        Some(o) => o,
        None => {
            return None;
        },
    };
    let close_pat = chars_of(")");
    let close = match rfind_chars(head.as_slice(), close_pat.as_slice()) {
        Some(c) => c,
        None => {
            return None;
        },
    };
    assert(open + open_pat@.len() <= head@.len());
    if close < open || close - open < open_pat.len() {
        return None;
    }
    let atom = slice_chars(head.as_slice(), open + open_pat.len(), close);
    if parse_u32_exec(atom.as_slice()).is_none() {
        return None;
    }
    let before_open = slice_chars(head.as_slice(), 0, open);
    assert(before_open@ =~= head@.take(open as int));
    let name = trim_chars(before_open.as_slice());
    let parsed = classify_value_exec(value);
    Some(Prop { name: string_of(name.as_slice()), value: parsed, read_only })
}

/// Parse `xinput list-props`: every property line, in order. Lines look
/// like `\tlibinput Accel Speed (317):\t0.000000`.
pub fn parse_props(out: &str) -> (r: Vec<Prop>)
    ensures
        prop_views(r@) == props_in(lines(out@)),
{
    let text = chars_of(out);
    let ls = lines_of(text.as_slice());
    let mut props: Vec<Prop> = Vec::new();
    let mut i: usize = 0;
    while i < ls.len()
        invariant
            i <= ls.len(),
            views(ls@) == lines(out@),
            prop_views(props@) == props_in(lines(out@).take(i as int)),
        decreases ls.len() - i,
    {
        let ghost prev = props@;
        assert(lines(out@).take(i + 1).drop_last() =~= lines(out@).take(i as int));
        assert(lines(out@).take(i + 1).last() == ls[i as int]@);
        assert(lines(out@)[i as int] == ls[i as int]@);
        match prop_line_exec(ls[i].as_slice()) {
            Some(p) => {
                props.push(p);
                assert(prop_views(props@) =~= prop_views(prev).push(props@.last()@));
            },
            None => {},
        }
        i += 1;
    }
    assert(lines(out@).take(ls.len() as int) =~= lines(out@));
    props
}

/// The properties in the output of `xinput list-props`.
pub fn list_props(out: &str) -> (r: Vec<Prop>)
    ensures
        prop_views(r@) == props_in(lines(out@)),
{
    parse_props(out)
}

/// Worth putting in front of a user: the writable libinput knobs with
/// numeric values, minus the `Default` and `Available` mirrors of each.
pub open spec fn interesting(p: PropView) -> bool {
    &&& !p.read_only
    &&& starts_with(p.name, "libinput "@)
    &&& !ends_with(p.name, "Default"@)
    &&& !contains(p.name, "Available"@)
    &&& p.value is Numbers
}

/// Keep the property list to things worth putting in front of a user: the
/// libinput knobs, minus the `Default` and `Available` mirrors of each.
pub fn is_interesting(prop: &Prop) -> (r: bool)
    ensures
        r == interesting(prop@),
{
    if prop.read_only {
        return false;
    }
    let name = chars_of(prop.name.as_str());
    if !starts_with_chars(name.as_slice(), chars_of("libinput ").as_slice()) {
        return false;
    }
    if ends_with_chars(name.as_slice(), chars_of("Default").as_slice()) || contains_chars(
        name.as_slice(),
        chars_of("Available").as_slice(),
    ) {
        return false;
    }
    match &prop.value {
        PropValue::Numbers(_) => true,
        PropValue::Opaque(_) => false,
    }
}

/// The argument list of `xinput set-prop`.
pub open spec fn set_prop_args(id: u32, name: Seq<char>, values: Seq<Seq<char>>) -> Seq<
    Seq<char>,
> {
    seq!["set-prop"@, decimal(id as nat), name] + values
}

/// Arguments for `xinput` that set a property.
pub fn set_prop(id: u32, name: &str, values: &[String]) -> (r: Vec<String>)
    ensures
        string_views(r@) == set_prop_args(id, name@, string_views(values@)),
{
    let mut args: Vec<String> = Vec::new();
    args.push(string_of(chars_of("set-prop").as_slice()));
    args.push(string_of(decimal_u64(id as u64).as_slice()));
    args.push(string_of(chars_of(name).as_slice()));
    let mut i: usize = 0;
    while i < values.len()
        invariant
            i <= values@.len(),
            string_views(args@) =~= seq!["set-prop"@, decimal(id as nat), name@] + string_views(
                values@,
            ).take(i as int),
        decreases values@.len() - i,
    {
        let ghost before = args@;
        args.push(values[i].clone());
        assert(string_views(args@) =~= string_views(before).push(values@[i as int]@));
        i += 1;
    }
    assert(string_views(values@).take(values@.len() as int) =~= string_views(values@));
    args
}

pub open spec fn set_prop_command_text(name: Seq<char>, prop: Seq<char>, values: Seq<Seq<char>>) -> Seq<
    char,
> {
    "xinput set-prop \""@ + name + "\" \""@ + prop + "\" "@ + join(values, " "@)
}

fn char_vecs_of(values: &[String]) -> (r: Vec<Vec<char>>)
    ensures
        views(r@) == string_views(values@),
{
    let mut out: Vec<Vec<char>> = Vec::new();
    let mut i: usize = 0;
    while i < values.len()
        invariant
            i <= values@.len(),
            views(out@) =~= string_views(values@).take(i as int),
        decreases values@.len() - i,
    {
        let ghost before = out@;
        out.push(chars_of(values[i].as_str()));
        assert(views(out@) =~= views(before).push(values@[i as int]@));
        i += 1;
    }
    out
}

/// The command a user would type to set a property by hand.
pub fn set_prop_command(name: &str, prop: &str, values: &[String]) -> (r: String)
    ensures
        r@ == set_prop_command_text(name@, prop@, string_views(values@)),
{
    let vs = char_vecs_of(values);
    let joined = join_chars(&vs, chars_of(" ").as_slice());
    let a = concat(chars_of("xinput set-prop \"").as_slice(), chars_of(name).as_slice());
    let b = concat(a.as_slice(), chars_of("\" \"").as_slice());
    let c = concat(b.as_slice(), chars_of(prop).as_slice());
    let d = concat(c.as_slice(), chars_of("\" ").as_slice());
    let e = concat(d.as_slice(), joined.as_slice());
    string_of(e.as_slice())
}

/// The first property named `name`, if any.
pub open spec fn first_named(props: Seq<PropView>, name: Seq<char>) -> Option<int> {
    if exists|i: int| 0 <= i < props.len() && props[i].name == name && forall|j: int|
        0 <= j < i ==> #[trigger] props[j].name != name {
        Some(
            choose|i: int|
                0 <= i < props.len() && props[i].name == name && forall|j: int|
                    0 <= j < i ==> #[trigger] props[j].name != name,
        )
    } else {
        None
    }
}

/// Where the first property with this name stands.
pub fn position_named(props: &[Prop], name: &str) -> (r: Option<usize>)
    ensures
        match r {
            Some(i) => first_named(prop_views(props@), name@) == Some(i as int),
            None => first_named(prop_views(props@), name@) is None,
        },
{
    let ghost pv = prop_views(props@);
    let mut i: usize = 0;
    while i < props.len()
        invariant
            i <= props@.len(),
            pv == prop_views(props@),
            forall|j: int| 0 <= j < i ==> #[trigger] pv[j].name != name@,
        decreases props@.len() - i,
    {
        if str_eq(props[i].name.as_str(), name) {
            proof {
                let k = choose|k: int|
                    0 <= k < pv.len() && pv[k].name == name@ && forall|j: int|
                        0 <= j < k ==> #[trigger] pv[j].name != name@;
                assert(pv[i as int].name == name@);
                if k < i {
                    assert(pv[k].name != name@);
                } else if i < k {
                    assert(pv[i as int].name != name@);
                }
            }
            return Some(i);
        }
        assert(pv[i as int].name != name@);
        i += 1;
    }
    None
}

/// The event node a property list names, if its `Device Node` entry (the
/// first one) holds text.
pub open spec fn device_node_of(props: Seq<PropView>) -> Option<Seq<char>> {
    match first_named(props, "Device Node"@) {
        Some(i) => match props[i].value {
            PropValueView::Opaque(s) => Some(trim_char(s, '"')),
            _ => None,
        },
        None => None,
    }
}

/// The `/dev/input/eventN` node backing a device, used to find its sysfs home.
pub fn device_node(props: &[Prop]) -> (r: Option<String>)
    ensures
        match device_node_of(prop_views(props@)) {
            Some(s) => r matches Some(x) && x@ == s,
            None => r is None,
        },
{
    match position_named(props, "Device Node") {
        Some(i) => match &props[i].value {
            PropValue::Opaque(s) => {
                let t = trim_char_exec(chars_of(s.as_str()).as_slice(), '"');
                Some(string_of(t.as_slice()))
            },
            PropValue::Numbers(_) => None,
        },
        None => None,
    }
}

/// Whether the X server delivers a device's events: its first
/// `Device Enabled` entry reads as a single `0` or `1`, and a device that
/// reports none is taken to be enabled.
pub open spec fn enabled_of(props: Seq<PropView>) -> bool {
    match first_named(props, "Device Enabled"@) {
        Some(i) => match prop_bool(props[i]) {
            Some(b) => b,
            None => true,
        },
        None => true,
    }
}

/// Whether a device is enabled, by its `Device Enabled` property.
pub fn is_enabled(props: &[Prop]) -> (r: bool)
    ensures
        r == enabled_of(prop_views(props@)),
{
    match position_named(props, "Device Enabled") {
        Some(i) => match props[i].as_bool() {
            Some(b) => b,
            None => true,
        },
        None => true,
    }
}

/// The argument list that turns a device on or off.
pub open spec fn set_enabled_args(id: u32, enabled: bool) -> Seq<Seq<char>> {
    seq![if enabled { "enable"@ } else { "disable"@ }, decimal(id as nat)]
}

/// Arguments for `xinput` that enable or disable a device.
pub fn set_enabled(id: u32, enabled: bool) -> (r: Vec<String>)
    ensures
        string_views(r@) == set_enabled_args(id, enabled),
{
    let mut args: Vec<String> = Vec::new();
    let verb = if enabled {
        "enable"
    } else {
        "disable"
    };
    args.push(string_of(chars_of(verb).as_slice()));
    args.push(string_of(decimal_u64(id as u64).as_slice()));
    assert(string_views(args@) =~= set_enabled_args(id, enabled));
    args
}

/// The command a user would type to turn a device on or off.
pub open spec fn set_enabled_command_text(name: Seq<char>, enabled: bool) -> Seq<char> {
    (if enabled {
        "xinput enable \""@
    } else {
        "xinput disable \""@
    }) + name + "\""@
}

pub fn set_enabled_command(name: &str, enabled: bool) -> (r: String)
    ensures
        r@ == set_enabled_command_text(name@, enabled),
{
    let head = if enabled {
        chars_of("xinput enable \"")
    } else {
        chars_of("xinput disable \"")
    };
    let a = concat(head.as_slice(), chars_of(name).as_slice());
    let b = concat(a.as_slice(), chars_of("\"").as_slice());
    string_of(b.as_slice())
}

/// The text of `String::from_utf8_lossy` for these bytes.
pub uninterp spec fn utf8_lossy(bytes: Seq<u8>) -> Seq<char>;

/// `String::from_utf8_lossy`. Claimed: the text depends on the bytes alone.
/// Which replacement characters it holds is left to the name.
#[verifier::external_body]
pub(crate) fn lossy_text(bytes: &[u8]) -> (r: String)
    ensures
        r@ == utf8_lossy(bytes@),
{
    String::from_utf8_lossy(bytes).into_owned()
}

/// The message for a run of `xinput` that exited unsuccessfully, from the
/// text of what it wrote to stderr: that text trimmed, or a line naming the
/// arguments when nothing is left.
pub open spec fn failure_text_of(args: Seq<Seq<char>>, text: Seq<char>) -> Seq<char> {
    let msg = trim(text);
    if msg.len() == 0 {
        "xinput "@ + join(args, " "@) + " failed"@
    } else {
        msg
    }
}

pub open spec fn failure_text(args: Seq<Seq<char>>, stderr: Seq<u8>) -> Seq<char> {
    failure_text_of(args, utf8_lossy(stderr))
}

/// The error for a failed run whose stderr read as `text`.
pub fn failure_from_text(args: &[String], text: &str) -> (e: Error)
    ensures
        e.0@ == failure_text_of(string_views(args@), text@),
{
    let msg = trim_chars(chars_of(text).as_slice());
    if msg.len() == 0 {
        let vs = char_vecs_of(args);
        let joined = join_chars(&vs, chars_of(" ").as_slice());
        let a = concat(chars_of("xinput ").as_slice(), joined.as_slice());
        let b = concat(a.as_slice(), chars_of(" failed").as_slice());
        Error(string_of(b.as_slice()))
    } else {
        Error(string_of(msg.as_slice()))
    }
}

/// The error for a run of `xinput` that exited unsuccessfully, from the
/// bytes it wrote to stderr.
pub fn run_failure(args: &[String], stderr: &[u8]) -> (e: Error)
    ensures
        e.0@ == failure_text(string_views(args@), stderr@),
{
    failure_from_text(args, lossy_text(stderr).as_str())
}

} // verus!
