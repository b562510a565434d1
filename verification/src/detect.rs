//! "Which device actually sent that click?", and the drift meter's reading
//! of motion: line-at-a-time state machines over the event blocks that
//! `xinput test-xi2 --root` prints.
//!
//! The physical buttons under a ThinkPad TrackPoint are not always reported by
//! the TrackPoint device — on plenty of machines they belong to the touchpad.
//! Remapping the wrong device is silent and looks like the remap simply did not
//! work, so the detector names the real source.
use vstd::prelude::*;

use crate::num::{parse_u32, parse_u32_exec};
use crate::text::{
    chars_of, contains, contains_chars, find_chars, first_match, matches_at, slice_chars, starts_with,
    starts_with_chars, string_of, trim, trim_chars, words, words_of,
};

verus! {

#[derive(Debug, Clone, Copy, PartialEq, Eq, Structural)]
pub struct Hit {
    pub device_id: u32,
    pub button: u32,
}

/// The first whitespace-separated word of `s`, read as a `u32`.
pub open spec fn first_word_u32(s: Seq<char>) -> Option<u32> {
    let w = words(s);
    if w.len() > 0 {
        parse_u32(w[0])
    } else {
        None
    }
}

fn first_word_u32_exec(s: &[char]) -> (r: Option<u32>)
    ensures
        r == first_word_u32(s@),
{
    let w = words_of(s);
    if w.len() > 0 {
        assert(crate::text::views(w@)[0] == w[0]@);
        parse_u32_exec(w[0].as_slice())
    } else {
        None
    }
}

/// A line-at-a-time state machine over the event blocks xinput prints:
///
/// ```text
/// EVENT type 4 (ButtonPress)
///     device: 13 (13)
///     detail: 2
/// ```
#[derive(Debug)]
pub struct HitParser {
    in_press: bool,
    device: Option<u32>,
}

/// The parser's state: inside a `ButtonPress` block, and the source device
/// read so far in it.
pub struct HitState {
    pub in_press: bool,
    pub device: Option<u32>,
}

impl View for HitParser {
    type V = HitState;

    closed spec fn view(&self) -> HitState {
        HitState { in_press: self.in_press, device: self.device }
    }
}

/// One line's effect on the parser: the next state and the hit it reports.
pub open spec fn hit_step(s: HitState, line: Seq<char>) -> (HitState, Option<Hit>) {
    let t = trim(line);
    if starts_with(t, "EVENT type"@) {
        // A new block begins, so anything half-parsed is stale.
        (HitState { in_press: contains(t, "(ButtonPress)"@), device: None }, None)
    } else if !s.in_press {
        (s, None)
    } else if starts_with(t, "device:"@) {
        // "device: 13 (13)" — the first number is the source device.
        (
            HitState { in_press: s.in_press, device: first_word_u32(t.skip("device:"@.len() as int)) },
            None,
        )
    } else if starts_with(t, "detail:"@) {
        match parse_u32(trim(t.skip("detail:"@.len() as int))) {
            None => (HitState { in_press: false, device: s.device }, None),
            Some(button) => match s.device {
                None => (HitState { in_press: false, device: None }, None),
                Some(d) => (
                    HitState { in_press: false, device: None },
                    Some(Hit { device_id: d, button }),
                ),
            },
        }
    } else {
        (s, None)
    }
}

pub open spec fn fresh_hit_state() -> HitState {
    HitState { in_press: false, device: None }
}

impl Default for HitParser {
    fn default() -> (p: Self)
        ensures
            p@ == fresh_hit_state(),
    {
        HitParser { in_press: false, device: None }
    }
}

impl HitParser {
    pub fn feed(&mut self, line: &str) -> (r: Option<Hit>)
        ensures
            (final(self)@, r) == hit_step(old(self)@, line@),
    {
        let trimmed = trim_chars(chars_of(line).as_slice());
        if starts_with_chars(trimmed.as_slice(), chars_of("EVENT type").as_slice()) {
            self.in_press = contains_chars(trimmed.as_slice(), chars_of("(ButtonPress)").as_slice());
            self.device = None;
            return None;
        }
        if !self.in_press {
            return None;
        }
        let device_tag = chars_of("device:");
        if starts_with_chars(trimmed.as_slice(), device_tag.as_slice()) {
            let rest = slice_chars(trimmed.as_slice(), device_tag.len(), trimmed.len());
            assert(rest@ =~= trim(line@).skip("device:"@.len() as int));
            self.device = first_word_u32_exec(rest.as_slice());
            return None;
        }
        let detail_tag = chars_of("detail:");
        if starts_with_chars(trimmed.as_slice(), detail_tag.as_slice()) {
            self.in_press = false;
            let rest = slice_chars(trimmed.as_slice(), detail_tag.len(), trimmed.len());
            assert(rest@ =~= trim(line@).skip("detail:"@.len() as int));
            let button = match parse_u32_exec(trim_chars(rest.as_slice()).as_slice()) {
                Some(b) => b,
                None => {
                    return None;
                },
            };
            let device_id = match self.device {
                Some(d) => d,
                None => {
                    return None;
                },
            };
            self.device = None;
            return Some(Hit { device_id, button });
        }
        None
    }
}

/// Every line, whatever state it finds the parser in, leaves no device
/// behind once it opens a new block: a block cut short cannot lend its
/// device to the next one.
pub proof fn lemma_event_line_resets(s: HitState, line: Seq<char>)
    requires
        starts_with(trim(line), "EVENT type"@),
    ensures
        hit_step(s, line).0.device is None,
        hit_step(s, line).1 is None,
{
}

/// A reported hit names the device read earlier in the same press block,
/// and closes that block.
pub proof fn lemma_hit_comes_from_the_block(s: HitState, line: Seq<char>)
    requires
        hit_step(s, line).1 is Some,
    ensures
        s.in_press,
        s.device == Some(hit_step(s, line).1->0.device_id),
        !hit_step(s, line).0.in_press,
        hit_step(s, line).0.device is None,
{
}

/// Outside a press block, nothing but a new block header changes anything.
pub proof fn lemma_quiet_outside_press(s: HitState, line: Seq<char>)
    requires
        !s.in_press,
        !starts_with(trim(line), "EVENT type"@),
    ensures
        hit_step(s, line) == (s, None::<Hit>),
{
}

/// How many hits the detector keeps on screen.
pub const HIT_HISTORY: usize = 12;

/// The detector's history after a new hit: the hit appended, and the oldest
/// dropped once there are more than twelve.
pub open spec fn with_hit(hits: Seq<Hit>, hit: Hit) -> Seq<Hit> {
    let pushed = hits.push(hit);
    if pushed.len() > HIT_HISTORY {
        pushed.drop_first()
    } else {
        pushed
    }
}

/// Add a hit to the detector's history.
pub fn record_hit(hits: &mut Vec<Hit>, hit: Hit)
    ensures
        final(hits)@ == with_hit(old(hits)@, hit),
{
    hits.push(hit);
    if hits.len() > HIT_HISTORY {
        hits.remove(0);
        assert(final(hits)@ =~= old(hits)@.push(hit).drop_first());
    }
}

/// The history never grows past twelve, and its newest entry is the hit
/// just recorded.
pub proof fn lemma_history_bounded(hits: Seq<Hit>, hit: Hit)
    requires
        hits.len() <= HIT_HISTORY,
    ensures
        with_hit(hits, hit).len() <= HIT_HISTORY,
        with_hit(hits, hit).last() == hit,
{
}

// ---- Drift meter --------------------------------------------------------

/// What one line of a motion block contributes.
#[derive(Debug)]
pub enum MotionStep {
    /// Nothing to act on.
    Quiet,
    /// A new block begins: whatever the previous block accumulated is done.
    Boundary,
    /// A valuator row of a motion block: the device, the axis and the raw
    /// value text, which is a running accumulator rather than a delta.
    Valuator { device_id: u32, axis: u32, value: String },
}

pub enum MotionStepView {
    Quiet,
    Boundary,
    Valuator { device_id: u32, axis: u32, value: Seq<char> },
}

impl View for MotionStep {
    type V = MotionStepView;

    open spec fn view(&self) -> MotionStepView {
        match self {
            MotionStep::Quiet => MotionStepView::Quiet,
            MotionStep::Boundary => MotionStepView::Boundary,
            MotionStep::Valuator { device_id, axis, value } => MotionStepView::Valuator {
                device_id: *device_id,
                axis: *axis,
                value: value@,
            },
        }
    }
}

/// The line-level half of the drift meter's parser. Motion blocks look like
///
/// ```text
/// EVENT type 6 (Motion)
///     device: 13 (13)
///     valuators:
///          0: 1234.00
///          1: 5678.00
/// ```
///
/// This tracks which block and which part of it a line belongs to; turning
/// the accumulators into deltas is arithmetic on the values it hands out.
#[derive(Debug)]
pub struct MotionLines {
    in_motion: bool,
    in_valuators: bool,
    device: Option<u32>,
}

pub struct MotionState {
    pub in_motion: bool,
    pub in_valuators: bool,
    pub device: Option<u32>,
}

impl View for MotionLines {
    type V = MotionState;

    closed spec fn view(&self) -> MotionState {
        MotionState { in_motion: self.in_motion, in_valuators: self.in_valuators, device: self.device }
    }
}

pub open spec fn fresh_motion_state() -> MotionState {
    MotionState { in_motion: false, in_valuators: false, device: None }
}

impl Default for MotionLines {
    fn default() -> (p: Self)
        ensures
            p@ == fresh_motion_state(),
    {
        MotionLines { in_motion: false, in_valuators: false, device: None }
    }
}

/// One line's effect on the motion parser.
pub open spec fn motion_step(s: MotionState, line: Seq<char>) -> (MotionState, MotionStepView) {
    let t = trim(line);
    if starts_with(t, "EVENT type"@) {
        (
            MotionState { in_motion: contains(t, "(Motion)"@), in_valuators: false, device: None },
            MotionStepView::Boundary,
        )
    } else if !s.in_motion {
        (s, MotionStepView::Quiet)
    } else if starts_with(t, "device:"@) {
        (
            MotionState {
                in_motion: s.in_motion,
                in_valuators: s.in_valuators,
                device: first_word_u32(t.skip("device:"@.len() as int)),
            },
            MotionStepView::Quiet,
        )
    } else if starts_with(t, "valuators:"@) {
        (
            MotionState { in_motion: s.in_motion, in_valuators: true, device: s.device },
            MotionStepView::Quiet,
        )
    } else if !s.in_valuators {
        (s, MotionStepView::Quiet)
    } else {
        // Valuator rows are "N: value" and nothing else starts with a digit.
        let stop = MotionState { in_motion: s.in_motion, in_valuators: false, device: s.device };
        match first_match(t, ":"@) {
            None => (stop, MotionStepView::Quiet),
            Some(i) => match parse_u32(trim(t.take(i))) {
                None => (stop, MotionStepView::Quiet),
                Some(axis) => {
                    let w = words(t.skip(i + 1));
                    if w.len() == 0 {
                        (s, MotionStepView::Quiet)
                    } else {
                        match s.device {
                            None => (s, MotionStepView::Quiet),
                            Some(d) => (
                                s,
                                MotionStepView::Valuator { device_id: d, axis, value: w[0] },
                            ),
                        }
                    }
                },
            },
        }
    }
}

/// The steps a run of lines makes from a state, and the state it leaves.
pub open spec fn motion_run(s: MotionState, ls: Seq<Seq<char>>) -> (MotionState, Seq<MotionStepView>)
    decreases ls.len(),
{
    if ls.len() == 0 {
        (s, seq![])
    } else {
        let (t, step) = motion_step(s, ls[0]);
        let (u, rest) = motion_run(t, ls.drop_first());
        (u, seq![step] + rest)
    }
}

/// A block header ends the block before it and opens a motion block only
/// when it names the `(Motion)` event type; any other header, such as a
/// `(RawMotion)` one, leaves the parser outside motion.
pub proof fn lemma_only_motion_headers_open(s: MotionState, line: Seq<char>)
    requires
        starts_with(trim(line), "EVENT type"@),
    ensures
        motion_step(s, line).1 == MotionStepView::Boundary,
        motion_step(s, line).0.in_motion <==> contains(trim(line), "(Motion)"@),
        !motion_step(s, line).0.in_valuators,
        motion_step(s, line).0.device is None,
{
}

/// Outside a motion block, a line that opens no block changes nothing and
/// hands nothing out.
pub proof fn lemma_quiet_outside_motion(s: MotionState, line: Seq<char>)
    requires
        !s.in_motion,
        !starts_with(trim(line), "EVENT type"@),
    ensures
        motion_step(s, line) == (s, MotionStepView::Quiet),
{
}

/// A block whose header does not name `(Motion)` hands out no valuator,
/// whatever its rows say: from any state, the header and the lines after it
/// up to the next header yield a boundary and then only quiet steps.
pub proof fn lemma_other_blocks_hand_out_nothing(s: MotionState, header: Seq<char>, body: Seq<Seq<char>>)
    requires
        starts_with(trim(header), "EVENT type"@),
        !contains(trim(header), "(Motion)"@),
        forall|i: int| 0 <= i < body.len() ==> !starts_with(trim(#[trigger] body[i]), "EVENT type"@),
    ensures
        motion_run(s, seq![header] + body).1.len() == body.len() + 1,
        motion_run(s, seq![header] + body).1[0] == MotionStepView::Boundary,
        forall|k: int| 1 <= k <= body.len() ==> #[trigger] motion_run(s, seq![header] + body).1[k]
            == MotionStepView::Quiet,
{
    let t = motion_step(s, header).0;
    assert((seq![header] + body).drop_first() =~= body);
    assert((seq![header] + body)[0] == header);
    lemma_quiet_run(t, body);
}

proof fn lemma_quiet_run(t: MotionState, body: Seq<Seq<char>>)
    requires
        !t.in_motion,
        forall|i: int| 0 <= i < body.len() ==> !starts_with(trim(#[trigger] body[i]), "EVENT type"@),
    ensures
        motion_run(t, body).0 == t,
        motion_run(t, body).1.len() == body.len(),
        forall|k: int| 0 <= k < body.len() ==> #[trigger] motion_run(t, body).1[k] == MotionStepView::Quiet,
    decreases body.len(),
{
    if body.len() > 0 {
        assert(!starts_with(trim(body[0]), "EVENT type"@));
        let rest = body.drop_first();
        assert forall|i: int| 0 <= i < rest.len() implies !starts_with(trim(#[trigger] rest[i]), "EVENT type"@) by {
            assert(rest[i] == body[i + 1]);
        }
        lemma_quiet_run(t, rest);
        let r = motion_run(t, body).1;
        assert forall|k: int| 0 <= k < body.len() implies #[trigger] r[k] == MotionStepView::Quiet by {
            if k > 0 {
                assert(r[k] == motion_run(t, rest).1[k - 1]);
            }
        }
    }
}

impl MotionLines {
    pub fn feed(&mut self, line: &str) -> (r: MotionStep)
        ensures
            (final(self)@, r@) == motion_step(old(self)@, line@),
    {
        let trimmed = trim_chars(chars_of(line).as_slice());
        if starts_with_chars(trimmed.as_slice(), chars_of("EVENT type").as_slice()) {
            self.in_motion = contains_chars(trimmed.as_slice(), chars_of("(Motion)").as_slice());
            self.in_valuators = false;
            self.device = None;
            return MotionStep::Boundary;
        }
        if !self.in_motion {
            return MotionStep::Quiet;
        }
        let device_tag = chars_of("device:");
        if starts_with_chars(trimmed.as_slice(), device_tag.as_slice()) {
            let rest = slice_chars(trimmed.as_slice(), device_tag.len(), trimmed.len());
            assert(rest@ =~= trim(line@).skip("device:"@.len() as int));
            self.device = first_word_u32_exec(rest.as_slice());
            return MotionStep::Quiet;
        }
        if starts_with_chars(trimmed.as_slice(), chars_of("valuators:").as_slice()) {
            self.in_valuators = true;
            return MotionStep::Quiet;
        }
        if !self.in_valuators {
            return MotionStep::Quiet;
        }
        let colon = chars_of(":");
        let i = match find_chars(trimmed.as_slice(), colon.as_slice()) {
            Some(i) => i,
            None => {
                self.in_valuators = false;
                return MotionStep::Quiet;
            },
        };
        proof {
            reveal_strlit(":");
        }
        assert(colon@.len() == 1);
        assert(matches_at(trimmed@, colon@, i as int));
        assert(i + 1 <= trimmed.len());
        let left = slice_chars(trimmed.as_slice(), 0, i);
        assert(left@ =~= trim(line@).take(i as int));
        let axis = match parse_u32_exec(trim_chars(left.as_slice()).as_slice()) {
            Some(a) => a,
            None => {
                self.in_valuators = false;
                return MotionStep::Quiet;
            },
        };
        let right = slice_chars(trimmed.as_slice(), i + 1, trimmed.len());
        assert(right@ =~= trim(line@).skip(i + 1));
        let w = words_of(right.as_slice());
        if w.len() == 0 {
            return MotionStep::Quiet;
        }
        assert(crate::text::views(w@)[0] == w[0]@);
        let device_id = match self.device {
            Some(d) => d,
            None => {
                return MotionStep::Quiet;
            },
        };
        MotionStep::Valuator { device_id, axis, value: string_of(w[0].as_slice()) }
    }
}

} // verus!
