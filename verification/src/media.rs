//! The arithmetic and the decisions around decoding: timestamps in
//! microseconds, durations, where to seek before a frame, what to do with
//! each decoded frame, and how an indexed stream becomes a session summary.

use vstd::prelude::*;
use vstd::string::*;

use crate::protocol::{FrameMeta, SessionSummary, VideoProbe};
use crate::text::{decimal, push_char, push_decimal, push_signed_decimal, push_str, signed_decimal};

verus! {

/// FFmpeg's "try again" receive code: `AVERROR(EAGAIN)`.
pub const AVERROR_EAGAIN: i32 = -11;

/// FFmpeg's end-of-stream code: the tag `'E','O','F',' '`, negated.
pub const AVERROR_EOF: i32 = -0x2046_4F45;

/// The value FFmpeg uses for a missing timestamp.
pub const NO_PTS_VALUE: i64 = i64::MIN;

/// FFmpeg's internal time base: microseconds.
pub const AV_TIME_BASE: i64 = 1_000_000;

/// The frame flag that marks a keyframe.
pub const AV_FRAME_FLAG_KEY: i32 = 2;

/// A rational number, as FFmpeg keeps time bases and frame rates.
#[derive(Debug, Clone, Copy, PartialEq, Eq)]
pub struct Rational {
    pub num: i32,
    pub den: i32,
}

/// Where decoding starts on the way to a frame: the index of a keyframe and
/// its presentation timestamp, or the start of the stream.
#[derive(Debug, Clone, Copy, PartialEq, Eq)]
pub struct SeekAnchor {
    pub index: u32,
    pub pts: Option<i64>,
}

pub open spec fn abs(a: int) -> int {
    if a < 0 {
        -a
    } else {
        a
    }
}

/// Integer division as Rust's `/` does it: rounding toward zero.
pub open spec fn trunc_div(a: int, b: int) -> int {
    if (a < 0) == (b < 0) {
        abs(a) / abs(b)
    } else {
        -(abs(a) / abs(b))
    }
}

/// `r` held to the range of `i64`.
pub open spec fn clamp_i64(r: int) -> i64 {
    if r > i64::MAX {
        i64::MAX
    } else if r < i64::MIN {
        i64::MIN
    } else {
        r as i64
    }
}

/// A timestamp of `time_base` units in microseconds, rounded toward zero and
/// held to the range of `i64`; zero for a zero denominator.
pub open spec fn pts_micros(pts: i64, time_base: Rational) -> i64 {
    if time_base.den == 0 {
        0
    } else {
        clamp_i64(trunc_div(pts * time_base.num * 1_000_000, time_base.den as int))
    }
}

proof fn lemma_mul_bound(a: int, b: int, x: int, y: int)
    requires
        abs(a) <= x,
        abs(b) <= y,
        0 <= x,
        0 <= y,
    ensures
        abs(a * b) <= x * y,
{
    assert(abs(a * b) == abs(a) * abs(b)) by (nonlinear_arith);
    assert(abs(a) * abs(b) <= x * y) by (nonlinear_arith)
        requires
            abs(a) <= x,
            abs(b) <= y,
            0 <= abs(a),
            0 <= abs(b),
    ;
}

/// `a / b` rounded toward zero, for values well inside the range of `i128`.
fn trunc_div_i128(a: i128, b: i128) -> (q: i128)
    requires
        b != 0,
        abs(a as int) < 0x4000_0000_0000_0000_0000_0000_0000_0000,
        abs(b as int) < 0x4000_0000_0000_0000_0000_0000_0000_0000,
    ensures
        q == trunc_div(a as int, b as int),
{
    let ua: u128 = if a < 0 {
        (-a) as u128
    } else {
        a as u128
    };
    let ub: u128 = if b < 0 {
        (-b) as u128
    } else {
        b as u128
    };
    let q = ua / ub;
    assert(q <= ua) by (nonlinear_arith)
        requires
            ub >= 1,
            q == ua / ub,
    ;
    if (a < 0) == (b < 0) {
        q as i128
    } else {
        -(q as i128)
    }
}

/// `a * b`, held to the range of `i64`, as `i64::saturating_mul` gives it.
pub fn saturating_mul_i64(a: i64, b: i64) -> (r: i64)
    ensures
        r == clamp_i64(a * b),
{
    proof {
        lemma_mul_bound(a as int, b as int, 0x8000_0000_0000_0000, 0x8000_0000_0000_0000);
    }
    let p: i128 = (a as i128) * (b as i128);
    if p > i64::MAX as i128 {
        i64::MAX
    } else if p < i64::MIN as i128 {
        i64::MIN
    } else {
        p as i64
    }
}

/// A timestamp of `time_base` units in microseconds.
pub fn pts_to_us(pts: i64, time_base: Rational) -> (us: i64)
    ensures
        us == pts_micros(pts, time_base),
{
    if time_base.den == 0 {
        return 0;
    }
    proof {
        lemma_mul_bound(pts as int, time_base.num as int, 0x8000_0000_0000_0000, 0x8000_0000);
        lemma_mul_bound(
            pts * time_base.num,
            1_000_000,
            0x4000_0000_0000_0000_0000_0000int,
            1_000_000,
        );
    }
    let product: i128 = (pts as i128) * (time_base.num as i128) * 1_000_000;
    let result = trunc_div_i128(product, time_base.den as i128);
    if result > i64::MAX as i128 {
        i64::MAX
    } else if result < i64::MIN as i128 {
        i64::MIN
    } else {
        result as i64
    }
}

/// A positive value, or nothing.
pub fn positive_i64(value: i64) -> (r: Option<i64>)
    ensures
        r == (if value > 0 {
            Some(value)
        } else {
            None
        }),
{
    if value > 0 {
        Some(value)
    } else {
        None
    }
}

/// A raw FFmpeg timestamp, or nothing when it is the missing-timestamp value.
pub fn timestamp_from_raw(raw: i64) -> (r: Option<i64>)
    ensures
        r == (if raw == NO_PTS_VALUE {
            None
        } else {
            Some(raw)
        }),
{
    if raw == NO_PTS_VALUE {
        None
    } else {
        Some(raw)
    }
}

/// The duration of a container, which FFmpeg keeps in `AV_TIME_BASE` units,
/// in microseconds: nothing when it is missing or negative.
pub open spec fn container_duration(duration: i64) -> Option<i64> {
    if duration == NO_PTS_VALUE || duration < 0 {
        None
    } else {
        Some((clamp_i64(duration * 1_000_000) / AV_TIME_BASE) as i64)
    }
}

/// The duration of a stream of `time_base` units in microseconds: nothing
/// when it is missing or negative, or the time base has a zero denominator.
pub open spec fn stream_duration(duration: i64, time_base: Rational) -> Option<i64> {
    if duration == NO_PTS_VALUE || duration < 0 || time_base.den == 0 {
        None
    } else {
        Some(
            trunc_div(
                clamp_i64(duration * (time_base.num * 1_000_000)) as int,
                time_base.den as int,
            ) as i64,
        )
    }
}

/// Rust's division would overflow, and panic, on the stream duration: the
/// saturated product is `i64::MIN` and the denominator is -1.
pub open spec fn stream_duration_overflows(duration: i64, time_base: Rational) -> bool {
    &&& duration != NO_PTS_VALUE
    &&& duration >= 0
    &&& time_base.den == -1
    &&& clamp_i64(duration * (time_base.num * 1_000_000)) == i64::MIN
}

/// Law: a container's duration is already in microseconds (FFmpeg's
/// `AV_TIME_BASE` units), so it comes out unchanged whenever it is present and
/// small enough not to saturate; a missing or negative one gives nothing. The
/// duration of a video is then the container's.
pub proof fn law_container_duration_in_microseconds(d: i64, facts: StreamFacts)
    ensures
        0 <= d <= i64::MAX / 1_000_000 ==> container_duration(d) == Some(d),
        d < 0 ==> container_duration(d) is None,
        0 <= facts.container_duration <= i64::MAX / 1_000_000 ==> video_duration(facts) == Some(
            facts.container_duration,
        ),
{
    assert(0 <= d <= i64::MAX / 1_000_000 ==> d * 1_000_000 <= i64::MAX);
    let c = facts.container_duration;
    assert(0 <= c <= i64::MAX / 1_000_000 ==> c * 1_000_000 <= i64::MAX);
}

/// The duration of a container in microseconds.
pub fn context_duration_us(duration: i64) -> (r: Option<i64>)
    ensures
        r == container_duration(duration),
{
    if duration == NO_PTS_VALUE || duration < 0 {
        None
    } else {
        let scaled = saturating_mul_i64(duration, 1_000_000);
        Some(((scaled as u64) / 1_000_000) as i64)
    }
}

/// The duration of a stream in microseconds.
pub fn stream_duration_us(duration: i64, time_base: Rational) -> (r: Option<i64>)
    requires
        !stream_duration_overflows(duration, time_base),
    ensures
        r == stream_duration(duration, time_base),
{
    if duration == NO_PTS_VALUE || duration < 0 {
        return None;
    }
    if time_base.den == 0 {
        return None;
    }
    let scale: i64 = (time_base.num as i64) * 1_000_000;
    let product = saturating_mul_i64(duration, scale);
    let q = trunc_div_i128(product as i128, time_base.den as i128);
    proof {
        let a = product as int;
        let b = time_base.den as int;
        assert(abs(a) / abs(b) <= abs(a)) by (nonlinear_arith)
            requires
                abs(b) >= 1,
                abs(a) >= 0,
        ;
        if b == -1 {
            assert(a != i64::MIN);
        }
        if abs(b) >= 2 {
            assert(abs(a) / abs(b) <= abs(a) / 2) by (nonlinear_arith)
                requires
                    abs(b) >= 2,
                    abs(a) >= 0,
            ;
        }
    }
    Some(q as i64)
}

// ---------------------------------------------------------------------------
// Seeking
// ---------------------------------------------------------------------------

/// Frame `k` is a keyframe with a timestamp, at or before `target`.
pub open spec fn is_anchor(frames: Seq<FrameMeta>, target: u32, k: int) -> bool {
    &&& 0 <= k < frames.len()
    &&& k <= target
    &&& frames[k].is_keyframe
    &&& frames[k].pts is Some
}

/// Frame `k` is the last keyframe with a timestamp at or before `target`.
pub open spec fn is_last_anchor(frames: Seq<FrameMeta>, target: u32, k: int) -> bool {
    &&& is_anchor(frames, target, k)
    &&& forall|j: int| k < j < frames.len() && j <= target ==> !is_anchor(frames, target, j)
}

/// Where decoding starts on the way to frame `target`: the last keyframe
/// with a timestamp at or before it, else the start of the stream.
pub open spec fn seek_anchor(frames: Seq<FrameMeta>, target: u32) -> SeekAnchor {
    if exists|k: int| is_last_anchor(frames, target, k) {
        let k = choose|k: int| is_last_anchor(frames, target, k);
        SeekAnchor { index: k as u32, pts: frames[k].pts }
    } else {
        SeekAnchor { index: 0, pts: None }
    }
}

/// Where decoding starts on the way to frame `target`.
pub fn find_seek_anchor(frames: &[FrameMeta], target: u32) -> (a: SeekAnchor)
    ensures
        a == seek_anchor(frames@, target),
{
    let end: usize = if (target as usize) < frames.len() {
        target as usize + 1
    } else {
        frames.len()
    };
    let mut i = end;
    while i > 0
        invariant
            0 <= i <= end <= frames@.len(),
            end as int == if (target as int) < frames@.len() {
                target + 1
            } else {
                frames@.len() as int
            },
            forall|j: int| i <= j < end ==> !is_anchor(frames@, target, j),
        decreases i,
    {
        let k = i - 1;
        if frames[k].is_keyframe && frames[k].pts.is_some() {
            proof {
                assert(is_last_anchor(frames@, target, k as int));
                let k2 = choose|k: int| is_last_anchor(frames@, target, k);
                assert(is_last_anchor(frames@, target, k2));
                if k2 < k {
                    assert(!is_anchor(frames@, target, k as int));
                }
                if k < k2 {
                    assert(is_anchor(frames@, target, k2));
                }
            }
            return SeekAnchor { index: k as u32, pts: frames[k].pts };
        }
        i = k;
    }
    proof {
        if exists|k: int| is_last_anchor(frames@, target, k) {
            let k = choose|k: int| is_last_anchor(frames@, target, k);
            assert(is_anchor(frames@, target, k));
        }
    }
    SeekAnchor { index: 0, pts: None }
}

/// The message of a frame past the end of an index of `count` frames.
pub open spec fn not_indexed_text(target: u32, count: nat) -> Seq<char> {
    "frame "@ + decimal(target as nat) + " out of range for "@ + decimal(count) + " indexed frames"@
}

fn not_indexed(target: u32, count: usize) -> (m: String)
    ensures
        m@ == not_indexed_text(target, count as nat),
{
    let mut m = String::from_str("frame ");
    push_decimal(&mut m, target as u64);
    push_str(&mut m, " out of range for ");
    push_decimal(&mut m, count as u64);
    push_str(&mut m, " indexed frames");
    m
}

/// Where an open decoder seeks before decoding frame `target`: an error for a
/// frame past the end of the index, else the seek anchor.
pub fn session_seek_plan(frames: &[FrameMeta], target: u32) -> (r: Result<SeekAnchor, String>)
    ensures
        match r {
            Ok(a) => (target as int) < frames@.len() && a == seek_anchor(frames@, target),
            Err(m) => (target as int) >= frames@.len() && m@ == not_indexed_text(
                target,
                frames@.len(),
            ),
        },
{
    if target as usize >= frames.len() {
        return Err(not_indexed(target, frames.len()));
    }
    Ok(find_seek_anchor(frames, target))
}

/// The seeks that a fresh decoder tries, in order, to decode frame `target`:
/// from its keyframe when that is not the first frame, and then from the start.
pub open spec fn decode_attempts(frames: Seq<FrameMeta>, target: u32) -> Seq<SeekAnchor> {
    let anchor = seek_anchor(frames, target);
    let start = SeekAnchor { index: 0, pts: None };
    if anchor.index > 0 {
        seq![anchor, start]
    } else {
        seq![start]
    }
}

/// The seeks to try, in order, to decode frame `target` of a file whose index
/// is `frames`; an error for a frame past the end of the index.
pub fn decode_video_frame_plan(frames: &[FrameMeta], target: u32) -> (r: Result<
    Vec<SeekAnchor>,
    String,
>)
    ensures
        match r {
            Ok(v) => (target as int) < frames@.len() && v@ == decode_attempts(frames@, target),
            Err(m) => (target as int) >= frames@.len() && m@ == not_indexed_text(
                target,
                frames@.len(),
            ),
        },
{
    if target as usize >= frames.len() {
        return Err(not_indexed(target, frames.len()));
    }
    let anchor = find_seek_anchor(frames, target);
    let mut v: Vec<SeekAnchor> = Vec::new();
    if anchor.index > 0 {
        v.push(anchor);
    }
    v.push(SeekAnchor { index: 0, pts: None });
    assert(v@ =~= decode_attempts(frames@, target));
    Ok(v)
}

// ---------------------------------------------------------------------------
// Draining decoded frames
// ---------------------------------------------------------------------------

/// Where a decode from an anchor stands: the index of the next frame to come
/// out, and the timestamp the first frame must carry to prove the seek landed.
#[derive(Debug, Clone, Copy, PartialEq, Eq)]
pub struct DrainCursor {
    pub frame_ordinal: u32,
    pub expected_anchor_pts: Option<i64>,
}

/// What to do with a decoded frame.
#[derive(Debug, Clone, PartialEq, Eq)]
pub enum DrainDecision {
    /// It is the frame asked for: convert it.
    Deliver,
    /// It comes before the frame asked for: drop it.
    Skip,
    /// The seek landed elsewhere than on the anchor: fail with this message.
    Mismatch(String),
}

/// What came of asking the decoder for a frame.
#[derive(Debug, Clone, Copy, PartialEq, Eq)]
pub enum ReceiveOutcome {
    /// A frame came out.
    Frame,
    /// The decoder needs more input, or has no more frames.
    Drained,
    /// Decoding failed.
    Failed,
}

/// The cursor at the start of a decode from `anchor`: only a seek to a
/// keyframe past the first frame has a landing to check.
pub open spec fn cursor_at(anchor: SeekAnchor) -> DrainCursor {
    DrainCursor {
        frame_ordinal: anchor.index,
        expected_anchor_pts: if anchor.index > 0 {
            anchor.pts
        } else {
            None
        },
    }
}

/// A timestamp as `{:?}` writes an `Option<i64>`.
pub open spec fn debug_timestamp(ts: Option<i64>) -> Seq<char> {
    match ts {
        Some(t) => "Some("@ + signed_decimal(t as int) + ")"@,
        None => "None"@,
    }
}

pub open spec fn mismatch_text(expected: i64, got: Option<i64>) -> Seq<char> {
    "seek landed on unexpected frame: expected pts "@ + signed_decimal(expected as int)
        + ", got "@ + debug_timestamp(got)
}

/// The cursor at the start of a decode from `anchor`.
pub fn cursor_from_anchor(anchor: SeekAnchor) -> (c: DrainCursor)
    ensures
        c == cursor_at(anchor),
{
    DrainCursor {
        frame_ordinal: anchor.index,
        expected_anchor_pts: if anchor.index > 0 {
            anchor.pts
        } else {
            None
        },
    }
}

/// Sorts the code that `avcodec_receive_frame` returned.
pub fn classify_receive(code: i32) -> (r: ReceiveOutcome)
    ensures
        r == (if code == AVERROR_EAGAIN || code == AVERROR_EOF {
            ReceiveOutcome::Drained
        } else if code < 0 {
            ReceiveOutcome::Failed
        } else {
            ReceiveOutcome::Frame
        }),
{
    if code == AVERROR_EAGAIN || code == AVERROR_EOF {
        ReceiveOutcome::Drained
    } else if code < 0 {
        ReceiveOutcome::Failed
    } else {
        ReceiveOutcome::Frame
    }
}

/// Decides about a decoded frame with timestamp `decoded_pts` on the way to
/// frame `target`: the first frame after a seek must carry the anchor's
/// timestamp; the frame at `target` is delivered; any other is dropped and
/// the count moves on (the count is a `u32`, and must not be at its maximum
/// when it moves on).
pub fn on_decoded_frame(cursor: &mut DrainCursor, target: u32, decoded_pts: Option<i64>) -> (d:
    DrainDecision)
    requires
        old(cursor).frame_ordinal != target && (match old(cursor).expected_anchor_pts {
            Some(e) => decoded_pts == Some(e),
            None => true,
        }) ==> old(cursor).frame_ordinal < u32::MAX,
    ensures
        match old(cursor).expected_anchor_pts {
            Some(e) if decoded_pts != Some(e) => d matches DrainDecision::Mismatch(m) && m@
                == mismatch_text(e, decoded_pts) && *final(cursor) == *old(cursor),
            _ => {
                &&& final(cursor).expected_anchor_pts is None
                &&& if old(cursor).frame_ordinal == target {
                    d == DrainDecision::Deliver && final(cursor).frame_ordinal == target
                } else {
                    d == DrainDecision::Skip && final(cursor).frame_ordinal == old(
                        cursor,
                    ).frame_ordinal + 1
                }
            },
        },
        old(cursor).frame_ordinal <= target ==> final(cursor).frame_ordinal <= target,
{
    if let Some(expected) = cursor.expected_anchor_pts {
        let landed = match decoded_pts {
            Some(p) => p == expected,
            None => false,
        };
        if !landed {
            let mut m = String::from_str("seek landed on unexpected frame: expected pts ");
            push_signed_decimal(&mut m, expected);
            push_str(&mut m, ", got ");
            match decoded_pts {
                Some(p) => {
                    push_str(&mut m, "Some(");
                    push_signed_decimal(&mut m, p);
                    push_str(&mut m, ")");
                },
                None => push_str(&mut m, "None"),
            }
            return DrainDecision::Mismatch(m);
        }
        cursor.expected_anchor_pts = None;
    }
    if cursor.frame_ordinal == target {
        DrainDecision::Deliver
    } else {
        cursor.frame_ordinal = cursor.frame_ordinal + 1;
        DrainDecision::Skip
    }
}

// ---------------------------------------------------------------------------
// Indexing
// ---------------------------------------------------------------------------

/// The index entry of the decoded frame number `frame_ordinal`, from its raw
/// timestamps in `time_base` units and its flags.
pub open spec fn index_entry_of(
    frame_ordinal: u32,
    raw_pts: i64,
    raw_best_effort: i64,
    time_base: Rational,
    flags: i32,
) -> FrameMeta {
    let pts = if raw_pts == NO_PTS_VALUE {
        None
    } else {
        Some(raw_pts)
    };
    FrameMeta {
        frame_index: frame_ordinal,
        pts,
        timestamp_us: match pts {
            Some(p) => Some(pts_micros(p, time_base)),
            None => None,
        },
        best_effort_timestamp_us: if raw_best_effort == NO_PTS_VALUE {
            None
        } else {
            Some(pts_micros(raw_best_effort, time_base))
        },
        is_keyframe: (flags & AV_FRAME_FLAG_KEY) != 0,
    }
}

/// The index entry of a decoded frame.
pub fn index_entry(
    frame_ordinal: u32,
    raw_pts: i64,
    raw_best_effort: i64,
    time_base: Rational,
    flags: i32,
) -> (m: FrameMeta)
    ensures
        m == index_entry_of(frame_ordinal, raw_pts, raw_best_effort, time_base, flags),
{
    let pts = timestamp_from_raw(raw_pts);
    let timestamp_us = match pts {
        Some(p) => Some(pts_to_us(p, time_base)),
        None => None,
    };
    let best_effort_timestamp_us = match timestamp_from_raw(raw_best_effort) {
        Some(p) => Some(pts_to_us(p, time_base)),
        None => None,
    };
    FrameMeta {
        frame_index: frame_ordinal,
        pts,
        timestamp_us,
        best_effort_timestamp_us,
        is_keyframe: (flags & AV_FRAME_FLAG_KEY) != 0,
    }
}

/// What the container and the video stream say of themselves, as raw FFmpeg
/// values.
#[derive(Debug, Clone, PartialEq, Eq)]
pub struct StreamFacts {
    pub width: i32,
    pub height: i32,
    pub container_duration: i64,
    pub stream_duration: i64,
    pub time_base: Rational,
    pub codec_name: Option<String>,
    pub avg_frame_rate: Rational,
    pub bit_rate: i64,
}

/// A dimension that may be negative, as an unsigned one.
pub open spec fn dimension(v: i32) -> u32 {
    if v < 0 {
        0
    } else {
        v as u32
    }
}

/// The duration of a video: the container's, else the stream's.
pub open spec fn video_duration(facts: StreamFacts) -> Option<i64> {
    match container_duration(facts.container_duration) {
        Some(d) => Some(d),
        None => stream_duration(facts.stream_duration, facts.time_base),
    }
}

/// Working out the duration of a video would panic.
pub open spec fn duration_overflows(facts: StreamFacts) -> bool {
    &&& container_duration(facts.container_duration) is None
    &&& stream_duration_overflows(facts.stream_duration, facts.time_base)
}

/// The codec's name, or `unknown`.
pub open spec fn codec_text(name: Option<String>) -> Seq<char> {
    match name {
        Some(n) => n@,
        None => "unknown"@,
    }
}

/// Whether the duration of a video can be worked out without an overflow of
/// Rust's division: callers test this before `probe_from_facts` and
/// `index_summary`.
pub fn duration_fits(facts: &StreamFacts) -> (r: bool)
    ensures
        r == !duration_overflows(*facts),
{
    if context_duration_us(facts.container_duration).is_some() {
        return true;
    }
    let d = facts.stream_duration;
    let tb = facts.time_base;
    if d == NO_PTS_VALUE || d < 0 || tb.den != -1 {
        return true;
    }
    let scale: i64 = (tb.num as i64) * 1_000_000;
    saturating_mul_i64(d, scale) != i64::MIN
}

fn duration_of(facts: &StreamFacts) -> (r: Option<i64>)
    requires
        !duration_overflows(*facts),
    ensures
        r == video_duration(*facts),
{
    match context_duration_us(facts.container_duration) {
        Some(d) => Some(d),
        None => stream_duration_us(facts.stream_duration, facts.time_base),
    }
}

fn codec_string(name: &Option<String>) -> (s: String)
    ensures
        s@ == codec_text(*name),
{
    match name {
        Some(n) => n.clone(),
        None => String::from_str("unknown"),
    }
}

fn dimension_of(v: i32) -> (r: u32)
    ensures
        r == dimension(v),
{
    if v < 0 {
        0
    } else {
        v as u32
    }
}

/// What a probe of the file at `path` found in its video stream number
/// `video_stream_index`.
pub fn probe_from_facts(path: String, video_stream_index: usize, facts: &StreamFacts) -> (p:
    VideoProbe)
    requires
        !duration_overflows(*facts),
    ensures
        p.path == path,
        p.video_stream_index == video_stream_index,
        p.width == dimension(facts.width),
        p.height == dimension(facts.height),
        p.duration_us == video_duration(*facts),
        p.codec_name@ == codec_text(facts.codec_name),
        p.bit_rate == (if facts.bit_rate > 0 {
            Some(facts.bit_rate)
        } else {
            None
        }),
        p.avg_frame_rate_num == facts.avg_frame_rate.num,
        p.avg_frame_rate_den == facts.avg_frame_rate.den,
{
    VideoProbe {
        path,
        video_stream_index,
        width: dimension_of(facts.width),
        height: dimension_of(facts.height),
        duration_us: duration_of(facts),
        codec_name: codec_string(&facts.codec_name),
        bit_rate: positive_i64(facts.bit_rate),
        avg_frame_rate_num: facts.avg_frame_rate.num,
        avg_frame_rate_den: facts.avg_frame_rate.den,
    }
}

/// The message of an index that holds no frame.
pub open spec fn no_frames_text(path: Seq<char>, decode_errors: u32) -> Seq<char> {
    "no frames decoded from "@ + path + " ("@ + decimal(decode_errors as nat)
        + " decode error(s))"@
}

/// The summary of the indexed video at `path`: an error when no frame was
/// decoded, else the stream facts, the frames, and their count.
pub fn index_summary(
    session_id: String,
    path: &str,
    frames: Vec<FrameMeta>,
    decode_errors: u32,
    facts: &StreamFacts,
) -> (r: Result<SessionSummary, String>)
    requires
        frames@.len() > 0 ==> !duration_overflows(*facts),
    ensures
        match r {
            Err(m) => frames@.len() == 0 && m@ == no_frames_text(path@, decode_errors),
            Ok(s) => {
                &&& frames@.len() > 0
                &&& s.session_id == session_id
                &&& s.path@ == path@
                &&& s.width == dimension(facts.width)
                &&& s.height == dimension(facts.height)
                &&& s.duration_us == video_duration(*facts)
                &&& s.codec_name@ == codec_text(facts.codec_name)
                &&& s.total_frames == frames@.len() as u32
                &&& s.avg_frame_rate_num == facts.avg_frame_rate.num
                &&& s.avg_frame_rate_den == facts.avg_frame_rate.den
                &&& s.decode_errors == decode_errors
                &&& s.frames@ == frames@
            },
        },
{
    if frames.len() == 0 {
        let mut m = String::from_str("no frames decoded from ");
        push_str(&mut m, path);
        push_str(&mut m, " (");
        push_decimal(&mut m, decode_errors as u64);
        push_str(&mut m, " decode error(s))");
        return Err(m);
    }
    let total_frames = frames.len() as u32;
    Ok(
        SessionSummary {
            session_id,
            path: String::from_str(path),
            width: dimension_of(facts.width),
            height: dimension_of(facts.height),
            duration_us: duration_of(facts),
            codec_name: codec_string(&facts.codec_name),
            total_frames,
            avg_frame_rate_num: facts.avg_frame_rate.num,
            avg_frame_rate_den: facts.avg_frame_rate.den,
            decode_errors,
            frames,
        },
    )
}

// ---------------------------------------------------------------------------
// Building the frame index
// ---------------------------------------------------------------------------

/// What the decoder gives while a file is indexed: a decoded frame with its
/// raw timestamps and flags, or a failed send or receive.
#[derive(Debug, Clone, Copy, PartialEq, Eq)]
pub enum IndexEvent {
    Decoded { raw_pts: i64, raw_best_effort: i64, flags: i32 },
    Failed,
}

/// The index made of `events`: one entry per decoded frame, numbered by the
/// count of frames decoded before it.
pub open spec fn indexed_frames(events: Seq<IndexEvent>, time_base: Rational) -> Seq<FrameMeta>
    decreases events.len(),
{
    if events.len() == 0 {
        Seq::empty()
    } else {
        let init = indexed_frames(events.drop_last(), time_base);
        match events.last() {
            IndexEvent::Decoded { raw_pts, raw_best_effort, flags } => init.push(
                index_entry_of(init.len() as u32, raw_pts, raw_best_effort, time_base, flags),
            ),
            IndexEvent::Failed => init,
        }
    }
}

/// How many of `events` are failed decoder calls.
pub open spec fn failed_count(events: Seq<IndexEvent>) -> nat
    decreases events.len(),
{
    if events.len() == 0 {
        0
    } else {
        failed_count(events.drop_last()) + if events.last() is Failed {
            1nat
        } else {
            0nat
        }
    }
}

/// How many of `events` are decoded frames.
pub open spec fn decoded_count(events: Seq<IndexEvent>) -> nat
    decreases events.len(),
{
    if events.len() == 0 {
        0
    } else {
        decoded_count(events.drop_last()) + if events.last() is Decoded {
            1nat
        } else {
            0nat
        }
    }
}

/// Indexes the frames of a file as the decoder gives them out.
pub struct FrameIndexer {
    frames: Vec<FrameMeta>,
    decode_errors: u32,
    time_base: Rational,
    events: Ghost<Seq<IndexEvent>>,
}

impl FrameIndexer {
    /// The events taken in so far.
    pub closed spec fn events(&self) -> Seq<IndexEvent> {
        self.events@
    }

    /// The time base of the stream's timestamps.
    pub closed spec fn time_base(&self) -> Rational {
        self.time_base
    }

    /// The index and the error count are those of the events taken in.
    pub closed spec fn wf(&self) -> bool {
        &&& self.frames@ == indexed_frames(self.events@, self.time_base)
        &&& self.decode_errors == failed_count(self.events@)
        &&& self.frames@.len() <= u32::MAX
    }

    /// An indexer that has seen nothing yet.
    pub fn new(time_base: Rational) -> (r: Self)
        ensures
            r.wf(),
            r.events() == Seq::<IndexEvent>::empty(),
            r.time_base() == time_base,
    {
        let r = FrameIndexer {
            frames: Vec::new(),
            decode_errors: 0,
            time_base,
            events: Ghost(Seq::empty()),
        };
        assert(r.frames@ =~= indexed_frames(Seq::empty(), time_base));
        r
    }

    /// How many frames are indexed.
    pub fn frame_count(&self) -> (n: usize)
        requires
            self.wf(),
        ensures
            n == indexed_frames(self.events(), self.time_base()).len(),
    {
        self.frames.len()
    }

    /// How many decoder calls failed.
    pub fn decode_errors(&self) -> (n: u32)
        requires
            self.wf(),
        ensures
            n == failed_count(self.events()),
    {
        self.decode_errors
    }

    /// Takes in one event: a decoded frame joins the index under the next
    /// number; a failure is counted.
    pub fn take(&mut self, event: IndexEvent)
        requires
            old(self).wf(),
            event is Decoded ==> indexed_frames(old(self).events(), old(self).time_base()).len()
                < u32::MAX,
            event is Failed ==> failed_count(old(self).events()) < u32::MAX,
        ensures
            final(self).wf(),
            final(self).events() == old(self).events().push(event),
            final(self).time_base() == old(self).time_base(),
    {
        let ghost before = self.events@;
        let ghost after = before.push(event);
        assert(after.drop_last() =~= before);
        match event {
            IndexEvent::Decoded { raw_pts, raw_best_effort, flags } => {
                let n = self.frames.len() as u32;
                let entry = index_entry(n, raw_pts, raw_best_effort, self.time_base, flags);
                self.frames.push(entry);
                self.events = Ghost(after);
            },
            IndexEvent::Failed => {
                self.decode_errors = self.decode_errors + 1;
                self.events = Ghost(after);
            },
        }
    }

    /// The summary of the indexed file: an error when no frame was decoded.
    pub fn finish(self, session_id: String, path: &str, facts: &StreamFacts) -> (r: Result<
        SessionSummary,
        String,
    >)
        requires
            self.wf(),
            indexed_frames(self.events(), self.time_base()).len() > 0 ==> !duration_overflows(
                *facts,
            ),
        ensures
            ({
                let frames = indexed_frames(self.events(), self.time_base());
                let errors = failed_count(self.events());
                match r {
                    Err(m) => frames.len() == 0 && m@ == no_frames_text(path@, errors as u32),
                    Ok(s) => {
                        &&& frames.len() > 0
                        &&& s.session_id == session_id
                        &&& s.path@ == path@
                        &&& s.width == dimension(facts.width)
                        &&& s.height == dimension(facts.height)
                        &&& s.duration_us == video_duration(*facts)
                        &&& s.codec_name@ == codec_text(facts.codec_name)
                        &&& s.total_frames == frames.len()
                        &&& s.avg_frame_rate_num == facts.avg_frame_rate.num
                        &&& s.avg_frame_rate_den == facts.avg_frame_rate.den
                        &&& s.decode_errors == errors
                        &&& s.frames@ == frames
                        &&& forall|i: int|
                            0 <= i < s.frames@.len() ==> (#[trigger] s.frames@[i]).frame_index == i
                    },
                }
            }),
    {
        proof {
            law_indexed_frames_numbered(self.events@, self.time_base);
        }
        index_summary(session_id, path, self.frames, self.decode_errors, facts)
    }
}

/// Law: the index numbers its entries by position, holds one entry per
/// decoded frame, and each entry is made from that frame's raw values.
pub proof fn law_indexed_frames_numbered(events: Seq<IndexEvent>, time_base: Rational)
    requires
        indexed_frames(events, time_base).len() <= u32::MAX,
    ensures
        indexed_frames(events, time_base).len() == decoded_count(events),
        forall|i: int|
            0 <= i < indexed_frames(events, time_base).len() ==> (#[trigger] indexed_frames(
                events,
                time_base,
            )[i]).frame_index == i,
    decreases events.len(),
{
    if events.len() > 0 {
        law_indexed_frames_numbered(events.drop_last(), time_base);
    }
}

// ---------------------------------------------------------------------------
// Names and messages
// ---------------------------------------------------------------------------

/// The lowercase hexadecimal digit `d` (0 to 15).
pub open spec fn hex_char(d: int) -> char {
    if d < 10 {
        (48 + d) as char
    } else {
        (87 + d) as char
    }
}

/// The last `count` hexadecimal digits of `n`, zero-padded.
pub open spec fn hex_digits(n: nat, count: nat) -> Seq<char>
    decreases count,
{
    if count == 0 {
        Seq::empty()
    } else {
        hex_digits(n / 16, (count - 1) as nat).push(hex_char((n % 16) as int))
    }
}

fn hex_digit(d: u64) -> (c: char)
    requires
        d < 16,
    ensures
        c == hex_char(d as int),
{
    match d {
        0 => '0',
        1 => '1',
        2 => '2',
        3 => '3',
        4 => '4',
        5 => '5',
        6 => '6',
        7 => '7',
        8 => '8',
        9 => '9',
        10 => 'a',
        11 => 'b',
        12 => 'c',
        13 => 'd',
        14 => 'e',
        _ => 'f',
    }
}

fn push_hex(s: &mut String, n: u64, count: u32)
    ensures
        final(s)@ == old(s)@ + hex_digits(n as nat, count as nat),
    decreases count,
{
    if count == 0 {
        assert(old(s)@ + hex_digits(n as nat, 0) =~= old(s)@);
        return;
    }
    push_hex(s, n / 16, count - 1);
    push_char(s, hex_digit(n % 16));
}

/// The id of a session whose path and opening time hash to `hash`:
/// `session-` and sixteen lowercase hexadecimal digits.
pub fn session_id_from_hash(hash: u64) -> (id: String)
    ensures
        id@ == "session-"@ + hex_digits(hash as nat, 16),
{
    let mut id = String::from_str("session-");
    push_hex(&mut id, hash, 16);
    id
}

/// The message of a failed FFmpeg call: `<operation> failed: <message>`.
pub fn ffmpeg_error_text(operation: &str, message: &str) -> (m: String)
    ensures
        m@ == operation@ + " failed: "@ + message@,
{
    let mut m = String::from_str(operation);
    push_str(&mut m, " failed: ");
    push_str(&mut m, message);
    m
}

/// The message of an FFmpeg error code that has no description.
pub fn error_code_text(code: i32) -> (m: String)
    ensures
        m@ == "error code "@ + signed_decimal(code as int),
{
    let mut m = String::from_str("error code ");
    push_signed_decimal(&mut m, code as i64);
    m
}

/// The message of a decode that ran out of input before frame `target`.
pub fn undecodable_text(target: u32) -> (m: String)
    ensures
        m@ == "failed to decode frame "@ + decimal(target as nat),
{
    let mut m = String::from_str("failed to decode frame ");
    push_decimal(&mut m, target as u64);
    m
}

/// The pixel format of a decoded frame: an error when it is missing.
pub fn pixel_format_from_raw(format: i32) -> (r: Result<i32, String>)
    ensures
        match r {
            Ok(f) => format >= 0 && f == format,
            Err(m) => format < 0 && m@ == "decoded frame missing pixel format"@,
        },
{
    if format < 0 {
        Err(String::from_str("decoded frame missing pixel format"))
    } else {
        Ok(format)
    }
}

/// The size of a decoded frame: its dimensions, negative ones taken as zero.
pub fn frame_dimensions(width: i32, height: i32) -> (r: (u32, u32))
    ensures
        r == (dimension(width), dimension(height)),
{
    (dimension_of(width), dimension_of(height))
}

/// Checks that scaling produced every row of a frame of `height` rows.
pub fn check_scaled_rows(rows: i32, height: i32) -> (r: Result<(), String>)
    ensures
        match r {
            Ok(()) => rows >= height,
            Err(m) => rows < height && m@ == "sws_scale produced "@ + signed_decimal(rows as int)
                + " rows for "@ + signed_decimal(height as int) + "-row frame"@,
        },
{
    if rows < height {
        let mut m = String::from_str("sws_scale produced ");
        push_signed_decimal(&mut m, rows as i64);
        push_str(&mut m, " rows for ");
        push_signed_decimal(&mut m, height as i64);
        push_str(&mut m, "-row frame");
        Err(m)
    } else {
        Ok(())
    }
}

} // verus!
