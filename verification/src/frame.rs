//! How frames are named, how a name is checked against a session's frame
//! index, and how a step moves from one frame to another.

use vstd::prelude::*;
use vstd::string::*;

use crate::protocol::{FrameMeta, SessionSummary, WorkerError, WorkerErrorCode};
use crate::text::{
    chars_of, decimal, find_first, is_digit_char, lacks_char, lemma_decimal_lacks,
    lemma_parse_decimal, lemma_split_once_concat, parse_u32_range, parse_u32_text, push_decimal,
    push_signed_decimal, push_str, range_equals, signed_decimal, split_once, string_from_chars,
};

verus! {

/// The timestamp a frame is known by: its best-effort timestamp, else its
/// presentation timestamp.
pub open spec fn frame_timestamp(meta: FrameMeta) -> Option<i64> {
    match meta.best_effort_timestamp_us {
        Some(t) => Some(t),
        None => meta.timestamp_us,
    }
}

/// A timestamp as it stands in a frame id: its decimal text, or `none`.
pub open spec fn timestamp_text(ts: Option<i64>) -> Seq<char> {
    match ts {
        Some(t) => signed_decimal(t as int),
        None => "none"@,
    }
}

/// The id of a frame of session `session_id`:
/// `<session id>:<frame index>:<timestamp>`.
pub open spec fn frame_id_text(session_id: Seq<char>, meta: FrameMeta) -> Seq<char> {
    session_id + seq![':'] + decimal(meta.frame_index as nat) + seq![':'] + timestamp_text(
        frame_timestamp(meta),
    )
}

/// Whether `frame_id` names a frame of the session `session_id` whose frame
/// index is `frames`: its text up to the first `:` is the session id, the text
/// up to the second `:` parses as the index of a frame in `frames`, and the
/// rest is that frame's timestamp text.
pub open spec fn frame_id_accepted(
    session_id: Seq<char>,
    frames: Seq<FrameMeta>,
    frame_id: Seq<char>,
) -> bool {
    match split_once(frame_id, ':') {
        None => false,
        Some((first, rest)) => match split_once(rest, ':') {
            None => false,
            Some((second, third)) => {
                &&& first == session_id
                &&& match parse_u32_text(second) {
                    None => false,
                    Some(k) => (k as int) < frames.len() && third == timestamp_text(
                        frame_timestamp(frames[k as int]),
                    ),
                }
            },
        },
    }
}

/// The message of a rejected frame id.
pub open spec fn invalid_frame_id_text(frame_id: Seq<char>) -> Seq<char> {
    "invalid frame id: "@ + frame_id
}

/// The message of a frame index past the end of the index.
pub open spec fn out_of_range_text(frame_index: u32, total_frames: u32) -> Seq<char> {
    "frame "@ + decimal(frame_index as nat) + " out of range for total_frames="@ + decimal(
        total_frames as nat,
    )
}

/// The frame that a step of `delta` from `current` lands on, held between
/// the first frame and the last of `total_frames`.
pub open spec fn clamped_index(current: u32, delta: i32, total_frames: u32) -> int {
    let max_index: int = if total_frames == 0 {
        0
    } else {
        total_frames - 1
    };
    let target = current + delta;
    if target < 0 {
        0
    } else if target > max_index {
        max_index
    } else {
        target
    }
}

/// The name of the file that holds a frame's RGBA bytes: its id with every
/// `:` turned into `_`, then `.rgba`.
pub open spec fn buffer_file_name(frame_id: Seq<char>) -> Seq<char> {
    frame_id.map_values(|c: char| if c == ':' { '_' } else { c }) + ".rgba"@
}

/// The timestamp a frame is known by.
pub fn frame_timestamp_us(meta: &FrameMeta) -> (r: Option<i64>)
    ensures
        r == frame_timestamp(*meta),
{
    match meta.best_effort_timestamp_us {
        Some(t) => Some(t),
        None => meta.timestamp_us,
    }
}

/// The text of a timestamp in a frame id.
pub fn timestamp_string(ts: Option<i64>) -> (s: String)
    ensures
        s@ == timestamp_text(ts),
{
    match ts {
        Some(t) => {
            let mut s = String::new();
            push_signed_decimal(&mut s, t);
            assert(Seq::<char>::empty() + signed_decimal(t as int) =~= signed_decimal(t as int));
            s
        },
        None => String::from_str("none"),
    }
}

/// The id of a frame of session `session_id`.
pub fn make_frame_id(session_id: &str, meta: &FrameMeta) -> (id: String)
    ensures
        id@ == frame_id_text(session_id@, *meta),
{
    let mut s = String::from_str(session_id);
    push_str(&mut s, ":");
    push_decimal(&mut s, meta.frame_index as u64);
    push_str(&mut s, ":");
    let ts = timestamp_string(frame_timestamp_us(meta));
    push_str(&mut s, ts.as_str());
    proof {
        reveal_strlit(":");
        assert(":"@ =~= seq![':']);
    }
    s
}

/// The error of a frame index past the end of a session's index.
pub fn frame_out_of_range(frame_index: u32, total_frames: u32) -> (e: WorkerError)
    ensures
        e.code == WorkerErrorCode::FrameOutOfRange,
        e.message@ == out_of_range_text(frame_index, total_frames),
{
    let mut s = String::from_str("frame ");
    push_decimal(&mut s, frame_index as u64);
    push_str(&mut s, " out of range for total_frames=");
    push_decimal(&mut s, total_frames as u64);
    WorkerError::new(WorkerErrorCode::FrameOutOfRange, s)
}

fn invalid_frame_id(frame_id: &str) -> (e: WorkerError)
    ensures
        e.code == WorkerErrorCode::InvalidFrameId,
        e.message@ == invalid_frame_id_text(frame_id@),
{
    let mut s = String::from_str("invalid frame id: ");
    push_str(&mut s, frame_id);
    WorkerError::new(WorkerErrorCode::InvalidFrameId, s)
}

/// Checks that `frame_id` names a frame of session `session_id` in the frame
/// index of `session`; the error is `InvalidFrameId` with the id in its
/// message.
pub fn validate_frame_id(session_id: &str, session: &SessionSummary, frame_id: &str) -> (r: Result<
    (),
    WorkerError,
>)
    ensures
        r is Ok <==> frame_id_accepted(session_id@, session.frames@, frame_id@),
        r matches Err(e) ==> e.code == WorkerErrorCode::InvalidFrameId && e.message@
            == invalid_frame_id_text(frame_id@),
{
    let v = chars_of(frame_id);
    let n = v.len();
    let ghost s = v@;
    assert(s.subrange(0, n as int) =~= s);
    let first = match find_first(&v, 0, n, ':') {
        Some(i) => i,
        None => {
            return Err(invalid_frame_id(frame_id));
        },
    };
    let ghost rest = s.skip(first + 1);
    assert(rest =~= s.subrange(first + 1, n as int));
    let second = match find_first(&v, first + 1, n, ':') {
        Some(j) => j,
        None => {
            return Err(invalid_frame_id(frame_id));
        },
    };
    let ghost k = second - (first + 1);
    assert(rest.take(k) =~= s.subrange(first + 1, second as int));
    assert(rest.skip(k + 1) =~= s.subrange(second + 1, n as int));
    assert(s.take(first as int) =~= s.subrange(0, first as int));
    let sid = chars_of(session_id);
    if !range_equals(&v, 0, first, &sid) {
        return Err(invalid_frame_id(frame_id));
    }
    let index = match parse_u32_range(&v, first + 1, second) {
        Some(index) => index,
        None => {
            return Err(invalid_frame_id(frame_id));
        },
    };
    if index as usize >= session.frames.len() {
        return Err(invalid_frame_id(frame_id));
    }
    let meta = &session.frames[index as usize];
    let expected = timestamp_string(frame_timestamp_us(meta));
    let expected_chars = chars_of(expected.as_str());
    if range_equals(&v, second + 1, n, &expected_chars) {
        Ok(())
    } else {
        Err(invalid_frame_id(frame_id))
    }
}

/// The frame that a step of `delta` from `current_frame_index` lands on.
pub fn clamp_frame_index(current_frame_index: u32, delta: i32, total_frames: u32) -> (r: u32)
    ensures
        r == clamped_index(current_frame_index, delta, total_frames),
{
    let max_index: i64 = if total_frames == 0 {
        0
    } else {
        (total_frames - 1) as i64
    };
    let target: i64 = current_frame_index as i64 + delta as i64;
    if target < 0 {
        0
    } else if target > max_index {
        max_index as u32
    } else {
        target as u32
    }
}

/// The name of the file that holds the RGBA bytes of frame `frame_id`.
pub fn frame_buffer_file_name(frame_id: &str) -> (name: String)
    ensures
        name@ == buffer_file_name(frame_id@),
{
    let v = chars_of(frame_id);
    let mut out: Vec<char> = Vec::new();
    let mut i: usize = 0;
    while i < v.len()
        invariant
            0 <= i <= v.len(),
            v@ == frame_id@,
            out@ == v@.take(i as int).map_values(|c: char| if c == ':' { '_' } else { c }),
        decreases v.len() - i,
    {
        let c = v[i];
        if c == ':' {
            out.push('_');
        } else {
            out.push(c);
        }
        i = i + 1;
        assert(out@ =~= v@.take(i as int).map_values(|c: char| if c == ':' { '_' } else { c }));
    }
    assert(v@.take(v.len() as int) =~= v@);
    let mut name = string_from_chars(&out);
    push_str(&mut name, ".rgba");
    name
}

/// Laws of frame ids.
/// The id that the worker gives a frame is accepted back for that frame,
/// whenever the session id holds no `:` and the frame's index is its
/// position in the frame index.
pub proof fn lemma_frame_id_round_trip(session_id: Seq<char>, frames: Seq<FrameMeta>, i: int)
    requires
        lacks_char(session_id, ':'),
        0 <= i < frames.len(),
        frames[i].frame_index == i,
    ensures
        frame_id_accepted(session_id, frames, frame_id_text(session_id, frames[i])),
{
    let meta = frames[i];
    let digits = decimal(meta.frame_index as nat);
    let ts = timestamp_text(frame_timestamp(meta));
    let id = frame_id_text(session_id, meta);
    let rest = digits + seq![':'] + ts;
    assert(id =~= session_id + seq![':'] + rest);
    lemma_split_once_concat(session_id, ':', rest);
    assert(!is_digit_char(':'));
    lemma_decimal_lacks(meta.frame_index as nat, ':');
    lemma_split_once_concat(digits, ':', ts);
    lemma_parse_decimal(meta.frame_index);
}

/// A step never leaves the frame index: from any frame, by any delta, it
/// lands on an existing frame (the first one when the index is empty).
pub proof fn lemma_step_stays_in_range(current: u32, delta: i32, total_frames: u32)
    ensures
        0 <= clamped_index(current, delta, total_frames),
        total_frames > 0 ==> clamped_index(current, delta, total_frames) < total_frames,
        total_frames > 0 && 0 <= current + delta < total_frames ==> clamped_index(
            current,
            delta,
            total_frames,
        ) == current + delta,
{
}

} // verus!
