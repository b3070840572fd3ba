//! The host's side of the protocol: what it makes of each answer of the
//! worker, how it reports the worker's errors, and how it reads the worker's
//! output stream.

use vstd::prelude::*;
use vstd::string::*;

use crate::media::debug_timestamp;
use crate::protocol::{
    FrameBuffer, FrameHandle, FrameMeta, ResponseView, SessionSummary, SummaryView, VideoProbe,
    WorkerError, WorkerErrorCode, WorkerHello, WorkerResponse, PROTOCOL_VERSION,
};
use crate::text::{
    chars_of, decimal, push_chars, push_decimal, push_signed_decimal, push_str,
    signed_decimal, string_from_chars,
};
use crate::sdk::{is_whitespace_char, trim_text, trimmed};

verus! {

/// The text that `{:?}` gives for a response.
pub uninterp spec fn response_debug_text(response: ResponseView) -> Seq<char>;

/// Writes `response` with its derived `Debug` format, through `format!`.
/// The text is named, not spelled out: it depends on the response alone.
#[verifier::external_body]
fn debug_text(response: &WorkerResponse) -> (s: String)
    ensures
        s@ == response_debug_text(response@),
{
    format!("{:?}", response)
}

/// The text of what `String::from_utf8_lossy` makes of `bytes`.
pub uninterp spec fn lossy_text(bytes: Seq<u8>) -> Seq<char>;

/// Decodes `bytes` as UTF-8 with `String::from_utf8_lossy`, which puts a
/// replacement character for each invalid sequence. The text is named: it
/// depends on the bytes alone.
#[verifier::external_body]
fn utf8_lossy(bytes: &[u8]) -> (s: String)
    ensures
        s@ == lossy_text(bytes@),
{
    String::from_utf8_lossy(bytes).into_owned()
}

/// The wire name of an error code.
pub open spec fn code_name(code: WorkerErrorCode) -> Seq<char> {
    match code {
        WorkerErrorCode::DecodeFailed => "decode_failed"@,
        WorkerErrorCode::FrameExpired => "frame_expired"@,
        WorkerErrorCode::FrameOutOfRange => "frame_out_of_range"@,
        WorkerErrorCode::InvalidFrameId => "invalid_frame_id"@,
        WorkerErrorCode::NoCurrentFrame => "no_current_frame"@,
        WorkerErrorCode::SessionNotFound => "session_not_found"@,
    }
}

/// The wire name of an error code.
pub fn worker_error_code(code: WorkerErrorCode) -> (s: String)
    ensures
        s@ == code_name(code),
{
    match code {
        WorkerErrorCode::DecodeFailed => String::from_str("decode_failed"),
        WorkerErrorCode::FrameExpired => String::from_str("frame_expired"),
        WorkerErrorCode::FrameOutOfRange => String::from_str("frame_out_of_range"),
        WorkerErrorCode::InvalidFrameId => String::from_str("invalid_frame_id"),
        WorkerErrorCode::NoCurrentFrame => String::from_str("no_current_frame"),
        WorkerErrorCode::SessionNotFound => String::from_str("session_not_found"),
    }
}

/// A worker error as the host reports it: `<code>: <message>`.
pub open spec fn error_text(code: WorkerErrorCode, message: Seq<char>) -> Seq<char> {
    code_name(code) + ": "@ + message
}

/// A worker error as the host reports it.
pub fn worker_error_message(error: &WorkerError) -> (s: String)
    ensures
        s@ == error_text(error.code, error.message@),
{
    let mut s = worker_error_code(error.code);
    push_str(&mut s, ": ");
    push_str(&mut s, error.message.as_str());
    s
}

/// The message of an answer that does not fit the request `what`.
pub open spec fn unexpected_text(what: Seq<char>, response: ResponseView) -> Seq<char> {
    "unexpected response for "@ + what + ": "@ + response_debug_text(response)
}

fn unexpected(what: &str, response: &WorkerResponse) -> (s: String)
    ensures
        s@ == unexpected_text(what@, response@),
{
    let mut s = String::from_str("unexpected response for ");
    push_str(&mut s, what);
    push_str(&mut s, ": ");
    let d = debug_text(response);
    push_str(&mut s, d.as_str());
    s
}

/// What an answer that should carry some value means when it does not: the
/// error of a failed request, the message of a failed operation, or a
/// mismatch named after `what`.
pub open spec fn failure_text(response: ResponseView, what: Seq<char>) -> Seq<char> {
    match response {
        ResponseView::RequestError { error } => error_text(error.code, error.message),
        ResponseView::Error { message } => message,
        _ => unexpected_text(what, response),
    }
}

fn failure(response: &WorkerResponse, what: &str) -> (s: String)
    ensures
        s@ == failure_text(response@, what@),
{
    match response {
        WorkerResponse::RequestError { error } => worker_error_message(error),
        WorkerResponse::Error { message } => message.clone(),
        _ => unexpected(what, response),
    }
}

/// What the host makes of the answer to a probe.
pub fn parse_probe_response(response: WorkerResponse) -> (r: Result<VideoProbe, String>)
    ensures
        match response@ {
            ResponseView::ProbeResult { probe } => r matches Ok(p) && p@ == probe,
            other => r matches Err(m) && m@ == failure_text(other, "probe payload"@),
        },
{
    match response {
        WorkerResponse::ProbeResult { probe } => Ok(probe),
        other => Err(failure(&other, "probe payload")),
    }
}

/// What the host makes of the answer to an open request.
pub fn parse_open_video_response(response: WorkerResponse) -> (r: Result<SessionSummary, String>)
    ensures
        match response@ {
            ResponseView::OpenVideoResult { session } => r matches Ok(s) && s@ == session,
            other => r matches Err(m) && m@ == failure_text(other, "open_video payload"@),
        },
{
    match response {
        WorkerResponse::OpenVideoResult { session } => Ok(session),
        other => Err(failure(&other, "open_video payload")),
    }
}

/// What the host makes of the answer to a frame request.
pub fn parse_get_frame_response(response: WorkerResponse) -> (r: Result<FrameHandle, String>)
    ensures
        match response@ {
            ResponseView::GetFrameResult { frame } => r matches Ok(f) && f@ == frame,
            other => r matches Err(m) && m@ == failure_text(other, "get_frame payload"@),
        },
{
    match response {
        WorkerResponse::GetFrameResult { frame } => Ok(frame),
        other => Err(failure(&other, "get_frame payload")),
    }
}

/// What the host makes of the answer to a buffer request.
pub fn parse_read_frame_buffer_response(response: WorkerResponse) -> (r: Result<
    FrameBuffer,
    String,
>)
    ensures
        match response@ {
            ResponseView::ReadFrameBufferResult { buffer } => r matches Ok(b) && b@ == buffer,
            other => r matches Err(m) && m@ == failure_text(other, "read_frame_buffer payload"@),
        },
{
    match response {
        WorkerResponse::ReadFrameBufferResult { buffer } => Ok(buffer),
        other => Err(failure(&other, "read_frame_buffer payload")),
    }
}

/// What the host makes of the answer to a step request.
pub fn parse_step_frame_response(response: WorkerResponse) -> (r: Result<FrameHandle, String>)
    ensures
        match response@ {
            ResponseView::StepFrameResult { frame } => r matches Ok(f) && f@ == frame,
            other => r matches Err(m) && m@ == failure_text(other, "step_frame payload"@),
        },
{
    match response {
        WorkerResponse::StepFrameResult { frame } => Ok(frame),
        other => Err(failure(&other, "step_frame payload")),
    }
}

/// What the host makes of the answer to a close request.
pub fn parse_close_video_response(response: WorkerResponse) -> (r: Result<bool, String>)
    ensures
        match response@ {
            ResponseView::CloseVideoResult { closed } => r == Ok::<bool, String>(closed),
            other => r matches Err(m) && m@ == failure_text(other, "close_video payload"@),
        },
{
    match response {
        WorkerResponse::CloseVideoResult { closed } => Ok(closed),
        other => Err(failure(&other, "close_video payload")),
    }
}

/// The message of a handshake from a worker of another protocol version.
pub open spec fn protocol_mismatch_text(got: u32) -> Seq<char> {
    "video-worker protocol mismatch: expected "@ + decimal(PROTOCOL_VERSION as nat) + ", got "@
        + decimal(got as nat)
}

/// Checks the worker's handshake: it must speak this protocol version.
pub fn validate_worker_hello(response: WorkerResponse) -> (r: Result<WorkerHello, String>)
    ensures
        match response@ {
            ResponseView::Hello { hello } => if hello.protocol_version == PROTOCOL_VERSION {
                r matches Ok(h) && h@ == hello
            } else {
                r matches Err(m) && m@ == protocol_mismatch_text(hello.protocol_version)
            },
            other => r matches Err(m) && m@ == failure_text(other, "worker handshake"@),
        },
{
    match response {
        WorkerResponse::Hello { hello } => {
            if hello.protocol_version != PROTOCOL_VERSION {
                let mut m = String::from_str("video-worker protocol mismatch: expected ");
                push_decimal(&mut m, PROTOCOL_VERSION as u64);
                push_str(&mut m, ", got ");
                push_decimal(&mut m, hello.protocol_version as u64);
                return Err(m);
            }
            Ok(hello)
        },
        other => Err(failure(&other, "worker handshake")),
    }
}

/// What the host makes of the answer to a shutdown request.
pub fn shutdown_response(response: WorkerResponse) -> (r: Result<(), String>)
    ensures
        match response@ {
            ResponseView::Ack { accepted } => if accepted {
                r is Ok
            } else {
                r matches Err(m) && m@ == "video-worker rejected shutdown request"@
            },
            other => r matches Err(m) && m@ == failure_text(other, "shutdown payload"@),
        },
{
    match response {
        WorkerResponse::Ack { accepted } => {
            if accepted {
                Ok(())
            } else {
                Err(String::from_str("video-worker rejected shutdown request"))
            }
        },
        other => Err(failure(&other, "shutdown payload")),
    }
}

/// The error of a shutdown request that could not be made: its own error,
/// and the error of killing the worker if that failed too.
pub fn shutdown_failure(error: String, kill: Result<(), String>) -> (m: String)
    ensures
        m@ == match kill {
            Ok(()) => error@,
            Err(k) => error@ + "; "@ + k@,
        },
{
    match kill {
        Ok(()) => error,
        Err(k) => {
            let mut m = error;
            push_str(&mut m, "; ");
            push_str(&mut m, k.as_str());
            m
        },
    }
}

/// What closing a session reports: the first of the close error and the
/// shutdown error, else that the session is closed.
pub fn close_outcome(close: Result<bool, String>, shutdown: Result<(), String>) -> (r: Result<
    bool,
    String,
>)
    ensures
        match (close, shutdown) {
            (Err(e), _) => r matches Err(m) && m@ == e@,
            (Ok(_), Err(e)) => r matches Err(m) && m@ == e@,
            (Ok(_), Ok(())) => r == Ok::<bool, String>(true),
        },
{
    match close {
        Err(e) => Err(e),
        Ok(_) => match shutdown {
            Err(e) => Err(e),
            Ok(()) => Ok(true),
        },
    }
}

/// The message of a request that got no answer in time.
pub fn timeout_text(seconds: u64) -> (m: String)
    ensures
        m@ == "video-worker request timed out after "@ + decimal(seconds as nat) + "s"@,
{
    let mut m = String::from_str("video-worker request timed out after ");
    push_decimal(&mut m, seconds);
    push_str(&mut m, "s");
    m
}

/// The error of a failed `--ping` run: its standard error, else its standard
/// output, each trimmed, else a fixed message.
pub open spec fn ping_failure_text(stderr: Seq<u8>, stdout: Seq<u8>) -> Seq<char> {
    if trimmed(lossy_text(stderr)).len() > 0 {
        trimmed(lossy_text(stderr))
    } else if trimmed(lossy_text(stdout)).len() > 0 {
        trimmed(lossy_text(stdout))
    } else {
        "video-worker exited without output"@
    }
}

/// The error of a failed `--ping` run.
pub fn ping_failure_message(stderr: &[u8], stdout: &[u8]) -> (m: String)
    ensures
        m@ == ping_failure_text(stderr@, stdout@),
{
    let err = trim_text(utf8_lossy(stderr).as_str());
    if err.len() > 0 {
        return string_from_chars(&err);
    }
    let out = trim_text(utf8_lossy(stdout).as_str());
    if out.len() > 0 {
        return string_from_chars(&out);
    }
    String::from_str("video-worker exited without output")
}

// ---------------------------------------------------------------------------
// Reading the worker's output
// ---------------------------------------------------------------------------

/// Something that happened on the worker process.
#[derive(Debug, Clone, PartialEq, Eq)]
pub enum ProcessEvent {
    Stdout(Vec<u8>),
    Stderr(Vec<u8>),
    Error(String),
    Terminated(Option<i32>),
    Other,
    Closed,
}

/// What the reader does after an event.
#[derive(Debug, Clone, PartialEq, Eq)]
pub enum ReadDecision {
    /// Keep waiting.
    Continue,
    /// An answer line arrived.
    Line(String),
    /// The worker failed, with this message.
    Fail(String),
}

/// What the worker wrote to its standard error so far, line by line.
pub struct OutputReader {
    stderr_lines: Vec<String>,
}

/// Lines joined with `\n` between them.
pub open spec fn joined(lines: Seq<Seq<char>>) -> Seq<char>
    decreases lines.len(),
{
    if lines.len() == 0 {
        Seq::empty()
    } else if lines.len() == 1 {
        lines[0]
    } else {
        joined(lines.drop_last()) + seq!['\n'] + lines.last()
    }
}

/// The message of a worker that stopped: what it wrote to standard error,
/// else `fallback`.
pub open spec fn stopped_text(stderr_lines: Seq<Seq<char>>, fallback: Seq<char>) -> Seq<char> {
    if joined(stderr_lines).len() > 0 {
        joined(stderr_lines)
    } else {
        fallback
    }
}

/// What the reader does after `event`, having kept `stderr_lines`: the
/// decision and the lines kept afterwards.
pub open spec fn read_step(stderr_lines: Seq<Seq<char>>, event: ProcessEvent) -> (
    Seq<Seq<char>>,
    ReadDecisionView,
) {
    match event {
        ProcessEvent::Stdout(bytes) => {
            let line = trimmed(lossy_text(bytes@));
            if line.len() > 0 {
                (stderr_lines, ReadDecisionView::Line(line))
            } else {
                (stderr_lines, ReadDecisionView::Continue)
            }
        },
        ProcessEvent::Stderr(bytes) => {
            let line = trimmed(lossy_text(bytes@));
            if line.len() > 0 {
                (stderr_lines.push(line), ReadDecisionView::Continue)
            } else {
                (stderr_lines, ReadDecisionView::Continue)
            }
        },
        ProcessEvent::Error(message) => (stderr_lines, ReadDecisionView::Fail(message@)),
        ProcessEvent::Terminated(code) => (
            stderr_lines,
            ReadDecisionView::Fail(
                stopped_text(
                    stderr_lines,
                    "video-worker terminated with status "@ + debug_code(code),
                ),
            ),
        ),
        ProcessEvent::Other => (stderr_lines, ReadDecisionView::Continue),
        ProcessEvent::Closed => (
            stderr_lines,
            ReadDecisionView::Fail(stopped_text(stderr_lines, "video-worker event stream closed"@)),
        ),
    }
}

/// An exit code as `{:?}` writes an `Option<i32>`.
pub open spec fn debug_code(code: Option<i32>) -> Seq<char> {
    match code {
        Some(c) => "Some("@ + signed_decimal(c as int) + ")"@,
        None => "None"@,
    }
}

pub enum ReadDecisionView {
    Continue,
    Line(Seq<char>),
    Fail(Seq<char>),
}

impl View for ReadDecision {
    type V = ReadDecisionView;

    open spec fn view(&self) -> ReadDecisionView {
        match self {
            ReadDecision::Continue => ReadDecisionView::Continue,
            ReadDecision::Line(l) => ReadDecisionView::Line(l@),
            ReadDecision::Fail(m) => ReadDecisionView::Fail(m@),
        }
    }
}

impl View for OutputReader {
    type V = Seq<Seq<char>>;

    closed spec fn view(&self) -> Seq<Seq<char>> {
        self.stderr_lines@.map_values(|l: String| l@)
    }
}

fn join_lines(lines: &Vec<String>) -> (s: String)
    ensures
        s@ == joined(lines@.map_values(|l: String| l@)),
{
    let ghost views = lines@.map_values(|l: String| l@);
    let mut s = String::new();
    let mut i: usize = 0;
    while i < lines.len()
        invariant
            0 <= i <= lines.len(),
            views == lines@.map_values(|l: String| l@),
            s@ == joined(views.take(i as int)),
        decreases lines.len() - i,
    {
        if i > 0 {
            push_str(&mut s, "\n");
        }
        push_str(&mut s, lines[i].as_str());
        i = i + 1;
        proof {
            reveal_strlit("\n");
            assert(views.take(i as int).drop_last() =~= views.take(i - 1));
            assert(views[i - 1] == lines@[i - 1]@);
            if i == 1 {
                assert(views.take(1).len() == 1);
                assert(joined(Seq::<Seq<char>>::empty()) == Seq::<char>::empty());
                assert(Seq::<char>::empty() + lines@[0]@ =~= lines@[0]@);
            } else {
                assert("\n"@ =~= seq!['\n']);
            }
        }
    }
    assert(views.take(lines.len() as int) =~= views);
    s
}

impl OutputReader {
    /// A reader that has seen nothing yet.
    pub fn new() -> (r: Self)
        ensures
            r@ == Seq::<Seq<char>>::empty(),
    {
        let r = OutputReader { stderr_lines: Vec::new() };
        assert(r@ =~= Seq::<Seq<char>>::empty());
        r
    }

    /// Takes in one event from the worker process.
    pub fn on_event(&mut self, event: ProcessEvent) -> (d: ReadDecision)
        ensures
            (final(self)@, d@) == read_step(old(self)@, event),
    {
        let ghost ev = event;
        match event {
            ProcessEvent::Stdout(bytes) => {
                let line = trim_text(utf8_lossy(bytes.as_slice()).as_str());
                if line.len() > 0 {
                    ReadDecision::Line(string_from_chars(&line))
                } else {
                    ReadDecision::Continue
                }
            },
            ProcessEvent::Stderr(bytes) => {
                let line = trim_text(utf8_lossy(bytes.as_slice()).as_str());
                if line.len() > 0 {
                    let text = string_from_chars(&line);
                    self.stderr_lines.push(text);
                    assert(self@ =~= old(self)@.push(line@));
                }
                ReadDecision::Continue
            },
            ProcessEvent::Error(message) => ReadDecision::Fail(message),
            ProcessEvent::Terminated(code) => {
                let stderr = join_lines(&self.stderr_lines);
                assert(self@ == old(self)@);
                if stderr.as_str().unicode_len() > 0 {
                    ReadDecision::Fail(stderr)
                } else {
                    let mut m = String::from_str("video-worker terminated with status ");
                    match code {
                        Some(c) => {
                            push_str(&mut m, "Some(");
                            push_signed_decimal(&mut m, c as i64);
                            push_str(&mut m, ")");
                        },
                        None => push_str(&mut m, "None"),
                    }
                    proof {
                        reveal_strlit("Some(");
                        reveal_strlit(")");
                    }
                    assert(m@ == "video-worker terminated with status "@ + debug_code(code));
                    ReadDecision::Fail(m)
                }
            },
            ProcessEvent::Other => ReadDecision::Continue,
            ProcessEvent::Closed => {
                let stderr = join_lines(&self.stderr_lines);
                assert(self@ == old(self)@);
                if stderr.as_str().unicode_len() > 0 {
                    ReadDecision::Fail(stderr)
                } else {
                    ReadDecision::Fail(String::from_str("video-worker event stream closed"))
                }
            },
        }
    }
}

// ---------------------------------------------------------------------------
// What the host shows of a session
// ---------------------------------------------------------------------------

/// A session as the host's front end sees it: the summary without the frame
/// index.
#[derive(Debug, Clone, PartialEq, Eq)]
pub struct SessionInfo {
    pub session_id: String,
    pub path: String,
    pub width: u32,
    pub height: u32,
    pub duration_us: Option<i64>,
    pub codec_name: String,
    pub total_frames: u32,
    pub avg_frame_rate_num: i32,
    pub avg_frame_rate_den: i32,
    pub decode_errors: u32,
}

impl SessionInfo {
    /// The facts of `summary`, without its frame index.
    pub fn from_summary(s: &SessionSummary) -> (info: Self)
        ensures
            info.session_id@ == s.session_id@,
            info.path@ == s.path@,
            info.width == s.width,
            info.height == s.height,
            info.duration_us == s.duration_us,
            info.codec_name@ == s.codec_name@,
            info.total_frames == s.total_frames,
            info.avg_frame_rate_num == s.avg_frame_rate_num,
            info.avg_frame_rate_den == s.avg_frame_rate_den,
            info.decode_errors == s.decode_errors,
    {
        SessionInfo {
            session_id: s.session_id.clone(),
            path: s.path.clone(),
            width: s.width,
            height: s.height,
            duration_us: s.duration_us,
            codec_name: s.codec_name.clone(),
            total_frames: s.total_frames,
            avg_frame_rate_num: s.avg_frame_rate_num,
            avg_frame_rate_den: s.avg_frame_rate_den,
            decode_errors: s.decode_errors,
        }
    }
}

/// The message of a frame index past the end of a session, as the host
/// reports it.
pub open spec fn meta_out_of_range_text(frame_index: u32, total_frames: u32) -> Seq<char> {
    "frame index "@ + decimal(frame_index as nat) + " out of range (total: "@ + decimal(
        total_frames as nat,
    ) + ")"@
}

/// The index entry of frame `frame_index` of a session.
pub fn frame_meta_at(summary: &SessionSummary, frame_index: u32) -> (r: Result<FrameMeta, String>)
    ensures
        match r {
            Ok(m) => (frame_index as int) < summary.frames@.len() && m
                == summary.frames@[frame_index as int],
            Err(e) => (frame_index as int) >= summary.frames@.len() && e@ == meta_out_of_range_text(
                frame_index,
                summary.total_frames,
            ),
        },
{
    if (frame_index as usize) < summary.frames.len() {
        Ok(summary.frames[frame_index as usize])
    } else {
        let mut m = String::from_str("frame index ");
        push_decimal(&mut m, frame_index as u64);
        push_str(&mut m, " out of range (total: ");
        push_decimal(&mut m, summary.total_frames as u64);
        push_str(&mut m, ")");
        Err(m)
    }
}

} // verus!
