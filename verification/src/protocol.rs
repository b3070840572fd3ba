//! The messages that the worker and its host exchange, with a view of each
//! in which text is a sequence of characters.

use vstd::prelude::*;
use vstd::string::*;

use crate::text::{chars_of, range_equals};

verus! {

/// The version of the line protocol that this worker speaks.
pub const PROTOCOL_VERSION: u32 = 1;

/// The versions of the FFmpeg libraries that the worker is linked against.
#[derive(Debug, Clone, Copy, PartialEq, Eq)]
pub struct LinkedFfmpegVersions {
    pub avcodec: u32,
    pub avformat: u32,
    pub avutil: u32,
    pub swscale: u32,
}

/// What a probe of a video file found.
#[derive(Debug, Clone, PartialEq, Eq)]
pub struct VideoProbe {
    pub path: String,
    pub video_stream_index: usize,
    pub width: u32,
    pub height: u32,
    pub duration_us: Option<i64>,
    pub codec_name: String,
    pub bit_rate: Option<i64>,
    pub avg_frame_rate_num: i32,
    pub avg_frame_rate_den: i32,
}

/// A decoded frame, as RGBA bytes.
#[derive(Debug, Clone, PartialEq, Eq)]
pub struct DecodedFrame {
    pub width: u32,
    pub height: u32,
    pub rgba: Vec<u8>,
}

/// The handshake that the worker answers a ping with.
#[derive(Debug, Clone, PartialEq, Eq)]
pub struct WorkerHello {
    pub worker_name: String,
    pub protocol_version: u32,
    pub ffmpeg_linked: bool,
    pub transport: String,
    pub linked_versions: LinkedFfmpegVersions,
}

/// What the frame index knows of one frame, in presentation order.
#[derive(Debug, Clone, Copy, PartialEq, Eq)]
pub struct FrameMeta {
    pub frame_index: u32,
    pub pts: Option<i64>,
    pub timestamp_us: Option<i64>,
    pub best_effort_timestamp_us: Option<i64>,
    pub is_keyframe: bool,
}

/// A decoded frame that the worker holds as an RGBA file.
#[derive(Debug, Clone, PartialEq, Eq)]
pub struct FrameHandle {
    pub frame_id: String,
    pub frame_index: u32,
    pub width: u32,
    pub height: u32,
    pub timestamp_us: Option<i64>,
    pub is_precise: bool,
    pub rgba_path: String,
}

/// Where the RGBA bytes of a frame are kept.
#[derive(Debug, Clone, PartialEq, Eq)]
pub struct FrameBuffer {
    pub frame_id: String,
    pub width: u32,
    pub height: u32,
    pub rgba_path: String,
}

/// An opened video: its stream facts and its frame index.
#[derive(Debug, Clone, PartialEq)]
pub struct SessionSummary {
    pub session_id: String,
    pub path: String,
    pub width: u32,
    pub height: u32,
    pub duration_us: Option<i64>,
    pub codec_name: String,
    pub total_frames: u32,
    pub avg_frame_rate_num: i32,
    pub avg_frame_rate_den: i32,
    pub decode_errors: u32,
    pub frames: Vec<FrameMeta>,
}

/// The kinds of failure a frame request can meet.
#[derive(Debug, Clone, Copy, PartialEq, Eq)]
pub enum WorkerErrorCode {
    DecodeFailed,
    FrameExpired,
    FrameOutOfRange,
    InvalidFrameId,
    NoCurrentFrame,
    SessionNotFound,
}

/// A failed frame request: its kind and a message for people.
#[derive(Debug, Clone, PartialEq, Eq)]
pub struct WorkerError {
    pub code: WorkerErrorCode,
    pub message: String,
}

/// A request from the host.
#[derive(Debug, Clone, PartialEq, Eq)]
pub enum WorkerRequest {
    Ping,
    Probe { path: String },
    OpenVideo { path: String },
    GetFrame { session_id: String, frame_index: u32 },
    ReadFrameBuffer { session_id: String, frame_id: String },
    StepFrame { session_id: String, delta: i32 },
    CloseVideo { session_id: String },
    Shutdown,
}

/// An answer to the host.
#[derive(Debug, Clone, PartialEq)]
pub enum WorkerResponse {
    Hello { hello: WorkerHello },
    ProbeResult { probe: VideoProbe },
    OpenVideoResult { session: SessionSummary },
    GetFrameResult { frame: FrameHandle },
    ReadFrameBufferResult { buffer: FrameBuffer },
    StepFrameResult { frame: FrameHandle },
    CloseVideoResult { closed: bool },
    RequestError { error: WorkerError },
    Ack { accepted: bool },
    Error { message: String },
}

/// How the worker binary runs: answer one ping, or serve requests line by line.
#[derive(Debug, Clone, Copy, PartialEq, Eq)]
pub enum WorkerMode {
    Ping,
    Stdio,
}

// ---------------------------------------------------------------------------
// Views
// ---------------------------------------------------------------------------

pub struct ProbeView {
    pub path: Seq<char>,
    pub video_stream_index: usize,
    pub width: u32,
    pub height: u32,
    pub duration_us: Option<i64>,
    pub codec_name: Seq<char>,
    pub bit_rate: Option<i64>,
    pub avg_frame_rate_num: i32,
    pub avg_frame_rate_den: i32,
}

impl View for VideoProbe {
    type V = ProbeView;

    open spec fn view(&self) -> ProbeView {
        ProbeView {
            path: self.path@,
            video_stream_index: self.video_stream_index,
            width: self.width,
            height: self.height,
            duration_us: self.duration_us,
            codec_name: self.codec_name@,
            bit_rate: self.bit_rate,
            avg_frame_rate_num: self.avg_frame_rate_num,
            avg_frame_rate_den: self.avg_frame_rate_den,
        }
    }
}

pub struct HelloView {
    pub worker_name: Seq<char>,
    pub protocol_version: u32,
    pub ffmpeg_linked: bool,
    pub transport: Seq<char>,
    pub linked_versions: LinkedFfmpegVersions,
}

impl View for WorkerHello {
    type V = HelloView;

    open spec fn view(&self) -> HelloView {
        HelloView {
            worker_name: self.worker_name@,
            protocol_version: self.protocol_version,
            ffmpeg_linked: self.ffmpeg_linked,
            transport: self.transport@,
            linked_versions: self.linked_versions,
        }
    }
}

pub struct HandleView {
    pub frame_id: Seq<char>,
    pub frame_index: u32,
    pub width: u32,
    pub height: u32,
    pub timestamp_us: Option<i64>,
    pub is_precise: bool,
    pub rgba_path: Seq<char>,
}

impl View for FrameHandle {
    type V = HandleView;

    open spec fn view(&self) -> HandleView {
        HandleView {
            frame_id: self.frame_id@,
            frame_index: self.frame_index,
            width: self.width,
            height: self.height,
            timestamp_us: self.timestamp_us,
            is_precise: self.is_precise,
            rgba_path: self.rgba_path@,
        }
    }
}

pub struct BufferView {
    pub frame_id: Seq<char>,
    pub width: u32,
    pub height: u32,
    pub rgba_path: Seq<char>,
}

impl View for FrameBuffer {
    type V = BufferView;

    open spec fn view(&self) -> BufferView {
        BufferView {
            frame_id: self.frame_id@,
            width: self.width,
            height: self.height,
            rgba_path: self.rgba_path@,
        }
    }
}

pub struct SummaryView {
    pub session_id: Seq<char>,
    pub path: Seq<char>,
    pub width: u32,
    pub height: u32,
    pub duration_us: Option<i64>,
    pub codec_name: Seq<char>,
    pub total_frames: u32,
    pub avg_frame_rate_num: i32,
    pub avg_frame_rate_den: i32,
    pub decode_errors: u32,
    pub frames: Seq<FrameMeta>,
}

impl View for SessionSummary {
    type V = SummaryView;

    open spec fn view(&self) -> SummaryView {
        SummaryView {
            session_id: self.session_id@,
            path: self.path@,
            width: self.width,
            height: self.height,
            duration_us: self.duration_us,
            codec_name: self.codec_name@,
            total_frames: self.total_frames,
            avg_frame_rate_num: self.avg_frame_rate_num,
            avg_frame_rate_den: self.avg_frame_rate_den,
            decode_errors: self.decode_errors,
            frames: self.frames@,
        }
    }
}

pub struct ErrorView {
    pub code: WorkerErrorCode,
    pub message: Seq<char>,
}

impl View for WorkerError {
    type V = ErrorView;

    open spec fn view(&self) -> ErrorView {
        ErrorView { code: self.code, message: self.message@ }
    }
}

pub enum RequestView {
    Ping,
    Probe { path: Seq<char> },
    OpenVideo { path: Seq<char> },
    GetFrame { session_id: Seq<char>, frame_index: u32 },
    ReadFrameBuffer { session_id: Seq<char>, frame_id: Seq<char> },
    StepFrame { session_id: Seq<char>, delta: i32 },
    CloseVideo { session_id: Seq<char> },
    Shutdown,
}

impl View for WorkerRequest {
    type V = RequestView;

    open spec fn view(&self) -> RequestView {
        match self {
            WorkerRequest::Ping => RequestView::Ping,
            WorkerRequest::Probe { path } => RequestView::Probe { path: path@ },
            WorkerRequest::OpenVideo { path } => RequestView::OpenVideo { path: path@ },
            WorkerRequest::GetFrame { session_id, frame_index } => RequestView::GetFrame {
                session_id: session_id@,
                frame_index: *frame_index,
            },
            WorkerRequest::ReadFrameBuffer { session_id, frame_id } =>
                RequestView::ReadFrameBuffer { session_id: session_id@, frame_id: frame_id@ },
            WorkerRequest::StepFrame { session_id, delta } => RequestView::StepFrame {
                session_id: session_id@,
                delta: *delta,
            },
            WorkerRequest::CloseVideo { session_id } => RequestView::CloseVideo {
                session_id: session_id@,
            },
            WorkerRequest::Shutdown => RequestView::Shutdown,
        }
    }
}

pub enum ResponseView {
    Hello { hello: HelloView },
    ProbeResult { probe: ProbeView },
    OpenVideoResult { session: SummaryView },
    GetFrameResult { frame: HandleView },
    ReadFrameBufferResult { buffer: BufferView },
    StepFrameResult { frame: HandleView },
    CloseVideoResult { closed: bool },
    RequestError { error: ErrorView },
    Ack { accepted: bool },
    Error { message: Seq<char> },
}

impl View for WorkerResponse {
    type V = ResponseView;

    open spec fn view(&self) -> ResponseView {
        match self {
            WorkerResponse::Hello { hello } => ResponseView::Hello { hello: hello@ },
            WorkerResponse::ProbeResult { probe } => ResponseView::ProbeResult { probe: probe@ },
            WorkerResponse::OpenVideoResult { session } => ResponseView::OpenVideoResult {
                session: session@,
            },
            WorkerResponse::GetFrameResult { frame } => ResponseView::GetFrameResult {
                frame: frame@,
            },
            WorkerResponse::ReadFrameBufferResult { buffer } =>
                ResponseView::ReadFrameBufferResult { buffer: buffer@ },
            WorkerResponse::StepFrameResult { frame } => ResponseView::StepFrameResult {
                frame: frame@,
            },
            WorkerResponse::CloseVideoResult { closed } => ResponseView::CloseVideoResult {
                closed: *closed,
            },
            WorkerResponse::RequestError { error } => ResponseView::RequestError {
                error: error@,
            },
            WorkerResponse::Ack { accepted } => ResponseView::Ack { accepted: *accepted },
            WorkerResponse::Error { message } => ResponseView::Error { message: message@ },
        }
    }
}

// ---------------------------------------------------------------------------
// Functions
// ---------------------------------------------------------------------------

/// The handshake, as a view.
pub open spec fn hello_view(ffmpeg_linked: bool, linked_versions: LinkedFfmpegVersions) -> HelloView {
    HelloView {
        worker_name: "video-worker"@,
        protocol_version: PROTOCOL_VERSION,
        ffmpeg_linked,
        transport: "stdio-jsonl"@,
        linked_versions,
    }
}

/// The handshake: this worker's name, protocol version and transport, and
/// the FFmpeg versions that it reports.
pub fn hello(ffmpeg_linked: bool, linked_versions: LinkedFfmpegVersions) -> (h: WorkerHello)
    ensures
        h@ == hello_view(ffmpeg_linked, linked_versions),
{
    WorkerHello {
        worker_name: String::from_str("video-worker"),
        protocol_version: PROTOCOL_VERSION,
        ffmpeg_linked,
        transport: String::from_str("stdio-jsonl"),
        linked_versions,
    }
}

impl WorkerError {
    /// An error of kind `code` with `message`.
    pub fn new(code: WorkerErrorCode, message: String) -> (e: Self)
        ensures
            e.code == code,
            e.message == message,
    {
        Self { code, message }
    }
}

/// Whether two texts are the same characters.
pub fn str_equals(a: &str, b: &str) -> (r: bool)
    ensures
        r == (a@ == b@),
{
    let av = chars_of(a);
    let bv = chars_of(b);
    let r = range_equals(&av, 0, av.len(), &bv);
    assert(av@.subrange(0, av.len() as int) =~= av@);
    r
}

/// The mode that command-line `args` select: `Ping` when any of them is
/// exactly `--ping`, else `Stdio`.
pub open spec fn mode_of_args(args: Seq<String>) -> WorkerMode {
    if exists|i: int| 0 <= i < args.len() && #[trigger] args[i]@ == "--ping"@ {
        WorkerMode::Ping
    } else {
        WorkerMode::Stdio
    }
}

/// Chooses the worker's mode from its command-line arguments.
pub fn parse_mode(args: &[String]) -> (mode: WorkerMode)
    ensures
        mode == mode_of_args(args@),
{
    let mut i: usize = 0;
    while i < args.len()
        invariant
            0 <= i <= args@.len(),
            forall|j: int| 0 <= j < i ==> #[trigger] args@[j]@ != "--ping"@,
        decreases args.len() - i,
    {
        if str_equals(args[i].as_str(), "--ping") {
            return WorkerMode::Ping;
        }
        i = i + 1;
    }
    WorkerMode::Stdio
}

} // verus!
