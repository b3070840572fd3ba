//! The worker's sessions and its answers to requests.
//!
//! Serving a request may need work that only the host process can do: read
//! the FFmpeg versions, probe or open a file, decode a frame and write its
//! RGBA bytes. The server then names that work as an action, waits, and goes
//! on when the host hands back the outcome as an event. Each step also lists
//! the buffer files that no cache refers to any more, the sessions whose
//! decoders and directories can go, and the lines to write to the error log.

use vstd::prelude::*;
use vstd::string::*;

use crate::cache::{
    cache_insert, cache_lookup, copy_buffer, holds_id, CacheView, FrameBufferCache,
};
use crate::frame::{
    clamp_frame_index, clamped_index, frame_id_accepted, frame_id_text, frame_out_of_range,
    frame_timestamp, frame_timestamp_us, invalid_frame_id_text, make_frame_id, out_of_range_text,
    validate_frame_id,
};
use crate::protocol::{
    hello, hello_view, BufferView, ErrorView, FrameBuffer, FrameHandle, HandleView,
    LinkedFfmpegVersions, ProbeView, RequestView, ResponseView, SessionSummary, SummaryView,
    VideoProbe, WorkerError, WorkerErrorCode, WorkerRequest, WorkerResponse,
};
use crate::text::{decimal, lacks_char, push_decimal, push_str};

verus! {

/// How many buffers a session keeps when nothing else is asked for.
pub const DEFAULT_FRAME_CACHE_CAPACITY: usize = 64;

/// How far on each side of a requested frame the worker decodes ahead.
pub const PREFETCH_RADIUS: u32 = 1;

// ---------------------------------------------------------------------------
// Actions and events
// ---------------------------------------------------------------------------

/// A decoded frame whose RGBA bytes the host has written to a file.
#[derive(Debug, Clone, PartialEq, Eq)]
pub struct StoredFrame {
    pub width: u32,
    pub height: u32,
    pub rgba_path: String,
}

/// What the host reports back after doing an action.
#[derive(Debug, PartialEq)]
pub enum WorkerEvent {
    /// The FFmpeg versions linked into the process.
    Versions(LinkedFfmpegVersions),
    /// The outcome of a probe.
    Probed(Result<VideoProbe, String>),
    /// The outcome of opening a file: its indexed summary, with a decoder and a
    /// buffer directory ready for it.
    Opened(Result<SessionSummary, String>),
    /// The outcome of decoding a frame and writing its bytes.
    Stored(Result<StoredFrame, StoreFailure>),
}

/// Why a frame could not be stored.
#[derive(Debug, Clone, PartialEq, Eq)]
pub enum StoreFailure {
    /// Decoding failed, with this message.
    Decode(String),
    /// Writing the RGBA bytes failed, with this message.
    Write(String),
}

/// What the server asks of the host.
#[derive(Debug, PartialEq)]
pub enum WorkerAction {
    /// Send this response; the request is served.
    Reply(WorkerResponse),
    /// Read the linked FFmpeg versions.
    ReadVersions,
    /// Probe the file at `path`.
    Probe { path: String },
    /// Open the file at `path`, index its frames, and make its buffer directory.
    Open { path: String },
    /// Decode frame `frame_index` of the session and write its RGBA bytes to
    /// the buffer file of `frame_id`.
    Decode { session_id: String, frame_index: u32, frame_id: String },
}

/// One step of serving a request.
#[derive(Debug, PartialEq)]
pub struct WorkerStep {
    pub action: WorkerAction,
    /// Buffer files to delete.
    pub discard_paths: Vec<String>,
    /// Sessions whose decoder and buffer directory to drop.
    pub released_sessions: Vec<String>,
    /// Lines for the host to write to its error log.
    pub log_lines: Vec<String>,
}

pub struct StoredView {
    pub width: u32,
    pub height: u32,
    pub rgba_path: Seq<char>,
}

pub enum EventView {
    Versions(LinkedFfmpegVersions),
    Probed(Result<ProbeView, Seq<char>>),
    Opened(Result<SummaryView, Seq<char>>),
    Stored(Result<StoredView, FailureView>),
}

pub enum FailureView {
    Decode(Seq<char>),
    Write(Seq<char>),
}

impl View for StoreFailure {
    type V = FailureView;

    open spec fn view(&self) -> FailureView {
        match self {
            StoreFailure::Decode(m) => FailureView::Decode(m@),
            StoreFailure::Write(m) => FailureView::Write(m@),
        }
    }
}

pub enum ActionView {
    Reply(ResponseView),
    ReadVersions,
    Probe { path: Seq<char> },
    Open { path: Seq<char> },
    Decode { session_id: Seq<char>, frame_index: u32, frame_id: Seq<char> },
}

pub struct StepView {
    pub action: ActionView,
    pub discard_paths: Seq<Seq<char>>,
    pub released_sessions: Seq<Seq<char>>,
    pub log_lines: Seq<Seq<char>>,
}

impl View for StoredFrame {
    type V = StoredView;

    open spec fn view(&self) -> StoredView {
        StoredView { width: self.width, height: self.height, rgba_path: self.rgba_path@ }
    }
}

impl View for WorkerEvent {
    type V = EventView;

    open spec fn view(&self) -> EventView {
        match self {
            WorkerEvent::Versions(v) => EventView::Versions(*v),
            WorkerEvent::Probed(r) => EventView::Probed(
                match r {
                    Ok(p) => Ok(p@),
                    Err(m) => Err(m@),
                },
            ),
            WorkerEvent::Opened(r) => EventView::Opened(
                match r {
                    Ok(s) => Ok(s@),
                    Err(m) => Err(m@),
                },
            ),
            WorkerEvent::Stored(r) => EventView::Stored(
                match r {
                    Ok(f) => Ok(f@),
                    Err(e) => Err(e@),
                },
            ),
        }
    }
}

impl View for WorkerAction {
    type V = ActionView;

    open spec fn view(&self) -> ActionView {
        match self {
            WorkerAction::Reply(r) => ActionView::Reply(r@),
            WorkerAction::ReadVersions => ActionView::ReadVersions,
            WorkerAction::Probe { path } => ActionView::Probe { path: path@ },
            WorkerAction::Open { path } => ActionView::Open { path: path@ },
            WorkerAction::Decode { session_id, frame_index, frame_id } => ActionView::Decode {
                session_id: session_id@,
                frame_index: *frame_index,
                frame_id: frame_id@,
            },
        }
    }
}

impl View for WorkerStep {
    type V = StepView;

    open spec fn view(&self) -> StepView {
        StepView {
            action: self.action@,
            discard_paths: self.discard_paths@.map_values(|p: String| p@),
            released_sessions: self.released_sessions@.map_values(|p: String| p@),
            log_lines: self.log_lines@.map_values(|l: String| l@),
        }
    }
}

// ---------------------------------------------------------------------------
// The model
// ---------------------------------------------------------------------------

pub struct SessionView {
    pub summary: SummaryView,
    pub current_frame_index: Option<u32>,
    pub cache: CacheView,
}

pub enum TaskView {
    Idle,
    Versions,
    Probing,
    Opening,
    Target { session_id: Seq<char>, frame_index: u32, frame_id: Seq<char>, stepped: bool },
    Prefetch { session_id: Seq<char>, center: u32, pos: nat, result: HandleView, stepped: bool },
}

pub struct ServerView {
    pub sessions: Seq<SessionView>,
    pub capacity: nat,
    pub task: TaskView,
}

/// `k` is the first position of session `id`.
pub open spec fn is_session_pos(sessions: Seq<SessionView>, id: Seq<char>, k: int) -> bool {
    &&& 0 <= k < sessions.len()
    &&& sessions[k].summary.session_id == id
    &&& forall|j: int| 0 <= j < k ==> sessions[j].summary.session_id != id
}

/// The position of session `id`, if it is open.
pub open spec fn session_pos(sessions: Seq<SessionView>, id: Seq<char>) -> Option<int> {
    if exists|k: int| is_session_pos(sessions, id, k) {
        Some(choose|k: int| is_session_pos(sessions, id, k))
    } else {
        None
    }
}

/// The frames decoded ahead around `center` in an index of `total_frames`:
/// the next one if it exists, then the previous one if it exists.
pub open spec fn prefetch_candidates(center: u32, total_frames: u32) -> Seq<u32> {
    if total_frames == 0 {
        Seq::empty()
    } else {
        let forward: u32 = if center as int + PREFETCH_RADIUS > u32::MAX {
            u32::MAX
        } else {
            (center + PREFETCH_RADIUS) as u32
        };
        let upper: u32 = if forward <= total_frames - 1 {
            forward
        } else {
            (total_frames - 1) as u32
        };
        let ahead = if forward <= upper {
            seq![forward]
        } else {
            Seq::empty()
        };
        if center >= PREFETCH_RADIUS {
            ahead.push((center - PREFETCH_RADIUS) as u32)
        } else {
            ahead
        }
    }
}

pub open spec fn reply(r: ResponseView) -> StepView {
    StepView { action: ActionView::Reply(r), discard_paths: Seq::empty(), released_sessions: Seq::empty(), log_lines: Seq::empty() }
}

pub open spec fn request_error(code: WorkerErrorCode, message: Seq<char>) -> ResponseView {
    ResponseView::RequestError { error: ErrorView { code, message } }
}

pub open spec fn session_not_found_text(session_id: Seq<char>) -> Seq<char> {
    "session not found: "@ + session_id
}

pub open spec fn no_current_frame_text(session_id: Seq<char>) -> Seq<char> {
    "no current frame for session "@ + session_id
}

pub open spec fn expired_text(frame_id: Seq<char>) -> Seq<char> {
    "frame buffer expired for "@ + frame_id
}

/// The answer that carries a frame: to `StepFrame` when `stepped`, else to
/// `GetFrame`.
pub open spec fn frame_response(frame: HandleView, stepped: bool) -> ResponseView {
    if stepped {
        ResponseView::StepFrameResult { frame }
    } else {
        ResponseView::GetFrameResult { frame }
    }
}

/// The handle of frame `meta`, named `frame_id`, held as `width` by `height`
/// RGBA bytes at `rgba_path`.
pub open spec fn handle_of(
    frame_id: Seq<char>,
    meta: crate::protocol::FrameMeta,
    width: u32,
    height: u32,
    rgba_path: Seq<char>,
) -> HandleView {
    HandleView {
        frame_id,
        frame_index: meta.frame_index,
        width,
        height,
        timestamp_us: frame_timestamp(meta),
        is_precise: frame_timestamp(meta) is Some,
        rgba_path,
    }
}

pub open spec fn with_session(s: ServerView, k: int, session: SessionView) -> ServerView {
    ServerView { sessions: s.sessions.update(k, session), ..s }
}

pub open spec fn with_task(s: ServerView, task: TaskView) -> ServerView {
    ServerView { task, ..s }
}

pub open spec fn buffer_paths(entries: Seq<BufferView>) -> Seq<Seq<char>> {
    entries.map_values(|b: BufferView| b.rgba_path)
}

/// No two sessions share an id.
pub open spec fn session_ids_unique(sessions: Seq<SessionView>) -> bool {
    forall|i: int, j: int|
        0 <= i < sessions.len() && 0 <= j < sessions.len() && i != j ==> sessions[i].summary.session_id
            != sessions[j].summary.session_id
}

/// The buffer files of every session in `sessions`, session by session.
pub open spec fn all_buffer_paths(sessions: Seq<SessionView>) -> Seq<Seq<char>>
    decreases sessions.len(),
{
    if sessions.len() == 0 {
        Seq::empty()
    } else {
        all_buffer_paths(sessions.drop_last()) + buffer_paths(sessions.last().cache.entries)
    }
}

/// The ids of every session in `sessions`.
pub open spec fn session_ids(sessions: Seq<SessionView>) -> Seq<Seq<char>> {
    sessions.map_values(|s: SessionView| s.summary.session_id)
}

/// Goes through the prefetch candidates around `center` from `pos` on: the
/// first one that exists and is not cached is to be decoded; when none is
/// left, the request is answered with `result`.
pub open spec fn advance(
    s: ServerView,
    session_id: Seq<char>,
    center: u32,
    pos: nat,
    result: HandleView,
    stepped: bool,
) -> (ServerView, ActionView)
    decreases 3 - pos,
{
    match session_pos(s.sessions, session_id) {
        None => (with_task(s, TaskView::Idle), ActionView::Reply(frame_response(result, stepped))),
        Some(k) => {
            let session = s.sessions[k];
            let candidates = prefetch_candidates(center, session.summary.total_frames);
            if pos >= candidates.len() || pos >= 3 {
                (with_task(s, TaskView::Idle), ActionView::Reply(frame_response(result, stepped)))
            } else {
                let c = candidates[pos as int];
                if c >= session.summary.frames.len() {
                    advance(s, session_id, center, pos + 1, result, stepped)
                } else {
                    let frame_id = frame_id_text(session_id, session.summary.frames[c as int]);
                    if holds_id(session.cache.entries, frame_id) {
                        advance(s, session_id, center, pos + 1, result, stepped)
                    } else {
                        (
                            with_task(
                                s,
                                TaskView::Prefetch { session_id, center, pos, result, stepped },
                            ),
                            ActionView::Decode { session_id, frame_index: c, frame_id },
                        )
                    }
                }
            }
        },
    }
}

pub open spec fn advance_step(
    s: ServerView,
    session_id: Seq<char>,
    center: u32,
    pos: nat,
    result: HandleView,
    stepped: bool,
    discard_paths: Seq<Seq<char>>,
) -> (ServerView, StepView) {
    let (s2, action) = advance(s, session_id, center, pos, result, stepped);
    (s2, StepView { action, discard_paths, released_sessions: Seq::empty(), log_lines: Seq::empty() })
}

/// Serving a request for frame `frame_index` of session `session_id`: an
/// error for an unknown session or an index past the end; from the cache
/// when the frame's buffer is there; else a decode.
pub open spec fn begin_frame(s: ServerView, session_id: Seq<char>, frame_index: u32, stepped: bool) -> (
    ServerView,
    StepView,
) {
    match session_pos(s.sessions, session_id) {
        None => (
            s,
            reply(request_error(WorkerErrorCode::SessionNotFound, session_not_found_text(session_id))),
        ),
        Some(k) => {
            let session = s.sessions[k];
            if frame_index >= session.summary.frames.len() {
                (
                    s,
                    reply(
                        request_error(
                            WorkerErrorCode::FrameOutOfRange,
                            out_of_range_text(frame_index, session.summary.total_frames),
                        ),
                    ),
                )
            } else {
                let meta = session.summary.frames[frame_index as int];
                let frame_id = frame_id_text(session_id, meta);
                let (entries, found) = cache_lookup(session.cache.entries, frame_id);
                match found {
                    Some(b) => {
                        let s2 = with_session(
                            s,
                            k,
                            SessionView {
                                current_frame_index: Some(frame_index),
                                cache: CacheView { entries, ..session.cache },
                                ..session
                            },
                        );
                        let handle = handle_of(frame_id, meta, b.width, b.height, b.rgba_path);
                        advance_step(s2, session_id, frame_index, 0, handle, stepped, Seq::empty())
                    },
                    None => (
                        with_task(s, TaskView::Target { session_id, frame_index, frame_id, stepped }),
                        StepView {
                            action: ActionView::Decode { session_id, frame_index, frame_id },
                            discard_paths: Seq::empty(),
                            released_sessions: Seq::empty(),
                            log_lines: Seq::empty(),
                        },
                    ),
                }
            }
        },
    }
}

/// Serving a request for the buffer of `frame_id` in session `session_id`.
pub open spec fn read_buffer(s: ServerView, session_id: Seq<char>, frame_id: Seq<char>) -> (
    ServerView,
    StepView,
) {
    match session_pos(s.sessions, session_id) {
        None => (
            s,
            reply(request_error(WorkerErrorCode::SessionNotFound, session_not_found_text(session_id))),
        ),
        Some(k) => {
            let session = s.sessions[k];
            if !frame_id_accepted(session_id, session.summary.frames, frame_id) {
                (
                    s,
                    reply(
                        request_error(WorkerErrorCode::InvalidFrameId, invalid_frame_id_text(frame_id)),
                    ),
                )
            } else {
                let (entries, found) = cache_lookup(session.cache.entries, frame_id);
                let s2 = with_session(
                    s,
                    k,
                    SessionView { cache: CacheView { entries, ..session.cache }, ..session },
                );
                match found {
                    Some(b) => (s2, reply(ResponseView::ReadFrameBufferResult { buffer: b })),
                    None => (
                        s2,
                        reply(request_error(WorkerErrorCode::FrameExpired, expired_text(frame_id))),
                    ),
                }
            }
        },
    }
}

/// Serving a request, from an idle server.
pub open spec fn on_request(s: ServerView, request: RequestView) -> (ServerView, StepView) {
    match request {
        RequestView::Ping => (
            with_task(s, TaskView::Versions),
            StepView { action: ActionView::ReadVersions, discard_paths: Seq::empty(), released_sessions: Seq::empty(), log_lines: Seq::empty() },
        ),
        RequestView::Probe { path } => (
            with_task(s, TaskView::Probing),
            StepView { action: ActionView::Probe { path }, discard_paths: Seq::empty(), released_sessions: Seq::empty(), log_lines: Seq::empty() },
        ),
        RequestView::OpenVideo { path } => (
            with_task(s, TaskView::Opening),
            StepView { action: ActionView::Open { path }, discard_paths: Seq::empty(), released_sessions: Seq::empty(), log_lines: Seq::empty() },
        ),
        RequestView::GetFrame { session_id, frame_index } => begin_frame(s, session_id, frame_index, false),
        RequestView::ReadFrameBuffer { session_id, frame_id } => read_buffer(s, session_id, frame_id),
        RequestView::StepFrame { session_id, delta } => match session_pos(s.sessions, session_id) {
            None => (
                s,
                reply(request_error(WorkerErrorCode::SessionNotFound, session_not_found_text(session_id))),
            ),
            Some(k) => match s.sessions[k].current_frame_index {
                None => (
                    s,
                    reply(request_error(WorkerErrorCode::NoCurrentFrame, no_current_frame_text(session_id))),
                ),
                Some(current) => begin_frame(
                    s,
                    session_id,
                    clamped_index(current, delta, s.sessions[k].summary.total_frames) as u32,
                    true,
                ),
            },
        },
        RequestView::CloseVideo { session_id } => match session_pos(s.sessions, session_id) {
            None => (s, reply(ResponseView::CloseVideoResult { closed: false })),
            Some(k) => (
                ServerView { sessions: s.sessions.remove(k), ..s },
                StepView {
                    action: ActionView::Reply(ResponseView::CloseVideoResult { closed: true }),
                    discard_paths: buffer_paths(s.sessions[k].cache.entries),
                    released_sessions: seq![session_id],
                    log_lines: Seq::empty(),
                },
            ),
        },
        RequestView::Shutdown => (
            ServerView { sessions: Seq::empty(), ..s },
            StepView {
                action: ActionView::Reply(ResponseView::Ack { accepted: true }),
                discard_paths: all_buffer_paths(s.sessions),
                released_sessions: session_ids(s.sessions),
                log_lines: Seq::empty(),
            },
        ),
    }
}

/// Whether `event` is the outcome that the server waits for; an opened
/// summary must count exactly the frames that it indexes.
pub open spec fn expects(task: TaskView, event: EventView) -> bool {
    match (task, event) {
        (TaskView::Versions, EventView::Versions(_)) => true,
        (TaskView::Probing, EventView::Probed(_)) => true,
        (TaskView::Opening, EventView::Opened(r)) => match r {
            Ok(summary) => summary.total_frames == summary.frames.len(),
            Err(_) => true,
        },
        (TaskView::Target { .. }, EventView::Stored(_)) => true,
        (TaskView::Prefetch { .. }, EventView::Stored(_)) => true,
        _ => false,
    }
}

/// The message of a failure to store a frame.
pub open spec fn failure_message(failure: FailureView) -> Seq<char> {
    match failure {
        FailureView::Decode(m) => m,
        FailureView::Write(m) => m,
    }
}

/// The log line of a prefetch of frame `frame_index` that could not be
/// decoded or written.
pub open spec fn prefetch_failure_text(failure: FailureView, frame_index: u32, session_id: Seq<char>) -> Seq<char> {
    match failure {
        FailureView::Decode(m) => "video-worker: failed to prefetch frame "@ + decimal(frame_index as nat)
            + " for session "@ + session_id + ": "@ + m,
        FailureView::Write(m) => "video-worker: failed to write prefetched frame "@ + decimal(
            frame_index as nat,
        ) + " for session "@ + session_id + ": "@ + m,
    }
}

/// Storing a decoded frame in session `k`: the buffer goes into the cache and
/// the buffers pushed out are to be deleted.
pub open spec fn store_frame(s: ServerView, k: int, frame_id: Seq<char>, f: StoredView) -> (
    SessionView,
    Seq<Seq<char>>,
) {
    let session = s.sessions[k];
    let buffer = BufferView { frame_id, width: f.width, height: f.height, rgba_path: f.rgba_path };
    let (entries, evicted) = cache_insert(session.cache.entries, session.cache.capacity, buffer);
    (SessionView { cache: CacheView { entries, ..session.cache }, ..session }, buffer_paths(evicted))
}

/// Going on with the outcome of an action.
pub open spec fn on_event(s: ServerView, event: EventView) -> (ServerView, StepView) {
    match (s.task, event) {
        (TaskView::Versions, EventView::Versions(v)) => (
            with_task(s, TaskView::Idle),
            reply(ResponseView::Hello { hello: hello_view(true, v) }),
        ),
        (TaskView::Probing, EventView::Probed(r)) => (
            with_task(s, TaskView::Idle),
            reply(
                match r {
                    Ok(probe) => ResponseView::ProbeResult { probe },
                    Err(message) => ResponseView::Error { message },
                },
            ),
        ),
        (TaskView::Opening, EventView::Opened(Err(message))) => (
            with_task(s, TaskView::Idle),
            reply(ResponseView::Error { message }),
        ),
        (TaskView::Opening, EventView::Opened(Ok(summary))) => {
            let fresh = SessionView {
                summary,
                current_frame_index: None,
                cache: CacheView { capacity: s.capacity, entries: Seq::empty() },
            };
            let response = ResponseView::OpenVideoResult { session: summary };
            match session_pos(s.sessions, summary.session_id) {
                None => (
                    ServerView { sessions: s.sessions.push(fresh), task: TaskView::Idle, ..s },
                    reply(response),
                ),
                Some(k) => (
                    ServerView { sessions: s.sessions.update(k, fresh), task: TaskView::Idle, ..s },
                    StepView {
                        action: ActionView::Reply(response),
                        discard_paths: buffer_paths(s.sessions[k].cache.entries),
                        released_sessions: seq![summary.session_id],
                        log_lines: Seq::empty(),
                    },
                ),
            }
        },
        (TaskView::Target { stepped, .. }, EventView::Stored(Err(failure))) => (
            with_task(s, TaskView::Idle),
            reply(request_error(WorkerErrorCode::DecodeFailed, failure_message(failure))),
        ),
        (
            TaskView::Target { session_id, frame_index, frame_id, stepped },
            EventView::Stored(Ok(f)),
        ) => {
            let k = session_pos(s.sessions, session_id)->0;
            let (session, discard) = store_frame(s, k, frame_id, f);
            let meta = session.summary.frames[frame_index as int];
            let s2 = with_session(
                with_task(s, TaskView::Idle),
                k,
                SessionView { current_frame_index: Some(frame_index), ..session },
            );
            let handle = handle_of(frame_id, meta, f.width, f.height, f.rgba_path);
            advance_step(s2, session_id, frame_index, 0, handle, stepped, discard)
        },
        (TaskView::Prefetch { session_id, center, pos, result, stepped }, EventView::Stored(r)) => {
            match r {
                Err(failure) => {
                    let k = session_pos(s.sessions, session_id)->0;
                    let c = prefetch_candidates(center, s.sessions[k].summary.total_frames)[pos as int];
                    let (s2, step) = advance_step(
                        with_task(s, TaskView::Idle),
                        session_id,
                        center,
                        pos + 1,
                        result,
                        stepped,
                        Seq::empty(),
                    );
                    (s2, StepView { log_lines: seq![prefetch_failure_text(failure, c, session_id)], ..step })
                },
                Ok(f) => {
                    let k = session_pos(s.sessions, session_id)->0;
                    let session = s.sessions[k];
                    let c = prefetch_candidates(center, session.summary.total_frames)[pos as int];
                    let frame_id = frame_id_text(session_id, session.summary.frames[c as int]);
                    let (session2, discard) = store_frame(s, k, frame_id, f);
                    advance_step(
                        with_session(with_task(s, TaskView::Idle), k, session2),
                        session_id,
                        center,
                        pos + 1,
                        result,
                        stepped,
                        discard,
                    )
                },
            }
        },
        _ => (s, reply(ResponseView::Error { message: Seq::empty() })),
    }
}

impl ServerView {
    /// Every cache is within its bounds, and a frame task refers to an open
    /// session and a frame that it indexes.
    pub open spec fn wf(self) -> bool {
        &&& self.sessions_wf()
        &&& self.task_wf()
    }

    /// Every cache is within its bounds, no two sessions share an id, and
    /// each session's frame count is the length of its frame index.
    pub open spec fn sessions_wf(self) -> bool {
        &&& self.capacity >= 1
        &&& session_ids_unique(self.sessions)
        &&& forall|i: int|
            0 <= i < self.sessions.len() ==> {
                &&& (#[trigger] self.sessions[i]).cache.wf()
                &&& self.sessions[i].cache.capacity == self.capacity
            }
        &&& forall|i: int|
            0 <= i < self.sessions.len() ==> (#[trigger] self.sessions[i]).summary.total_frames
                == self.sessions[i].summary.frames.len()
    }

    /// A frame task refers to an open session and a frame that it indexes.
    pub open spec fn task_wf(self) -> bool {
        match self.task {
            TaskView::Target { session_id, frame_index, frame_id, .. } => match session_pos(
                self.sessions,
                session_id,
            ) {
                None => false,
                Some(k) => {
                    &&& frame_index < self.sessions[k].summary.frames.len()
                    &&& frame_id == frame_id_text(
                        session_id,
                        self.sessions[k].summary.frames[frame_index as int],
                    )
                },
            },
            TaskView::Prefetch { session_id, center, pos, .. } => match session_pos(
                self.sessions,
                session_id,
            ) {
                None => false,
                Some(k) => {
                    let candidates = prefetch_candidates(
                        center,
                        self.sessions[k].summary.total_frames,
                    );
                    &&& pos < candidates.len()
                    &&& candidates[pos as int] < self.sessions[k].summary.frames.len()
                },
            },
            _ => true,
        }
    }
}

// ---------------------------------------------------------------------------
// The server
// ---------------------------------------------------------------------------

struct VideoSession {
    summary: SessionSummary,
    current_frame_index: Option<u32>,
    frame_cache: FrameBufferCache,
}

impl View for VideoSession {
    type V = SessionView;

    closed spec fn view(&self) -> SessionView {
        SessionView {
            summary: self.summary@,
            current_frame_index: self.current_frame_index,
            cache: self.frame_cache@,
        }
    }
}

enum Task {
    Idle,
    Versions,
    Probing,
    Opening,
    Target { session_id: String, frame_index: u32, frame_id: String, stepped: bool },
    Prefetch { session_id: String, center: u32, pos: usize, result: FrameHandle, stepped: bool },
}

impl View for Task {
    type V = TaskView;

    closed spec fn view(&self) -> TaskView {
        match self {
            Task::Idle => TaskView::Idle,
            Task::Versions => TaskView::Versions,
            Task::Probing => TaskView::Probing,
            Task::Opening => TaskView::Opening,
            Task::Target { session_id, frame_index, frame_id, stepped } => TaskView::Target {
                session_id: session_id@,
                frame_index: *frame_index,
                frame_id: frame_id@,
                stepped: *stepped,
            },
            Task::Prefetch { session_id, center, pos, result, stepped } => TaskView::Prefetch {
                session_id: session_id@,
                center: *center,
                pos: *pos as nat,
                result: result@,
                stepped: *stepped,
            },
        }
    }
}

/// The worker: its open sessions, each with a frame index, a current frame
/// and a cache of decoded buffers; and the request that it is serving.
pub struct WorkerServer {
    sessions: Vec<VideoSession>,
    frame_cache_capacity: usize,
    task: Task,
}

impl View for WorkerServer {
    type V = ServerView;

    closed spec fn view(&self) -> ServerView {
        ServerView {
            sessions: self.sessions@.map_values(|s: VideoSession| s@),
            capacity: self.frame_cache_capacity as nat,
            task: self.task@,
        }
    }
}

fn copy_handle(h: &FrameHandle) -> (r: FrameHandle)
    ensures
        r@ == h@,
{
    FrameHandle {
        frame_id: h.frame_id.clone(),
        frame_index: h.frame_index,
        width: h.width,
        height: h.height,
        timestamp_us: h.timestamp_us,
        is_precise: h.is_precise,
        rgba_path: h.rgba_path.clone(),
    }
}

/// A copy of `s`.
pub fn copy_summary(s: &SessionSummary) -> (r: SessionSummary)
    ensures
        r@ == s@,
{
    let frames = s.frames.clone();
    assert(frames@ =~= s.frames@);
    SessionSummary {
        session_id: s.session_id.clone(),
        path: s.path.clone(),
        width: s.width,
        height: s.height,
        duration_us: s.duration_us,
        codec_name: s.codec_name.clone(),
        total_frames: s.total_frames,
        avg_frame_rate_num: s.avg_frame_rate_num,
        avg_frame_rate_den: s.avg_frame_rate_den,
        decode_errors: s.decode_errors,
        frames,
    }
}

fn paths_of(buffers: &Vec<FrameBuffer>) -> (paths: Vec<String>)
    ensures
        paths@.map_values(|p: String| p@) == buffer_paths(buffers@.map_values(|b: FrameBuffer| b@)),
{
    let mut paths: Vec<String> = Vec::new();
    let mut i: usize = 0;
    while i < buffers.len()
        invariant
            0 <= i <= buffers.len(),
            paths@.len() == i,
            paths@.map_values(|p: String| p@) == buffer_paths(
                buffers@.take(i as int).map_values(|b: FrameBuffer| b@),
            ),
        decreases buffers.len() - i,
    {
        let p = buffers[i].rgba_path.clone();
        let ghost prev = paths@;
        paths.push(p);
        i = i + 1;
        proof {
            let lhs = paths@.map_values(|p: String| p@);
            let rhs = buffer_paths(buffers@.take(i as int).map_values(|b: FrameBuffer| b@));
            assert(lhs.len() == rhs.len());
            assert forall|j: int| 0 <= j < lhs.len() implies lhs[j] == rhs[j] by {
                let prev_view = prev.map_values(|p: String| p@);
                if j < i - 1 {
                    assert(paths@[j] == prev[j]);
                    assert(prev_view[j] == prev[j]@);
                    assert(prev_view[j] == buffers@[j].rgba_path@);
                } else {
                    assert(paths@[j] == buffers@[j].rgba_path);
                }
            }
            assert(lhs =~= rhs);
        }
    }
    assert(buffers@.take(buffers.len() as int) =~= buffers@);
    paths
}

fn session_not_found(session_id: &str) -> (e: WorkerError)
    ensures
        e@ == (ErrorView {
            code: WorkerErrorCode::SessionNotFound,
            message: session_not_found_text(session_id@),
        }),
{
    let mut s = String::from_str("session not found: ");
    push_str(&mut s, session_id);
    WorkerError::new(WorkerErrorCode::SessionNotFound, s)
}

fn plain_step(action: WorkerAction) -> (step: WorkerStep)
    ensures
        step@ == (StepView {
            action: action@,
            discard_paths: Seq::empty(),
            released_sessions: Seq::empty(),
            log_lines: Seq::empty(),
        }),
{
    let step = WorkerStep {
        action,
        discard_paths: Vec::new(),
        released_sessions: Vec::new(),
        log_lines: Vec::new(),
    };
    assert(step@.discard_paths =~= Seq::<Seq<char>>::empty());
    assert(step@.released_sessions =~= Seq::<Seq<char>>::empty());
    assert(step@.log_lines =~= Seq::<Seq<char>>::empty());
    step
}

fn prefetch_failure_line(failure: &StoreFailure, frame_index: u32, session_id: &str) -> (line:
    String)
    ensures
        line@ == prefetch_failure_text(failure@, frame_index, session_id@),
{
    let (head, m) = match failure {
        StoreFailure::Decode(m) => ("video-worker: failed to prefetch frame ", m),
        StoreFailure::Write(m) => ("video-worker: failed to write prefetched frame ", m),
    };
    let mut line = String::from_str(head);
    push_decimal(&mut line, frame_index as u64);
    push_str(&mut line, " for session ");
    push_str(&mut line, session_id);
    push_str(&mut line, ": ");
    push_str(&mut line, m.as_str());
    line
}

fn reply_step(response: WorkerResponse) -> (step: WorkerStep)
    ensures
        step@ == reply(response@),
{
    plain_step(WorkerAction::Reply(response))
}

impl WorkerServer {
    /// A worker with no sessions whose caches hold at most
    /// `frame_cache_capacity` buffers, and at least one.
    pub fn with_cache_capacity(frame_cache_capacity: usize) -> (w: Self)
        ensures
            w@.wf(),
            w@.sessions == Seq::<SessionView>::empty(),
            w@.capacity == if frame_cache_capacity >= 1 { frame_cache_capacity as nat } else { 1 },
            w@.task == TaskView::Idle,
    {
        let w = WorkerServer {
            sessions: Vec::new(),
            frame_cache_capacity: if frame_cache_capacity >= 1 { frame_cache_capacity } else { 1 },
            task: Task::Idle,
        };
        assert(w@.sessions =~= Seq::<SessionView>::empty());
        w
    }

    /// Whether the worker waits for the outcome of an action.
    pub fn is_busy(&self) -> (r: bool)
        ensures
            r == !(self@.task is Idle),
    {
        match self.task {
            Task::Idle => false,
            _ => true,
        }
    }

    /// Whether `event` is the outcome that the worker waits for.
    pub fn expects(&self, event: &WorkerEvent) -> (r: bool)
        ensures
            r == expects(self@.task, event@),
    {
        match (&self.task, event) {
            (Task::Versions, WorkerEvent::Versions(_)) => true,
            (Task::Probing, WorkerEvent::Probed(_)) => true,
            (Task::Opening, WorkerEvent::Opened(r)) => match r {
                Ok(summary) => summary.total_frames as usize == summary.frames.len(),
                Err(_) => true,
            },
            (Task::Target { .. }, WorkerEvent::Stored(_)) => true,
            (Task::Prefetch { .. }, WorkerEvent::Stored(_)) => true,
            _ => false,
        }
    }

    fn find_session(&self, session_id: &str) -> (r: Option<usize>)
        ensures
            match r {
                Some(i) => session_pos(self@.sessions, session_id@) == Some(i as int) && i
                    < self@.sessions.len(),
                None => session_pos(self@.sessions, session_id@) is None,
            },
    {
        let key = String::from_str(session_id);
        let ghost ss = self@.sessions;
        let mut i: usize = 0;
        while i < self.sessions.len()
            invariant
                0 <= i <= self.sessions.len(),
                ss == self@.sessions,
                key@ == session_id@,
                forall|j: int| 0 <= j < i ==> ss[j].summary.session_id != session_id@,
            decreases self.sessions.len() - i,
        {
            if self.sessions[i].summary.session_id == key {
                proof {
                    assert(ss[i as int] == self.sessions@[i as int]@);
                    assert(is_session_pos(ss, session_id@, i as int));
                    lemma_session_pos_unique(ss, session_id@, i as int);
                }
                return Some(i);
            }
            assert(ss[i as int] == self.sessions@[i as int]@);
            i = i + 1;
        }
        proof {
            if exists|k: int| is_session_pos(ss, session_id@, k) {
                let k = choose|k: int| is_session_pos(ss, session_id@, k);
                assert(ss[k].summary.session_id == session_id@);
            }
        }
        None
    }
}


/// The frames decoded ahead around `center` in an index of `total_frames`.
fn prefetch_candidates_exec(center: u32, total_frames: u32) -> (v: Vec<u32>)
    ensures
        v@ == prefetch_candidates(center, total_frames),
{
    let mut v: Vec<u32> = Vec::new();
    if total_frames == 0 {
        assert(v@ =~= prefetch_candidates(center, total_frames));
        return v;
    }
    let forward = center.saturating_add(PREFETCH_RADIUS);
    let upper = if forward <= total_frames - 1 {
        forward
    } else {
        total_frames - 1
    };
    if forward <= upper {
        v.push(forward);
    }
    if center >= PREFETCH_RADIUS {
        v.push(center - PREFETCH_RADIUS);
    }
    assert(v@ =~= prefetch_candidates(center, total_frames));
    v
}

fn frame_response_exec(frame: FrameHandle, stepped: bool) -> (r: WorkerResponse)
    ensures
        r@ == frame_response(frame@, stepped),
{
    if stepped {
        WorkerResponse::StepFrameResult { frame }
    } else {
        WorkerResponse::GetFrameResult { frame }
    }
}

fn request_error_step(error: WorkerError) -> (step: WorkerStep)
    ensures
        step@ == reply(ResponseView::RequestError { error: error@ }),
{
    reply_step(WorkerResponse::RequestError { error })
}

fn one_string(s: String) -> (v: Vec<String>)
    ensures
        v@.map_values(|p: String| p@) == seq![s@],
{
    let mut v: Vec<String> = Vec::new();
    v.push(s);
    assert(v@.map_values(|p: String| p@) =~= seq![s@]);
    v
}

impl WorkerServer {
    fn replace_session(&mut self, k: usize, session: VideoSession) -> (previous: VideoSession)
        requires
            k < old(self)@.sessions.len(),
        ensures
            final(self)@ == with_session(old(self)@, k as int, session@),
            previous@ == old(self)@.sessions[k as int],
    {
        let ghost before = self.sessions@;
        let previous = self.sessions.remove(k);
        self.sessions.insert(k, session);
        proof {
            assert(self.sessions@ =~= before.update(k as int, session));
            assert(self@.sessions =~= old(self)@.sessions.update(k as int, session@));
        }
        previous
    }

    /// Goes through the prefetch candidates around `center` from `pos` on.
    fn advance(
        &mut self,
        session_id: String,
        center: u32,
        pos: usize,
        result: FrameHandle,
        stepped: bool,
    ) -> (action: WorkerAction)
        requires
            old(self)@.sessions_wf(),
            pos <= 3,
        ensures
            final(self)@.wf(),
            (final(self)@, action@) == advance(
                old(self)@,
                session_id@,
                center,
                pos as nat,
                result@,
                stepped,
            ),
        decreases 3 - pos,
    {
        match self.find_session(session_id.as_str()) {
            None => {
                self.task = Task::Idle;
                WorkerAction::Reply(frame_response_exec(result, stepped))
            },
            Some(k) => {
                assert(self@.sessions[k as int] == self.sessions@[k as int]@);
                let total = self.sessions[k].summary.total_frames;
                let candidates = prefetch_candidates_exec(center, total);
                if pos >= candidates.len() || pos >= 3 {
                    self.task = Task::Idle;
                    assert(self@ == with_task(old(self)@, TaskView::Idle));
                    return WorkerAction::Reply(frame_response_exec(result, stepped));
                }
                let c = candidates[pos];
                if c as usize >= self.sessions[k].summary.frames.len() {
                    return self.advance(session_id, center, pos + 1, result, stepped);
                }
                let frame_id = make_frame_id(
                    session_id.as_str(),
                    &self.sessions[k].summary.frames[c as usize],
                );
                if self.sessions[k].frame_cache.contains(frame_id.as_str()) {
                    return self.advance(session_id, center, pos + 1, result, stepped);
                }
                self.task = Task::Prefetch {
                    session_id: session_id.clone(),
                    center,
                    pos,
                    result,
                    stepped,
                };
                WorkerAction::Decode { session_id, frame_index: c, frame_id }
            },
        }
    }

    /// Serves a request for frame `frame_index` of session `session_id`.
    fn begin_frame(&mut self, session_id: String, frame_index: u32, stepped: bool) -> (step:
        WorkerStep)
        requires
            old(self)@.wf(),
            old(self)@.task is Idle,
        ensures
            final(self)@.wf(),
            (final(self)@, step@) == begin_frame(old(self)@, session_id@, frame_index, stepped),
    {
        let k = match self.find_session(session_id.as_str()) {
            Some(k) => k,
            None => {
                return request_error_step(session_not_found(session_id.as_str()));
            },
        };
        assert(self@.sessions[k as int] == self.sessions@[k as int]@);
        if frame_index as usize >= self.sessions[k].summary.frames.len() {
            let total = self.sessions[k].summary.total_frames;
            return request_error_step(frame_out_of_range(frame_index, total));
        }
        let meta = self.sessions[k].summary.frames[frame_index as usize];
        let frame_id = make_frame_id(session_id.as_str(), &meta);
        let ghost s0 = self@;
        let mut session = self.sessions.remove(k);
        proof {
            assert(session@ == s0.sessions[k as int]);
        }
        let found = session.frame_cache.get(frame_id.as_str());
        match found {
            Some(b) => {
                session.current_frame_index = Some(frame_index);
                self.sessions.insert(k, session);
                proof {
                    assert(self@.sessions =~= s0.sessions.update(k as int, session@));
                }
                let ts = frame_timestamp_us(&meta);
                let handle = FrameHandle {
                    frame_id,
                    frame_index: meta.frame_index,
                    width: b.width,
                    height: b.height,
                    timestamp_us: ts,
                    is_precise: ts.is_some(),
                    rgba_path: b.rgba_path,
                };
                let action = self.advance(session_id, frame_index, 0, handle, stepped);
                plain_step(action)
            },
            None => {
                self.sessions.insert(k, session);
                proof {
                    assert(self@.sessions =~= s0.sessions);
                }
                self.task = Task::Target {
                    session_id: session_id.clone(),
                    frame_index,
                    frame_id: frame_id.clone(),
                    stepped,
                };
                plain_step(WorkerAction::Decode { session_id, frame_index, frame_id })
            },
        }
    }
}


fn expired(frame_id: &str) -> (e: WorkerError)
    ensures
        e@ == (ErrorView { code: WorkerErrorCode::FrameExpired, message: expired_text(frame_id@) }),
{
    let mut s = String::from_str("frame buffer expired for ");
    push_str(&mut s, frame_id);
    WorkerError::new(WorkerErrorCode::FrameExpired, s)
}

fn no_current_frame(session_id: &str) -> (e: WorkerError)
    ensures
        e@ == (ErrorView {
            code: WorkerErrorCode::NoCurrentFrame,
            message: no_current_frame_text(session_id@),
        }),
{
    let mut s = String::from_str("no current frame for session ");
    push_str(&mut s, session_id);
    WorkerError::new(WorkerErrorCode::NoCurrentFrame, s)
}

impl WorkerServer {
    /// Serves a request for the buffer of `frame_id` in session `session_id`.
    fn read_buffer(&mut self, session_id: String, frame_id: String) -> (step: WorkerStep)
        requires
            old(self)@.wf(),
            old(self)@.task is Idle,
        ensures
            final(self)@.wf(),
            (final(self)@, step@) == read_buffer(old(self)@, session_id@, frame_id@),
    {
        let k = match self.find_session(session_id.as_str()) {
            Some(k) => k,
            None => {
                return request_error_step(session_not_found(session_id.as_str()));
            },
        };
        assert(self@.sessions[k as int] == self.sessions@[k as int]@);
        match validate_frame_id(session_id.as_str(), &self.sessions[k].summary, frame_id.as_str()) {
            Ok(()) => {},
            Err(error) => {
                return request_error_step(error);
            },
        }
        let ghost s0 = self@;
        let mut session = self.sessions.remove(k);
        let found = session.frame_cache.get(frame_id.as_str());
        self.sessions.insert(k, session);
        proof {
            assert(self@.sessions =~= s0.sessions.update(k as int, session@));
        }
        match found {
            Some(buffer) => reply_step(WorkerResponse::ReadFrameBufferResult { buffer }),
            None => request_error_step(expired(frame_id.as_str())),
        }
    }

    /// Starts serving `request`. What the host must do next is the step's
    /// action; a reply ends the request.
    pub fn handle_request(&mut self, request: WorkerRequest) -> (step: WorkerStep)
        requires
            old(self)@.wf(),
            old(self)@.task is Idle,
        ensures
            final(self)@.wf(),
            (final(self)@, step@) == on_request(old(self)@, request@),
    {
        match request {
            WorkerRequest::Ping => {
                self.task = Task::Versions;
                plain_step(WorkerAction::ReadVersions)
            },
            WorkerRequest::Probe { path } => {
                self.task = Task::Probing;
                plain_step(WorkerAction::Probe { path })
            },
            WorkerRequest::OpenVideo { path } => {
                self.task = Task::Opening;
                plain_step(WorkerAction::Open { path })
            },
            WorkerRequest::GetFrame { session_id, frame_index } => self.begin_frame(
                session_id,
                frame_index,
                false,
            ),
            WorkerRequest::ReadFrameBuffer { session_id, frame_id } => self.read_buffer(
                session_id,
                frame_id,
            ),
            WorkerRequest::StepFrame { session_id, delta } => {
                let k = match self.find_session(session_id.as_str()) {
                    Some(k) => k,
                    None => {
                        return request_error_step(session_not_found(session_id.as_str()));
                    },
                };
                assert(self@.sessions[k as int] == self.sessions@[k as int]@);
                let current = match self.sessions[k].current_frame_index {
                    Some(current) => current,
                    None => {
                        return request_error_step(no_current_frame(session_id.as_str()));
                    },
                };
                let total = self.sessions[k].summary.total_frames;
                let target = clamp_frame_index(current, delta, total);
                self.begin_frame(session_id, target, true)
            },
            WorkerRequest::CloseVideo { session_id } => {
                match self.find_session(session_id.as_str()) {
                    None => reply_step(WorkerResponse::CloseVideoResult { closed: false }),
                    Some(k) => {
                        let ghost s0 = self@;
                        let session = self.sessions.remove(k);
                        proof {
                            assert(self@.sessions =~= s0.sessions.remove(k as int));
                            assert(session@ == s0.sessions[k as int]);
                        }
                        let discard_paths = paths_of(session.frame_cache.buffers());
                        let released_sessions = one_string(session_id);
                        let step = WorkerStep {
                            action: WorkerAction::Reply(
                                WorkerResponse::CloseVideoResult { closed: true },
                            ),
                            discard_paths,
                            released_sessions,
                            log_lines: Vec::new(),
                        };
                        assert(step@.log_lines =~= Seq::<Seq<char>>::empty());
                        step
                    },
                }
            },
            WorkerRequest::Shutdown => {
                let ghost ss = self@.sessions;
                let mut discard_paths: Vec<String> = Vec::new();
                let mut released_sessions: Vec<String> = Vec::new();
                let mut i: usize = 0;
                while i < self.sessions.len()
                    invariant
                        0 <= i <= self.sessions.len(),
                        ss == self@.sessions,
                        released_sessions@.len() == i,
                        discard_paths@.map_values(|p: String| p@) == all_buffer_paths(
                            ss.take(i as int),
                        ),
                        released_sessions@.map_values(|p: String| p@) == session_ids(
                            ss.take(i as int),
                        ),
                    decreases self.sessions.len() - i,
                {
                    assert(ss[i as int] == self.sessions@[i as int]@);
                    let mut more = paths_of(self.sessions[i].frame_cache.buffers());
                    let ghost before = discard_paths@;
                    discard_paths.append(&mut more);
                    let id = self.sessions[i].summary.session_id.clone();
                    let ghost before_ids = released_sessions@;
                    released_sessions.push(id);
                    i = i + 1;
                    proof {
                        assert(ss.take(i as int).drop_last() =~= ss.take(i - 1));
                        assert(ss.take(i as int).last() == ss[i - 1]);
                        assert(discard_paths@.map_values(|p: String| p@) =~= before.map_values(
                            |p: String| p@,
                        ) + buffer_paths(ss[i - 1].cache.entries));
                        let lhs = released_sessions@.map_values(|p: String| p@);
                        let rhs = session_ids(ss.take(i as int));
                        let prev = before_ids.map_values(|p: String| p@);
                        assert(lhs.len() == rhs.len());
                        assert forall|j: int| 0 <= j < lhs.len() implies lhs[j] == rhs[j] by {
                            if j < i - 1 {
                                assert(released_sessions@[j] == before_ids[j]);
                                assert(prev[j] == before_ids[j]@);
                                assert(prev[j] == session_ids(ss.take(i - 1))[j]);
                            }
                        }
                        assert(lhs =~= rhs);
                    }
                }
                assert(ss.take(ss.len() as int) =~= ss);
                self.sessions = Vec::new();
                assert(self@.sessions =~= Seq::<SessionView>::empty());
                let step = WorkerStep {
                    action: WorkerAction::Reply(WorkerResponse::Ack { accepted: true }),
                    discard_paths,
                    released_sessions,
                    log_lines: Vec::new(),
                };
                assert(step@.log_lines =~= Seq::<Seq<char>>::empty());
                step
            },
        }
    }
}


impl WorkerServer {
    /// Stores the decoded frame `frame_id` of session `k` in its cache.
    fn store_frame(&mut self, k: usize, frame_id: String, f: &StoredFrame) -> (discard: Vec<
        String,
    >)
        requires
            old(self)@.sessions_wf(),
            k < old(self)@.sessions.len(),
        ensures
            final(self)@.sessions_wf(),
            (final(self)@.sessions[k as int], discard@.map_values(|p: String| p@)) == store_frame(
                old(self)@,
                k as int,
                frame_id@,
                f@,
            ),
            final(self)@ == with_session(old(self)@, k as int, final(self)@.sessions[k as int]),
    {
        let ghost s0 = self@;
        let mut session = self.sessions.remove(k);
        proof {
            assert(session@ == s0.sessions[k as int]);
        }
        let buffer = FrameBuffer {
            frame_id,
            width: f.width,
            height: f.height,
            rgba_path: f.rgba_path.clone(),
        };
        let evicted = session.frame_cache.insert(buffer);
        self.sessions.insert(k, session);
        proof {
            assert(self@.sessions =~= s0.sessions.update(k as int, session@));
            assert forall|i: int| 0 <= i < self@.sessions.len() implies {
                &&& (#[trigger] self@.sessions[i]).cache.wf()
                &&& self@.sessions[i].cache.capacity == self@.capacity
            } by {
                if i != k {
                    assert(self@.sessions[i] == s0.sessions[i]);
                }
            }
        }
        paths_of(&evicted)
    }

    /// Goes on serving the request with the outcome `event` of the action
    /// that the last step asked for.
    pub fn resume(&mut self, event: WorkerEvent) -> (step: WorkerStep)
        requires
            old(self)@.wf(),
            expects(old(self)@.task, event@),
        ensures
            final(self)@.wf(),
            (final(self)@, step@) == on_event(old(self)@, event@),
    {
        let ghost s0 = self@;
        let ghost ev = event@;
        let mut task = Task::Idle;
        std::mem::swap(&mut task, &mut self.task);
        assert(self@ == with_task(s0, TaskView::Idle));
        match (task, event) {
            (Task::Versions, WorkerEvent::Versions(versions)) => reply_step(
                WorkerResponse::Hello { hello: hello(true, versions) },
            ),
            (Task::Probing, WorkerEvent::Probed(outcome)) => match outcome {
                Ok(probe) => reply_step(WorkerResponse::ProbeResult { probe }),
                Err(message) => reply_step(WorkerResponse::Error { message }),
            },
            (Task::Opening, WorkerEvent::Opened(outcome)) => match outcome {
                Err(message) => reply_step(WorkerResponse::Error { message }),
                Ok(summary) => {
                    let response = WorkerResponse::OpenVideoResult {
                        session: copy_summary(&summary),
                    };
                    let found = self.find_session(summary.session_id.as_str());
                    let fresh = VideoSession {
                        summary,
                        current_frame_index: None,
                        frame_cache: FrameBufferCache::new(self.frame_cache_capacity),
                    };
                    match found {
                        None => {
                            let ghost s1 = self@;
                            self.sessions.push(fresh);
                            proof {
                                assert(self@.sessions =~= s1.sessions.push(fresh@));
                                assert forall|j: int| 0 <= j < s1.sessions.len() implies s1.sessions[j].summary.session_id
                                    != fresh@.summary.session_id by {
                                    if s1.sessions[j].summary.session_id == fresh@.summary.session_id {
                                        lemma_session_some_first(s1.sessions, fresh@.summary.session_id, j);
                                    }
                                }
                                assert forall|i: int| 0 <= i < self@.sessions.len() implies {
                                    &&& (#[trigger] self@.sessions[i]).cache.wf()
                                    &&& self@.sessions[i].cache.capacity == self@.capacity
                                } by {
                                    if i < s1.sessions.len() {
                                        assert(self@.sessions[i] == s1.sessions[i]);
                                    }
                                }
                            }
                            reply_step(response)
                        },
                        Some(k) => {
                            let released_id = fresh.summary.session_id.clone();
                            let previous = self.replace_session(k, fresh);
                            proof {
                                let s1 = self@;
                                assert(s0.sessions[k as int].summary.session_id == s1.sessions[k as int].summary.session_id);
                                assert forall|i: int| 0 <= i < s1.sessions.len() implies {
                                    &&& (#[trigger] s1.sessions[i]).cache.wf()
                                    &&& s1.sessions[i].cache.capacity == s1.capacity
                                } by {
                                    if i != k {
                                        assert(s1.sessions[i] == s0.sessions[i]);
                                    }
                                }
                            }
                            let discard_paths = paths_of(previous.frame_cache.buffers());
                            let step = WorkerStep {
                                action: WorkerAction::Reply(response),
                                discard_paths,
                                released_sessions: one_string(released_id),
                                log_lines: Vec::new(),
                            };
                            assert(step@.log_lines =~= Seq::<Seq<char>>::empty());
                            step
                        },
                    }
                },
            },
            (Task::Target { session_id, frame_index, frame_id, stepped }, WorkerEvent::Stored(
                outcome,
            )) => match outcome {
                Err(failure) => {
                    let message = match failure {
                        StoreFailure::Decode(m) => m,
                        StoreFailure::Write(m) => m,
                    };
                    request_error_step(WorkerError::new(WorkerErrorCode::DecodeFailed, message))
                },
                Ok(f) => {
                    let k = self.find_session(session_id.as_str()).unwrap();
                    assert(self@.sessions[k as int] == self.sessions@[k as int]@);
                    let meta = self.sessions[k].summary.frames[frame_index as usize];
                    let discard_paths = self.store_frame(k, frame_id.clone(), &f);
                    let ghost s1 = self@;
                    assert(s1.sessions.len() == self.sessions@.len());
                    assert(s1.sessions[k as int] == self.sessions@[k as int]@);
                    let mut session = self.sessions.remove(k);
                    proof {
                        assert(session@ == s1.sessions[k as int]);
                    }
                    session.current_frame_index = Some(frame_index);
                    self.sessions.insert(k, session);
                    proof {
                        assert(self@.sessions =~= s1.sessions.update(k as int, session@));
                        assert forall|i: int| 0 <= i < self@.sessions.len() implies {
                            &&& (#[trigger] self@.sessions[i]).cache.wf()
                            &&& self@.sessions[i].cache.capacity == self@.capacity
                        } by {
                            if i != k {
                                assert(self@.sessions[i] == s1.sessions[i]);
                            }
                        }
                    }
                    let ts = frame_timestamp_us(&meta);
                    let handle = FrameHandle {
                        frame_id,
                        frame_index: meta.frame_index,
                        width: f.width,
                        height: f.height,
                        timestamp_us: ts,
                        is_precise: ts.is_some(),
                        rgba_path: f.rgba_path,
                    };
                    proof {
                        let kk = session_pos(s0.sessions, session_id@)->0;
                        assert(kk == k as int);
                        let (stored, disc) = store_frame(s0, kk, frame_id@, f@);
                        assert(stored == s1.sessions[k as int]);
                        assert(disc == discard_paths@.map_values(|p: String| p@));
                        let s2 = with_session(
                            with_task(s0, TaskView::Idle),
                            kk,
                            SessionView { current_frame_index: Some(frame_index), ..stored },
                        );
                        assert(session@ == SessionView { current_frame_index: Some(frame_index), ..stored });
                        assert(self@.sessions =~= s2.sessions);
                        assert(self@ == s2);
                        assert(meta == stored.summary.frames[frame_index as int]);
                        assert(handle@ == handle_of(frame_id@, meta, f.width, f.height, f.rgba_path@));
                    }
                    let action = self.advance(session_id, frame_index, 0, handle, stepped);
                    let step = WorkerStep {
                        action,
                        discard_paths,
                        released_sessions: Vec::new(),
                        log_lines: Vec::new(),
                    };
                    assert(step@.released_sessions =~= Seq::<Seq<char>>::empty());
                    assert(step@.log_lines =~= Seq::<Seq<char>>::empty());
                    assert((self@, step@) == on_event(s0, ev));
                    step
                },
            },
            (Task::Prefetch { session_id, center, pos, result, stepped }, WorkerEvent::Stored(
                outcome,
            )) => match outcome {
                Err(failure) => {
                    let k = self.find_session(session_id.as_str()).unwrap();
                    assert(self@.sessions[k as int] == self.sessions@[k as int]@);
                    let total = self.sessions[k].summary.total_frames;
                    let candidates = prefetch_candidates_exec(center, total);
                    let c = candidates[pos];
                    let line = prefetch_failure_line(&failure, c, session_id.as_str());
                    let action = self.advance(session_id, center, pos + 1, result, stepped);
                    let mut step = plain_step(action);
                    step.log_lines = one_string(line);
                    assert((self@, step@) == on_event(s0, ev));
                    step
                },
                Ok(f) => {
                    let k = self.find_session(session_id.as_str()).unwrap();
                    assert(self@.sessions[k as int] == self.sessions@[k as int]@);
                    let total = self.sessions[k].summary.total_frames;
                    let candidates = prefetch_candidates_exec(center, total);
                    let c = candidates[pos];
                    let frame_id = make_frame_id(
                        session_id.as_str(),
                        &self.sessions[k].summary.frames[c as usize],
                    );
                    let discard_paths = self.store_frame(k, frame_id, &f);
                    let action = self.advance(session_id, center, pos + 1, result, stepped);
                    let step = WorkerStep {
                        action,
                        discard_paths,
                        released_sessions: Vec::new(),
                        log_lines: Vec::new(),
                    };
                    assert(step@.released_sessions =~= Seq::<Seq<char>>::empty());
                    assert(step@.log_lines =~= Seq::<Seq<char>>::empty());
                    assert((self@, step@) == on_event(s0, ev));
                    step
                },
            },
            (_, _) => {
                proof {
                    assert(false);
                }
                reply_step(WorkerResponse::Error { message: String::new() })
            },
        }
    }
}

impl Default for WorkerServer {
    /// A worker with no sessions and the default cache capacity.
    fn default() -> (w: Self)
        ensures
            w@.wf(),
            w@.sessions == Seq::<SessionView>::empty(),
            w@.capacity == DEFAULT_FRAME_CACHE_CAPACITY as nat,
            w@.task == TaskView::Idle,
    {
        Self::with_cache_capacity(DEFAULT_FRAME_CACHE_CAPACITY)
    }
}

/// When some session has id `id`, there is a first one.
pub proof fn lemma_session_some_first(sessions: Seq<SessionView>, id: Seq<char>, k: int)
    requires
        0 <= k < sessions.len(),
        sessions[k].summary.session_id == id,
    ensures
        session_pos(sessions, id) is Some,
    decreases k,
{
    if exists|j: int| 0 <= j < k && sessions[j].summary.session_id == id {
        let j = choose|j: int| 0 <= j < k && sessions[j].summary.session_id == id;
        lemma_session_some_first(sessions, id, j);
    } else {
        assert(is_session_pos(sessions, id, k));
    }
}

/// The first position of a session is unique.
pub proof fn lemma_session_pos_unique(sessions: Seq<SessionView>, id: Seq<char>, k: int)
    requires
        is_session_pos(sessions, id, k),
    ensures
        session_pos(sessions, id) == Some(k),
{
    let k2 = choose|k: int| is_session_pos(sessions, id, k);
    assert(is_session_pos(sessions, id, k2));
    if k2 < k {
        assert(sessions[k2].summary.session_id != id);
    }
    if k < k2 {
        assert(sessions[k].summary.session_id != id);
    }
}


// ---------------------------------------------------------------------------
// Laws
// ---------------------------------------------------------------------------

/// When no session has id `id`, it is not open.
proof fn lemma_no_session(sessions: Seq<SessionView>, id: Seq<char>)
    requires
        forall|j: int| 0 <= j < sessions.len() ==> sessions[j].summary.session_id != id,
    ensures
        session_pos(sessions, id) is None,
{
    if exists|k: int| is_session_pos(sessions, id, k) {
        let k = choose|k: int| is_session_pos(sessions, id, k);
        assert(sessions[k].summary.session_id == id);
    }
}

/// Going through the prefetch candidates changes no session.
proof fn lemma_advance_keeps_sessions(
    s: ServerView,
    session_id: Seq<char>,
    center: u32,
    pos: nat,
    result: HandleView,
    stepped: bool,
)
    ensures
        advance(s, session_id, center, pos, result, stepped).0.sessions == s.sessions,
        advance(s, session_id, center, pos, result, stepped).0.capacity == s.capacity,
    decreases 3 - pos,
{
    match session_pos(s.sessions, session_id) {
        None => {},
        Some(k) => {
            let session = s.sessions[k];
            let candidates = prefetch_candidates(center, session.summary.total_frames);
            if pos < candidates.len() && pos < 3 {
                lemma_advance_keeps_sessions(s, session_id, center, pos + 1, result, stepped);
            }
        },
    }
}

/// Law: once a session is closed, it is gone: the close is answered with
/// `closed: true` and releases it, and afterwards a frame request or a buffer
/// request for it fails with `SessionNotFound`, and closing it again answers
/// `closed: false`.
pub proof fn law_close_releases_session(
    s: ServerView,
    session_id: Seq<char>,
    frame_index: u32,
    stepped: bool,
    frame_id: Seq<char>,
)
    requires
        s.wf(),
        session_pos(s.sessions, session_id) is Some,
    ensures
        ({
            let (after, step) = on_request(s, RequestView::CloseVideo { session_id });
            &&& step.action == ActionView::Reply(ResponseView::CloseVideoResult { closed: true })
            &&& step.released_sessions == seq![session_id]
            &&& session_pos(after.sessions, session_id) is None
            &&& begin_frame(after, session_id, frame_index, stepped).1 == reply(
                request_error(WorkerErrorCode::SessionNotFound, session_not_found_text(session_id)),
            )
            &&& read_buffer(after, session_id, frame_id).1 == reply(
                request_error(WorkerErrorCode::SessionNotFound, session_not_found_text(session_id)),
            )
            &&& on_request(after, RequestView::CloseVideo { session_id }).1 == reply(
                ResponseView::CloseVideoResult { closed: false },
            )
        }),
{
    let k = session_pos(s.sessions, session_id)->0;
    assert(is_session_pos(s.sessions, session_id, k)) by {
        let k2 = choose|k: int| is_session_pos(s.sessions, session_id, k);
        assert(is_session_pos(s.sessions, session_id, k2));
    }
    let rest = s.sessions.remove(k);
    assert forall|j: int| 0 <= j < rest.len() implies rest[j].summary.session_id != session_id by {
        if j < k {
            assert(rest[j] == s.sessions[j]);
        } else {
            assert(rest[j] == s.sessions[j + 1]);
        }
    }
    lemma_no_session(rest, session_id);
}

/// Law: a shutdown forgets every session and releases them all, and is
/// acknowledged; afterwards no session is open.
pub proof fn law_shutdown_forgets_all(s: ServerView, session_id: Seq<char>)
    ensures
        ({
            let (after, step) = on_request(s, RequestView::Shutdown);
            &&& step.action == ActionView::Reply(ResponseView::Ack { accepted: true })
            &&& step.released_sessions == session_ids(s.sessions)
            &&& after.sessions.len() == 0
            &&& session_pos(after.sessions, session_id) is None
        }),
{
    let after = on_request(s, RequestView::Shutdown).0;
    lemma_no_session(after.sessions, session_id);
}

/// Law: the frame that the worker has just decoded and stored for a frame
/// request is read back, as stored, by the id it was stored under — when the
/// session id holds no `:` and the frame index numbers each frame by its
/// position.
pub proof fn law_stored_frame_reads_back(s: ServerView, f: StoredView)
    requires
        s.wf(),
        s.task is Target,
        lacks_char(s.task->Target_session_id, ':'),
        ({
            let k = session_pos(s.sessions, s.task->Target_session_id)->0;
            let i = s.task->Target_frame_index;
            s.sessions[k].summary.frames[i as int].frame_index == i
        }),
    ensures
        ({
            let session_id = s.task->Target_session_id;
            let frame_id = s.task->Target_frame_id;
            let after = on_event(s, EventView::Stored(Ok(f))).0;
            read_buffer(after, session_id, frame_id).1 == reply(
                ResponseView::ReadFrameBufferResult {
                    buffer: BufferView {
                        frame_id,
                        width: f.width,
                        height: f.height,
                        rgba_path: f.rgba_path,
                    },
                },
            )
        }),
{
    let session_id = s.task->Target_session_id;
    let frame_index = s.task->Target_frame_index;
    let frame_id = s.task->Target_frame_id;
    let stepped = s.task->Target_stepped;
    let k = session_pos(s.sessions, session_id)->0;
    assert(is_session_pos(s.sessions, session_id, k)) by {
        let k2 = choose|k: int| is_session_pos(s.sessions, session_id, k);
        assert(is_session_pos(s.sessions, session_id, k2));
    }
    let session = s.sessions[k];
    let buffer = BufferView { frame_id, width: f.width, height: f.height, rgba_path: f.rgba_path };
    let (stored, discard) = store_frame(s, k, frame_id, f);
    let meta = stored.summary.frames[frame_index as int];
    let s2 = with_session(
        with_task(s, TaskView::Idle),
        k,
        SessionView { current_frame_index: Some(frame_index), ..stored },
    );
    let handle = handle_of(frame_id, meta, f.width, f.height, f.rgba_path);
    lemma_advance_keeps_sessions(s2, session_id, frame_index, 0, handle, stepped);
    let after = on_event(s, EventView::Stored(Ok(f))).0;
    assert(after.sessions == s2.sessions);
    assert(is_session_pos(after.sessions, session_id, k)) by {
        assert forall|j: int| 0 <= j < k implies after.sessions[j].summary.session_id
            != session_id by {
            assert(after.sessions[j] == s.sessions[j]);
        }
    }
    lemma_session_pos_unique(after.sessions, session_id, k);
    crate::frame::lemma_frame_id_round_trip(session_id, session.summary.frames, frame_index as int);
    assert(s.sessions[k].cache.wf());
    crate::cache::law_insert_then_lookup(session.cache.entries, session.cache.capacity, buffer);
}

/// A frame request is answered with the handle `result`: in this step, or,
/// when a prefetch decode was begun, once the prefetching is done (the task
/// keeps the handle to answer with).
pub open spec fn answers_with(after: ServerView, step: StepView, result: HandleView, stepped: bool) -> bool {
    ||| {
        &&& step.action == ActionView::Reply(frame_response(result, stepped))
        &&& after.task is Idle
    }
    ||| {
        &&& step.action is Decode
        &&& after.task matches TaskView::Prefetch { result: r, stepped: st, .. }
        &&& r == result
        &&& st == stepped
    }
}

/// Prefetching ends with the reply of the handle it was given, or begins a
/// decode and keeps that handle.
proof fn lemma_advance_answers(
    s: ServerView,
    session_id: Seq<char>,
    center: u32,
    pos: nat,
    result: HandleView,
    stepped: bool,
    discard: Seq<Seq<char>>,
)
    ensures
        ({
            let (after, step) = advance_step(s, session_id, center, pos, result, stepped, discard);
            answers_with(after, step, result, stepped)
        }),
    decreases 3 - pos,
{
    match session_pos(s.sessions, session_id) {
        None => {},
        Some(k) => {
            let session = s.sessions[k];
            let candidates = prefetch_candidates(center, session.summary.total_frames);
            if pos < candidates.len() && pos < 3 {
                lemma_advance_answers(s, session_id, center, pos + 1, result, stepped, discard);
            }
        },
    }
}

/// Law: a request for a frame that the session indexes is served for exactly
/// that frame: either the worker asks to decode it under its id, or it comes
/// from the cache and the answer is the handle of that frame.
pub proof fn law_frame_request_targets_frame(s: ServerView, session_id: Seq<char>, frame_index: u32)
    requires
        s.wf(),
        session_pos(s.sessions, session_id) is Some,
        frame_index < s.sessions[session_pos(s.sessions, session_id)->0].summary.frames.len(),
    ensures
        ({
            let k = session_pos(s.sessions, session_id)->0;
            let meta = s.sessions[k].summary.frames[frame_index as int];
            let frame_id = frame_id_text(session_id, meta);
            let (after, step) = on_request(s, RequestView::GetFrame { session_id, frame_index });
            ||| {
                &&& step.action == ActionView::Decode { session_id, frame_index, frame_id }
                &&& after.task == TaskView::Target { session_id, frame_index, frame_id, stepped: false }
            }
            ||| exists|width: u32, height: u32, rgba_path: Seq<char>|
                answers_with(
                    after,
                    step,
                    #[trigger] handle_of(frame_id, meta, width, height, rgba_path),
                    false,
                )
        }),
{
    let k = session_pos(s.sessions, session_id)->0;
    let session = s.sessions[k];
    let meta = session.summary.frames[frame_index as int];
    let frame_id = frame_id_text(session_id, meta);
    let (entries, found) = cache_lookup(session.cache.entries, frame_id);
    if let Some(b) = found {
        let s2 = with_session(
            s,
            k,
            SessionView {
                current_frame_index: Some(frame_index),
                cache: CacheView { entries, ..session.cache },
                ..session
            },
        );
        let handle = handle_of(frame_id, meta, b.width, b.height, b.rgba_path);
        lemma_advance_answers(s2, session_id, frame_index, 0, handle, false, Seq::empty());
    }
}

/// Law: once the requested frame is decoded and stored, it becomes the
/// session's current frame and the request is answered with its handle,
/// made of the stored buffer.
pub proof fn law_stored_frame_answers(s: ServerView, f: StoredView)
    requires
        s.wf(),
        s.task is Target,
    ensures
        ({
            let session_id = s.task->Target_session_id;
            let frame_index = s.task->Target_frame_index;
            let frame_id = s.task->Target_frame_id;
            let stepped = s.task->Target_stepped;
            let k = session_pos(s.sessions, session_id)->0;
            let meta = s.sessions[k].summary.frames[frame_index as int];
            let (after, step) = on_event(s, EventView::Stored(Ok(f)));
            &&& answers_with(
                after,
                step,
                handle_of(frame_id, meta, f.width, f.height, f.rgba_path),
                stepped,
            )
            &&& after.sessions[k].current_frame_index == Some(frame_index)
        }),
{
    let session_id = s.task->Target_session_id;
    let frame_index = s.task->Target_frame_index;
    let frame_id = s.task->Target_frame_id;
    let stepped = s.task->Target_stepped;
    let k = session_pos(s.sessions, session_id)->0;
    let (stored, discard) = store_frame(s, k, frame_id, f);
    let meta = stored.summary.frames[frame_index as int];
    let s2 = with_session(
        with_task(s, TaskView::Idle),
        k,
        SessionView { current_frame_index: Some(frame_index), ..stored },
    );
    let handle = handle_of(frame_id, meta, f.width, f.height, f.rgba_path);
    lemma_advance_keeps_sessions(s2, session_id, frame_index, 0, handle, stepped);
    lemma_advance_answers(s2, session_id, frame_index, 0, handle, stepped, discard);
}

/// Law: whatever comes of a prefetch decode, the request is still answered
/// with the handle it was to be answered with, and no session's current
/// frame moves; a failed prefetch is logged, a stored one is not.
pub proof fn law_prefetch_keeps_answer(s: ServerView, r: Result<StoredView, FailureView>, j: int)
    requires
        s.wf(),
        s.task is Prefetch,
        0 <= j < s.sessions.len(),
    ensures
        ({
            let (after, step) = on_event(s, EventView::Stored(r));
            &&& answers_with(after, step, s.task->Prefetch_result, s.task->Prefetch_stepped)
            &&& after.sessions.len() == s.sessions.len()
            &&& after.sessions[j].current_frame_index == s.sessions[j].current_frame_index
            &&& r matches Err(e) ==> step.log_lines == seq![
                prefetch_failure_text(
                    e,
                    prefetch_candidates(
                        s.task->Prefetch_center,
                        s.sessions[session_pos(
                            s.sessions,
                            s.task->Prefetch_session_id,
                        )->0].summary.total_frames,
                    )[s.task->Prefetch_pos as int],
                    s.task->Prefetch_session_id,
                ),
            ]
            &&& r is Ok ==> step.log_lines == Seq::<Seq<char>>::empty()
        }),
{
    let session_id = s.task->Prefetch_session_id;
    let center = s.task->Prefetch_center;
    let pos = s.task->Prefetch_pos;
    let result = s.task->Prefetch_result;
    let stepped = s.task->Prefetch_stepped;
    match r {
        Err(_) => {
            let s1 = with_task(s, TaskView::Idle);
            lemma_advance_keeps_sessions(s1, session_id, center, pos + 1, result, stepped);
            lemma_advance_answers(s1, session_id, center, pos + 1, result, stepped, Seq::empty());
        },
        Ok(f) => {
            let k = session_pos(s.sessions, session_id)->0;
            let session = s.sessions[k];
            let c = prefetch_candidates(center, session.summary.total_frames)[pos as int];
            let frame_id = frame_id_text(session_id, session.summary.frames[c as int]);
            let (session2, discard) = store_frame(s, k, frame_id, f);
            let s1 = with_session(with_task(s, TaskView::Idle), k, session2);
            lemma_advance_keeps_sessions(s1, session_id, center, pos + 1, result, stepped);
            lemma_advance_answers(s1, session_id, center, pos + 1, result, stepped, discard);
        },
    }
}

/// Law: a step request from a frame moves to the clamped frame and is served
/// as a request for that frame; when the session indexes any frame it never
/// lands outside the index, so it is never answered `FrameOutOfRange`.
pub proof fn law_step_stays_in_index(s: ServerView, session_id: Seq<char>, delta: i32)
    requires
        s.wf(),
        session_pos(s.sessions, session_id) is Some,
        s.sessions[session_pos(s.sessions, session_id)->0].current_frame_index is Some,
        s.sessions[session_pos(s.sessions, session_id)->0].summary.frames.len() > 0,
    ensures
        ({
            let k = session_pos(s.sessions, session_id)->0;
            let session = s.sessions[k];
            let current = session.current_frame_index->0;
            let target = clamped_index(current, delta, session.summary.total_frames);
            let (after, step) = on_request(s, RequestView::StepFrame { session_id, delta });
            &&& 0 <= target < session.summary.frames.len()
            &&& (after, step) == begin_frame(s, session_id, target as u32, true)
            &&& !(step.action matches ActionView::Reply(ResponseView::RequestError { error })
                && error.code == WorkerErrorCode::FrameOutOfRange)
        }),
{
    let k = session_pos(s.sessions, session_id)->0;
    assert(is_session_pos(s.sessions, session_id, k)) by {
        let k2 = choose|k: int| is_session_pos(s.sessions, session_id, k);
        assert(is_session_pos(s.sessions, session_id, k2));
    }
    let session = s.sessions[k];
    let current = session.current_frame_index->0;
    assert(session.summary.total_frames == session.summary.frames.len());
    crate::frame::lemma_step_stays_in_range(current, delta, session.summary.total_frames);
    let target = clamped_index(current, delta, session.summary.total_frames);
    let meta = session.summary.frames[target];
    let frame_id = frame_id_text(session_id, meta);
    let (entries, found) = cache_lookup(session.cache.entries, frame_id);
    if let Some(b) = found {
        let s2 = with_session(
            s,
            k,
            SessionView {
                current_frame_index: Some(target as u32),
                cache: CacheView { entries, ..session.cache },
                ..session
            },
        );
        let handle = handle_of(frame_id, meta, b.width, b.height, b.rgba_path);
        lemma_advance_answers(s2, session_id, target as u32, 0, handle, true, Seq::empty());
    }
}

/// The replies that a request of this kind can end in.
pub open spec fn reply_fits(request: RequestView, response: ResponseView) -> bool {
    match request {
        RequestView::Ping => response matches ResponseView::Hello { hello } && hello == hello_view(
            true,
            hello.linked_versions,
        ),
        RequestView::Probe { .. } => response is ProbeResult || response is Error,
        RequestView::OpenVideo { .. } => response is OpenVideoResult || response is Error,
        RequestView::GetFrame { .. } => response is GetFrameResult || response is RequestError,
        RequestView::ReadFrameBuffer { .. } => response is ReadFrameBufferResult
            || response is RequestError,
        RequestView::StepFrame { .. } => response is StepFrameResult || response is RequestError,
        RequestView::CloseVideo { .. } => response is CloseVideoResult,
        RequestView::Shutdown => response == ResponseView::Ack { accepted: true },
    }
}

/// The pending task is part of serving a request of this kind.
pub open spec fn task_serves(task: TaskView, request: RequestView) -> bool {
    match (task, request) {
        (TaskView::Versions, RequestView::Ping) => true,
        (TaskView::Probing, RequestView::Probe { .. }) => true,
        (TaskView::Opening, RequestView::OpenVideo { .. }) => true,
        (TaskView::Target { stepped, .. }, RequestView::GetFrame { .. }) => !stepped,
        (TaskView::Prefetch { stepped, .. }, RequestView::GetFrame { .. }) => !stepped,
        (TaskView::Target { stepped, .. }, RequestView::StepFrame { .. }) => stepped,
        (TaskView::Prefetch { stepped, .. }, RequestView::StepFrame { .. }) => stepped,
        _ => false,
    }
}

/// A step in serving `request`: either a reply of a kind that fits it, after
/// which the server is idle, or work for the host with a task that goes on
/// serving it.
pub open spec fn step_serves(after: ServerView, step: StepView, request: RequestView) -> bool {
    match step.action {
        ActionView::Reply(response) => reply_fits(request, response) && after.task is Idle,
        _ => task_serves(after.task, request),
    }
}

proof fn lemma_frame_answer_serves(
    after: ServerView,
    step: StepView,
    result: HandleView,
    stepped: bool,
    request: RequestView,
)
    requires
        answers_with(after, step, result, stepped),
        request is GetFrame ==> !stepped,
        request is StepFrame ==> stepped,
        request is GetFrame || request is StepFrame,
    ensures
        step_serves(after, step, request),
{
}

/// Law: the first step of a request from an idle server serves it: a reply
/// that fits the request, or a task that goes on serving it.
pub proof fn law_request_step_serves(s: ServerView, request: RequestView)
    requires
        s.task is Idle,
    ensures
        ({
            let (after, step) = on_request(s, request);
            step_serves(after, step, request)
        }),
{
    match request {
        RequestView::GetFrame { session_id, frame_index } => {
            lemma_begin_frame_serves(s, session_id, frame_index, false, request);
        },
        RequestView::StepFrame { session_id, delta } => {
            if let Some(k) = session_pos(s.sessions, session_id) {
                if let Some(current) = s.sessions[k].current_frame_index {
                    let t = clamped_index(current, delta, s.sessions[k].summary.total_frames) as u32;
                    lemma_begin_frame_serves(s, session_id, t, true, request);
                }
            }
        },
        _ => {},
    }
}

proof fn lemma_begin_frame_serves(
    s: ServerView,
    session_id: Seq<char>,
    frame_index: u32,
    stepped: bool,
    request: RequestView,
)
    requires
        s.task is Idle,
        request is GetFrame ==> !stepped,
        request is StepFrame ==> stepped,
        request is GetFrame || request is StepFrame,
    ensures
        ({
            let (after, step) = begin_frame(s, session_id, frame_index, stepped);
            step_serves(after, step, request)
        }),
{
    if let Some(k) = session_pos(s.sessions, session_id) {
        let session = s.sessions[k];
        if frame_index < session.summary.frames.len() {
            let meta = session.summary.frames[frame_index as int];
            let frame_id = frame_id_text(session_id, meta);
            let (entries, found) = cache_lookup(session.cache.entries, frame_id);
            if let Some(b) = found {
                let s2 = with_session(
                    s,
                    k,
                    SessionView {
                        current_frame_index: Some(frame_index),
                        cache: CacheView { entries, ..session.cache },
                        ..session
                    },
                );
                let handle = handle_of(frame_id, meta, b.width, b.height, b.rgba_path);
                lemma_advance_answers(s2, session_id, frame_index, 0, handle, stepped, Seq::empty());
                let (after, step) = advance_step(
                    s2,
                    session_id,
                    frame_index,
                    0,
                    handle,
                    stepped,
                    Seq::empty(),
                );
                lemma_frame_answer_serves(after, step, handle, stepped, request);
            }
        }
    }
}

/// Law: each outcome that the server waits for keeps serving the request
/// in hand: it ends in a reply that fits the request, or in a task that goes
/// on serving it. With the law of the first step, every request, served
/// through its actions and their outcomes, ends in a reply of its kind.
pub proof fn law_event_step_serves(s: ServerView, event: EventView, request: RequestView)
    requires
        expects(s.task, event),
        task_serves(s.task, request),
    ensures
        ({
            let (after, step) = on_event(s, event);
            step_serves(after, step, request)
        }),
{
    match (s.task, event) {
        (
            TaskView::Target { session_id, frame_index, frame_id, stepped },
            EventView::Stored(Ok(f)),
        ) => {
            let k = session_pos(s.sessions, session_id)->0;
            let (session, discard) = store_frame(s, k, frame_id, f);
            let meta = session.summary.frames[frame_index as int];
            let s2 = with_session(
                with_task(s, TaskView::Idle),
                k,
                SessionView { current_frame_index: Some(frame_index), ..session },
            );
            let handle = handle_of(frame_id, meta, f.width, f.height, f.rgba_path);
            lemma_advance_answers(s2, session_id, frame_index, 0, handle, stepped, discard);
            let (after, step) = advance_step(s2, session_id, frame_index, 0, handle, stepped, discard);
            lemma_frame_answer_serves(after, step, handle, stepped, request);
        },
        (TaskView::Prefetch { session_id, center, pos, result, stepped }, EventView::Stored(r)) => {
            match r {
                Err(_) => {
                    let s1 = with_task(s, TaskView::Idle);
                    lemma_advance_answers(s1, session_id, center, pos + 1, result, stepped, Seq::empty());
                    let (after, step) = on_event(s, event);
                    let (a1, st1) = advance_step(s1, session_id, center, pos + 1, result, stepped, Seq::empty());
                    assert(after == a1 && step.action == st1.action);
                    lemma_frame_answer_serves(a1, st1, result, stepped, request);
                },
                Ok(f) => {
                    let k = session_pos(s.sessions, session_id)->0;
                    let session = s.sessions[k];
                    let c = prefetch_candidates(center, session.summary.total_frames)[pos as int];
                    let frame_id = frame_id_text(session_id, session.summary.frames[c as int]);
                    let (session2, discard) = store_frame(s, k, frame_id, f);
                    let s1 = with_session(with_task(s, TaskView::Idle), k, session2);
                    lemma_advance_answers(s1, session_id, center, pos + 1, result, stepped, discard);
                    let (after, step) = advance_step(s1, session_id, center, pos + 1, result, stepped, discard);
                    lemma_frame_answer_serves(after, step, result, stepped, request);
                },
            }
        },
        _ => {},
    }
}

/// Law: a frame request whose buffer is in the session's cache is answered
/// with a handle made of that very buffer: its size and file, the frame's
/// number and its best timestamp (the best-effort one, else the presentation
/// one); the frame becomes the session's current frame.
pub proof fn law_cached_frame_answers_with_its_buffer(
    s: ServerView,
    session_id: Seq<char>,
    frame_index: u32,
    stepped: bool,
    j: int,
)
    requires
        s.wf(),
        session_pos(s.sessions, session_id) is Some,
        frame_index < s.sessions[session_pos(s.sessions, session_id)->0].summary.frames.len(),
        0 <= j < s.sessions[session_pos(s.sessions, session_id)->0].cache.entries.len(),
        s.sessions[session_pos(s.sessions, session_id)->0].cache.entries[j].frame_id
            == frame_id_text(
            session_id,
            s.sessions[session_pos(s.sessions, session_id)->0].summary.frames[frame_index as int],
        ),
    ensures
        ({
            let k = session_pos(s.sessions, session_id)->0;
            let meta = s.sessions[k].summary.frames[frame_index as int];
            let b = s.sessions[k].cache.entries[j];
            let ts = match meta.best_effort_timestamp_us {
                Some(t) => Some(t),
                None => meta.timestamp_us,
            };
            let (after, step) = begin_frame(s, session_id, frame_index, stepped);
            &&& answers_with(
                after,
                step,
                HandleView {
                    frame_id: b.frame_id,
                    frame_index: meta.frame_index,
                    width: b.width,
                    height: b.height,
                    timestamp_us: ts,
                    is_precise: ts is Some,
                    rgba_path: b.rgba_path,
                },
                stepped,
            )
            &&& after.sessions[k].current_frame_index == Some(frame_index)
        }),
{
    let k = session_pos(s.sessions, session_id)->0;
    let session = s.sessions[k];
    assert(session.cache.wf());
    let meta = session.summary.frames[frame_index as int];
    let frame_id = frame_id_text(session_id, meta);
    crate::cache::law_lookup_refreshes_recency(session.cache.entries, frame_id, j);
    let (entries, found) = cache_lookup(session.cache.entries, frame_id);
    let b = found->0;
    let s2 = with_session(
        s,
        k,
        SessionView {
            current_frame_index: Some(frame_index),
            cache: CacheView { entries, ..session.cache },
            ..session
        },
    );
    let handle = handle_of(frame_id, meta, b.width, b.height, b.rgba_path);
    lemma_advance_answers(s2, session_id, frame_index, 0, handle, stepped, Seq::empty());
    lemma_advance_keeps_sessions(s2, session_id, frame_index, 0, handle, stepped);
}

/// Law: what the host found is answered unchanged. A probe is answered with
/// the probe found or the error met; an opened file with its summary, kept as
/// a fresh session with no current frame and an empty cache, or with the
/// error met; a version read with a handshake that carries those versions.
pub proof fn law_host_outcomes_answered_unchanged(
    s: ServerView,
    probed: Result<ProbeView, Seq<char>>,
    opened: Result<SummaryView, Seq<char>>,
    versions: LinkedFfmpegVersions,
)
    ensures
        s.task is Probing ==> ({
            let (after, step) = on_event(s, EventView::Probed(probed));
            &&& step.action == ActionView::Reply(
                match probed {
                    Ok(p) => ResponseView::ProbeResult { probe: p },
                    Err(m) => ResponseView::Error { message: m },
                },
            )
            &&& after.sessions == s.sessions
            &&& after.task is Idle
        }),
        s.task is Opening ==> ({
            let (after, step) = on_event(s, EventView::Opened(opened));
            match opened {
                Ok(summary) => {
                    &&& step.action == ActionView::Reply(
                        ResponseView::OpenVideoResult { session: summary },
                    )
                    &&& session_pos(after.sessions, summary.session_id) matches Some(k) && {
                        &&& after.sessions[k].summary == summary
                        &&& after.sessions[k].current_frame_index is None
                        &&& after.sessions[k].cache.entries.len() == 0
                    }
                },
                Err(m) => {
                    &&& step.action == ActionView::Reply(ResponseView::Error { message: m })
                    &&& after.sessions == s.sessions
                },
            }
        }),
        s.task is Versions ==> ({
            let step = on_event(s, EventView::Versions(versions)).1;
            step.action matches ActionView::Reply(ResponseView::Hello { hello }) && {
                &&& hello.linked_versions == versions
                &&& hello.ffmpeg_linked
                &&& hello.protocol_version == crate::protocol::PROTOCOL_VERSION
            }
        }),
{
    if s.task is Opening {
        if let Ok(summary) = opened {
            let after = on_event(s, EventView::Opened(opened)).0;
            match session_pos(s.sessions, summary.session_id) {
                None => {
                    let n = s.sessions.len() as int;
                    assert(after.sessions[n].summary.session_id == summary.session_id);
                    lemma_session_some_first(after.sessions, summary.session_id, n);
                    let k2 = session_pos(after.sessions, summary.session_id)->0;
                    assert(is_session_pos(after.sessions, summary.session_id, k2)) by {
                        let k3 = choose|k: int| is_session_pos(after.sessions, summary.session_id, k);
                        assert(is_session_pos(after.sessions, summary.session_id, k3));
                    }
                    if k2 < n {
                        assert(after.sessions[k2] == s.sessions[k2]);
                        lemma_session_some_first(s.sessions, summary.session_id, k2);
                    }
                },
                Some(k) => {
                    assert(is_session_pos(s.sessions, summary.session_id, k)) by {
                        let k3 = choose|k: int| is_session_pos(s.sessions, summary.session_id, k);
                        assert(is_session_pos(s.sessions, summary.session_id, k3));
                    }
                    assert(is_session_pos(after.sessions, summary.session_id, k)) by {
                        assert forall|j: int| 0 <= j < k implies after.sessions[j].summary.session_id
                            != summary.session_id by {
                            assert(after.sessions[j] == s.sessions[j]);
                        }
                    }
                    lemma_session_pos_unique(after.sessions, summary.session_id, k);
                },
            }
        }
    }
}

} // verus!
