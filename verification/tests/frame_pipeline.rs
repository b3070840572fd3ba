use video_worker::frame::{frame_buffer_file_name, make_frame_id};
use video_worker::media::session_id_from_hash;
use video_worker::protocol::{
    FrameMeta, SessionSummary, WorkerErrorCode, WorkerRequest, WorkerResponse,
};
use video_worker::server::{StoreFailure, StoredFrame, WorkerAction, WorkerEvent, WorkerServer};

/// A host with synthetic videos: it indexes and "decodes" frames without a
/// decoder, and keeps the buffer files as a list of paths.
struct FakeHost {
    decoded: Vec<u32>,
    files: Vec<String>,
    released: Vec<String>,
    fail_decode_of: Option<u32>,
    fail_write_of: Option<u32>,
    logged: Vec<String>,
}

impl FakeHost {
    fn new() -> Self {
        FakeHost { decoded: Vec::new(), files: Vec::new(), released: Vec::new(), fail_decode_of: None, fail_write_of: None, logged: Vec::new() }
    }

    fn summary_for(&self, path: &str) -> Result<SessionSummary, String> {
        let (count, fps, width, height, gop): (u32, i64, u32, u32, u32) = match path {
            "cfr_30fps_10frames.mp4" => (10, 30, 64, 48, 250),
            "cfr_25fps_60frames.mp4" => (60, 25, 128, 96, 250),
            "bframes_30fps.mp4" => (30, 30, 64, 48, 12),
            _ => return Err(format!("avformat_open_input failed: No such file or directory")),
        };
        let frames: Vec<FrameMeta> = (0..count)
            .map(|i| {
                let pts = i as i64 * 512;
                let us = i as i64 * 1_000_000 / fps;
                FrameMeta {
                    frame_index: i,
                    pts: Some(pts),
                    timestamp_us: Some(us),
                    best_effort_timestamp_us: Some(us),
                    is_keyframe: i % gop == 0,
                }
            })
            .collect();
        Ok(SessionSummary {
            session_id: session_id_from_hash(path.len() as u64 * 0x9e37_79b9),
            path: path.to_string(),
            width,
            height,
            duration_us: Some(count as i64 * 1_000_000 / fps),
            codec_name: "h264".to_string(),
            total_frames: count,
            avg_frame_rate_num: fps as i32,
            avg_frame_rate_den: 1,
            decode_errors: 0,
            frames,
        })
    }

    fn serve(&mut self, server: &mut WorkerServer, request: WorkerRequest) -> WorkerResponse {
        let mut step = server.handle_request(request);
        loop {
            for path in step.discard_paths.drain(..) {
                self.files.retain(|f| f != &path);
            }
            for id in step.released_sessions.drain(..) {
                let prefix = format!("/tmp/frames/{id}/");
                self.files.retain(|f| !f.starts_with(&prefix));
                self.released.push(id);
            }
            self.logged.extend(step.log_lines.drain(..));
            let event = match step.action {
                WorkerAction::Reply(response) => return response,
                WorkerAction::ReadVersions => panic!("no versions in this host"),
                WorkerAction::Probe { path } => WorkerEvent::Probed(Err(format!("cannot probe {path}"))),
                WorkerAction::Open { path } => WorkerEvent::Opened(self.summary_for(&path)),
                WorkerAction::Decode { session_id, frame_index, frame_id } => {
                    self.decoded.push(frame_index);
                    if self.fail_decode_of == Some(frame_index) {
                        WorkerEvent::Stored(Err(StoreFailure::Decode(format!("failed to decode frame {frame_index}"))))
                    } else if self.fail_write_of == Some(frame_index) {
                        WorkerEvent::Stored(Err(StoreFailure::Write(format!("failed to write frame buffer {frame_index}: disk full"))))
                    } else {
                        let path = format!("/tmp/frames/{session_id}/{}", frame_buffer_file_name(&frame_id));
                        if !self.files.contains(&path) {
                            self.files.push(path.clone());
                        }
                        let (width, height) = if session_id.is_empty() { (0, 0) } else { (64, 48) };
                        WorkerEvent::Stored(Ok(StoredFrame { width, height, rgba_path: path }))
                    }
                }
            };
            assert!(server.expects(&event));
            step = server.resume(event);
        }
    }
}

fn open_session(worker: &mut WorkerServer, host: &mut FakeHost, name: &str) -> SessionSummary {
    match host.serve(worker, WorkerRequest::OpenVideo { path: name.to_string() }) {
        WorkerResponse::OpenVideoResult { session } => session,
        other => panic!("unexpected response: {other:?}"),
    }
}

fn frame_id_for(session_id: &str, frame: &FrameMeta) -> String {
    let timestamp = frame
        .best_effort_timestamp_us
        .or(frame.timestamp_us)
        .map(|value| value.to_string())
        .unwrap_or_else(|| "none".to_string());
    format!("{session_id}:{}:{timestamp}", frame.frame_index)
}

fn get_frame(worker: &mut WorkerServer, host: &mut FakeHost, session: &SessionSummary, index: u32) -> video_worker::protocol::FrameHandle {
    match host.serve(worker, WorkerRequest::GetFrame { session_id: session.session_id.clone(), frame_index: index }) {
        WorkerResponse::GetFrameResult { frame } => frame,
        other => panic!("unexpected response: {other:?}"),
    }
}

#[test]
fn get_frame_returns_exact_index_timestamp_and_rgba_buffer() {
    let mut worker = WorkerServer::with_cache_capacity(4);
    let mut host = FakeHost::new();
    let session = open_session(&mut worker, &mut host, "cfr_30fps_10frames.mp4");

    let frame = get_frame(&mut worker, &mut host, &session, 4);

    assert_eq!(frame.frame_index, 4);
    assert!(!frame.frame_id.is_empty());
    assert_eq!(frame.timestamp_us, session.frames[4].timestamp_us);
    assert!(frame.is_precise);
    assert!(host.files.contains(&frame.rgba_path));

    let buffer = match host.serve(&mut worker, WorkerRequest::ReadFrameBuffer {
        session_id: session.session_id.clone(),
        frame_id: frame.frame_id.clone(),
    }) {
        WorkerResponse::ReadFrameBufferResult { buffer } => buffer,
        other => panic!("unexpected response: {other:?}"),
    };

    assert_eq!(buffer.frame_id, frame.frame_id);
    assert_eq!(buffer.width, session.width);
    assert_eq!(buffer.height, session.height);
    assert_eq!(buffer.rgba_path, frame.rgba_path);
    assert!(host.files.contains(&buffer.rgba_path));
}

#[test]
fn get_frame_prefetches_adjacent_buffers() {
    let mut worker = WorkerServer::with_cache_capacity(8);
    let mut host = FakeHost::new();
    let session = open_session(&mut worker, &mut host, "cfr_25fps_60frames.mp4");

    assert_eq!(get_frame(&mut worker, &mut host, &session, 10).frame_index, 10);
    assert_eq!(host.decoded, vec![10, 11, 9]);

    for index in [9_usize, 11_usize] {
        let frame_id = frame_id_for(&session.session_id, &session.frames[index]);
        match host.serve(&mut worker, WorkerRequest::ReadFrameBuffer {
            session_id: session.session_id.clone(),
            frame_id,
        }) {
            WorkerResponse::ReadFrameBufferResult { buffer } => {
                assert_eq!(buffer.width, 64);
                assert_eq!(buffer.height, 48);
            }
            other => panic!("adjacent frame {index} should be prefetched, got {other:?}"),
        }
    }
}

#[test]
fn step_frame_moves_relative_to_current_frame_without_off_by_one() {
    let mut worker = WorkerServer::with_cache_capacity(4);
    let mut host = FakeHost::new();
    let session = open_session(&mut worker, &mut host, "cfr_30fps_10frames.mp4");

    let initial = get_frame(&mut worker, &mut host, &session, 3);
    assert_eq!(initial.frame_index, 3);

    let forward = match host.serve(&mut worker, WorkerRequest::StepFrame {
        session_id: session.session_id.clone(),
        delta: 1,
    }) {
        WorkerResponse::StepFrameResult { frame } => frame,
        other => panic!("unexpected response: {other:?}"),
    };
    assert_eq!(forward.frame_index, 4);
    assert_eq!(forward.timestamp_us, session.frames[4].timestamp_us);

    let backward = match host.serve(&mut worker, WorkerRequest::StepFrame {
        session_id: session.session_id.clone(),
        delta: -2,
    }) {
        WorkerResponse::StepFrameResult { frame } => frame,
        other => panic!("unexpected response: {other:?}"),
    };
    assert_eq!(backward.frame_index, 2);
    assert_eq!(backward.timestamp_us, session.frames[2].timestamp_us);
}

#[test]
fn step_frame_is_held_at_both_ends() {
    let mut worker = WorkerServer::with_cache_capacity(4);
    let mut host = FakeHost::new();
    let session = open_session(&mut worker, &mut host, "cfr_30fps_10frames.mp4");
    get_frame(&mut worker, &mut host, &session, 1);
    for (delta, expected) in [(-5, 0), (i32::MAX, 9), (i32::MIN, 0), (3, 3)] {
        match host.serve(&mut worker, WorkerRequest::StepFrame {
            session_id: session.session_id.clone(),
            delta,
        }) {
            WorkerResponse::StepFrameResult { frame } => assert_eq!(frame.frame_index, expected),
            other => panic!("unexpected response: {other:?}"),
        }
    }
}

#[test]
fn evicted_frame_buffer_returns_frame_expired_error() {
    let mut worker = WorkerServer::with_cache_capacity(2);
    let mut host = FakeHost::new();
    let session = open_session(&mut worker, &mut host, "cfr_30fps_10frames.mp4");

    let frame0 = get_frame(&mut worker, &mut host, &session, 0);

    for index in 1..=2 {
        get_frame(&mut worker, &mut host, &session, index);
    }

    match host.serve(&mut worker, WorkerRequest::ReadFrameBuffer {
        session_id: session.session_id.clone(),
        frame_id: frame0.frame_id.clone(),
    }) {
        WorkerResponse::RequestError { error } => {
            assert_eq!(error.code, WorkerErrorCode::FrameExpired);
            assert!(error.message.contains(&frame0.frame_id));
        }
        other => panic!("unexpected response: {other:?}"),
    }
    assert!(!host.files.contains(&frame0.rgba_path));
    assert!(host.files.len() <= 2);
}

#[test]
fn tampered_frame_id_returns_invalid_frame_id_error() {
    let mut worker = WorkerServer::with_cache_capacity(2);
    let mut host = FakeHost::new();
    let session = open_session(&mut worker, &mut host, "cfr_30fps_10frames.mp4");

    let frame = get_frame(&mut worker, &mut host, &session, 1);

    let tampered_frame_id = frame.frame_id.replacen(":1:", ":9:", 1);
    match host.serve(&mut worker, WorkerRequest::ReadFrameBuffer {
        session_id: session.session_id.clone(),
        frame_id: tampered_frame_id.clone(),
    }) {
        WorkerResponse::RequestError { error } => {
            assert_eq!(error.code, WorkerErrorCode::InvalidFrameId);
            assert_eq!(error.message, format!("invalid frame id: {tampered_frame_id}"));
        }
        other => panic!("unexpected response: {other:?}"),
    }
}

#[test]
fn bframe_navigation_keeps_visible_ordinals_and_timestamps_aligned() {
    let mut worker = WorkerServer::with_cache_capacity(4);
    let mut host = FakeHost::new();
    let session = open_session(&mut worker, &mut host, "bframes_30fps.mp4");

    for target_index in [0_u32, 1, 5, 11, 17, 23, 29] {
        let frame = get_frame(&mut worker, &mut host, &session, target_index);
        assert_eq!(frame.frame_index, target_index);
        assert_eq!(
            frame.timestamp_us,
            session.frames[target_index as usize].timestamp_us,
            "timestamp mismatch at visible frame {target_index}",
        );
    }

    let stepped = match host.serve(&mut worker, WorkerRequest::StepFrame {
        session_id: session.session_id.clone(),
        delta: -3,
    }) {
        WorkerResponse::StepFrameResult { frame } => frame,
        other => panic!("unexpected response: {other:?}"),
    };
    assert_eq!(stepped.frame_index, 26);
    assert_eq!(stepped.timestamp_us, session.frames[26].timestamp_us);
}

#[test]
fn step_frame_without_current_frame_returns_explicit_error() {
    let mut worker = WorkerServer::with_cache_capacity(4);
    let mut host = FakeHost::new();
    let session = open_session(&mut worker, &mut host, "cfr_30fps_10frames.mp4");

    match host.serve(&mut worker, WorkerRequest::StepFrame {
        session_id: session.session_id.clone(),
        delta: 1,
    }) {
        WorkerResponse::RequestError { error } => {
            assert_eq!(error.code, WorkerErrorCode::NoCurrentFrame);
            assert!(error.message.contains(&session.session_id));
        }
        other => panic!("unexpected response: {other:?}"),
    }
}

#[test]
fn close_video_releases_session_and_rejects_follow_up_requests() {
    let mut worker = WorkerServer::with_cache_capacity(4);
    let mut host = FakeHost::new();
    let session = open_session(&mut worker, &mut host, "cfr_30fps_10frames.mp4");

    let frame = get_frame(&mut worker, &mut host, &session, 2);
    assert!(host.files.contains(&frame.rgba_path));

    match host.serve(&mut worker, WorkerRequest::CloseVideo { session_id: session.session_id.clone() }) {
        WorkerResponse::CloseVideoResult { closed } => assert!(closed),
        other => panic!("unexpected response: {other:?}"),
    }
    assert!(!host.files.contains(&frame.rgba_path));
    assert_eq!(host.released, vec![session.session_id.clone()]);

    match host.serve(&mut worker, WorkerRequest::GetFrame { session_id: session.session_id.clone(), frame_index: 2 }) {
        WorkerResponse::RequestError { error } => {
            assert_eq!(error.code, WorkerErrorCode::SessionNotFound);
            assert_eq!(error.message, format!("session not found: {}", session.session_id));
        }
        other => panic!("unexpected response: {other:?}"),
    }

    match host.serve(&mut worker, WorkerRequest::ReadFrameBuffer {
        session_id: session.session_id.clone(),
        frame_id: frame.frame_id,
    }) {
        WorkerResponse::RequestError { error } => {
            assert_eq!(error.code, WorkerErrorCode::SessionNotFound);
        }
        other => panic!("unexpected response: {other:?}"),
    }

    match host.serve(&mut worker, WorkerRequest::CloseVideo { session_id: session.session_id.clone() }) {
        WorkerResponse::CloseVideoResult { closed } => assert!(!closed),
        other => panic!("unexpected response: {other:?}"),
    }
}

#[test]
fn sequential_step_latency_benchmark() {
    let mut worker = WorkerServer::with_cache_capacity(16);
    let mut host = FakeHost::new();
    let session = open_session(&mut worker, &mut host, "cfr_25fps_60frames.mp4");

    get_frame(&mut worker, &mut host, &session, 0);

    let total_steps = 20_u32.min(session.total_frames.saturating_sub(1));
    for step in 0..total_steps {
        match host.serve(&mut worker, WorkerRequest::StepFrame {
            session_id: session.session_id.clone(),
            delta: 1,
        }) {
            WorkerResponse::StepFrameResult { frame } => assert_eq!(frame.frame_index, step + 1),
            other => panic!("unexpected response: {other:?}"),
        }
    }
    // Each step forward finds its frame prefetched, and decodes only the next one.
    assert_eq!(host.decoded.len() as u32, 2 + total_steps);
}

#[test]
fn out_of_range_and_unknown_sessions_are_request_errors() {
    let mut worker = WorkerServer::with_cache_capacity(4);
    let mut host = FakeHost::new();
    let session = open_session(&mut worker, &mut host, "cfr_30fps_10frames.mp4");
    match host.serve(&mut worker, WorkerRequest::GetFrame { session_id: session.session_id.clone(), frame_index: 10 }) {
        WorkerResponse::RequestError { error } => {
            assert_eq!(error.code, WorkerErrorCode::FrameOutOfRange);
            assert_eq!(error.message, "frame 10 out of range for total_frames=10");
        }
        other => panic!("unexpected response: {other:?}"),
    }
    match host.serve(&mut worker, WorkerRequest::StepFrame { session_id: "nope".to_string(), delta: 1 }) {
        WorkerResponse::RequestError { error } => assert_eq!(error.code, WorkerErrorCode::SessionNotFound),
        other => panic!("unexpected response: {other:?}"),
    }
}

#[test]
fn failed_decode_is_a_decode_failed_error_and_failed_prefetch_is_skipped() {
    let mut worker = WorkerServer::with_cache_capacity(4);
    let mut host = FakeHost::new();
    let session = open_session(&mut worker, &mut host, "cfr_30fps_10frames.mp4");
    host.fail_decode_of = Some(5);
    match host.serve(&mut worker, WorkerRequest::GetFrame { session_id: session.session_id.clone(), frame_index: 5 }) {
        WorkerResponse::RequestError { error } => {
            assert_eq!(error.code, WorkerErrorCode::DecodeFailed);
            assert_eq!(error.message, "failed to decode frame 5");
        }
        other => panic!("unexpected response: {other:?}"),
    }
    assert!(host.logged.is_empty());
    // Frame 4's prefetch of frame 5 fails and is logged; frame 3 is still prefetched.
    let frame = get_frame(&mut worker, &mut host, &session, 4);
    assert_eq!(frame.frame_index, 4);
    assert_eq!(host.decoded, vec![5, 4, 5, 3]);
    assert_eq!(
        host.logged,
        vec![format!(
            "video-worker: failed to prefetch frame 5 for session {}: failed to decode frame 5",
            session.session_id
        )]
    );
}

#[test]
fn failed_prefetch_write_is_logged_and_failed_target_write_is_a_decode_failed_error() {
    let mut worker = WorkerServer::with_cache_capacity(4);
    let mut host = FakeHost::new();
    let session = open_session(&mut worker, &mut host, "cfr_30fps_10frames.mp4");
    host.fail_write_of = Some(3);
    let frame = get_frame(&mut worker, &mut host, &session, 2);
    assert_eq!(frame.frame_index, 2);
    assert_eq!(
        host.logged,
        vec![format!(
            "video-worker: failed to write prefetched frame 3 for session {}: failed to write frame buffer 3: disk full",
            session.session_id
        )]
    );
    match host.serve(&mut worker, WorkerRequest::GetFrame { session_id: session.session_id.clone(), frame_index: 3 }) {
        WorkerResponse::RequestError { error } => {
            assert_eq!(error.code, WorkerErrorCode::DecodeFailed);
            assert_eq!(error.message, "failed to write frame buffer 3: disk full");
        }
        other => panic!("unexpected response: {other:?}"),
    }
}

#[test]
fn open_and_probe_failures_are_plain_errors() {
    let mut worker = WorkerServer::with_cache_capacity(4);
    let mut host = FakeHost::new();
    match host.serve(&mut worker, WorkerRequest::OpenVideo { path: "missing.mp4".to_string() }) {
        WorkerResponse::Error { message } => assert!(message.contains("avformat_open_input")),
        other => panic!("unexpected response: {other:?}"),
    }
    match host.serve(&mut worker, WorkerRequest::Probe { path: "x.mp4".to_string() }) {
        WorkerResponse::Error { message } => assert_eq!(message, "cannot probe x.mp4"),
        other => panic!("unexpected response: {other:?}"),
    }
}

#[test]
fn shutdown_releases_every_session() {
    let mut worker = WorkerServer::with_cache_capacity(4);
    let mut host = FakeHost::new();
    let a = open_session(&mut worker, &mut host, "cfr_30fps_10frames.mp4");
    let b = open_session(&mut worker, &mut host, "bframes_30fps.mp4");
    get_frame(&mut worker, &mut host, &a, 0);
    get_frame(&mut worker, &mut host, &b, 0);
    assert!(!host.files.is_empty());
    assert_eq!(host.serve(&mut worker, WorkerRequest::Shutdown), WorkerResponse::Ack { accepted: true });
    assert!(host.files.is_empty());
    assert_eq!(host.released, vec![a.session_id.clone(), b.session_id.clone()]);
    match host.serve(&mut worker, WorkerRequest::GetFrame { session_id: a.session_id.clone(), frame_index: 0 }) {
        WorkerResponse::RequestError { error } => assert_eq!(error.code, WorkerErrorCode::SessionNotFound),
        other => panic!("unexpected response: {other:?}"),
    }
}

#[test]
fn frame_ids_and_buffer_names_follow_the_session_and_timestamp() {
    let meta = FrameMeta { frame_index: 4, pts: Some(2048), timestamp_us: Some(133_333), best_effort_timestamp_us: None, is_keyframe: false };
    assert_eq!(make_frame_id("session-1", &meta), "session-1:4:133333");
    assert_eq!(frame_buffer_file_name("session-1:4:133333"), "session-1_4_133333.rgba");
    let untimed = FrameMeta { frame_index: 7, pts: None, timestamp_us: None, best_effort_timestamp_us: None, is_keyframe: false };
    assert_eq!(make_frame_id("s", &untimed), "s:7:none");
    let negative = FrameMeta { frame_index: 0, pts: None, timestamp_us: Some(5), best_effort_timestamp_us: Some(-40), is_keyframe: true };
    assert_eq!(make_frame_id("s", &negative), "s:0:-40");
}
