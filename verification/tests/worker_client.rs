use serde_json::Value;
use video_worker::client::{
    close_outcome, frame_meta_at, parse_close_video_response, parse_get_frame_response,
    parse_open_video_response, parse_probe_response, parse_read_frame_buffer_response,
    parse_step_frame_response, ping_failure_message, shutdown_failure, shutdown_response,
    timeout_text, validate_worker_hello, worker_error_code, worker_error_message, OutputReader,
    ProcessEvent, ReadDecision, SessionInfo,
};
use video_worker::protocol::{
    FrameBuffer, FrameHandle, FrameMeta, LinkedFfmpegVersions, SessionSummary, VideoProbe,
    WorkerError, WorkerErrorCode, WorkerHello, WorkerResponse, PROTOCOL_VERSION,
};

fn text(v: &Value, key: &str) -> String {
    v[key].as_str().expect("string field").to_string()
}

fn num_field(v: &Value, key: &str) -> i64 {
    v[key].as_i64().expect("integer field")
}

fn opt_int(v: &Value, key: &str) -> Option<i64> {
    v[key].as_i64()
}

fn code_from(name: &str) -> WorkerErrorCode {
    match name {
        "decode_failed" => WorkerErrorCode::DecodeFailed,
        "frame_expired" => WorkerErrorCode::FrameExpired,
        "frame_out_of_range" => WorkerErrorCode::FrameOutOfRange,
        "invalid_frame_id" => WorkerErrorCode::InvalidFrameId,
        "no_current_frame" => WorkerErrorCode::NoCurrentFrame,
        "session_not_found" => WorkerErrorCode::SessionNotFound,
        other => panic!("unknown error code {other}"),
    }
}

fn versions_from(v: &Value) -> LinkedFfmpegVersions {
    LinkedFfmpegVersions {
        avcodec: num_field(v, "avcodec") as u32,
        avformat: num_field(v, "avformat") as u32,
        avutil: num_field(v, "avutil") as u32,
        swscale: num_field(v, "swscale") as u32,
    }
}

fn hello_from(v: &Value) -> WorkerHello {
    WorkerHello {
        worker_name: text(v, "worker_name"),
        protocol_version: num_field(v, "protocol_version") as u32,
        ffmpeg_linked: v["ffmpeg_linked"].as_bool().expect("bool field"),
        transport: text(v, "transport"),
        linked_versions: versions_from(&v["linked_versions"]),
    }
}

fn handle_from(v: &Value) -> FrameHandle {
    FrameHandle {
        frame_id: text(v, "frame_id"),
        frame_index: num_field(v, "frame_index") as u32,
        width: num_field(v, "width") as u32,
        height: num_field(v, "height") as u32,
        timestamp_us: opt_int(v, "timestamp_us"),
        is_precise: v["is_precise"].as_bool().expect("bool field"),
        rgba_path: text(v, "rgba_path"),
    }
}

/// Builds, field by field, the response that a JSON line of the worker holds.
fn response_from_json(payload: &[u8]) -> WorkerResponse {
    let v: Value = serde_json::from_slice(payload).expect("worker response JSON");
    match v["type"].as_str().expect("type tag") {
        "hello" => WorkerResponse::Hello { hello: hello_from(&v["hello"]) },
        "probe_result" => {
            let p = &v["probe"];
            WorkerResponse::ProbeResult {
                probe: VideoProbe {
                    path: text(p, "path"),
                    video_stream_index: num_field(p, "video_stream_index") as usize,
                    width: num_field(p, "width") as u32,
                    height: num_field(p, "height") as u32,
                    duration_us: opt_int(p, "duration_us"),
                    codec_name: text(p, "codec_name"),
                    bit_rate: opt_int(p, "bit_rate"),
                    avg_frame_rate_num: num_field(p, "avg_frame_rate_num") as i32,
                    avg_frame_rate_den: num_field(p, "avg_frame_rate_den") as i32,
                },
            }
        }
        "get_frame_result" => WorkerResponse::GetFrameResult { frame: handle_from(&v["frame"]) },
        "step_frame_result" => WorkerResponse::StepFrameResult { frame: handle_from(&v["frame"]) },
        "read_frame_buffer_result" => {
            let b = &v["buffer"];
            WorkerResponse::ReadFrameBufferResult {
                buffer: FrameBuffer {
                    frame_id: text(b, "frame_id"),
                    width: num_field(b, "width") as u32,
                    height: num_field(b, "height") as u32,
                    rgba_path: text(b, "rgba_path"),
                },
            }
        }
        "close_video_result" => WorkerResponse::CloseVideoResult {
            closed: v["closed"].as_bool().expect("bool field"),
        },
        "request_error" => {
            let e = &v["error"];
            WorkerResponse::RequestError {
                error: WorkerError {
                    code: code_from(e["code"].as_str().expect("code")),
                    message: text(e, "message"),
                },
            }
        }
        "ack" => WorkerResponse::Ack { accepted: v["accepted"].as_bool().expect("bool field") },
        "error" => WorkerResponse::Error { message: text(&v, "message") },
        other => panic!("unsupported response type {other}"),
    }
}

fn parse_probe_payload(payload: &[u8]) -> Result<VideoProbe, String> {
    parse_probe_response(response_from_json(payload))
}

fn parse_get_frame_payload(payload: &[u8]) -> Result<FrameHandle, String> {
    parse_get_frame_response(response_from_json(payload))
}

fn parse_read_frame_buffer_payload(payload: &[u8]) -> Result<FrameBuffer, String> {
    parse_read_frame_buffer_response(response_from_json(payload))
}

fn parse_hello_payload(payload: &[u8]) -> Result<WorkerHello, String> {
    let v: Value = serde_json::from_slice(payload).map_err(|e| e.to_string())?;
    Ok(hello_from(&v))
}

fn sample_hello(protocol_version: u32) -> WorkerHello {
    WorkerHello {
        worker_name: "video-worker".to_string(),
        protocol_version,
        ffmpeg_linked: true,
        transport: "stdio-jsonl".to_string(),
        linked_versions: LinkedFfmpegVersions { avcodec: 1, avformat: 2, avutil: 3, swscale: 4 },
    }
}

#[test]
fn parse_hello_payload_decodes_worker_handshake() {
    let hello = parse_hello_payload(
        br#"{"worker_name":"video-worker","protocol_version":1,"ffmpeg_linked":true,"transport":"stdio-jsonl","linked_versions":{"avcodec":1,"avformat":2,"avutil":3,"swscale":4}}"#,
    )
    .expect("parse hello");

    assert_eq!(hello.worker_name, "video-worker");
    assert!(hello.ffmpeg_linked);
    assert_eq!(hello.linked_versions.avformat, 2);
}

#[test]
fn parse_probe_payload_decodes_worker_probe_response() {
    let probe = parse_probe_payload(
        br#"{"type":"probe_result","probe":{"path":"sample.mp4","video_stream_index":0,"width":64,"height":48,"duration_us":1000000,"codec_name":"mpeg4","bit_rate":1234,"avg_frame_rate_num":5,"avg_frame_rate_den":1}}"#,
    )
    .expect("parse probe");

    assert_eq!(probe.path, "sample.mp4");
    assert_eq!(probe.width, 64);
    assert_eq!(probe.avg_frame_rate_num, 5);
}

#[test]
fn parse_get_frame_payload_decodes_frame_handle() {
    let frame = parse_get_frame_payload(
        br#"{"type":"get_frame_result","frame":{"frame_id":"session-1:4:133333","frame_index":4,"width":64,"height":48,"timestamp_us":133333,"is_precise":true,"rgba_path":"C:/tmp/session-1/frame-4.rgba"}}"#,
    )
    .expect("parse get_frame");

    assert_eq!(frame.frame_id, "session-1:4:133333");
    assert_eq!(frame.frame_index, 4);
    assert_eq!(frame.timestamp_us, Some(133333));
    assert_eq!(frame.rgba_path, "C:/tmp/session-1/frame-4.rgba");
}

#[test]
fn parse_get_frame_payload_surfaces_request_error() {
    let error = parse_get_frame_payload(
        br#"{"type":"request_error","error":{"code":"frame_expired","message":"frame buffer expired for session-1:4:133333"}}"#,
    )
    .expect_err("request error should fail");

    assert!(error.contains("frame buffer expired"));
    assert!(error.contains("frame_expired"));
}

#[test]
fn parse_read_frame_buffer_payload_decodes_rgba_path() {
    let buffer = parse_read_frame_buffer_payload(
        br#"{"type":"read_frame_buffer_result","buffer":{"frame_id":"session-1:4:133333","width":2,"height":1,"rgba_path":"C:/tmp/session-1/frame-4.rgba"}}"#,
    )
    .expect("parse frame buffer");

    assert_eq!(buffer.frame_id, "session-1:4:133333");
    assert_eq!(buffer.width, 2);
    assert_eq!(buffer.height, 1);
    assert_eq!(buffer.rgba_path, "C:/tmp/session-1/frame-4.rgba");
}

#[test]
fn validate_worker_hello_accepts_matching_protocol() {
    let hello = validate_worker_hello(WorkerResponse::Hello { hello: sample_hello(PROTOCOL_VERSION) })
        .expect("matching protocol should validate");

    assert_eq!(hello.protocol_version, PROTOCOL_VERSION);
}

#[test]
fn validate_worker_hello_rejects_protocol_mismatch() {
    let error = validate_worker_hello(WorkerResponse::Hello {
        hello: sample_hello(PROTOCOL_VERSION + 1),
    })
    .expect_err("protocol mismatch should fail");

    assert!(error.contains("protocol"));
    assert_eq!(error, "video-worker protocol mismatch: expected 1, got 2");
}

#[test]
fn validate_worker_hello_rejects_other_answers() {
    let error = validate_worker_hello(WorkerResponse::Error { message: "boom".to_string() })
        .expect_err("an error is no handshake");
    assert_eq!(error, "boom");
    let error = validate_worker_hello(WorkerResponse::Ack { accepted: true })
        .expect_err("an ack is no handshake");
    assert_eq!(error, "unexpected response for worker handshake: Ack { accepted: true }");
}

#[test]
fn every_error_code_has_its_wire_name() {
    let names = [
        (WorkerErrorCode::DecodeFailed, "decode_failed"),
        (WorkerErrorCode::FrameExpired, "frame_expired"),
        (WorkerErrorCode::FrameOutOfRange, "frame_out_of_range"),
        (WorkerErrorCode::InvalidFrameId, "invalid_frame_id"),
        (WorkerErrorCode::NoCurrentFrame, "no_current_frame"),
        (WorkerErrorCode::SessionNotFound, "session_not_found"),
    ];
    for (code, name) in names {
        assert_eq!(worker_error_code(code), name);
        let message = worker_error_message(&WorkerError::new(code, "m".to_string()));
        assert_eq!(message, format!("{name}: m"));
    }
}

#[test]
fn mismatched_answers_are_reported_with_their_debug_text() {
    let error = parse_probe_response(WorkerResponse::CloseVideoResult { closed: true })
        .expect_err("not a probe");
    assert_eq!(error, "unexpected response for probe payload: CloseVideoResult { closed: true }");
    let error = parse_step_frame_response(WorkerResponse::Ack { accepted: false })
        .expect_err("not a step");
    assert_eq!(error, "unexpected response for step_frame payload: Ack { accepted: false }");
    let error = parse_open_video_response(WorkerResponse::Error { message: "no video".to_string() })
        .expect_err("an error");
    assert_eq!(error, "no video");
}

#[test]
fn close_answers_carry_the_closed_flag() {
    assert_eq!(parse_close_video_response(WorkerResponse::CloseVideoResult { closed: false }), Ok(false));
    assert_eq!(
        parse_close_video_response(WorkerResponse::RequestError {
            error: WorkerError::new(WorkerErrorCode::SessionNotFound, "gone".to_string()),
        }),
        Err("session_not_found: gone".to_string())
    );
}

#[test]
fn shutdown_answers_and_failures() {
    assert_eq!(shutdown_response(WorkerResponse::Ack { accepted: true }), Ok(()));
    assert_eq!(
        shutdown_response(WorkerResponse::Ack { accepted: false }),
        Err("video-worker rejected shutdown request".to_string())
    );
    assert_eq!(shutdown_failure("timed out".to_string(), Ok(())), "timed out");
    assert_eq!(
        shutdown_failure("timed out".to_string(), Err("failed to kill video-worker: gone".to_string())),
        "timed out; failed to kill video-worker: gone"
    );
}

#[test]
fn closing_reports_the_first_cleanup_error() {
    assert_eq!(close_outcome(Ok(false), Ok(())), Ok(true));
    assert_eq!(close_outcome(Err("a".to_string()), Err("b".to_string())), Err("a".to_string()));
    assert_eq!(close_outcome(Ok(true), Err("b".to_string())), Err("b".to_string()));
}

#[test]
fn timeouts_and_ping_failures_have_fixed_messages() {
    assert_eq!(timeout_text(30), "video-worker request timed out after 30s");
    assert_eq!(ping_failure_message(b"  bad things\n", b"out"), "bad things");
    assert_eq!(ping_failure_message(b" \n", b"\tout \r\n"), "out");
    assert_eq!(ping_failure_message(b"", b""), "video-worker exited without output");
}

#[test]
fn output_reader_returns_the_first_answer_line() {
    let mut reader = OutputReader::new();
    assert_eq!(reader.on_event(ProcessEvent::Stdout(b"   \n".to_vec())), ReadDecision::Continue);
    assert_eq!(reader.on_event(ProcessEvent::Other), ReadDecision::Continue);
    assert_eq!(
        reader.on_event(ProcessEvent::Stdout(b"{\"type\":\"ack\"}\n".to_vec())),
        ReadDecision::Line("{\"type\":\"ack\"}".to_string())
    );
}

#[test]
fn output_reader_reports_stderr_when_the_worker_stops() {
    let mut reader = OutputReader::new();
    reader.on_event(ProcessEvent::Stderr(b"first problem\n".to_vec()));
    reader.on_event(ProcessEvent::Stderr(b"   ".to_vec()));
    reader.on_event(ProcessEvent::Stderr(b" second problem ".to_vec()));
    assert_eq!(
        reader.on_event(ProcessEvent::Terminated(Some(1))),
        ReadDecision::Fail("first problem\nsecond problem".to_string())
    );

    let mut quiet = OutputReader::new();
    assert_eq!(
        quiet.on_event(ProcessEvent::Terminated(Some(3))),
        ReadDecision::Fail("video-worker terminated with status Some(3)".to_string())
    );
    assert_eq!(
        quiet.on_event(ProcessEvent::Terminated(None)),
        ReadDecision::Fail("video-worker terminated with status None".to_string())
    );
    assert_eq!(
        quiet.on_event(ProcessEvent::Closed),
        ReadDecision::Fail("video-worker event stream closed".to_string())
    );
    assert_eq!(
        quiet.on_event(ProcessEvent::Error("spawn failed".to_string())),
        ReadDecision::Fail("spawn failed".to_string())
    );
}

fn sample_summary() -> SessionSummary {
    SessionSummary {
        session_id: "session-1".to_string(),
        path: "sample.mp4".to_string(),
        width: 64,
        height: 48,
        duration_us: Some(333_333),
        codec_name: "h264".to_string(),
        total_frames: 2,
        avg_frame_rate_num: 30,
        avg_frame_rate_den: 1,
        decode_errors: 0,
        frames: vec![
            FrameMeta { frame_index: 0, pts: Some(0), timestamp_us: Some(0), best_effort_timestamp_us: Some(0), is_keyframe: true },
            FrameMeta { frame_index: 1, pts: Some(512), timestamp_us: Some(33_333), best_effort_timestamp_us: Some(33_333), is_keyframe: false },
        ],
    }
}

#[test]
fn session_info_keeps_everything_but_the_frames() {
    let summary = sample_summary();
    let info = SessionInfo::from_summary(&summary);
    assert_eq!(info.session_id, "session-1");
    assert_eq!(info.path, "sample.mp4");
    assert_eq!(info.total_frames, 2);
    assert_eq!(info.duration_us, Some(333_333));
    assert_eq!(info.codec_name, "h264");
}

#[test]
fn frame_meta_lookup_reports_the_range() {
    let summary = sample_summary();
    assert_eq!(frame_meta_at(&summary, 1).unwrap().timestamp_us, Some(33_333));
    assert_eq!(
        frame_meta_at(&summary, 2),
        Err("frame index 2 out of range (total: 2)".to_string())
    );
}
