use video_worker::media::{pts_to_us, Rational, AVERROR_EAGAIN, AVERROR_EOF};
use video_worker::protocol::{
    hello, parse_mode, LinkedFfmpegVersions, WorkerMode, WorkerRequest, WorkerResponse,
    PROTOCOL_VERSION,
};
use video_worker::server::{WorkerAction, WorkerEvent, WorkerServer};

fn runtime_versions() -> LinkedFfmpegVersions {
    LinkedFfmpegVersions {
        avcodec: (62 << 16) | (11 << 8) | 100,
        avformat: (62 << 16) | (3 << 8) | 100,
        avutil: (60 << 16) | (8 << 8) | 100,
        swscale: (9 << 16) | (1 << 8) | 100,
    }
}

/// Serves one request on `server`, answering each action as a host whose
/// FFmpeg reports `runtime_versions`.
fn serve(server: &mut WorkerServer, request: WorkerRequest) -> WorkerResponse {
    let mut step = server.handle_request(request);
    loop {
        match step.action {
            WorkerAction::Reply(response) => return response,
            WorkerAction::ReadVersions => {
                step = server.resume(WorkerEvent::Versions(runtime_versions()));
            }
            other => panic!("unexpected action: {other:?}"),
        }
    }
}

#[test]
fn parse_mode_defaults_to_stdio() {
    let args = vec!["video-worker".to_string()];
    assert_eq!(parse_mode(&args), WorkerMode::Stdio);
}

#[test]
fn parse_mode_detects_ping_flag() {
    let args = vec!["video-worker".to_string(), "--ping".to_string()];
    assert_eq!(parse_mode(&args), WorkerMode::Ping);
}

#[test]
fn parse_mode_ignores_flags_that_only_contain_ping() {
    let args = vec!["--pingx".to_string(), "-ping".to_string(), "ping".to_string()];
    assert_eq!(parse_mode(&args), WorkerMode::Stdio);
    let empty: Vec<String> = Vec::new();
    assert_eq!(parse_mode(&empty), WorkerMode::Stdio);
}

#[test]
fn ping_request_returns_handshake() {
    let mut server = WorkerServer::default();
    let response = serve(&mut server, WorkerRequest::Ping);

    match response {
        WorkerResponse::Hello { hello } => {
            assert_eq!(hello.worker_name, "video-worker");
            assert_eq!(hello.protocol_version, 1);
            assert!(hello.ffmpeg_linked);
            assert!(hello.linked_versions.avcodec > 0);
        }
        other => panic!("unexpected response: {other:?}"),
    }
}

#[test]
fn ping_asks_the_host_for_the_linked_versions() {
    let mut server = WorkerServer::with_cache_capacity(4);
    let step = server.handle_request(WorkerRequest::Ping);
    assert_eq!(step.action, WorkerAction::ReadVersions);
    assert!(server.is_busy());
    assert!(server.expects(&WorkerEvent::Versions(runtime_versions())));
    assert!(!server.expects(&WorkerEvent::Probed(Err("x".to_string()))));
    let step = server.resume(WorkerEvent::Versions(runtime_versions()));
    assert!(!server.is_busy());
    assert_eq!(
        step.action,
        WorkerAction::Reply(WorkerResponse::Hello { hello: hello(true, runtime_versions()) })
    );
}

#[test]
fn shutdown_request_returns_ack() {
    let mut server = WorkerServer::default();
    let response = serve(&mut server, WorkerRequest::Shutdown);
    assert_eq!(response, WorkerResponse::Ack { accepted: true });
}

#[test]
fn hello_names_the_worker_and_its_transport() {
    let h = hello(false, runtime_versions());
    assert_eq!(h.worker_name, "video-worker");
    assert_eq!(h.transport, "stdio-jsonl");
    assert_eq!(h.protocol_version, PROTOCOL_VERSION);
    assert!(!h.ffmpeg_linked);
    assert_eq!(h.linked_versions, runtime_versions());
}

#[test]
fn averror_constants_match_ffmpeg_conventions() {
    assert_eq!(AVERROR_EAGAIN, -11);
    assert!(AVERROR_EOF < 0);
    assert_ne!(AVERROR_EAGAIN, AVERROR_EOF);
}

#[test]
fn averror_eof_is_the_negated_eof_tag() {
    let tag = (b'E' as i32) | ((b'O' as i32) << 8) | ((b'F' as i32) << 16) | ((b' ' as i32) << 24);
    assert_eq!(AVERROR_EOF, -tag);
}

#[test]
fn pts_to_us_handles_extreme_values() {
    let tb = Rational { num: 1, den: 1 };
    assert_eq!(pts_to_us(1, tb), 1_000_000);

    let result = pts_to_us(i64::MAX, tb);
    assert_eq!(result, i64::MAX);

    let zero_tb = Rational { num: 1, den: 0 };
    assert_eq!(pts_to_us(100, zero_tb), 0);
}

#[test]
fn pts_to_us_rounds_toward_zero_and_saturates_below() {
    let tb = Rational { num: 1, den: 30 };
    assert_eq!(pts_to_us(1, tb), 33_333);
    assert_eq!(pts_to_us(-1, tb), -33_333);
    assert_eq!(pts_to_us(4, Rational { num: 1, den: 15360 }), 260);
    assert_eq!(pts_to_us(i64::MIN, Rational { num: 1, den: 1 }), i64::MIN);
    assert_eq!(pts_to_us(3, Rational { num: 1, den: -2 }), -1_500_000);
}
