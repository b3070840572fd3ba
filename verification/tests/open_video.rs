use video_worker::media::{
    index_entry, index_summary, session_id_from_hash, FrameIndexer, IndexEvent, Rational,
    StreamFacts, AV_FRAME_FLAG_KEY, NO_PTS_VALUE,
};
use video_worker::protocol::{SessionSummary, WorkerRequest, WorkerResponse};
use video_worker::server::{WorkerAction, WorkerEvent, WorkerServer};

/// The raw values a decoder reports for a 64x48 H.264 stream of 10 frames at
/// 30 fps in the MP4 time base 1/15360: frame `i` has pts `512 * i`, and only
/// the first frame is a keyframe.
fn cfr_stream_facts() -> StreamFacts {
    StreamFacts {
        width: 64,
        height: 48,
        container_duration: 333_333,
        stream_duration: 5120,
        time_base: Rational { num: 1, den: 15360 },
        codec_name: Some("h264".to_string()),
        avg_frame_rate: Rational { num: 30, den: 1 },
        bit_rate: 9_000,
    }
}

fn index_cfr_stream(path: &str) -> Result<SessionSummary, String> {
    let facts = cfr_stream_facts();
    let mut indexer = FrameIndexer::new(facts.time_base);
    for ordinal in 0..10_u32 {
        let raw = 512 * ordinal as i64;
        let flags = if ordinal == 0 { AV_FRAME_FLAG_KEY } else { 0 };
        indexer.take(IndexEvent::Decoded { raw_pts: raw, raw_best_effort: raw, flags });
    }
    indexer.finish(session_id_from_hash(0x5eed_1234_abcd_0001), path, &facts)
}

/// The raw values a decoder reports for a 720x1570 HEVC stream of 120 frames
/// at 30 fps in the time base 1/90000, a keyframe every 60 frames.
fn hevc_stream_facts() -> StreamFacts {
    StreamFacts {
        width: 720,
        height: 1570,
        container_duration: 4_000_000,
        stream_duration: 360_000,
        time_base: Rational { num: 1, den: 90_000 },
        codec_name: Some("hevc".to_string()),
        avg_frame_rate: Rational { num: 30, den: 1 },
        bit_rate: 2_500_000,
    }
}

#[test]
fn open_cfr_fixture_builds_frame_index() {
    let session = index_cfr_stream("cfr_30fps_10frames.mp4").expect("open_video_session");

    assert_eq!(session.width, 64);
    assert_eq!(session.height, 48);
    assert!(session.total_frames >= 9, "expected at least 9 frames, got {}", session.total_frames);
    assert!(session.total_frames <= 11, "expected at most 11 frames, got {}", session.total_frames);
    assert!(!session.session_id.is_empty());
    assert!(!session.codec_name.is_empty());
    assert_eq!(session.decode_errors, 0);

    assert_eq!(session.frames.len(), session.total_frames as usize);

    for (i, frame) in session.frames.iter().enumerate() {
        assert_eq!(frame.frame_index, i as u32, "frame_index mismatch at {i}");
    }

    for frame in &session.frames {
        assert!(frame.pts.is_some(), "frame {} should have a valid PTS in well-formed MP4", frame.frame_index);
        assert!(
            frame.timestamp_us.is_some(),
            "frame {} should have a valid timestamp_us in well-formed MP4",
            frame.frame_index,
        );
    }

    let timestamps: Vec<i64> = session.frames.iter().filter_map(|f| f.timestamp_us).collect();
    for window in timestamps.windows(2) {
        assert!(window[1] >= window[0], "timestamps not monotonic: {}us then {}us", window[0], window[1]);
    }

    assert!(session.frames[0].is_keyframe, "first frame should be a keyframe");

    let first_ts = session.frames[0].timestamp_us.unwrap();
    assert!(first_ts.abs() < 1000, "first frame timestamp should be near 0, got {first_ts}");
}

#[test]
fn open_real_video_fixture_builds_frame_index() {
    let facts = hevc_stream_facts();
    let mut indexer = FrameIndexer::new(facts.time_base);
    for ordinal in 0..120_u32 {
        let raw = 3000 * ordinal as i64;
        let flags = if ordinal % 60 == 0 { AV_FRAME_FLAG_KEY } else { 0 };
        indexer.take(IndexEvent::Decoded { raw_pts: raw, raw_best_effort: raw, flags });
    }
    let session = indexer
        .finish(session_id_from_hash(0x0123_4567_89ab_cdef), "video.mp4", &facts)
        .expect("open_video_session");

    assert_eq!(session.width, 720);
    assert_eq!(session.height, 1570);
    assert_eq!(session.codec_name, "hevc");
    assert!(session.total_frames > 0, "should have decoded at least one frame");
    assert!(session.duration_us.is_some(), "should have duration");
    assert_eq!(session.decode_errors, 0, "well-formed video should have no decode errors");

    for (i, frame) in session.frames.iter().enumerate() {
        assert_eq!(frame.frame_index, i as u32);
    }

    let all_have_ts = session.frames.iter().all(|f| f.timestamp_us.is_some());
    assert!(all_have_ts, "all frames in a well-formed MP4 should have timestamps");

    let timestamps: Vec<i64> = session.frames.iter().filter_map(|f| f.timestamp_us).collect();
    for window in timestamps.windows(2) {
        assert!(window[1] >= window[0], "timestamps not monotonic: {}us then {}us", window[0], window[1]);
    }
}

#[test]
fn indexer_numbers_frames_by_position_and_counts_failures() {
    let tb = Rational { num: 1, den: 15360 };
    let mut indexer = FrameIndexer::new(tb);
    indexer.take(IndexEvent::Failed);
    indexer.take(IndexEvent::Decoded { raw_pts: 0, raw_best_effort: 0, flags: AV_FRAME_FLAG_KEY });
    indexer.take(IndexEvent::Failed);
    indexer.take(IndexEvent::Failed);
    indexer.take(IndexEvent::Decoded { raw_pts: 1536, raw_best_effort: NO_PTS_VALUE, flags: 0 });
    assert_eq!(indexer.frame_count(), 2);
    assert_eq!(indexer.decode_errors(), 3);
    let session = indexer.finish("s".to_string(), "a.mp4", &cfr_stream_facts()).expect("two frames");
    assert_eq!(session.total_frames, 2);
    assert_eq!(session.decode_errors, 3);
    assert_eq!(session.frames[0].frame_index, 0);
    assert_eq!(session.frames[1].frame_index, 1);
    assert_eq!(session.frames[1].timestamp_us, Some(100_000));
    assert_eq!(session.frames[1].best_effort_timestamp_us, None);
    assert!(session.frames[0].is_keyframe);
}

#[test]
fn indexer_with_only_failures_reports_them() {
    let mut indexer = FrameIndexer::new(Rational { num: 1, den: 1000 });
    indexer.take(IndexEvent::Failed);
    indexer.take(IndexEvent::Failed);
    assert_eq!(
        indexer.finish("s".to_string(), "broken.mp4", &cfr_stream_facts()),
        Err("no frames decoded from broken.mp4 (2 decode error(s))".to_string())
    );
}

#[test]
fn open_video_protocol_roundtrip() {
    let mut worker = WorkerServer::default();
    let request = WorkerRequest::OpenVideo { path: "cfr_30fps_10frames.mp4".to_string() };
    let step = worker.handle_request(request);
    let path = match step.action {
        WorkerAction::Open { path } => path,
        other => panic!("unexpected action: {other:?}"),
    };
    let step = worker.resume(WorkerEvent::Opened(index_cfr_stream(&path)));
    match step.action {
        WorkerAction::Reply(WorkerResponse::OpenVideoResult { session }) => {
            assert!(session.total_frames >= 9);
            assert_eq!(session.width, 64);
            assert_eq!(session.decode_errors, 0);
        }
        WorkerAction::Reply(WorkerResponse::Error { message }) => {
            panic!("unexpected error: {message}");
        }
        other => panic!("unexpected response type: {other:?}"),
    }
}

#[test]
fn frame_meta_has_best_effort_timestamp() {
    let session = index_cfr_stream("cfr_30fps_10frames.mp4").expect("open_video_session");

    for frame in &session.frames {
        assert!(
            frame.best_effort_timestamp_us.is_some(),
            "frame {} should have best_effort_timestamp_us",
            frame.frame_index,
        );

        if let (Some(ts), Some(best_effort)) = (frame.timestamp_us, frame.best_effort_timestamp_us) {
            assert_eq!(ts, best_effort, "frame {} timestamps should match in well-formed video", frame.frame_index);
        }
    }
}

#[test]
fn index_entries_convert_timestamps_and_flags() {
    let tb = Rational { num: 1, den: 15360 };
    let entry = index_entry(3, 1536, NO_PTS_VALUE, tb, AV_FRAME_FLAG_KEY | 1);
    assert_eq!(entry.frame_index, 3);
    assert_eq!(entry.pts, Some(1536));
    assert_eq!(entry.timestamp_us, Some(100_000));
    assert_eq!(entry.best_effort_timestamp_us, None);
    assert!(entry.is_keyframe);
    let untimed = index_entry(4, NO_PTS_VALUE, 2048, tb, 1);
    assert_eq!(untimed.pts, None);
    assert_eq!(untimed.timestamp_us, None);
    assert_eq!(untimed.best_effort_timestamp_us, Some(133_333));
    assert!(!untimed.is_keyframe);
}

#[test]
fn an_index_without_frames_is_an_error() {
    let facts = cfr_stream_facts();
    let result = index_summary("s".to_string(), "empty.mp4", Vec::new(), 3, &facts);
    assert_eq!(result, Err("no frames decoded from empty.mp4 (3 decode error(s))".to_string()));
}

#[test]
fn durations_fall_back_from_container_to_stream() {
    let mut facts = cfr_stream_facts();
    facts.container_duration = NO_PTS_VALUE;
    facts.codec_name = None;
    facts.width = -1;
    let session = index_summary("s".to_string(), "a.mp4", vec![index_entry(0, 0, 0, facts.time_base, 2)], 0, &facts)
        .expect("one frame");
    assert_eq!(session.duration_us, Some(333_333));
    assert_eq!(session.codec_name, "unknown");
    assert_eq!(session.width, 0);
    assert_eq!(session.total_frames, 1);
}
