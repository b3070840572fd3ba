use video_worker::media::{
    classify_receive, cursor_from_anchor, decode_video_frame_plan, find_seek_anchor,
    on_decoded_frame, session_seek_plan, DrainCursor, DrainDecision, ReceiveOutcome, SeekAnchor,
    AVERROR_EAGAIN, AVERROR_EOF,
};
use video_worker::protocol::FrameMeta;

fn frame(i: u32, key: bool, pts: Option<i64>) -> FrameMeta {
    FrameMeta {
        frame_index: i,
        pts,
        timestamp_us: pts,
        best_effort_timestamp_us: pts,
        is_keyframe: key,
    }
}

fn gop_of_four() -> Vec<FrameMeta> {
    (0..10_u32).map(|i| frame(i, i % 4 == 0, Some(i as i64 * 100))).collect()
}

#[test]
fn seek_anchor_is_last_keyframe_with_pts_at_or_before_target() {
    let frames = gop_of_four();
    assert_eq!(find_seek_anchor(&frames, 6), SeekAnchor { index: 4, pts: Some(400) });
    assert_eq!(find_seek_anchor(&frames, 8), SeekAnchor { index: 8, pts: Some(800) });
    assert_eq!(find_seek_anchor(&frames, 3), SeekAnchor { index: 0, pts: Some(0) });
    let mut untimed = gop_of_four();
    untimed[4].pts = None;
    assert_eq!(find_seek_anchor(&untimed, 6), SeekAnchor { index: 0, pts: Some(0) });
    untimed[0].is_keyframe = false;
    assert_eq!(find_seek_anchor(&untimed, 6), SeekAnchor { index: 0, pts: None });
}

#[test]
fn seek_plans_fall_back_to_the_start_and_refuse_frames_past_the_index() {
    let frames = gop_of_four();
    assert_eq!(session_seek_plan(&frames, 5), Ok(SeekAnchor { index: 4, pts: Some(400) }));
    assert_eq!(
        decode_video_frame_plan(&frames, 5),
        Ok(vec![SeekAnchor { index: 4, pts: Some(400) }, SeekAnchor { index: 0, pts: None }])
    );
    assert_eq!(decode_video_frame_plan(&frames, 2), Ok(vec![SeekAnchor { index: 0, pts: None }]));
    assert_eq!(
        session_seek_plan(&frames, 10),
        Err("frame 10 out of range for 10 indexed frames".to_string())
    );
    assert_eq!(
        decode_video_frame_plan(&frames, 12),
        Err("frame 12 out of range for 10 indexed frames".to_string())
    );
}

#[test]
fn receive_codes_are_sorted() {
    assert_eq!(classify_receive(AVERROR_EAGAIN), ReceiveOutcome::Drained);
    assert_eq!(classify_receive(AVERROR_EOF), ReceiveOutcome::Drained);
    assert_eq!(classify_receive(-22), ReceiveOutcome::Failed);
    assert_eq!(classify_receive(0), ReceiveOutcome::Frame);
}

#[test]
fn decoded_frames_are_checked_against_the_anchor_then_counted_to_the_target() {
    let mut cursor = cursor_from_anchor(SeekAnchor { index: 4, pts: Some(400) });
    assert_eq!(cursor, DrainCursor { frame_ordinal: 4, expected_anchor_pts: Some(400) });
    assert_eq!(on_decoded_frame(&mut cursor, 6, Some(400)), DrainDecision::Skip);
    assert_eq!(cursor, DrainCursor { frame_ordinal: 5, expected_anchor_pts: None });
    assert_eq!(on_decoded_frame(&mut cursor, 6, Some(999)), DrainDecision::Skip);
    assert_eq!(on_decoded_frame(&mut cursor, 6, Some(600)), DrainDecision::Deliver);
    assert_eq!(cursor.frame_ordinal, 6);

    let start = cursor_from_anchor(SeekAnchor { index: 0, pts: Some(0) });
    assert_eq!(start.expected_anchor_pts, None);
}

#[test]
fn a_seek_that_lands_elsewhere_is_an_error() {
    let mut cursor = cursor_from_anchor(SeekAnchor { index: 4, pts: Some(400) });
    assert_eq!(
        on_decoded_frame(&mut cursor, 6, Some(300)),
        DrainDecision::Mismatch(
            "seek landed on unexpected frame: expected pts 400, got Some(300)".to_string()
        )
    );
    assert_eq!(cursor.frame_ordinal, 4);
    assert_eq!(
        on_decoded_frame(&mut cursor, 6, None),
        DrainDecision::Mismatch("seek landed on unexpected frame: expected pts 400, got None".to_string())
    );
}

#[test]
fn a_frame_past_the_target_is_checked_and_dropped() {
    let mut cursor = DrainCursor { frame_ordinal: 7, expected_anchor_pts: Some(700) };
    assert_eq!(on_decoded_frame(&mut cursor, 6, Some(700)), DrainDecision::Skip);
    assert_eq!(cursor, DrainCursor { frame_ordinal: 8, expected_anchor_pts: None });
    let mut cursor = DrainCursor { frame_ordinal: 7, expected_anchor_pts: Some(700) };
    assert!(matches!(on_decoded_frame(&mut cursor, 6, Some(1)), DrainDecision::Mismatch(_)));
}
