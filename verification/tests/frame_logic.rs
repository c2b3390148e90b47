use std::sync::mpsc::sync_channel;
use std::time::Duration;
use wincap::capture::{
    check_timeout, check_window, decode_pixels, decode_rows, first_failure, frame_context,
    frame_wait_result, plan_texture_copy, receive, row_layout, size, validate_crop,
    CaptureError, CaptureSize, CloseSteps, CopyRegion, FrameWait, NativeSize,
    SessionRegistrations, TextureLayout, BGRA8_UNORM_FORMAT,
};
use wincap::window::window_capture_rect;
use wincap::WindowRect;

fn frame(width: u32, height: u32) -> CaptureSize {
    CaptureSize { width, height }
}

fn rect(left: i32, top: i32, right: i32, bottom: i32) -> WindowRect {
    WindowRect {
        left,
        top,
        right,
        bottom,
    }
}

fn message(error: CaptureError) -> &'static str {
    match error {
        CaptureError::InvalidFrame(m) | CaptureError::InvalidInput(m) => m,
        other => panic!("unexpected error {other:?}"),
    }
}

const BGRA: TextureLayout = TextureLayout {
    format: BGRA8_UNORM_FORMAT,
    sample_count: 1,
    array_size: 1,
    mip_levels: 1,
};

#[test]
fn size_keeps_positive_dimensions() {
    assert_eq!(
        size(NativeSize {
            width: 640,
            height: 480
        })
        .unwrap(),
        frame(640, 480)
    );
    assert_eq!(
        size(NativeSize {
            width: i32::MAX,
            height: 1
        })
        .unwrap(),
        frame(i32::MAX as u32, 1)
    );
    assert_eq!(
        message(size(NativeSize { width: 0, height: 0 }).unwrap_err()),
        "empty or negative content size"
    );
}

#[test]
fn crop_checks_run_in_order_with_distinct_messages() {
    let full = frame(100, 80);
    let whole = rect(0, 0, 100, 80);
    assert_eq!(
        message(validate_crop(full, frame(99, 80), frame(50, 50), rect(-1, 0, 0, 0)).unwrap_err()),
        "content size changed since capture item creation; retry"
    );
    assert_eq!(
        message(validate_crop(frame(0, 80), frame(0, 80), full, whole).unwrap_err()),
        "content does not fit the source texture"
    );
    assert_eq!(
        message(validate_crop(full, full, full, rect(5, 5, 5, 6)).unwrap_err()),
        "crop is empty or outside valid frame content"
    );
    assert_eq!(
        validate_crop(full, full, full, rect(10, 20, 11, 80)).unwrap(),
        frame(1, 60)
    );
}

#[test]
fn full_content_crop_selects_the_content_size() {
    for (w, h) in [(1, 1), (100, 80), (1920, 1080)] {
        let (content, crop) = frame_context(NativeSize { width: w, height: h }, 0, None).unwrap();
        assert_eq!(crop, rect(0, 0, w, h));
        let texture = frame(w as u32 + 7, h as u32);
        assert_eq!(validate_crop(content, content, texture, crop).unwrap(), content);
    }
}

#[test]
fn frame_context_checks_size_then_time_and_keeps_a_requested_crop() {
    let crop = rect(1, 2, 15, 13);
    assert_eq!(
        frame_context(NativeSize { width: 20, height: 20 }, 5, Some(crop)).unwrap(),
        (frame(20, 20), crop)
    );
    assert_eq!(
        message(frame_context(NativeSize { width: 20, height: 20 }, -1, None).unwrap_err()),
        "negative frame timestamp"
    );
    assert_eq!(
        message(frame_context(NativeSize { width: -3, height: 20 }, -1, None).unwrap_err()),
        "empty or negative content size"
    );
}

#[test]
fn texture_copy_plan_selects_the_crop_box() {
    let plan = plan_texture_copy(frame(30, 20), frame(30, 20), frame(32, 32), BGRA, rect(1, 2, 15, 13))
        .unwrap();
    assert_eq!(plan.texture_size, frame(32, 32));
    assert_eq!(plan.image_size, frame(14, 11));
    assert_eq!(
        plan.region,
        CopyRegion {
            left: 1,
            top: 2,
            right: 15,
            bottom: 13
        }
    );
}

#[test]
fn texture_copy_plan_rejects_other_layouts_after_the_crop_checks() {
    let ok = rect(0, 0, 10, 10);
    for layout in [
        TextureLayout { format: 28, ..BGRA },
        TextureLayout { sample_count: 4, ..BGRA },
        TextureLayout { array_size: 2, ..BGRA },
        TextureLayout { mip_levels: 3, ..BGRA },
    ] {
        assert_eq!(
            message(plan_texture_copy(frame(10, 10), frame(10, 10), frame(10, 10), layout, ok).unwrap_err()),
            "unsupported texture format or layout"
        );
    }
    let bad_layout = TextureLayout { format: 28, ..BGRA };
    assert_eq!(
        message(
            plan_texture_copy(frame(10, 10), frame(10, 10), frame(10, 10), bad_layout, rect(0, 0, 11, 10))
                .unwrap_err()
        ),
        "crop is empty or outside valid frame content"
    );
}

#[test]
fn row_layout_computes_packed_rows_and_span() {
    assert_eq!(row_layout(frame(2, 2), 8).unwrap(), (8, 16));
    assert_eq!(row_layout(frame(3, 4), 16).unwrap(), (12, 60));
    assert_eq!(row_layout(frame(1, 1), 4).unwrap(), (4, 4));
    assert_eq!(
        message(row_layout(frame(0, 2), 8).unwrap_err()),
        "invalid row pitch or image size"
    );
    assert_eq!(
        message(row_layout(frame(2, 0), 8).unwrap_err()),
        "invalid row pitch or image size"
    );
    assert_eq!(
        message(row_layout(frame(2, 2), usize::MAX).unwrap_err()),
        "mapped size overflow"
    );
    assert_eq!(
        message(row_layout(frame(2, 3), isize::MAX as usize / 2 + 1).unwrap_err()),
        "mapped size overflow"
    );
}

#[test]
fn decoding_swaps_blue_and_red_in_every_pixel() {
    let source = [10, 20, 30, 40, 11, 21, 31, 41, 0, 0, 12, 22, 32, 42, 13, 23, 33, 43];
    let pixels = decode_pixels(&source, frame(2, 2), 10).unwrap();
    assert_eq!(
        pixels,
        vec![30, 20, 10, 40, 31, 21, 11, 41, 32, 22, 12, 42, 33, 23, 13, 43]
    );
    let image = decode_rows(&source, frame(2, 2), 10).unwrap();
    assert_eq!((image.width(), image.height()), (2, 2));
    assert_eq!(image.to_rgba8().into_raw(), pixels);
}

#[test]
fn decoding_ignores_what_the_row_padding_holds() {
    let a = [1, 2, 3, 4, 0, 0, 0, 5, 6, 7, 8];
    let b = [1, 2, 3, 4, 9, 9, 9, 5, 6, 7, 8];
    assert_eq!(
        decode_pixels(&a, frame(1, 2), 7).unwrap(),
        decode_pixels(&b, frame(1, 2), 7).unwrap()
    );
}

#[test]
fn decoding_rejects_a_short_buffer() {
    assert_eq!(
        message(decode_pixels(&[0; 15], frame(2, 2), 8).unwrap_err()),
        "mapped buffer is shorter than its rows"
    );
    assert!(decode_pixels(&[0; 16], frame(2, 2), 8).is_ok());
}

#[test]
fn each_frame_wait_outcome_has_its_result() {
    let timeout = Duration::from_millis(250);
    assert!(matches!(
        frame_wait_result::<u8>(FrameWait::Received(Ok(7)), timeout),
        Ok(7)
    ));
    assert!(matches!(
        frame_wait_result::<u8>(FrameWait::Received(Err(CaptureError::Unsupported)), timeout),
        Err(CaptureError::Unsupported)
    ));
    match frame_wait_result::<u8>(FrameWait::TimedOut, timeout) {
        Err(CaptureError::CaptureTimeout(d)) => assert_eq!(d, timeout),
        other => panic!("unexpected {other:?}"),
    }
    assert!(matches!(
        frame_wait_result::<u8>(FrameWait::Disconnected, timeout),
        Err(CaptureError::FrameChannelClosed)
    ));
}

#[test]
fn a_sent_frame_is_received() {
    let (sender, receiver) = sync_channel(1);
    sender.send(Ok(41u32)).unwrap();
    assert!(matches!(receive(&receiver, Duration::from_secs(1)), Ok(41)));
    match receive::<u32>(&receiver, Duration::from_millis(3)) {
        Err(CaptureError::CaptureTimeout(d)) => assert_eq!(d, Duration::from_millis(3)),
        other => panic!("unexpected {other:?}"),
    }
}

#[test]
fn closing_a_session_twice_does_nothing_the_second_time() {
    let mut session = SessionRegistrations::new();
    session.frame_handler = Some(17);
    session.closed_handler = Some(-4);
    assert_eq!(
        session.begin_close(),
        CloseSteps {
            remove_frame_handler: Some(17),
            remove_closed_handler: Some(-4),
            release: true
        }
    );
    assert!(session.closed);
    assert_eq!(
        session.begin_close(),
        CloseSteps {
            remove_frame_handler: None,
            remove_closed_handler: None,
            release: false
        }
    );
}

#[test]
fn closing_skips_handlers_that_were_never_registered() {
    let mut session = SessionRegistrations::new();
    session.closed_handler = Some(3);
    assert_eq!(
        session.begin_close(),
        CloseSteps {
            remove_frame_handler: None,
            remove_closed_handler: Some(3),
            release: true
        }
    );
}

#[test]
fn cleanup_keeps_the_first_failure() {
    assert_eq!(first_failure::<u8>(vec![]), Ok(()));
    assert_eq!(first_failure::<u8>(vec![Ok(()), Ok(())]), Ok(()));
    assert_eq!(first_failure(vec![Ok(()), Err(2), Ok(()), Err(5)]), Err(2));
    assert_eq!(first_failure(vec![Err(9), Err(1)]), Err(9));
}

#[test]
fn window_checks_report_closed_before_minimized() {
    assert!(matches!(check_window(false, true), Err(CaptureError::TargetClosed)));
    assert_eq!(
        message(check_window(true, true).unwrap_err()),
        "cannot capture a minimized window"
    );
    assert!(check_window(true, false).is_ok());
}

#[test]
fn a_zero_timeout_is_rejected() {
    assert_eq!(
        message(check_timeout(&Duration::ZERO).unwrap_err()),
        "capture timeout must be positive"
    );
    assert!(check_timeout(&Duration::from_nanos(1)).is_ok());
}

#[test]
fn window_capture_rect_defaults_to_the_whole_window_at_the_origin() {
    let bounds = rect(100, 50, 460, 290);
    assert_eq!(window_capture_rect(None, bounds), rect(0, 0, 360, 240));
    let requested = rect(1, 2, 15, 13);
    assert_eq!(window_capture_rect(Some(requested), bounds), requested);
}
