use std::sync::mpsc::sync_channel;
use std::time::Duration;
use wincap::capture::{
    decode_pixels, decode_rows, frame_context, frame_wait_result, plan_texture_copy, receive,
    row_layout, size, validate_crop, CaptureError as Error, CaptureSize, CopyRegion, FrameWait,
    NativeSize, Result, TextureLayout, BGRA8_UNORM_FORMAT,
};
use wincap::WindowRect;

const FULL: CaptureSize = CaptureSize {
    width: 100,
    height: 80,
};
const RECT: WindowRect = WindowRect {
    left: 0,
    top: 0,
    right: 100,
    bottom: 80,
};

#[test]
fn accepts_exact_edges_and_larger_texture() {
    assert_eq!(
        validate_crop(
            FULL,
            FULL,
            CaptureSize {
                width: 128,
                height: 128
            },
            RECT
        )
        .unwrap(),
        FULL
    );
    let crop = WindowRect {
        left: 1,
        top: 31,
        right: 99,
        bottom: 79,
    };
    assert_eq!(
        validate_crop(FULL, FULL, FULL, crop).unwrap(),
        CaptureSize {
            width: 98,
            height: 48
        }
    );
}

#[test]
fn rejects_changed_content_and_small_texture() {
    assert!(validate_crop(
        FULL,
        CaptureSize {
            width: 99,
            height: 80
        },
        FULL,
        RECT
    )
    .is_err());
    assert!(validate_crop(
        FULL,
        FULL,
        CaptureSize {
            width: 99,
            height: 80
        },
        RECT
    )
    .is_err());
}

#[test]
fn rejects_empty_negative_and_out_of_bounds_crops() {
    for crop in [
        WindowRect { left: -1, ..RECT },
        WindowRect { top: -1, ..RECT },
        WindowRect { right: 0, ..RECT },
        WindowRect { bottom: 0, ..RECT },
        WindowRect { right: 101, ..RECT },
        WindowRect { bottom: 81, ..RECT },
        WindowRect {
            left: i32::MIN,
            right: i32::MAX,
            ..RECT
        },
    ] {
        assert!(validate_crop(FULL, FULL, FULL, crop).is_err(), "{crop:?}");
    }
}

#[test]
fn rejects_nonpositive_native_sizes() {
    for (width, height) in [(0, 1), (1, 0), (-1, 1), (1, -1)] {
        assert!(size(NativeSize { width, height }).is_err());
    }
}

#[test]
fn decodes_channels_and_skips_row_padding() {
    let image = decode_rows(
        &[1, 2, 3, 4, 99, 99, 99, 99, 5, 6, 7, 8],
        CaptureSize {
            width: 1,
            height: 2,
        },
        8,
    )
    .unwrap();
    assert_eq!(image.to_rgba8().into_raw(), [3, 2, 1, 4, 7, 6, 5, 8]);
}

#[test]
fn rejects_short_rows_buffers_and_overflow() {
    let size = CaptureSize {
        width: 2,
        height: 2,
    };
    assert!(row_layout(size, 7).is_err());
    assert!(row_layout(size, usize::MAX).is_err());
    assert!(decode_rows(&[0; 15], size, 8).is_err());
}

#[test]
fn frame_wait_times_out_and_reports_disconnect() {
    let (sender, receiver) = sync_channel::<Result<()>>(1);
    assert!(matches!(
        receive(&receiver, Duration::from_millis(5)),
        Err(Error::CaptureTimeout(_))
    ));
    drop(sender);
    assert!(matches!(
        receive(&receiver, Duration::from_secs(1)),
        Err(Error::FrameChannelClosed)
    ));
}

#[test]
fn frame_wait_propagates_worker_errors() {
    let (sender, receiver) = sync_channel::<Result<()>>(1);
    sender.send(Err(Error::TargetClosed)).unwrap();
    assert!(matches!(
        receive(&receiver, Duration::from_secs(1)),
        Err(Error::TargetClosed)
    ));
}
