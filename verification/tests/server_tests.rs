use pi_webcam_streamer::camera::{capture_next, capture_start, encode_frame, frame_format_for, CaptureStep, PixelFormat};
use pi_webcam_streamer::server::{asset_path, listen_address, mjpeg_part, static_route, StaticRoute};
use pi_webcam_streamer::service::{service_unit, working_directory, SERVICE_FILE_PATH, SERVICE_NAME};

#[test]
fn asset_paths_and_routes() {
    assert_eq!(asset_path("/"), "");
    assert_eq!(asset_path("//app/main.js"), "app/main.js");
    for (path, found) in [("", false), ("", true), ("settings", false)] {
        match static_route(path, found) {
            StaticRoute::Serve { path, content_type } => {
                assert_eq!(path, "index.html");
                assert_eq!(content_type, "text/html");
            }
            StaticRoute::NotFound => panic!("expected the index"),
        }
    }
    assert!(matches!(static_route("missing.js", false), StaticRoute::NotFound));
    match static_route("app/main.js", true) {
        StaticRoute::Serve { path, content_type } => {
            assert_eq!(path, "app/main.js");
            assert_eq!(content_type, "text/javascript");
        }
        _ => panic!("expected an asset"),
    }
    match static_route("favicon.png", true) {
        StaticRoute::Serve { content_type, .. } => assert_eq!(content_type, "image/png"),
        _ => panic!("expected an asset"),
    }
    match static_route("LICENSE", true) {
        StaticRoute::Serve { content_type, .. } => assert_eq!(content_type, "application/octet-stream"),
        _ => panic!("expected an asset"),
    }
}

#[test]
fn mjpeg_parts() {
    let frame = vec![0xffu8, 0xd8, 0x00, 0xff, 0xd9];
    let part = mjpeg_part(&frame);
    let mut expected = b"--frame\r\nContent-Type: image/jpeg\r\nContent-Length: 5\r\n\r\n".to_vec();
    expected.extend_from_slice(&frame);
    expected.extend_from_slice(b"\r\n");
    assert_eq!(part, expected);
    assert_eq!(mjpeg_part(&[]), b"--frame\r\nContent-Type: image/jpeg\r\nContent-Length: 0\r\n\r\n\r\n".to_vec());
}

#[test]
fn listen_addresses() {
    assert_eq!(listen_address(8080), "0.0.0.0:8080");
    assert_eq!(listen_address(0), "0.0.0.0:0");
}

#[test]
fn service_unit_text() {
    assert_eq!(SERVICE_NAME, "pi-webcam-streamer");
    assert_eq!(SERVICE_FILE_PATH, "/etc/systemd/system/pi-webcam-streamer.service");
    assert_eq!(working_directory("/usr/local/bin/pi-webcam-streamer"), "/usr/local/bin");
    assert_eq!(working_directory("/"), "/");
    let unit = service_unit("/usr/local/bin/pi-webcam-streamer");
    assert_eq!(unit, "[Unit]\nDescription=Pi Webcam Streamer\nAfter=network.target\n\n[Service]\nType=simple\nUser=root\nWorkingDirectory=/usr/local/bin\nExecStart=/usr/local/bin/pi-webcam-streamer\nRestart=always\nRestartSec=5\n\n[Install]\nWantedBy=multi-user.target\n");
}

#[test]
fn camera_formats() {
    assert!(frame_format_for("MJPEG") == (PixelFormat::Mjpeg, true));
    assert!(frame_format_for("YUYV") == (PixelFormat::Yuyv, true));
    assert!(frame_format_for("GRAY") == (PixelFormat::Gray, true));
    assert!(frame_format_for("RAWRGB") == (PixelFormat::RawRgb, true));
    assert!(frame_format_for("RGB24") == (PixelFormat::RawRgb, true));
    assert!(frame_format_for("mjpeg") == (PixelFormat::Mjpeg, false));
}

#[test]
fn capture_loop_steps() {
    let s = capture_start();
    assert!(s == CaptureStep::Capture);
    assert!(capture_next(s, false) == CaptureStep::Pause { millis: 100 });
    assert!(capture_next(CaptureStep::Pause { millis: 100 }, true) == CaptureStep::Capture);
    assert!(capture_next(s, true) == CaptureStep::Convert);
    assert!(capture_next(CaptureStep::Convert, true) == CaptureStep::Encode { quality: 80 });
    assert!(capture_next(CaptureStep::Convert, false) == CaptureStep::Capture);
    assert!(capture_next(CaptureStep::Encode { quality: 80 }, true) == CaptureStep::Publish);
    assert!(capture_next(CaptureStep::Encode { quality: 80 }, false) == CaptureStep::Capture);
    assert!(capture_next(CaptureStep::Publish, true) == CaptureStep::Capture);
}

#[test]
fn publish_follows_capture_convert_encode() {
    let outcomes = [true, true, true, true, false, true, true, false, true, true, true];
    let mut steps = vec![capture_start()];
    for ok in outcomes {
        let next = capture_next(*steps.last().unwrap(), ok);
        steps.push(next);
    }
    for i in 0..steps.len() {
        if steps[i] == CaptureStep::Publish {
            assert!(i >= 3);
            assert!(steps[i - 3] == CaptureStep::Capture && outcomes[i - 3]);
            assert!(steps[i - 2] == CaptureStep::Convert && outcomes[i - 2]);
            assert!(steps[i - 1] == CaptureStep::Encode { quality: 80 } && outcomes[i - 1]);
        }
        if let CaptureStep::Pause { millis } = steps[i] {
            assert_eq!(millis, 100);
            assert!(steps[i - 1] == CaptureStep::Capture && !outcomes[i - 1]);
        }
    }
    assert_eq!(steps.iter().filter(|s| **s == CaptureStep::Publish).count(), 2);
}

#[test]
fn frames_are_encoded_as_jpeg() {
    let (w, h) = (16u32, 8u32);
    let rgb: Vec<u8> = (0..w * h * 3).map(|i| (i % 251) as u8).collect();
    let jpeg = encode_frame(w, h, &rgb, 80).unwrap();
    assert_eq!(&jpeg[..2], &[0xFF, 0xD8]);
    assert_eq!(&jpeg[jpeg.len() - 2..], &[0xFF, 0xD9]);
    assert_ne!(jpeg, rgb);
    // the same bytes as the encoder gives an RGB image buffer
    let img = image::RgbImage::from_raw(w, h, rgb.clone()).unwrap();
    let mut direct = Vec::new();
    image::codecs::jpeg::JpegEncoder::new_with_quality(&mut direct, 80)
        .encode_image(&image::DynamicImage::ImageRgb8(img))
        .unwrap();
    assert_eq!(jpeg, direct);
    // a buffer of the wrong length, or an empty image, gives none
    assert!(encode_frame(w, h, &rgb[1..], 80).is_none());
    assert!(encode_frame(0, 5, &[], 80).is_none());
    assert!(encode_frame(70000, 1, &vec![0u8; 210000], 80).is_none());
}
