use pi_webcam_streamer::config::{config_file, duration_in_reach, list_size, Config, ConfigError};

fn config_with(retention: &str, segment: u64) -> Config {
    Config {
        camera_index: 0,
        camera_width: 320,
        camera_height: 240,
        camera_fps: 5,
        port: 8080,
        camera_format: "MJPEG".to_string(),
        recording_path: None,
        recording_segment_seconds: segment,
        recording_video_codec: None,
        recording_retention: retention.to_string(),
    }
}

#[test]
fn test_hls_list_size() {
    let config = Config {
        camera_index: 0,
        camera_width: 320,
        camera_height: 240,
        camera_fps: 5,
        port: 8080,
        camera_format: "MJPEG".to_string(),
        recording_path: None,
        recording_segment_seconds: 10,
        recording_video_codec: None,
        recording_retention: "1day".to_string(),
    };
    // 86400 / 10 = 8640
    assert_eq!(config.hls_list_size(), 8640);
}

#[test]
fn default_config_values() {
    let c = Config::default();
    assert_eq!(c.camera_index, 0);
    assert_eq!(c.camera_width, 320);
    assert_eq!(c.camera_height, 240);
    assert_eq!(c.camera_fps, 5);
    assert_eq!(c.port, 8080);
    assert_eq!(c.camera_format, "MJPEG");
    assert!(c.recording_path.is_none());
    assert_eq!(c.recording_segment_seconds, 10);
    assert!(c.recording_video_codec.is_none());
    assert_eq!(c.recording_retention, "12h");
    assert_eq!(c.retention_seconds(), 43200);
    assert_eq!(c.hls_list_size(), 4320);
}

#[test]
fn retention_seconds_of_compound_duration() {
    let c = config_with("7days 12h", 10);
    assert_eq!(c.retention_seconds(), 7 * 86400 + 12 * 3600);
    assert_eq!(c.try_retention_seconds().ok(), Some(7 * 86400 + 12 * 3600));
}

#[test]
fn invalid_retention_is_reported() {
    let c = config_with("twelve hours", 10);
    assert!(c.try_retention_seconds().is_err());
    assert!(matches!(c.try_hls_list_size(), Err(ConfigError::InvalidRetention(_))));
}

#[test]
fn zero_segment_length_is_reported() {
    let c = config_with("12h", 0);
    assert!(matches!(c.try_hls_list_size(), Err(ConfigError::ZeroSegmentLength)));
}

#[test]
fn list_size_rounds_down() {
    assert_eq!(list_size(25, 10), 2);
    assert_eq!(list_size(9, 10), 0);
    assert_eq!(list_size(u64::MAX, 1), u64::MAX);
    // the listed segments never span more than the retention time
    let n = list_size(18_000, 7);
    assert!(n * 7 <= 18_000 && 18_000 < (n + 1) * 7);
}

#[test]
fn default_config_file_text() {
    let text = config_file(&Config::default());
    let expected = "# Camera Settings\n\
camera_index = 0          # e.g., /dev/video0 or 0\n\
camera_width = 320           # Output video width\n\
camera_height = 240          # Output video height\n\
camera_fps = 5           # Frame rate\n\
camera_format = \"MJPEG\"\n\
\n\
# Server Settings\n\
port = 8080               # Web server port\n\
\n\
# Recording Settings (Optional)\n\
# If recording_path is set, background recording is enabled.\n\
# Note: Continuous recording writes a large amount of data. Writing directly to the SD card may cause it to wear out quickly and fail.\n\
# We strongly recommend using an external USB drive (HDD/SSD) or a RAM disk for the recording path.\n\
# recording_path = \"/tmp/recordings\"\n\
# recording_segment_seconds = 10 # Duration of each video segment in seconds\n\
# recording_video_codec = \"libx264\" # Video codec for recording, e.g., libx264, h264_v4l2m2m (for RPi hardware acceleration)\n\
# recording_retention = \"12h\" # Retention duration for recordings, e.g. \"12h\", \"1day\", \"7days 12h\"\n";
    assert_eq!(text, expected);
}

#[test]
fn retention_too_large_for_the_parser_is_refused() {
    // humantime would sum this to u64::MAX seconds plus a carried second
    let c = config_with("18446744073709551615s 500ms 500ms", 10);
    assert!(matches!(c.try_retention_seconds(), Err(ConfigError::RetentionTooLarge)));
    assert!(matches!(c.try_hls_list_size(), Err(ConfigError::RetentionTooLarge)));
    let c = config_with("9999999999999999999s 8446744073709551616s 500ms 500ms", 10);
    assert!(matches!(c.try_hls_list_size(), Err(ConfigError::RetentionTooLarge)));
    // digits joined by whitespace are one number to the parser
    let c = config_with("58454 2046091s", 10);
    assert!(matches!(c.try_retention_seconds(), Err(ConfigError::RetentionTooLarge)));
}

#[test]
fn large_retention_within_the_bound_is_parsed() {
    let c = config_with("100000000000s", 10);
    assert_eq!(c.try_retention_seconds().ok(), Some(100_000_000_000));
    assert_eq!(c.try_hls_list_size().ok(), Some(10_000_000_000));
    let c = config_with("584542046089s", 10);
    assert_eq!(c.try_retention_seconds().ok(), Some(584_542_046_089));
    let c = config_with("584542046090s", 10);
    assert!(matches!(c.try_retention_seconds(), Err(ConfigError::RetentionTooLarge)));
    let c = config_with("3000y 1.5d", 10);
    assert_eq!(c.try_retention_seconds().ok(), Some(3000 * 31_557_600 + 129_600));
}

#[test]
fn number_bounds() {
    // groups 7 and 12: (7 + 1) + (12 + 1)
    assert!(duration_in_reach("7days 12h"));
    assert!(duration_in_reach(""));
    assert!(duration_in_reach("584542046089s"));
    assert!(!duration_in_reach("584542046090s"));
    // 1 and 5 are two groups, split by the fraction's dot: 2 + 6 + 21
    assert!(duration_in_reach("1.5µs 20y"));
    assert!(!duration_in_reach("584542046088s 1s"));
    assert!(duration_in_reach("584542046087s 1s"));
}
