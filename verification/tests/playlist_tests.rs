use pi_webcam_streamer::config::Config;
use pi_webcam_streamer::playlist::{
    check_ages_fit, playlist_window, render_playlist, segment_time_of, select_segments, sort_segments, trim_mp4_suffix,
    DirEntry, PlanError, Segment,
};
use pi_webcam_streamer::recorder::playlist_period_secs;

fn file(name: &str) -> DirEntry {
    DirEntry { name: name.to_string(), is_file: true }
}

fn strings(v: &[&str]) -> Vec<String> {
    v.iter().map(|s| s.to_string()).collect()
}

/// Segments named after their times.
fn segments(times: &[i64]) -> Vec<Segment> {
    times.iter().map(|t| Segment { time: *t, name: format!("{}.mp4", t) }).collect()
}

fn names(v: &[Segment]) -> Vec<String> {
    v.iter().map(|s| s.name.clone()).collect()
}

fn timed(v: &[Segment]) -> Vec<(i64, String)> {
    v.iter().map(|s| (s.time, s.name.clone())).collect()
}

fn now_timestamp() -> i64 {
    std::time::SystemTime::now()
        .duration_since(std::time::UNIX_EPOCH)
        .unwrap()
        .as_secs() as i64
}

#[test]
fn test_manage_playlist_retention() {
    // Config setup: 5 hours retention
    let mut config = Config::default();
    config.recording_retention = "5h".to_string();
    config.recording_segment_seconds = 10;

    let now_ts = now_timestamp();

    // File 1: 10 hours ago (should be deleted)
    let time_10h_ago = now_ts - (10 * 3600);
    let file_10h_ago = format!("{}.mp4", time_10h_ago);
    // File 2: 1 hour ago (should be kept)
    let time_1h_ago = now_ts - (1 * 3600);
    let file_1h_ago = format!("{}.mp4", time_1h_ago);

    let entries = vec![file(&file_10h_ago), file(&file_1h_ago)];
    let plan = config.plan_playlist(&entries, now_ts);

    assert!(plan.expired.contains(&file_10h_ago), "Old file {} should be deleted", file_10h_ago);
    assert!(!plan.expired.contains(&file_1h_ago), "New file {} should be kept", file_1h_ago);

    let expected_sequence = time_1h_ago / config.recording_segment_seconds as i64;
    let expected_playlist = format!(
        "#EXTM3U\n#EXT-X-VERSION:7\n#EXT-X-TARGETDURATION:10\n#EXT-X-MEDIA-SEQUENCE:{}\n#EXT-X-PLAYLIST-TYPE:EVENT\n#EXT-X-MAP:URI=\"init.mp4\"\n#EXTINF:10.0000,\n{}\n",
        expected_sequence,
        file_1h_ago
    );
    assert_eq!(plan.playlist, Some(expected_playlist), "The playlist content does not match expected output");
}

#[test]
fn segment_names_and_times() {
    assert_eq!(segment_time_of(&file("1771655874.mp4")), Some(1771655874));
    assert_eq!(segment_time_of(&file("-5.mp4")), Some(-5));
    assert_eq!(segment_time_of(&file("12.mp4.mp4")), Some(12));
    assert_eq!(segment_time_of(&file("init.mp4")), None);
    assert_eq!(segment_time_of(&file("segment_000000001.mp4")), None);
    assert_eq!(segment_time_of(&file("12.m4s")), None);
    assert_eq!(segment_time_of(&file("playlist.m3u8")), None);
    assert_eq!(segment_time_of(&DirEntry { name: "12.mp4".to_string(), is_file: false }), None);
    assert_eq!(trim_mp4_suffix("a.mp4.mp4"), "a");
    assert_eq!(trim_mp4_suffix(".mp4"), "");
}

#[test]
fn selection_keeps_directory_order_and_ignores_other_files() {
    let entries = vec![file("300.mp4"), file("init.mp4"), file("100.mp4"), file("notes.txt"), file("250.mp4"),
        DirEntry { name: "50.mp4".to_string(), is_file: false }];
    // at 400 with retention 200: ages 100, 300, 150
    let (expired, kept) = select_segments(&entries, 400, 200);
    assert_eq!(expired, strings(&["100.mp4"]));
    assert_eq!(timed(&kept), vec![(300, "300.mp4".to_string()), (250, "250.mp4".to_string())]);
    // an age equal to the retention time is kept
    let (expired, kept) = select_segments(&vec![file("200.mp4")], 400, 200);
    assert!(expired.is_empty());
    assert_eq!(timed(&kept), vec![(200, "200.mp4".to_string())]);
    // a retention above i64::MAX wraps to a negative limit, as `as i64` does
    let (expired, _) = select_segments(&vec![file("400.mp4")], 400, u64::MAX);
    assert_eq!(expired, strings(&["400.mp4"]));
}

#[test]
fn window_sorts_chronologically_and_keeps_the_latest() {
    let kept = segments(&[999, 1001, 1000]);
    assert_eq!(names(&playlist_window(&kept, 2)), strings(&["1000.mp4", "1001.mp4"]));
    assert_eq!(names(&playlist_window(&kept, 10)), strings(&["999.mp4", "1000.mp4", "1001.mp4"]));
    assert!(playlist_window(&kept, 0).is_empty());
    // equal times are ordered by name
    let tied = vec![
        Segment { time: 10, name: "10.mp4".to_string() },
        Segment { time: 10, name: "010.mp4".to_string() },
        Segment { time: -3, name: "-3.mp4".to_string() },
    ];
    assert_eq!(names(&sort_segments(&tied)), strings(&["-3.mp4", "010.mp4", "10.mp4"]));
}

#[test]
fn playlist_of_999_and_1000_starts_at_999() {
    let mut config = Config::default();
    config.recording_retention = "1h".to_string();
    config.recording_segment_seconds = 10;
    let plan = config.plan_playlist(&vec![file("1000.mp4"), file("999.mp4")], 1005);
    let text = plan.playlist.unwrap();
    assert!(text.contains("#EXT-X-MEDIA-SEQUENCE:99\n"));
    assert!(text.find("999.mp4").unwrap() < text.find("1000.mp4").unwrap());
}

#[test]
fn playlist_text_for_several_segments() {
    let listed = segments(&[1771655870, 1771655880]);
    let text = render_playlist(&listed, 10).unwrap();
    assert_eq!(text, "#EXTM3U\n#EXT-X-VERSION:7\n#EXT-X-TARGETDURATION:10\n#EXT-X-MEDIA-SEQUENCE:177165587\n#EXT-X-PLAYLIST-TYPE:EVENT\n#EXT-X-MAP:URI=\"init.mp4\"\n#EXTINF:10.0000,\n1771655870.mp4\n#EXTINF:10.0000,\n1771655880.mp4\n");
    assert_eq!(render_playlist(&Vec::new(), 10), None);
    // negative times divide toward zero
    let text = render_playlist(&segments(&[-15]), 10).unwrap();
    assert!(text.contains("#EXT-X-MEDIA-SEQUENCE:-1\n"));
}

#[test]
fn no_playlist_without_segments() {
    let config = Config::default();
    let plan = config.plan_playlist(&vec![file("init.mp4")], 1000);
    assert!(plan.expired.is_empty());
    assert!(plan.playlist.is_none());
}

#[test]
fn playlist_holds_at_most_the_list_size() {
    let mut config = Config::default();
    config.recording_retention = "30s".to_string();
    config.recording_segment_seconds = 10;
    let entries = vec![file("100.mp4"), file("110.mp4"), file("120.mp4"), file("130.mp4")];
    let plan = config.plan_playlist(&entries, 130);
    let text = plan.playlist.unwrap();
    assert_eq!(text.matches("#EXTINF").count(), 3);
    assert!(!text.contains("100.mp4"));
    assert!(text.contains("#EXT-X-MEDIA-SEQUENCE:11\n"));
}

#[test]
fn plan_errors() {
    let mut config = Config::default();
    config.recording_retention = "soon".to_string();
    assert!(matches!(config.try_plan_playlist(&vec![], 0), Err(PlanError::Config(_))));
    let config = Config::default();
    let far = vec![file("-9223372036854775808.mp4")];
    assert!(!check_ages_fit(&far, 1));
    assert!(matches!(config.try_plan_playlist(&far, 1), Err(PlanError::AgeOverflow)));
    assert!(config.try_plan_playlist(&vec![file("5.mp4")], 1).is_ok());
}

#[test]
fn playlist_runs_twice_per_segment() {
    assert_eq!(playlist_period_secs(&Config::default()), 5);
}
