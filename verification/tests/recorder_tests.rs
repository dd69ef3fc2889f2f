use pi_webcam_streamer::config::{Config, ConfigError};
use pi_webcam_streamer::recorder::{
    ffmpeg_args, playlist_file, playlist_temp_file, recorder_action, recorder_start, recorder_step, try_ffmpeg_args, RecorderAction,
    RecorderEvent, RecorderPhase,
};

#[test]
fn ffmpeg_arguments_for_default_settings() {
    let config = Config::default();
    let args = ffmpeg_args(&config, 30, "/tmp/rec", true);
    let expected: Vec<String> = [
        "-loglevel", "error", "-use_wallclock_as_timestamps", "1", "-f", "mjpeg", "-i", "pipe:0",
        "-vf", "format=yuv420p", "-r", "30", "-c:v", "h264_v4l2m2m", "-g", "60", "-b:v", "5M",
        "-f", "hls", "-hls_time", "10", "-hls_segment_type", "fmp4", "-hls_flags",
        "independent_segments+append_list+delete_segments+program_date_time",
        "-hls_segment_filename", "/tmp/rec/segment_%09d.mp4", "-hls_list_size", "4320",
        "/tmp/rec/playlist.m3u8",
    ].iter().map(|s| s.to_string()).collect();
    assert_eq!(args, expected);
}

#[test]
fn ffmpeg_codec_choice() {
    let config = Config::default();
    let args = ffmpeg_args(&config, 5, "r", false);
    assert!(args.windows(2).any(|w| w[0] == "-c:v" && w[1] == "libx264"));
    assert!(args.windows(2).any(|w| w[0] == "-preset" && w[1] == "ultrafast"));
    let mut config = Config::default();
    config.recording_video_codec = Some("mpeg4".to_string());
    let args = ffmpeg_args(&config, 5, "r", true);
    assert!(args.windows(2).any(|w| w[0] == "-c:v" && w[1] == "mpeg4"));
    assert!(!args.iter().any(|a| a == "-preset" || a == "-b:v"));
}

#[test]
fn ffmpeg_argument_errors() {
    let mut config = Config::default();
    config.recording_segment_seconds = 0;
    assert!(matches!(try_ffmpeg_args(&config, 5, "r", true), Err(ConfigError::ZeroSegmentLength)));
    let mut config = Config::default();
    config.recording_retention = "soon".to_string();
    assert!(matches!(try_ffmpeg_args(&config, 5, "r", true), Err(ConfigError::InvalidRetention(_))));
    // a keyframe every two seconds of output, whatever rate the camera was set to
    let mut config = Config::default();
    config.camera_fps = u32::MAX;
    let args = try_ffmpeg_args(&config, u32::MAX, "r", true).ok().unwrap();
    assert!(args.windows(2).any(|w| w[0] == "-g" && w[1] == "8589934590"));
    let args = ffmpeg_args(&Config::default(), 30, "r", true);
    assert!(args.windows(2).any(|w| w[0] == "-g" && w[1] == "60"));
    assert!(try_ffmpeg_args(&Config::default(), 5, "r", true).is_ok());
}

#[test]
fn recorder_loop_decisions() {
    let p = recorder_start();
    assert_eq!(recorder_action(p), RecorderAction::SpawnEncoder);
    let p = recorder_step(p, RecorderEvent::SpawnFailed);
    assert_eq!(recorder_action(p), RecorderAction::Sleep { seconds: 5 });
    let p = recorder_step(p, RecorderEvent::Slept);
    assert_eq!(recorder_action(p), RecorderAction::SpawnEncoder);
    let p = recorder_step(p, RecorderEvent::Spawned);
    assert_eq!(recorder_action(p), RecorderAction::WaitForFrame);
    let p = recorder_step(p, RecorderEvent::EmptyFrame);
    assert_eq!(recorder_action(p), RecorderAction::WaitForFrame);
    let p = recorder_step(p, RecorderEvent::FrameArrived);
    assert_eq!(recorder_action(p), RecorderAction::WriteFrame);
    let p = recorder_step(p, RecorderEvent::Written);
    assert_eq!(p, RecorderPhase::Waiting);
    let p = recorder_step(recorder_step(p, RecorderEvent::FrameArrived), RecorderEvent::WriteFailed);
    assert_eq!(recorder_action(p), RecorderAction::KillEncoder);
    let p = recorder_step(p, RecorderEvent::Killed);
    assert_eq!(recorder_action(p), RecorderAction::SpawnEncoder);
    let p = recorder_step(recorder_step(p, RecorderEvent::Spawned), RecorderEvent::ChannelClosed);
    assert_eq!(recorder_action(p), RecorderAction::KillAndStop);
    assert_eq!(recorder_step(p, RecorderEvent::Spawned), RecorderPhase::Finished);
}

#[test]
fn playlist_files() {
    assert_eq!(playlist_file("/tmp/rec"), "/tmp/rec/playlist.m3u8");
    assert_eq!(playlist_temp_file("/tmp/rec"), "/tmp/rec/playlist.m3u8.tmp");
    // the encoder is told to write the same playlist the manager rewrites
    let args = ffmpeg_args(&Config::default(), 5, "/tmp/rec", true);
    assert_eq!(args.last().unwrap(), &playlist_file("/tmp/rec"));
}

#[test]
fn failed_write_respawns_before_next_write() {
    // drive a run and record which phase each event answered
    let events = [
        RecorderEvent::SpawnFailed,
        RecorderEvent::Slept,
        RecorderEvent::Spawned,
        RecorderEvent::FrameArrived,
        RecorderEvent::WriteFailed,
        RecorderEvent::FrameArrived, // ignored while killing
        RecorderEvent::Killed,
        RecorderEvent::FrameArrived, // ignored while starting
        RecorderEvent::Spawned,
        RecorderEvent::FrameArrived,
        RecorderEvent::Written,
    ];
    let mut p = recorder_start();
    let mut phases = vec![p];
    let mut live: i32 = 0;
    for e in events {
        if p == RecorderPhase::Spawning && e == RecorderEvent::Spawned {
            live += 1;
        }
        if p == RecorderPhase::Restarting && e == RecorderEvent::Killed {
            live -= 1;
        }
        assert!(live <= 1);
        p = recorder_step(p, e);
        phases.push(p);
    }
    let writes: Vec<usize> = phases.iter().enumerate().filter(|(_, q)| **q == RecorderPhase::Writing).map(|(i, _)| i).collect();
    assert_eq!(writes, vec![4, 10]);
    // between the failed write and the next one: a kill, then a start
    assert_eq!(phases[6], RecorderPhase::Restarting);
    assert_eq!(phases[8], RecorderPhase::Spawning);
    assert_eq!(phases[9], RecorderPhase::Waiting);
    assert_eq!(live, 1);
    assert_eq!(p, RecorderPhase::Waiting);
}
