use pi_webcam_streamer::cleaner::{is_mp4_file_name, sort_oldest_first, CleanupAction, CleanupRun, Cleaner, RecordingFile};
use pi_webcam_streamer::config::Config;

const NANOS: i128 = 1_000_000_000;

fn rec(path: &str, modified_secs: i128, size: u64) -> RecordingFile {
    RecordingFile { path: path.to_string(), modified_nanos: modified_secs * NANOS, size }
}

/// Drives a run, with the given outcome for each deletion, and returns the
/// paths it asked to delete, in order.
fn drive(run: &mut CleanupRun, outcome: impl Fn(&str) -> bool) -> Vec<String> {
    let mut asked = Vec::new();
    loop {
        match run.next_action() {
            CleanupAction::Delete { index } => {
                let path = run.files[index].path.clone();
                let ok = outcome(&path);
                asked.push(path);
                run.report_deletion(ok);
            }
            CleanupAction::Finished => return asked,
            CleanupAction::TotalOverflow => panic!("total overflow"),
        }
    }
}

fn cleaner(days: u64, mb: u64) -> Cleaner {
    let mut config = Config::default();
    config.recording_path = Some("/tmp/recordings".to_string());
    Cleaner::new(config, days, mb)
}

#[test]
fn test_cleanup() {
    let cleaner = cleaner(1, 1); // 1 day, 1 MB
    let now: i128 = 1_771_655_874;
    let files = vec![
        // File 1: Old, small, two days old
        rec("old.mp4", now - 2 * 24 * 3600, 1000),
        // File 2: New, large (2MB), 60 seconds old
        rec("new_large.mp4", now - 60, 2 * 1024 * 1024),
        // File 3: New, small, now
        rec("new_small.mp4", now, 1000),
    ];
    let mut run = cleaner.start_cleanup(files, now * NANOS);
    let deleted = drive(&mut run, |_| true);
    // File 1 goes for retention, then File 2 (older than File 3) for space.
    assert_eq!(deleted, vec!["old.mp4".to_string(), "new_large.mp4".to_string()]);
    assert_eq!(run.total, 1000);
}

#[test]
fn failed_deletions_keep_counting() {
    let cleaner = cleaner(1, 1);
    let now: i128 = 10_000_000;
    let files = vec![
        rec("a.mp4", now - 100, 700 * 1024),
        rec("b.mp4", now - 50, 700 * 1024),
        rec("c.mp4", now - 10, 700 * 1024),
    ];
    let mut run = cleaner.start_cleanup(files, now * NANOS);
    // deleting a.mp4 fails, so b.mp4 and c.mp4 must go, and a.mp4 still counts
    let deleted = drive(&mut run, |p| p != "a.mp4");
    assert_eq!(deleted, vec!["a.mp4".to_string(), "b.mp4".to_string(), "c.mp4".to_string()]);
    assert_eq!(run.total, 700 * 1024);
}

#[test]
fn stale_file_that_cannot_be_deleted_counts_toward_space() {
    let cleaner = cleaner(1, 0);
    let now: i128 = 10_000_000;
    let files = vec![rec("stale.mp4", now - 3 * 86400, 10), rec("fresh.mp4", now, 10)];
    let mut run = cleaner.start_cleanup(files, now * NANOS);
    let deleted = drive(&mut run, |p| p != "stale.mp4");
    // retention tries stale.mp4 (fails); space tries stale.mp4 again, then fresh.mp4
    assert_eq!(deleted, vec!["stale.mp4".to_string(), "stale.mp4".to_string(), "fresh.mp4".to_string()]);
    assert_eq!(run.total, 10);
}

#[test]
fn nothing_to_do_within_limits() {
    let cleaner = cleaner(1, 1);
    let now: i128 = 10_000_000;
    let mut run = cleaner.start_cleanup(vec![rec("x.mp4", now - 10, 10)], now * NANOS);
    assert_eq!(drive(&mut run, |_| true), Vec::<String>::new());
    // a file modified in the future is not stale
    let mut run = cleaner.start_cleanup(vec![rec("y.mp4", now + 5 * 86400, 10)], now * NANOS);
    assert_eq!(drive(&mut run, |_| true), Vec::<String>::new());
}

#[test]
fn total_overflow_is_reported() {
    let cleaner = cleaner(1, 1);
    let mut run = cleaner.start_cleanup(vec![rec("a.mp4", 0, u64::MAX), rec("b.mp4", 0, 1)], 0);
    assert_eq!(run.next_action(), CleanupAction::TotalOverflow);
}

#[test]
fn oldest_first_is_stable() {
    let files = vec![rec("a", 5, 1), rec("b", 3, 1), rec("c", 5, 1), rec("d", -1, 1)];
    assert_eq!(sort_oldest_first(&files), vec![3, 1, 0, 2]);
}

#[test]
fn limits_and_extensions() {
    assert!(cleaner(1, 1).check_limits());
    assert!(!cleaner(u64::MAX, 1).check_limits());
    assert!(!cleaner(1, u64::MAX).check_limits());
    assert!(is_mp4_file_name("a.mp4"));
    assert!(is_mp4_file_name("..mp4"));
    assert!(!is_mp4_file_name(".mp4"));
    assert!(!is_mp4_file_name("a.MP4"));
    assert!(!is_mp4_file_name("a.mp4.part"));
    for name in ["a.mp4", "..mp4", ".mp4", "a.MP4", "mp4", "a.mp4.part"] {
        let std_says = std::path::Path::new(name).extension().map_or(false, |e| e == "mp4");
        assert_eq!(is_mp4_file_name(name), std_says, "{}", name);
    }
}

#[test]
fn second_cleanup_deletes_nothing() {
    let cleaner = cleaner(1, 1);
    let now: i128 = 1_771_655_874;
    let make = || {
        vec![
            rec("old.mp4", now - 2 * 86400, 1000),
            rec("new_large.mp4", now - 60, 2 * 1024 * 1024),
            rec("mid.mp4", now - 30, 600 * 1024),
            rec("new_small.mp4", now, 1000),
        ]
    };
    let mut first = cleaner.start_cleanup(make(), now * NANOS);
    let deleted = drive(&mut first, |_| true);
    assert_eq!(deleted, vec!["old.mp4".to_string(), "new_large.mp4".to_string()]);
    // the files left, listed in another order
    let left: Vec<RecordingFile> = make().into_iter().filter(|f| !deleted.contains(&f.path)).rev().collect();
    assert_eq!(left.len(), 2);
    let mut second = cleaner.start_cleanup(left, now * NANOS);
    assert_eq!(second.next_action(), CleanupAction::Finished);
    assert_eq!(drive(&mut second, |_| true), Vec::<String>::new());
}
