//! The background recorder: the encoder's command line, and the decisions
//! of the loop that feeds camera frames to it.
use vstd::prelude::*;
use crate::config::{Config, ConfigError};
use crate::text::{decimal, u64_to_decimal};

verus! {

/// The video codec: the configured one, else the hardware encoder on Linux
/// and the software encoder elsewhere.
pub open spec fn video_codec(c: &Config, on_linux: bool) -> Seq<char> {
    match c.recording_video_codec {
        Some(codec) => codec@,
        None => if on_linux { "h264_v4l2m2m"@ } else { "libx264"@ },
    }
}

/// Options that go with the codec: a bit rate for the hardware encoder, the
/// fastest preset for the software encoder.
pub open spec fn codec_options(codec: Seq<char>) -> Seq<Seq<char>> {
    if codec == "h264_v4l2m2m"@ {
        seq!["-b:v"@, "5M"@]
    } else if codec == "libx264"@ {
        seq!["-preset"@, "ultrafast"@]
    } else {
        seq![]
    }
}

/// The arguments of the `ffmpeg` process that encodes MJPEG frames from its
/// standard input into HLS segments under `path`.
pub open spec fn ffmpeg_arguments(c: &Config, fps: u32, path: Seq<char>, on_linux: bool) -> Seq<Seq<char>> {
    seq![
        "-loglevel"@, "error"@,
        "-use_wallclock_as_timestamps"@, "1"@, "-f"@, "mjpeg"@, "-i"@, "pipe:0"@,
        "-vf"@, "format=yuv420p"@,
        "-r"@, decimal(fps as nat),
        "-c:v"@, video_codec(c, on_linux),
        "-g"@, decimal((fps * 2) as nat),
    ] + codec_options(video_codec(c, on_linux)) + seq![
        "-f"@, "hls"@,
        "-hls_time"@, decimal(c.recording_segment_seconds as nat),
        "-hls_segment_type"@, "fmp4"@,
        "-hls_flags"@, "independent_segments+append_list+delete_segments+program_date_time"@,
        "-hls_segment_filename"@, path + "/segment_%09d.mp4"@,
        "-hls_list_size"@, decimal(c.hls_list_size_spec() as nat),
        playlist_file_text(path),
    ]
}

/// The command line's layout: the output rate `fps`, the codec in use, a
/// keyframe every two seconds of output, and the options that follow the
/// codec in use wherever it came from (configured or the platform default):
/// `-b:v 5M` for the hardware encoder, `-preset ultrafast` for libx264, none
/// for any other codec, before the HLS output options; and at the end, the
/// segment length, the HLS list size and the playlist file.
pub proof fn lemma_ffmpeg_argument_layout(c: &Config, fps: u32, path: Seq<char>, on_linux: bool)
    ensures
        ffmpeg_arguments(c, fps, path, on_linux)[10] == "-r"@,
        ffmpeg_arguments(c, fps, path, on_linux)[11] == decimal(fps as nat),
        ffmpeg_arguments(c, fps, path, on_linux)[12] == "-c:v"@,
        ffmpeg_arguments(c, fps, path, on_linux)[13] == video_codec(c, on_linux),
        ffmpeg_arguments(c, fps, path, on_linux)[14] == "-g"@,
        ffmpeg_arguments(c, fps, path, on_linux)[15] == decimal(2 * fps as nat),
        video_codec(c, on_linux) == "libx264"@ ==> ffmpeg_arguments(c, fps, path, on_linux)[16] == "-preset"@
            && ffmpeg_arguments(c, fps, path, on_linux)[17] == "ultrafast"@
            && ffmpeg_arguments(c, fps, path, on_linux)[18] == "-f"@,
        video_codec(c, on_linux) == "h264_v4l2m2m"@ ==> ffmpeg_arguments(c, fps, path, on_linux)[16] == "-b:v"@
            && ffmpeg_arguments(c, fps, path, on_linux)[17] == "5M"@
            && ffmpeg_arguments(c, fps, path, on_linux)[18] == "-f"@,
        video_codec(c, on_linux) != "libx264"@ && video_codec(c, on_linux) != "h264_v4l2m2m"@
            ==> ffmpeg_arguments(c, fps, path, on_linux)[16] == "-f"@,
        c.recording_video_codec is None ==> video_codec(c, on_linux)
            == (if on_linux { "h264_v4l2m2m"@ } else { "libx264"@ }),
        c.recording_video_codec matches Some(codec) ==> video_codec(c, on_linux) == codec@,
        ffmpeg_arguments(c, fps, path, on_linux).len() >= 29,
        ffmpeg_arguments(c, fps, path, on_linux)[ffmpeg_arguments(c, fps, path, on_linux).len() - 11] == "-hls_time"@,
        ffmpeg_arguments(c, fps, path, on_linux)[ffmpeg_arguments(c, fps, path, on_linux).len() - 10]
            == decimal(c.recording_segment_seconds as nat),
        ffmpeg_arguments(c, fps, path, on_linux)[ffmpeg_arguments(c, fps, path, on_linux).len() - 3] == "-hls_list_size"@,
        ffmpeg_arguments(c, fps, path, on_linux)[ffmpeg_arguments(c, fps, path, on_linux).len() - 2]
            == decimal(c.hls_list_size_spec() as nat),
        ffmpeg_arguments(c, fps, path, on_linux)[ffmpeg_arguments(c, fps, path, on_linux).len() - 1]
            == path + "/playlist.m3u8"@,
{
    let args = ffmpeg_arguments(c, fps, path, on_linux);
    let codec = video_codec(c, on_linux);
    reveal_strlit("libx264");
    reveal_strlit("h264_v4l2m2m");
    assert("libx264"@[0] != "h264_v4l2m2m"@[0]);
    if codec == "h264_v4l2m2m"@ {
        assert(codec_options(codec) == seq!["-b:v"@, "5M"@]);
    } else if codec == "libx264"@ {
        assert(codec_options(codec) == seq!["-preset"@, "ultrafast"@]);
    } else {
        assert(codec_options(codec) == Seq::<Seq<char>>::empty());
    }
}

/// The HLS playlist in the recording directory `path`.
pub open spec fn playlist_file_text(path: Seq<char>) -> Seq<char> {
    path + "/playlist.m3u8"@
}

/// The file the playlist manager writes before renaming it over the playlist.
pub open spec fn playlist_temp_file_text(path: Seq<char>) -> Seq<char> {
    path + "/playlist.m3u8.tmp"@
}

/// The playlist's path in the recording directory.
pub fn playlist_file(path: &str) -> (r: String)
    ensures
        r@ == playlist_file_text(path@),
{
    concat(path, "/playlist.m3u8")
}

/// The playlist manager's temporary file in the recording directory.
pub fn playlist_temp_file(path: &str) -> (r: String)
    ensures
        r@ == playlist_temp_file_text(path@),
{
    concat(path, "/playlist.m3u8.tmp")
}

fn push_text(v: &mut Vec<String>, s: &str)
    ensures
        final(v)@.len() == old(v)@.len() + 1,
        forall|k: int| 0 <= k < old(v)@.len() ==> final(v)@[k] == old(v)@[k],
        final(v)@[old(v)@.len() as int]@ == s@,
{
    v.push(String::from_str(s));
}

fn concat(a: &str, b: &str) -> (r: String)
    ensures
        r@ == a@ + b@,
{
    let mut s = String::from_str(a);
    s.append(b);
    s
}

/// The character sequences of a vector of strings.
pub open spec fn arg_views(v: Seq<String>) -> Seq<Seq<char>> {
    v.map_values(|s: String| s@)
}

/// Builds the encoder's arguments for frames at `fps` recorded under `path`:
/// the output rate is `fps`, and a keyframe comes every two seconds of it.
pub fn ffmpeg_args(c: &Config, fps: u32, path: &str, on_linux: bool) -> (r: Vec<String>)
    requires
        c.recording_valid(),
    ensures
        arg_views(r@) == ffmpeg_arguments(c, fps, path@, on_linux),
{
    let list_size = c.hls_list_size();
    let mut v: Vec<String> = Vec::new();
    push_text(&mut v, "-loglevel");
    push_text(&mut v, "error");
    push_text(&mut v, "-use_wallclock_as_timestamps");
    push_text(&mut v, "1");
    push_text(&mut v, "-f");
    push_text(&mut v, "mjpeg");
    push_text(&mut v, "-i");
    push_text(&mut v, "pipe:0");
    push_text(&mut v, "-vf");
    push_text(&mut v, "format=yuv420p");
    push_text(&mut v, "-r");
    v.push(u64_to_decimal(fps as u64));
    push_text(&mut v, "-c:v");
    let codec: &str = match &c.recording_video_codec {
        Some(codec) => codec.as_str(),
        None => if on_linux { "h264_v4l2m2m" } else { "libx264" },
    };
    assert(codec@ == video_codec(c, on_linux));
    push_text(&mut v, codec);
    push_text(&mut v, "-g");
    v.push(u64_to_decimal(fps as u64 * 2));
    let ghost head = arg_views(v@);
    if crate::text::str_eq(codec, "h264_v4l2m2m") {
        push_text(&mut v, "-b:v");
        push_text(&mut v, "5M");
    } else if crate::text::str_eq(codec, "libx264") {
        push_text(&mut v, "-preset");
        push_text(&mut v, "ultrafast");
    }
    assert(arg_views(v@) =~= head + codec_options(codec@));
    let ghost middle = arg_views(v@);
    push_text(&mut v, "-f");
    push_text(&mut v, "hls");
    push_text(&mut v, "-hls_time");
    v.push(u64_to_decimal(c.recording_segment_seconds));
    push_text(&mut v, "-hls_segment_type");
    push_text(&mut v, "fmp4");
    push_text(&mut v, "-hls_flags");
    push_text(&mut v, "independent_segments+append_list+delete_segments+program_date_time");
    push_text(&mut v, "-hls_segment_filename");
    v.push(concat(path, "/segment_%09d.mp4"));
    push_text(&mut v, "-hls_list_size");
    v.push(u64_to_decimal(list_size));
    v.push(playlist_file(path));
    assert(arg_views(v@) =~= ffmpeg_arguments(c, fps, path@, on_linux));
    v
}

/// `ffmpeg_args`, or why the settings cannot give a command line.
pub fn try_ffmpeg_args(c: &Config, fps: u32, path: &str, on_linux: bool) -> (r: Result<Vec<String>, ConfigError>)
    ensures
        r is Ok <==> c.recording_valid(),
        r matches Ok(v) ==> arg_views(v@) == ffmpeg_arguments(c, fps, path@, on_linux),
        r matches Err(e) ==> c.gives_error(e),
{
    match c.try_hls_list_size() {
        Err(e) => Err(e),
        Ok(_) => Ok(ffmpeg_args(c, fps, path, on_linux)),
    }
}

/// How often the playlist manager runs, in seconds: twice per segment.
pub fn playlist_period_secs(c: &Config) -> (r: u64)
    ensures
        r == c.recording_segment_seconds / 2,
{
    c.recording_segment_seconds / 2
}

/// Where the recorder's loop stands.
#[derive(PartialEq, Eq, Structural, Clone, Copy, Debug)]
pub enum RecorderPhase {
    /// No encoder runs; one is to be started.
    Spawning,
    /// Starting the encoder failed; waiting before the next try.
    BackingOff,
    /// An encoder runs; waiting for the next camera frame.
    Waiting,
    /// An encoder runs; a frame is being written to it.
    Writing,
    /// Writing failed; the encoder is being killed, to be started again.
    Restarting,
    /// The frame channel closed; the encoder is killed and the loop ends.
    Finished,
}

/// What the recorder's loop does next.
#[derive(PartialEq, Eq, Structural, Clone, Copy, Debug)]
pub enum RecorderAction {
    /// Start the encoder process.
    SpawnEncoder,
    /// Sleep this many seconds.
    Sleep { seconds: u64 },
    /// Wait until the camera's frame changes.
    WaitForFrame,
    /// Write the current frame to the encoder's input.
    WriteFrame,
    /// Kill the encoder.
    KillEncoder,
    /// Kill the encoder and stop recording.
    KillAndStop,
}

/// What happened when the loop did its last action.
#[derive(PartialEq, Eq, Structural, Clone, Copy, Debug)]
pub enum RecorderEvent {
    Spawned,
    SpawnFailed,
    Slept,
    /// The frame changed and holds an image.
    FrameArrived,
    /// The frame changed to no image.
    EmptyFrame,
    ChannelClosed,
    Written,
    WriteFailed,
    Killed,
}

/// The loop's action in each phase.
pub open spec fn action_of(phase: RecorderPhase) -> RecorderAction {
    match phase {
        RecorderPhase::Spawning => RecorderAction::SpawnEncoder,
        RecorderPhase::BackingOff => RecorderAction::Sleep { seconds: 5 },
        RecorderPhase::Waiting => RecorderAction::WaitForFrame,
        RecorderPhase::Writing => RecorderAction::WriteFrame,
        RecorderPhase::Restarting => RecorderAction::KillEncoder,
        RecorderPhase::Finished => RecorderAction::KillAndStop,
    }
}

/// The phase after `event` answered the action of `phase`; an event that
/// does not answer that action leaves the phase as it is.
pub open spec fn next_phase(phase: RecorderPhase, event: RecorderEvent) -> RecorderPhase {
    match (phase, event) {
        (RecorderPhase::Spawning, RecorderEvent::Spawned) => RecorderPhase::Waiting,
        (RecorderPhase::Spawning, RecorderEvent::SpawnFailed) => RecorderPhase::BackingOff,
        (RecorderPhase::BackingOff, RecorderEvent::Slept) => RecorderPhase::Spawning,
        (RecorderPhase::Waiting, RecorderEvent::FrameArrived) => RecorderPhase::Writing,
        (RecorderPhase::Waiting, RecorderEvent::EmptyFrame) => RecorderPhase::Waiting,
        (RecorderPhase::Waiting, RecorderEvent::ChannelClosed) => RecorderPhase::Finished,
        (RecorderPhase::Writing, RecorderEvent::Written) => RecorderPhase::Waiting,
        (RecorderPhase::Writing, RecorderEvent::WriteFailed) => RecorderPhase::Restarting,
        (RecorderPhase::Restarting, RecorderEvent::Killed) => RecorderPhase::Spawning,
        _ => phase,
    }
}

/// Whether an encoder process exists in a phase.
pub open spec fn encoder_running(phase: RecorderPhase) -> bool {
    match phase {
        RecorderPhase::Spawning | RecorderPhase::BackingOff => false,
        _ => true,
    }
}

/// Once the frame channel has closed the loop stays finished, whatever happens.
pub proof fn lemma_finished_is_final(event: RecorderEvent)
    ensures
        next_phase(RecorderPhase::Finished, event) == RecorderPhase::Finished,
{
}

/// The loop finishes only when the frame channel closes.
pub proof fn lemma_finishes_only_on_close(phase: RecorderPhase, event: RecorderEvent)
    requires
        phase != RecorderPhase::Finished,
        next_phase(phase, event) == RecorderPhase::Finished,
    ensures
        event == RecorderEvent::ChannelClosed,
        phase == RecorderPhase::Waiting,
{
}

/// A frame is written only to a running encoder, and only after a frame with
/// an image arrived.
pub proof fn lemma_writes_go_to_running_encoder(phase: RecorderPhase, event: RecorderEvent)
    requires
        next_phase(phase, event) == RecorderPhase::Writing,
    ensures
        encoder_running(phase),
        phase == RecorderPhase::Writing || event == RecorderEvent::FrameArrived,
{
}

/// After a failed write the encoder is killed and started again before any
/// further frame is written.
pub proof fn lemma_failed_write_restarts(event: RecorderEvent)
    ensures
        next_phase(RecorderPhase::Writing, RecorderEvent::WriteFailed) == RecorderPhase::Restarting,
        action_of(RecorderPhase::Restarting) == RecorderAction::KillEncoder,
        next_phase(RecorderPhase::Restarting, event) == RecorderPhase::Restarting
            || next_phase(RecorderPhase::Restarting, event) == RecorderPhase::Spawning,
{
}

/// A failed start waits five seconds, then tries again.
pub proof fn lemma_failed_spawn_retries()
    ensures
        action_of(next_phase(RecorderPhase::Spawning, RecorderEvent::SpawnFailed))
            == (RecorderAction::Sleep { seconds: 5 }),
        next_phase(RecorderPhase::BackingOff, RecorderEvent::Slept) == RecorderPhase::Spawning,
{
}

/// The phases that the loop goes through from `start` as `events` answer its
/// actions one by one: the first is `start`, and each event moves the loop on
/// from the last phase.
pub open spec fn run_phases(start: RecorderPhase, events: Seq<RecorderEvent>) -> Seq<RecorderPhase>
    decreases events.len(),
{
    if events.len() == 0 {
        seq![start]
    } else {
        let before = run_phases(start, events.drop_last());
        before.push(next_phase(before.last(), events.last()))
    }
}

/// The number of encoders started and not killed along a run: one more for
/// each start that succeeded, one less for each kill after a failed write.
pub open spec fn live_encoders(start: RecorderPhase, events: Seq<RecorderEvent>) -> int
    decreases events.len(),
{
    if events.len() == 0 {
        0
    } else {
        let phase = run_phases(start, events.drop_last()).last();
        let e = events.last();
        live_encoders(start, events.drop_last()) + if phase == RecorderPhase::Spawning && e == RecorderEvent::Spawned {
            1int
        } else if phase == RecorderPhase::Restarting && e == RecorderEvent::Killed {
            -1int
        } else {
            0int
        }
    }
}

/// A run has one phase more than it has events; it begins at `start`, and
/// each event moves it from one phase to the next.
pub proof fn lemma_run_phases_steps(start: RecorderPhase, events: Seq<RecorderEvent>)
    ensures
        run_phases(start, events).len() == events.len() + 1,
        run_phases(start, events)[0] == start,
        forall|i: int| 0 <= i < events.len() ==> #[trigger] run_phases(start, events)[i + 1]
            == next_phase(run_phases(start, events)[i], events[i]),
    decreases events.len(),
{
    if events.len() > 0 {
        let before = events.drop_last();
        lemma_run_phases_steps(start, before);
        let run = run_phases(start, events);
        assert forall|i: int| 0 <= i < events.len() implies #[trigger] run[i + 1]
            == next_phase(run[i], events[i]) by {
            if i < before.len() {
                assert(run_phases(start, before)[i + 1] == next_phase(run_phases(start, before)[i], before[i]));
            }
        }
    }
}

/// At most one encoder runs at any time: along every run from the start, the
/// encoders started and not killed are one while the phase has an encoder
/// and none otherwise. An encoder is started only in `Spawning`, where none
/// runs.
pub proof fn lemma_at_most_one_encoder(events: Seq<RecorderEvent>)
    ensures
        live_encoders(RecorderPhase::Spawning, events)
            == if encoder_running(run_phases(RecorderPhase::Spawning, events).last()) { 1int } else { 0int },
        action_of(RecorderPhase::Spawning) == RecorderAction::SpawnEncoder,
        !encoder_running(RecorderPhase::Spawning),
    decreases events.len(),
{
    if events.len() > 0 {
        lemma_at_most_one_encoder(events.drop_last());
    }
}

/// Between positions `i` and `j` of a run, the phases stay within `inside`
/// while no step leaves it: every phase in `inside` goes to one in `inside`
/// unless `event` answers `exit` there, and that never happens in between.
proof fn lemma_run_stays_within(
    start: RecorderPhase,
    events: Seq<RecorderEvent>,
    inside: spec_fn(RecorderPhase) -> bool,
    exit: RecorderPhase,
    event: RecorderEvent,
    i: int,
    j: int,
)
    requires
        0 <= i <= j <= events.len(),
        inside(run_phases(start, events)[i]),
        forall|p: RecorderPhase, e: RecorderEvent| inside(p) && !(p == exit && e == event)
            ==> inside(#[trigger] next_phase(p, e)),
        forall|k: int| i <= k < j ==> !(run_phases(start, events)[k] == exit && #[trigger] events[k] == event),
    ensures
        inside(run_phases(start, events)[j]),
    decreases j - i,
{
    lemma_run_phases_steps(start, events);
    if i < j {
        lemma_run_stays_within(start, events, inside, exit, event, i, j - 1);
        let k = j - 1;
        assert(run_phases(start, events)[k + 1] == next_phase(run_phases(start, events)[k], events[k]));
        assert(!(run_phases(start, events)[k] == exit && events[k] == event));
    }
}

/// After a failed write the encoder is killed and a new one started before
/// any further frame is written: between the failed write at `i` and a later
/// write at `j`, the loop killed the encoder and then started one.
pub proof fn lemma_failed_write_respawns(start: RecorderPhase, events: Seq<RecorderEvent>, i: int, j: int)
    requires
        0 <= i < j <= events.len(),
        run_phases(start, events)[i] == RecorderPhase::Writing,
        events[i] == RecorderEvent::WriteFailed,
        run_phases(start, events)[j] == RecorderPhase::Writing,
    ensures
        exists|k: int| i < k < j && run_phases(start, events)[k] == RecorderPhase::Spawning
            && #[trigger] events[k] == RecorderEvent::Spawned,
        exists|k: int| i < k < j && run_phases(start, events)[k] == RecorderPhase::Restarting
            && #[trigger] events[k] == RecorderEvent::Killed,
{
    lemma_run_phases_steps(start, events);
    let run = run_phases(start, events);
    assert(run[i + 1] == next_phase(run[i], events[i]));
    let no_encoder = |p: RecorderPhase| p == RecorderPhase::Restarting || p == RecorderPhase::Spawning
        || p == RecorderPhase::BackingOff;
    if !(exists|k: int| i < k < j && run[k] == RecorderPhase::Spawning && #[trigger] events[k] == RecorderEvent::Spawned) {
        lemma_run_stays_within(start, events, no_encoder, RecorderPhase::Spawning, RecorderEvent::Spawned, i + 1, j);
    }
    let restarting = |p: RecorderPhase| p == RecorderPhase::Restarting;
    if !(exists|k: int| i < k < j && run[k] == RecorderPhase::Restarting && #[trigger] events[k] == RecorderEvent::Killed) {
        lemma_run_stays_within(start, events, restarting, RecorderPhase::Restarting, RecorderEvent::Killed, i + 1, j);
    }
}

/// Each write hands over a frame that arrived after the previous write: a
/// frame is written only once. Between a write at `i` (answered, well or
/// not) and the next one at `j`, a frame with an image arrived; and before
/// the first write of a run from the start, one did too.
pub proof fn lemma_one_write_per_frame(start: RecorderPhase, events: Seq<RecorderEvent>, i: int, j: int)
    requires
        0 <= j <= events.len(),
        run_phases(start, events)[j] == RecorderPhase::Writing,
        -1 <= i < j,
        i == -1 ==> start == RecorderPhase::Spawning,
        i >= 0 ==> run_phases(start, events)[i] == RecorderPhase::Writing,
        i >= 0 ==> (events[i] == RecorderEvent::Written || events[i] == RecorderEvent::WriteFailed),
    ensures
        exists|k: int| i < k < j && run_phases(start, events)[k] == RecorderPhase::Waiting
            && #[trigger] events[k] == RecorderEvent::FrameArrived,
{
    lemma_run_phases_steps(start, events);
    let run = run_phases(start, events);
    let not_writing = |p: RecorderPhase| p != RecorderPhase::Writing;
    if !(exists|k: int| i < k < j && run[k] == RecorderPhase::Waiting && #[trigger] events[k] == RecorderEvent::FrameArrived) {
        if i >= 0 {
            assert(run[i + 1] == next_phase(run[i], events[i]));
        }
        lemma_run_stays_within(start, events, not_writing, RecorderPhase::Waiting, RecorderEvent::FrameArrived, i + 1, j);
    }
}

/// A failed start is retried after five seconds, for as long as starts fail:
/// between a failed start at `i` and the next attempt at `j`, the loop slept
/// its five seconds.
pub proof fn lemma_failed_spawn_retried(start: RecorderPhase, events: Seq<RecorderEvent>, i: int, j: int)
    requires
        0 <= i < j <= events.len(),
        run_phases(start, events)[i] == RecorderPhase::Spawning,
        events[i] == RecorderEvent::SpawnFailed,
        run_phases(start, events)[j] == RecorderPhase::Spawning,
    ensures
        exists|k: int| i < k < j && run_phases(start, events)[k] == RecorderPhase::BackingOff
            && #[trigger] events[k] == RecorderEvent::Slept,
        action_of(RecorderPhase::BackingOff) == (RecorderAction::Sleep { seconds: 5 }),
{
    lemma_run_phases_steps(start, events);
    let run = run_phases(start, events);
    assert(run[i + 1] == next_phase(run[i], events[i]));
    let backing_off = |p: RecorderPhase| p == RecorderPhase::BackingOff;
    if !(exists|k: int| i < k < j && run[k] == RecorderPhase::BackingOff && #[trigger] events[k] == RecorderEvent::Slept) {
        lemma_run_stays_within(start, events, backing_off, RecorderPhase::BackingOff, RecorderEvent::Slept, i + 1, j);
    }
}

/// The first phase: no encoder yet.
pub fn recorder_start() -> (p: RecorderPhase)
    ensures
        p == RecorderPhase::Spawning,
{
    RecorderPhase::Spawning
}

/// The action to take in `phase`.
pub fn recorder_action(phase: RecorderPhase) -> (a: RecorderAction)
    ensures
        a == action_of(phase),
{
    match phase {
        RecorderPhase::Spawning => RecorderAction::SpawnEncoder,
        RecorderPhase::BackingOff => RecorderAction::Sleep { seconds: 5 },
        RecorderPhase::Waiting => RecorderAction::WaitForFrame,
        RecorderPhase::Writing => RecorderAction::WriteFrame,
        RecorderPhase::Restarting => RecorderAction::KillEncoder,
        RecorderPhase::Finished => RecorderAction::KillAndStop,
    }
}

/// The phase that follows `event`.
pub fn recorder_step(phase: RecorderPhase, event: RecorderEvent) -> (p: RecorderPhase)
    ensures
        p == next_phase(phase, event),
{
    match (phase, event) {
        (RecorderPhase::Spawning, RecorderEvent::Spawned) => RecorderPhase::Waiting,
        (RecorderPhase::Spawning, RecorderEvent::SpawnFailed) => RecorderPhase::BackingOff,
        (RecorderPhase::BackingOff, RecorderEvent::Slept) => RecorderPhase::Spawning,
        (RecorderPhase::Waiting, RecorderEvent::FrameArrived) => RecorderPhase::Writing,
        (RecorderPhase::Waiting, RecorderEvent::EmptyFrame) => RecorderPhase::Waiting,
        (RecorderPhase::Waiting, RecorderEvent::ChannelClosed) => RecorderPhase::Finished,
        (RecorderPhase::Writing, RecorderEvent::Written) => RecorderPhase::Waiting,
        (RecorderPhase::Writing, RecorderEvent::WriteFailed) => RecorderPhase::Restarting,
        (RecorderPhase::Restarting, RecorderEvent::Killed) => RecorderPhase::Spawning,
        _ => phase,
    }
}

} // verus!
