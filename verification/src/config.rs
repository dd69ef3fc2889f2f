//! The service configuration: its defaults, the retention arithmetic, and the
//! text of a default configuration file.
use vstd::prelude::*;
use crate::text::{decimal, digit_value, is_digit, push_decimal};

verus! {

/// Settings of the camera, the web server and the background recorder.
#[derive(Clone, Debug)]
pub struct Config {
    pub camera_index: u32,
    pub camera_width: u32,
    pub camera_height: u32,
    pub camera_fps: u32,
    pub port: u16,
    pub camera_format: String,
    pub recording_path: Option<String>,
    pub recording_segment_seconds: u64,
    pub recording_video_codec: Option<String>,
    /// Retention duration for recordings, e.g. "12h", "1day", "7days 12h"
    pub recording_retention: String,
}

impl Default for Config {
    fn default() -> (c: Self)
        ensures
            c.camera_index == 0,
            c.camera_width == 320,
            c.camera_height == 240,
            c.camera_fps == 5,
            c.port == 8080,
            c.camera_format@ == "MJPEG"@,
            c.recording_path.is_none(),
            c.recording_segment_seconds == 10,
            c.recording_video_codec.is_none(),
            c.recording_retention@ == "12h"@,
    {
        Config {
            camera_index: 0,
            camera_width: 320,
            camera_height: 240,
            camera_fps: 5,
            port: 8080,
            camera_format: String::from_str("MJPEG"),
            recording_path: None,
            recording_segment_seconds: 10,
            recording_video_codec: None,
            recording_retention: String::from_str("12h"),
        }
    }
}

#[verifier::external_type_specification]
#[verifier::external_body]
pub struct ExDurationError(humantime::DurationError);

/// What `humantime::parse_duration` makes of a text: the whole seconds and
/// the nanoseconds of the duration, or nothing where it refuses the text.
pub uninterp spec fn humantime_duration(text: Seq<char>) -> Option<(u64, u32)>;

/// Seconds in the longest unit the duration parser knows, a year of 365.25 days.
pub const YEAR_SECONDS: u64 = 31_557_600;

/// The largest number bound (see `number_bound`) that the library hands to
/// the duration parser: that many years still fit a `u64` of seconds.
pub const NUMBER_BOUND_MAX: u64 = 584_542_046_090;

/// Whether a character ends a number for the duration parser: an ASCII
/// letter, `µ` (the start of a unit) or `.` (the start of a fraction).
pub open spec fn ends_number(c: char) -> bool {
    ('a' <= c && c <= 'z') || ('A' <= c && c <= 'Z') || c == '\u{b5}' || c == '.'
}

/// The groups of digits of a text, read from the left: the sum, over the
/// groups already ended, of each group's value plus one, and the value of the
/// group still open (-1 where none is). A group is a run of digits and of any
/// characters other than those that end a number, the digits read as one
/// number; a character that ends a number closes it.
pub open spec fn number_groups(s: Seq<char>) -> (int, int)
    decreases s.len(),
{
    if s.len() == 0 {
        (0, -1)
    } else {
        let g = number_groups(s.drop_last());
        let c = s.last();
        if is_digit(c) {
            (g.0, if g.1 < 0 { digit_value(c) as int } else { g.1 * 10 + digit_value(c) })
        } else if ends_number(c) {
            (g.0 + if g.1 < 0 { 0 } else { g.1 + 1 }, -1)
        } else {
            g
        }
    }
}

/// The sum, over the groups of digits of a text, of each group's value plus
/// one: a bound, in years, on every duration the parser sums from the text.
pub open spec fn number_bound(s: Seq<char>) -> int {
    let g = number_groups(s);
    g.0 + if g.1 < 0 { 0 } else { g.1 + 1 }
}

/// The open group is a number or none.
proof fn lemma_number_groups_range(s: Seq<char>)
    ensures
        number_groups(s).1 >= -1,
    decreases s.len(),
{
    if s.len() > 0 {
        lemma_number_groups_range(s.drop_last());
    }
}

/// The bound never falls as the text goes on.
proof fn lemma_number_bound_grows(s: Seq<char>)
    requires
        s.len() > 0,
    ensures
        number_bound(s.drop_last()) <= number_bound(s),
{
    lemma_number_groups_range(s.drop_last());
}

/// Whether `number_bound(text)` years fit a `u64` of seconds.
pub fn duration_in_reach(text: &str) -> (r: bool)
    ensures
        r == (number_bound(text@) * YEAR_SECONDS <= u64::MAX),
{
    let len = text.unicode_len();
    let mut sum: u64 = 0;
    let mut cur: u64 = 0;
    let mut open = false;
    let mut over = false;
    let mut i: usize = 0;
    while i < len
        invariant
            len == text@.len(),
            i <= len,
            !over ==> sum == number_groups(text@.subrange(0, i as int)).0,
            !over ==> number_groups(text@.subrange(0, i as int)).1 == if open { cur as int } else { -1 },
            !over ==> sum + (if open { cur + 1 } else { 0 }) <= NUMBER_BOUND_MAX,
            over ==> number_bound(text@.subrange(0, i as int)) > NUMBER_BOUND_MAX,
        decreases len - i,
    {
        let c = text.get_char(i);
        let ghost next = text@.subrange(0, i + 1);
        assert(next.drop_last() =~= text@.subrange(0, i as int));
        assert(next.last() == c);
        proof {
            lemma_number_bound_grows(next);
        }
        if !over {
            if '0' <= c && c <= '9' {
                let d = (c as u32 - '0' as u32) as u64;
                cur = if open { cur * 10 + d } else { d };
                open = true;
            } else if ('a' <= c && c <= 'z') || ('A' <= c && c <= 'Z') || c == '\u{b5}' || c == '.' {
                if open {
                    sum = sum + cur + 1;
                }
                open = false;
            }
            if sum + (if open { cur + 1 } else { 0 }) > NUMBER_BOUND_MAX {
                over = true;
            }
        }
        i = i + 1;
    }
    assert(text@.subrange(0, len as int) =~= text@);
    !over
}

/// Calls `humantime::parse_duration`. Trusted: the result is `Ok` exactly
/// where the named result is a duration, and then holds its seconds and
/// nanoseconds; of the error nothing is stated.
///
/// The parser panics (in `Duration::new`) only when the seconds it has summed
/// reach `u64::MAX` with a carry of one second. The `requires` keeps every
/// sum below that. Each number the parser reads is the value of one group of
/// digits (the whitespace it skips inside a number does not end a group, and
/// any other character that does not end a group stops it with an error
/// before the number is used); a fraction after `.` is a group of its own and
/// adds less than one unit. No unit is longer than `YEAR_SECONDS`, so every
/// sum is below `number_bound(text) * YEAR_SECONDS` seconds.
#[verifier::external_body]
fn parse_duration(text: &str) -> (r: Result<(u64, u32), humantime::DurationError>)
    requires
        number_bound(text@) * YEAR_SECONDS <= u64::MAX,
    ensures
        r is Ok <==> humantime_duration(text@) is Some,
        r matches Ok(d) ==> d == humantime_duration(text@).unwrap(),
{
    match humantime::parse_duration(text) {
        Ok(d) => Ok((d.as_secs(), d.subsec_nanos())),
        Err(e) => Err(e),
    }
}

/// Why the recording settings cannot be used.
pub enum ConfigError {
    /// `recording_retention` holds numbers too large for the library to hand
    /// to the duration parser: their `number_bound` years exceed a `u64` of
    /// seconds.
    RetentionTooLarge,
    /// `recording_retention` is not a duration that humantime accepts.
    InvalidRetention(humantime::DurationError),
    /// `recording_segment_seconds` is zero.
    ZeroSegmentLength,
}

/// Number of whole segments that fit in the retention time.
pub open spec fn list_size_spec(retention_secs: u64, segment_secs: u64) -> u64 {
    (retention_secs / segment_secs) as u64
}

/// The number of HLS segments kept in the playlist: whole segments of
/// `segment_secs` seconds within `retention_secs` seconds.
pub fn list_size(retention_secs: u64, segment_secs: u64) -> (r: u64)
    requires
        segment_secs > 0,
    ensures
        r == list_size_spec(retention_secs, segment_secs),
{
    retention_secs / segment_secs
}

/// The playlist covers the retention time: the listed segments span at most
/// the retention time, and one more segment would exceed it.
pub proof fn lemma_list_size_covers_retention(retention_secs: u64, segment_secs: u64)
    requires
        segment_secs > 0,
    ensures
        list_size_spec(retention_secs, segment_secs) * segment_secs <= retention_secs,
        retention_secs < (list_size_spec(retention_secs, segment_secs) + 1) * segment_secs,
{
    let n = list_size_spec(retention_secs, segment_secs) as int;
    let r = retention_secs as int;
    let s = segment_secs as int;
    assert(n == r / s);
    assert(n * s <= r && r < (n + 1) * s) by (nonlinear_arith)
        requires
            n == r / s,
            s > 0,
            r >= 0,
    ;
}

impl Config {
    /// The whole seconds of the retention duration, where it parses.
    pub open spec fn retention_secs_spec(&self) -> Option<u64> {
        match humantime_duration(self.recording_retention@) {
            Some(d) => Some(d.0),
            None => None,
        }
    }

    /// Whether the retention text may be handed to the parser: the library's
    /// chosen limit, below the sums at which the parser panics. Texts whose
    /// numbers add up to more than about 5.8e11 years are refused, though the
    /// parser accepts some of them.
    pub open spec fn retention_in_reach(&self) -> bool {
        number_bound(self.recording_retention@) * YEAR_SECONDS <= u64::MAX
    }

    /// Whether the retention text is in reach and parses, and the segment
    /// length is not zero.
    pub open spec fn recording_valid(&self) -> bool {
        &&& self.retention_in_reach()
        &&& self.retention_secs_spec() is Some
        &&& self.recording_segment_seconds > 0
    }

    /// Whether `e` is the error that these settings give: the first of the
    /// three checks, in the order in which they are made, that fails.
    pub open spec fn gives_error(&self, e: ConfigError) -> bool {
        match e {
            ConfigError::RetentionTooLarge => !self.retention_in_reach(),
            ConfigError::InvalidRetention(_) => self.retention_in_reach()
                && self.retention_secs_spec() is None,
            ConfigError::ZeroSegmentLength => self.retention_in_reach()
                && self.retention_secs_spec() is Some && self.recording_segment_seconds == 0,
        }
    }

    /// The HLS list size that these settings give.
    pub open spec fn hls_list_size_spec(&self) -> u64 {
        list_size_spec(self.retention_secs_spec().unwrap(), self.recording_segment_seconds)
    }

    /// Parse `recording_retention` into whole seconds.
    pub fn retention_seconds(&self) -> (r: u64)
        requires
            self.retention_in_reach(),
            self.retention_secs_spec() is Some,
        ensures
            r == self.retention_secs_spec().unwrap(),
    {
        match parse_duration(self.recording_retention.as_str()) {
            Ok(d) => d.0,
            Err(_) => 0,
        }
    }

    /// `retention_seconds`, or why the retention text gives none: it is out
    /// of reach, or the parser refuses it.
    pub fn try_retention_seconds(&self) -> (r: Result<u64, ConfigError>)
        ensures
            r is Ok <==> self.retention_in_reach() && self.retention_secs_spec() is Some,
            r matches Ok(s) ==> s == self.retention_secs_spec().unwrap(),
            r matches Err(e) ==> self.gives_error(e),
    {
        if !duration_in_reach(self.recording_retention.as_str()) {
            return Err(ConfigError::RetentionTooLarge);
        }
        match parse_duration(self.recording_retention.as_str()) {
            Ok(d) => Ok(d.0),
            Err(e) => Err(ConfigError::InvalidRetention(e)),
        }
    }

    /// Compute hls_list_size from retention duration and segment time.
    pub fn hls_list_size(&self) -> (r: u64)
        requires
            self.recording_valid(),
        ensures
            r == self.hls_list_size_spec(),
    {
        list_size(self.retention_seconds(), self.recording_segment_seconds)
    }

    /// `hls_list_size`, or why it cannot be computed: the retention errors
    /// come first, as the retention is parsed before the division.
    pub fn try_hls_list_size(&self) -> (r: Result<u64, ConfigError>)
        ensures
            r is Ok <==> self.recording_valid(),
            r matches Ok(n) ==> n == self.hls_list_size_spec(),
            r matches Err(e) ==> self.gives_error(e),
    {
        match self.try_retention_seconds() {
            Err(e) => Err(e),
            Ok(_) => {
                if self.recording_segment_seconds == 0 {
                    Err(ConfigError::ZeroSegmentLength)
                } else {
                    Ok(self.hls_list_size())
                }
            }
        }
    }
}

/// The playlist length covers the retention time: with usable settings,
/// the HLS list size is the number of whole segments that fit in the
/// retention time.
pub proof fn lemma_hls_list_size_covers_retention(c: Config)
    requires
        c.recording_valid(),
    ensures
        c.hls_list_size_spec() * c.recording_segment_seconds <= c.retention_secs_spec().unwrap(),
        c.retention_secs_spec().unwrap() < (c.hls_list_size_spec() + 1) * c.recording_segment_seconds,
{
    lemma_list_size_covers_retention(c.retention_secs_spec().unwrap(), c.recording_segment_seconds);
}

/// A single number with a unit, `<n><unit>`, is bounded by `n + 1` years.
pub proof fn lemma_number_bound_of_one_term(n: nat, unit: char)
    requires
        'a' <= unit <= 'z',
    ensures
        number_bound(decimal(n).push(unit)) == n + 1,
{
    lemma_number_groups_of_decimal(n);
    let s = decimal(n).push(unit);
    assert(s.drop_last() =~= decimal(n));
}

/// The digits of a number form one open group holding the number.
proof fn lemma_number_groups_of_decimal(n: nat)
    ensures
        number_groups(decimal(n)) == (0int, n as int),
    decreases n,
{
    crate::text::lemma_decimal_digits(n);
    let s = decimal(n);
    if n < 10 {
        crate::text::lemma_digit_char(n);
        assert(s.drop_last() =~= Seq::<char>::empty());
        assert(number_groups(s.drop_last()) == (0int, -1int));
        assert(s.last() == crate::text::digit_char(n));
    } else {
        lemma_number_groups_of_decimal(n / 10);
        crate::text::lemma_digit_char(n % 10);
        assert(s.drop_last() =~= decimal(n / 10));
        assert(s.last() == crate::text::digit_char(n % 10));
        assert((n / 10) * 10 + n % 10 == n);
    }
}

/// The text of the configuration file that `init` writes for `c`.
pub open spec fn config_file_text(c: &Config) -> Seq<char> {
    "# Camera Settings\ncamera_index = "@ + decimal(c.camera_index as nat) + "          # e.g., /dev/video0 or 0\ncamera_width = "@ + decimal(c.camera_width as nat) + "           # Output video width\ncamera_height = "@ + decimal(c.camera_height as nat) + "          # Output video height\ncamera_fps = "@ + decimal(c.camera_fps as nat) + "           # Frame rate\ncamera_format = \""@ + c.camera_format@ + "\"\n\n# Server Settings\nport = "@ + decimal(c.port as nat) + "               # Web server port\n\n# Recording Settings (Optional)\n# If recording_path is set, background recording is enabled.\n# Note: Continuous recording writes a large amount of data. Writing directly to the SD card may cause it to wear out quickly and fail.\n# We strongly recommend using an external USB drive (HDD/SSD) or a RAM disk for the recording path.\n# recording_path = \"/tmp/recordings\"\n# recording_segment_seconds = "@ + decimal(c.recording_segment_seconds as nat) + " # Duration of each video segment in seconds\n# recording_video_codec = \"libx264\" # Video codec for recording, e.g., libx264, h264_v4l2m2m (for RPi hardware acceleration)\n# recording_retention = \""@ + c.recording_retention@ + "\" # Retention duration for recordings, e.g. \"12h\", \"1day\", \"7days 12h\"\n"@
}

/// Renders the commented configuration file that `init` writes.
pub fn config_file(c: &Config) -> (s: String)
    ensures
        s@ == config_file_text(c),
{
    let mut s = String::new();
    s.append("# Camera Settings\ncamera_index = ");
    push_decimal(&mut s, c.camera_index as u128);
    s.append("          # e.g., /dev/video0 or 0\ncamera_width = ");
    push_decimal(&mut s, c.camera_width as u128);
    s.append("           # Output video width\ncamera_height = ");
    push_decimal(&mut s, c.camera_height as u128);
    s.append("          # Output video height\ncamera_fps = ");
    push_decimal(&mut s, c.camera_fps as u128);
    s.append("           # Frame rate\ncamera_format = \"");
    s.append(c.camera_format.as_str());
    s.append("\"\n\n# Server Settings\nport = ");
    push_decimal(&mut s, c.port as u128);
    s.append("               # Web server port\n\n# Recording Settings (Optional)\n# If recording_path is set, background recording is enabled.\n# Note: Continuous recording writes a large amount of data. Writing directly to the SD card may cause it to wear out quickly and fail.\n# We strongly recommend using an external USB drive (HDD/SSD) or a RAM disk for the recording path.\n# recording_path = \"/tmp/recordings\"\n# recording_segment_seconds = ");
    push_decimal(&mut s, c.recording_segment_seconds as u128);
    s.append(" # Duration of each video segment in seconds\n# recording_video_codec = \"libx264\" # Video codec for recording, e.g., libx264, h264_v4l2m2m (for RPi hardware acceleration)\n# recording_retention = \"");
    s.append(c.recording_retention.as_str());
    s.append("\" # Retention duration for recordings, e.g. \"12h\", \"1day\", \"7days 12h\"\n");
    s
}

} // verus!
