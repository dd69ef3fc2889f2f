//! The HLS playlist manager: which recorded segments have outlived the
//! retention time, which stay in the playlist, and the playlist's text.
use vstd::prelude::*;
use crate::config::Config;
use crate::order::{
    chronological, lemma_time_sorted_is_chronological, lemma_time_total, lemma_time_total_ordering,
    lemma_time_trans, str_lex_le, string_views, time_le, time_order, time_sorted,
};
use crate::text::{
    all_digits, decimal, digits_value, ends_with, f64_fixed4_text, has_suffix, is_digit, lemma_decimal_digits,
    lemma_parse_signed_decimal, parse_i64, parse_i64_spec, push_decimal, push_f64_fixed4,
    push_signed_decimal, signed_decimal, str_eq,
};

verus! {

/// A segment that stays: the UNIX time in its name, and its file name.
pub struct Segment {
    pub time: i64,
    pub name: String,
}

/// The times and names of segments.
pub open spec fn segment_views(v: Seq<Segment>) -> Seq<(i64, Seq<char>)> {
    v.map_values(|s: Segment| (s.time, s.name@))
}

/// A directory entry as the playlist manager sees it: its file name and
/// whether it is a regular file.
pub struct DirEntry {
    pub name: String,
    pub is_file: bool,
}

/// The suffix of a recorded segment.
pub open spec fn mp4_suffix() -> Seq<char> {
    seq!['.', 'm', 'p', '4']
}

/// Whether a file name is that of a segment: it ends with `.mp4` and is not
/// the initialization segment `init.mp4`.
pub open spec fn is_segment_name(name: Seq<char>) -> bool {
    has_suffix(name, mp4_suffix()) && name != "init.mp4"@
}

/// The name without every trailing `.mp4` (what `trim_end_matches(".mp4")` leaves).
pub open spec fn trim_mp4(name: Seq<char>) -> Seq<char>
    decreases name.len(),
{
    if has_suffix(name, mp4_suffix()) {
        trim_mp4(name.take(name.len() - 4))
    } else {
        name
    }
}

/// The UNIX time in a segment's name (`1771655874.mp4`), for regular files
/// with a segment name whose stem is an `i64`.
pub open spec fn segment_time(e: DirEntry) -> Option<i64> {
    if e.is_file && is_segment_name(e.name@) {
        parse_i64_spec(trim_mp4(e.name@))
    } else {
        None
    }
}

/// The value of `x as i64` for a `u64`: values above `i64::MAX` wrap around.
pub open spec fn wrap_i64(x: u64) -> int {
    if x <= i64::MAX { x as int } else { x - 0x1_0000_0000_0000_0000 }
}

/// A segment made at `t` has outlived the retention time at `now`.
pub open spec fn is_expired(t: i64, now: i64, retention_secs: u64) -> bool {
    now - t > wrap_i64(retention_secs)
}

/// The age of every segment is an `i64`.
pub open spec fn ages_fit(entries: Seq<DirEntry>, now: i64) -> bool {
    forall|i: int| 0 <= i < entries.len() ==> (#[trigger] segment_time(entries[i]) matches Some(t)
        ==> i64::MIN <= now - t <= i64::MAX)
}

/// Names of the segments to delete, in directory order.
pub open spec fn expired_names(entries: Seq<DirEntry>, now: i64, retention_secs: u64) -> Seq<Seq<char>>
    decreases entries.len(),
{
    if entries.len() == 0 {
        seq![]
    } else {
        let rest = expired_names(entries.drop_last(), now, retention_secs);
        match segment_time(entries.last()) {
            Some(t) => if is_expired(t, now, retention_secs) { rest.push(entries.last().name@) } else { rest },
            None => rest,
        }
    }
}

/// The segments that stay, with their times, in directory order.
pub open spec fn kept_segments(entries: Seq<DirEntry>, now: i64, retention_secs: u64) -> Seq<(i64, Seq<char>)>
    decreases entries.len(),
{
    if entries.len() == 0 {
        seq![]
    } else {
        let rest = kept_segments(entries.drop_last(), now, retention_secs);
        match segment_time(entries.last()) {
            Some(t) => if is_expired(t, now, retention_secs) { rest } else { rest.push((t, entries.last().name@)) },
            None => rest,
        }
    }
}

/// The segments listed in the playlist: the kept segments in chronological
/// order (by the time in their names, ties by name), and of those the last
/// `list_size`.
pub open spec fn window(kept: Seq<(i64, Seq<char>)>, list_size: u64) -> Seq<(i64, Seq<char>)> {
    let sorted = chronological(kept);
    let limit = (list_size as usize) as int;
    if sorted.len() > limit {
        sorted.skip(sorted.len() - limit)
    } else {
        sorted
    }
}

/// Integer division rounding toward zero, as `/` on `i64` does.
pub open spec fn trunc_div(a: int, b: int) -> int {
    let q = (if a < 0 { -a } else { a }) / (if b < 0 { -b } else { b });
    if (a < 0) != (b < 0) { -q } else { q }
}

/// The media sequence number: the earliest listed segment's time divided by
/// the segment length.
pub open spec fn media_sequence(segments: Seq<(i64, Seq<char>)>, segment_secs: u64) -> int {
    trunc_div(segments[0].0 as int, wrap_i64(segment_secs))
}

/// The media sequence number is the earliest listed segment's time `t`
/// divided by the segment length `s`, rounding toward zero: for `t >= 0` it
/// is the number of whole segment lengths in `t`, for `t < 0` minus that of
/// `-t`.
pub proof fn lemma_media_sequence_is_quotient(segments: Seq<(i64, Seq<char>)>, segment_secs: u64)
    requires
        segments.len() > 0,
        0 < segment_secs <= i64::MAX,
    ensures
        segments[0].0 >= 0 ==> media_sequence(segments, segment_secs) * segment_secs <= segments[0].0
            < (media_sequence(segments, segment_secs) + 1) * segment_secs,
        segments[0].0 < 0 ==> (media_sequence(segments, segment_secs) - 1) * segment_secs < segments[0].0
            <= media_sequence(segments, segment_secs) * segment_secs,
{
    let t = segments[0].0 as int;
    let s = segment_secs as int;
    assert(wrap_i64(segment_secs) == s);
    let q = media_sequence(segments, segment_secs);
    if t >= 0 {
        assert(q == t / s);
        assert(q * s <= t < (q + 1) * s) by (nonlinear_arith)
            requires
                q == t / s,
                s > 0,
                t >= 0,
        ;
    } else {
        let m = (-t) / s;
        assert(q == -m);
        assert(m * s <= -t < (m + 1) * s) by (nonlinear_arith)
            requires
                m == (-t) / s,
                s > 0,
                -t > 0,
        ;
        assert((q - 1) * s < t <= q * s) by (nonlinear_arith)
            requires
                q == -m,
                m * s <= -t < (m + 1) * s,
        ;
    }
}

/// Segments one segment length apart get consecutive media sequence numbers.
pub proof fn lemma_media_sequence_steps(a: Seq<(i64, Seq<char>)>, b: Seq<(i64, Seq<char>)>, segment_secs: u64)
    requires
        a.len() > 0,
        b.len() > 0,
        0 < segment_secs <= i64::MAX,
        a[0].0 >= 0,
        b[0].0 == a[0].0 + segment_secs,
    ensures
        media_sequence(b, segment_secs) == media_sequence(a, segment_secs) + 1,
{
    lemma_media_sequence_is_quotient(a, segment_secs);
    lemma_media_sequence_is_quotient(b, segment_secs);
    let qa = media_sequence(a, segment_secs);
    let qb = media_sequence(b, segment_secs);
    let s = segment_secs as int;
    let t = a[0].0 as int;
    assert(qb == qa + 1) by (nonlinear_arith)
        requires
            qa * s <= t < (qa + 1) * s,
            qb * s <= t + s < (qb + 1) * s,
            s > 0,
    ;
}

/// A segment as old as the retention time stays; one a second older has
/// outlived it; a segment from the future stays (for retention times up to
/// `i64::MAX`).
pub proof fn lemma_expiry_in_seconds(t: i64, now: i64, retention_secs: u64)
    requires
        retention_secs <= i64::MAX,
    ensures
        now - t == retention_secs ==> !is_expired(t, now, retention_secs),
        now - t == retention_secs + 1 ==> is_expired(t, now, retention_secs),
        now - t > retention_secs ==> is_expired(t, now, retention_secs),
        t >= now ==> !is_expired(t, now, retention_secs),
{
}

/// The division for the media sequence number fits an `i64`.
pub open spec fn sequence_fits(segments: Seq<(i64, Seq<char>)>, segment_secs: u64) -> bool {
    segments.len() > 0 ==> !(segments[0].0 == i64::MIN && wrap_i64(segment_secs) == -1)
}

/// The playlist's header lines.
pub open spec fn playlist_header(segment_secs: u64, sequence: int) -> Seq<char> {
    "#EXTM3U\n#EXT-X-VERSION:7\n#EXT-X-TARGETDURATION:"@ + decimal(segment_secs as nat)
        + "\n#EXT-X-MEDIA-SEQUENCE:"@ + signed_decimal(sequence)
        + "\n#EXT-X-PLAYLIST-TYPE:EVENT\n#EXT-X-MAP:URI=\"init.mp4\"\n"@
}

/// One `#EXTINF` entry per segment, each with the configured duration.
pub open spec fn playlist_entries(segments: Seq<(i64, Seq<char>)>, segment_secs: u64) -> Seq<char>
    decreases segments.len(),
{
    if segments.len() == 0 {
        seq![]
    } else {
        playlist_entries(segments.drop_last(), segment_secs) + "#EXTINF:"@
            + f64_fixed4_text(segment_secs as nat) + ",\n"@ + segments.last().1 + "\n"@
    }
}

/// The playlist for the listed segments; none where no segment is listed.
pub open spec fn playlist_text(segments: Seq<(i64, Seq<char>)>, segment_secs: u64) -> Option<Seq<char>> {
    if segments.len() == 0 {
        None
    } else {
        Some(playlist_header(segment_secs, media_sequence(segments, segment_secs))
            + playlist_entries(segments, segment_secs))
    }
}

/// The playlist's header: the target duration is a run of digits that reads
/// back as the segment length, the media sequence is a signed integer text
/// that parses back to the sequence number, and the segment entries follow.
pub proof fn lemma_playlist_header_values(segments: Seq<(i64, Seq<char>)>, segment_secs: u64)
    requires
        segments.len() > 0,
        0 < segment_secs <= i64::MAX,
    ensures
        exists|duration: Seq<char>, sequence: Seq<char>| {
            &&& duration.len() > 0
            &&& all_digits(duration)
            &&& digits_value(duration) == segment_secs
            &&& parse_i64_spec(sequence) matches Some(q) && q == media_sequence(segments, segment_secs)
            &&& #[trigger] playlist_text(segments, segment_secs) == Some(
                "#EXTM3U\n#EXT-X-VERSION:7\n#EXT-X-TARGETDURATION:"@ + duration
                + "\n#EXT-X-MEDIA-SEQUENCE:"@ + sequence
                + "\n#EXT-X-PLAYLIST-TYPE:EVENT\n#EXT-X-MAP:URI=\"init.mp4\"\n"@
                + playlist_entries(segments, segment_secs))
        },
{
    lemma_decimal_digits(segment_secs as nat);
    lemma_media_sequence_is_quotient(segments, segment_secs);
    let q = media_sequence(segments, segment_secs);
    let t = segments[0].0 as int;
    let s = segment_secs as int;
    assert(i64::MIN <= q <= i64::MAX) by (nonlinear_arith)
        requires
            t >= 0 ==> q * s <= t < (q + 1) * s,
            t < 0 ==> (q - 1) * s < t <= q * s,
            s >= 1,
            i64::MIN <= t <= i64::MAX,
    ;
    lemma_parse_signed_decimal(q as i64);
    let duration = decimal(segment_secs as nat);
    let sequence = signed_decimal(q);
    assert(playlist_text(segments, segment_secs) == Some(
        "#EXTM3U\n#EXT-X-VERSION:7\n#EXT-X-TARGETDURATION:"@ + duration
        + "\n#EXT-X-MEDIA-SEQUENCE:"@ + sequence
        + "\n#EXT-X-PLAYLIST-TYPE:EVENT\n#EXT-X-MAP:URI=\"init.mp4\"\n"@
        + playlist_entries(segments, segment_secs)));
}

/// The name without every trailing `.mp4`.
pub fn trim_mp4_suffix(name: &str) -> (r: &str)
    ensures
        r@ == trim_mp4(name@),
{
    proof { reveal_strlit(".mp4"); }
    assert(".mp4"@ == mp4_suffix());
    let mut cur: &str = name;
    while ends_with(cur, ".mp4")
        invariant
            trim_mp4(cur@) == trim_mp4(name@),
            ".mp4"@ == mp4_suffix(),
        decreases cur@.len(),
    {
        let len = cur.unicode_len();
        cur = cur.substring_char(0, len - 4);
    }
    cur
}

/// The time in a segment's name, if the entry is a segment.
pub fn segment_time_of(e: &DirEntry) -> (r: Option<i64>)
    ensures
        r == segment_time(*e),
{
    proof { reveal_strlit(".mp4"); }
    assert(".mp4"@ == mp4_suffix());
    if !e.is_file || !ends_with(e.name.as_str(), ".mp4") || str_eq(e.name.as_str(), "init.mp4") {
        return None;
    }
    parse_i64(trim_mp4_suffix(e.name.as_str()))
}

/// Whether every segment's age fits in an `i64`.
pub fn check_ages_fit(entries: &Vec<DirEntry>, now: i64) -> (r: bool)
    ensures
        r == ages_fit(entries@, now),
{
    let mut i: usize = 0;
    while i < entries.len()
        invariant
            i <= entries@.len(),
            forall|k: int| 0 <= k < i ==> (#[trigger] segment_time(entries@[k]) matches Some(t)
                ==> i64::MIN <= now - t <= i64::MAX),
        decreases entries@.len() - i,
    {
        match segment_time_of(&entries[i]) {
            Some(t) => {
                if (now as i128) - (t as i128) < i64::MIN as i128 || (now as i128) - (t as i128) > i64::MAX as i128 {
                    return false;
                }
            }
            None => {}
        }
        i = i + 1;
    }
    true
}

/// Splits the segments into those to delete and those that stay, each in
/// directory order.
pub fn select_segments(entries: &Vec<DirEntry>, now: i64, retention_secs: u64) -> (r: (Vec<String>, Vec<Segment>))
    requires
        ages_fit(entries@, now),
    ensures
        string_views(r.0@) == expired_names(entries@, now, retention_secs),
        segment_views(r.1@) == kept_segments(entries@, now, retention_secs),
{
    let mut expired: Vec<String> = Vec::new();
    let mut kept: Vec<Segment> = Vec::new();
    let limit: i64 = retention_secs as i64;
    assert(limit == wrap_i64(retention_secs)) by (bit_vector)
        requires
            limit == retention_secs as i64,
    ;
    let mut i: usize = 0;
    while i < entries.len()
        invariant
            i <= entries@.len(),
            ages_fit(entries@, now),
            limit == wrap_i64(retention_secs),
            string_views(expired@) == expired_names(entries@.take(i as int), now, retention_secs),
            segment_views(kept@) == kept_segments(entries@.take(i as int), now, retention_secs),
        decreases entries@.len() - i,
    {
        let ghost prefix = entries@.take(i + 1);
        assert(prefix.drop_last() =~= entries@.take(i as int));
        assert(prefix.last() == entries@[i as int]);
        match segment_time_of(&entries[i]) {
            Some(t) => {
                assert(segment_time(entries@[i as int]) == Some(t));
                let age = now - t;
                if age > limit {
                    expired.push(entries[i].name.clone());
                    assert(string_views(expired@) =~= expired_names(prefix, now, retention_secs));
                    assert(segment_views(kept@) =~= kept_segments(prefix, now, retention_secs));
                } else {
                    kept.push(Segment { time: t, name: entries[i].name.clone() });
                    assert(string_views(expired@) =~= expired_names(prefix, now, retention_secs));
                    assert(segment_views(kept@) =~= kept_segments(prefix, now, retention_secs));
                }
            }
            None => {
                assert(string_views(expired@) =~= expired_names(prefix, now, retention_secs));
                assert(segment_views(kept@) =~= kept_segments(prefix, now, retention_secs));
            }
        }
        i = i + 1;
    }
    assert(entries@.take(entries@.len() as int) =~= entries@);
    (expired, kept)
}

/// Whether `a` comes no later than `b` chronologically.
fn segment_le(a: &Segment, b: &Segment) -> (r: bool)
    ensures
        r == time_le((a.time, a.name@), (b.time, b.name@)),
{
    a.time < b.time || (a.time == b.time && str_lex_le(a.name.as_str(), b.name.as_str()))
}

/// A copy of a segment.
fn copy_segment(x: &Segment) -> (r: Segment)
    ensures
        r.time == x.time,
        r.name@ == x.name@,
{
    Segment { time: x.time, name: x.name.clone() }
}

/// Sorts segments chronologically, by the time in their names and equal
/// times by name.
pub fn sort_segments(v: &Vec<Segment>) -> (r: Vec<Segment>)
    ensures
        segment_views(r@) == chronological(segment_views(v@)),
{
    let mut res: Vec<Segment> = Vec::new();
    let n = v.len();
    let mut i: usize = 0;
    assert(segment_views(res@) =~= segment_views(v@.take(0)));
    while i < n
        invariant
            n == v@.len(),
            i <= n,
            time_sorted(segment_views(res@)),
            segment_views(res@).to_multiset() == segment_views(v@.take(i as int)).to_multiset(),
        decreases n - i,
    {
        let x = copy_segment(&v[i]);
        let ghost xv = (x.time, x.name@);
        let ghost old_views = segment_views(res@);
        let mut j: usize = 0;
        while j < res.len() && segment_le(&res[j], &x)
            invariant
                j <= res@.len(),
                old_views == segment_views(res@),
                xv == (x.time, x.name@),
                forall|k: int| 0 <= k < j ==> time_le(#[trigger] old_views[k], xv),
            decreases res@.len() - j,
        {
            assert(old_views[j as int] == (res@[j as int].time, res@[j as int].name@));
            j = j + 1;
        }
        proof {
            if j < res@.len() {
                assert(old_views[j as int] == (res@[j as int].time, res@[j as int].name@));
                lemma_time_total(old_views[j as int], xv);
                assert forall|k: int| j <= k < old_views.len() implies time_le(xv, #[trigger] old_views[k]) by {
                    if k > j {
                        lemma_time_trans(xv, old_views[j as int], old_views[k]);
                    }
                }
            }
        }
        res.insert(j, x);
        proof {
            let nv = segment_views(res@);
            assert(nv =~= old_views.insert(j as int, xv));
            assert forall|a: int, b: int| 0 <= a < b < nv.len() implies time_le(#[trigger] nv[a], #[trigger] nv[b]) by {
                if a < j && b > j {
                    lemma_time_trans(nv[a], xv, nv[b]);
                }
            }
            vstd::seq_lib::to_multiset_insert(old_views, j as int, xv);
            assert(segment_views(v@.take(i + 1)) =~= segment_views(v@.take(i as int)).push(xv));
            vstd::seq_lib::to_multiset_build(segment_views(v@.take(i as int)), xv);
        }
        i = i + 1;
    }
    assert(v@.take(n as int) =~= v@);
    proof {
        lemma_time_sorted_is_chronological(segment_views(res@), segment_views(v@));
    }
    res
}

/// Sorts the kept segments chronologically and keeps at most the last
/// `list_size` of them.
pub fn playlist_window(kept: &Vec<Segment>, list_size: u64) -> (r: Vec<Segment>)
    ensures
        segment_views(r@) == window(segment_views(kept@), list_size),
{
    let sorted = sort_segments(kept);
    let limit = list_size as usize;
    if sorted.len() > limit {
        let start = sorted.len() - limit;
        let mut out: Vec<Segment> = Vec::new();
        let mut i = start;
        while i < sorted.len()
            invariant
                start <= i <= sorted@.len(),
                segment_views(out@) == segment_views(sorted@).subrange(start as int, i as int),
            decreases sorted@.len() - i,
        {
            let ghost prev = segment_views(out@);
            let item = copy_segment(&sorted[i]);
            out.push(item);
            assert(segment_views(out@) =~= prev.push((sorted@[i as int].time, sorted@[i as int].name@)));
            assert(segment_views(sorted@).subrange(start as int, i + 1)
                =~= segment_views(sorted@).subrange(start as int, i as int).push(
                (sorted@[i as int].time, sorted@[i as int].name@)));
            i = i + 1;
        }
        assert(segment_views(sorted@).subrange(start as int, sorted@.len() as int)
            =~= segment_views(sorted@).skip(start as int));
        out
    } else {
        sorted
    }
}

/// `a / b` on `i64`, rounding toward zero.
fn div_toward_zero(a: i64, b: i64) -> (r: i64)
    requires
        b != 0,
        !(a == i64::MIN && b == -1),
    ensures
        r == trunc_div(a as int, b as int),
{
    let ua: u128 = if a < 0 { (0i128 - a as i128) as u128 } else { a as u128 };
    let ub: u128 = if b < 0 { (0i128 - b as i128) as u128 } else { b as u128 };
    let q = ua / ub;
    proof {
        assert(q <= ua) by (nonlinear_arith)
            requires
                q == ua / ub,
                ub >= 1,
        ;
        if ua == 0x8000_0000_0000_0000 && ub >= 2 {
            assert(q <= 0x4000_0000_0000_0000) by (nonlinear_arith)
                requires
                    q == ua / ub,
                    ub >= 2,
                    ua == 0x8000_0000_0000_0000,
            ;
        }
        if ua == 0x8000_0000_0000_0000 && ub == 1 {
            assert(a == i64::MIN);
            assert(b == 1);
        }
    }
    if (a < 0) != (b < 0) {
        (0i128 - q as i128) as i64
    } else {
        q as i64
    }
}

/// Renders the playlist for the listed segments: none where none is listed.
pub fn render_playlist(segments: &Vec<Segment>, segment_secs: u64) -> (r: Option<String>)
    requires
        segment_secs > 0,
        sequence_fits(segment_views(segments@), segment_secs),
    ensures
        r matches Some(s) ==> playlist_text(segment_views(segments@), segment_secs) == Some(s@),
        r is None ==> playlist_text(segment_views(segments@), segment_secs) is None,
{
    let ghost views = segment_views(segments@);
    if segments.len() == 0 {
        return None;
    }
    let divisor: i64 = segment_secs as i64;
    assert(divisor == wrap_i64(segment_secs)) by (bit_vector)
        requires
            divisor == segment_secs as i64,
    ;
    let sequence: i64 = div_toward_zero(segments[0].time, divisor);
    assert(sequence == media_sequence(views, segment_secs));
    let mut s = String::new();
    s.append("#EXTM3U\n#EXT-X-VERSION:7\n#EXT-X-TARGETDURATION:");
    push_decimal(&mut s, segment_secs as u128);
    s.append("\n#EXT-X-MEDIA-SEQUENCE:");
    push_signed_decimal(&mut s, sequence);
    s.append("\n#EXT-X-PLAYLIST-TYPE:EVENT\n#EXT-X-MAP:URI=\"init.mp4\"\n");
    let ghost header = s@;
    assert(header =~= playlist_header(segment_secs, sequence as int));
    let mut i: usize = 0;
    assert(views.take(0) =~= Seq::<(i64, Seq<char>)>::empty());
    while i < segments.len()
        invariant
            i <= segments@.len(),
            views == segment_views(segments@),
            s@ == header + playlist_entries(views.take(i as int), segment_secs),
        decreases segments@.len() - i,
    {
        let ghost before = s@;
        s.append("#EXTINF:");
        push_f64_fixed4(&mut s, segment_secs);
        s.append(",\n");
        s.append(segments[i].name.as_str());
        s.append("\n");
        let ghost prefix = views.take(i + 1);
        assert(prefix.drop_last() =~= views.take(i as int));
        assert(prefix.last() == (segments@[i as int].time, segments@[i as int].name@));
        assert(s@ =~= header + playlist_entries(prefix, segment_secs));
        i = i + 1;
    }
    assert(views.take(segments@.len() as int) =~= views);
    Some(s)
}

/// What the playlist manager does in one pass: the segment files to delete,
/// and the playlist to write (none while no segment is recorded).
pub struct PlaylistPlan {
    pub expired: Vec<String>,
    pub playlist: Option<String>,
}

/// Why a pass of the playlist manager cannot be planned.
pub enum PlanError {
    /// The retention or segment settings are unusable.
    Config(crate::config::ConfigError),
    /// A segment's age does not fit an `i64`.
    AgeOverflow,
    /// The media sequence number does not fit an `i64`.
    SequenceOverflow,
}

/// Whether the division for the media sequence number fits an `i64`.
pub fn check_sequence_fits(segments: &Vec<Segment>, segment_secs: u64) -> (r: bool)
    ensures
        r == sequence_fits(segment_views(segments@), segment_secs),
{
    if segments.len() == 0 {
        return true;
    }
    let divisor: i64 = segment_secs as i64;
    assert(divisor == wrap_i64(segment_secs)) by (bit_vector)
        requires
            divisor == segment_secs as i64,
    ;
    !(segments[0].time == i64::MIN && divisor == -1)
}

/// Every character of an integer's text is a digit or a minus sign.
proof fn lemma_signed_decimal_chars(t: int)
    ensures
        signed_decimal(t).len() > 0,
        forall|i: int| 0 <= i < signed_decimal(t).len() ==>
            is_digit(#[trigger] signed_decimal(t)[i]) || signed_decimal(t)[i] == '-',
{
    if t < 0 {
        lemma_decimal_digits((-t) as nat);
        let s = signed_decimal(t);
        assert forall|i: int| 0 <= i < s.len() implies is_digit(#[trigger] s[i]) || s[i] == '-' by {
            if i > 0 {
                assert(s[i] == decimal((-t) as nat)[i - 1]);
            }
        }
    } else {
        lemma_decimal_digits(t as nat);
    }
}

/// A regular file named after a UNIX time, `<t>.mp4`, is a segment made at `t`.
pub proof fn lemma_segment_named_by_time(e: DirEntry, t: i64)
    requires
        e.is_file,
        e.name@ == signed_decimal(t as int) + mp4_suffix(),
    ensures
        segment_time(e) == Some(t),
{
    let d = signed_decimal(t as int);
    let name = e.name@;
    lemma_signed_decimal_chars(t as int);
    lemma_parse_signed_decimal(t);
    assert(name.skip(name.len() - 4) =~= mp4_suffix());
    assert(name.take(name.len() - 4) =~= d);
    assert(!has_suffix(d, mp4_suffix())) by {
        if has_suffix(d, mp4_suffix()) {
            assert(d.skip(d.len() - 4)[0] == '.');
            assert(d[d.len() - 4] == '.');
        }
    }
    assert(mp4_suffix().len() == 4);
    assert(name.len() == d.len() + 4);
    assert(has_suffix(name, mp4_suffix()));
    assert(trim_mp4(d) == d);
    assert(trim_mp4(name) == trim_mp4(name.take(name.len() - 4)));
    assert(trim_mp4(name) == d);
    reveal_strlit("init.mp4");
    assert(name != "init.mp4"@) by {
        assert("init.mp4"@[0] == 'i');
        assert(name[0] == d[0]);
    }
}

/// Only segments are deleted, and only those that outlived the retention
/// time: each name to delete is that of an entry whose segment time is expired.
pub proof fn lemma_expired_are_stale_segments(entries: Seq<DirEntry>, now: i64, retention_secs: u64)
    ensures
        forall|k: int| #![trigger expired_names(entries, now, retention_secs)[k]]
            0 <= k < expired_names(entries, now, retention_secs).len() ==> exists|i: int|
            0 <= i < entries.len() && #[trigger] entries[i].name@ == expired_names(entries, now, retention_secs)[k]
                && (segment_time(entries[i]) matches Some(t) && is_expired(t, now, retention_secs)),
    decreases entries.len(),
{
    if entries.len() > 0 {
        let init = entries.drop_last();
        lemma_expired_are_stale_segments(init, now, retention_secs);
        let ex = expired_names(entries, now, retention_secs);
        let prev = expired_names(init, now, retention_secs);
        assert forall|k: int| #![trigger ex[k]] 0 <= k < ex.len() implies exists|i: int|
            0 <= i < entries.len() && #[trigger] entries[i].name@ == ex[k]
                && (segment_time(entries[i]) matches Some(t) && is_expired(t, now, retention_secs)) by {
            if k < prev.len() {
                assert(ex[k] == prev[k]);
                assert(prev[k] == expired_names(init, now, retention_secs)[k]);
                let i = choose|i: int| 0 <= i < init.len() && #[trigger] init[i].name@ == prev[k]
                    && (segment_time(init[i]) matches Some(t) && is_expired(t, now, retention_secs));
                assert(entries[i] == init[i]);
            } else {
                let i = entries.len() - 1;
                assert(entries[i] == entries.last());
            }
        }
    }
}

/// Every segment that outlived the retention time is deleted, and every
/// other segment stays, with its time.
pub proof fn lemma_every_segment_is_handled(entries: Seq<DirEntry>, now: i64, retention_secs: u64, i: int)
    requires
        0 <= i < entries.len(),
        segment_time(entries[i]) is Some,
    ensures
        is_expired(segment_time(entries[i]).unwrap(), now, retention_secs)
            ==> expired_names(entries, now, retention_secs).contains(entries[i].name@),
        !is_expired(segment_time(entries[i]).unwrap(), now, retention_secs)
            ==> kept_segments(entries, now, retention_secs).contains(
                (segment_time(entries[i]).unwrap(), entries[i].name@)),
    decreases entries.len(),
{
    let init = entries.drop_last();
    let ex = expired_names(entries, now, retention_secs);
    let kp = kept_segments(entries, now, retention_secs);
    let item = (segment_time(entries[i]).unwrap(), entries[i].name@);
    if i < entries.len() - 1 {
        assert(init[i] == entries[i]);
        lemma_every_segment_is_handled(init, now, retention_secs, i);
        let prev_ex = expired_names(init, now, retention_secs);
        let prev_kp = kept_segments(init, now, retention_secs);
        if is_expired(segment_time(entries[i]).unwrap(), now, retention_secs) {
            let k = choose|k: int| 0 <= k < prev_ex.len() && prev_ex[k] == entries[i].name@;
            assert(ex[k] == prev_ex[k]);
        } else {
            let k = choose|k: int| 0 <= k < prev_kp.len() && prev_kp[k] == item;
            assert(kp[k] == prev_kp[k]);
        }
    } else {
        assert(entries.last() == entries[i]);
        if is_expired(segment_time(entries[i]).unwrap(), now, retention_secs) {
            assert(ex[ex.len() - 1] == entries[i].name@);
        } else {
            assert(kp[kp.len() - 1] == item);
        }
    }
}

/// The listed segments are segments that stay, in chronological order, no
/// more of them than the list size; and they are the latest: every kept
/// segment that is not listed comes before every listed one.
pub proof fn lemma_listed_are_kept(kept: Seq<(i64, Seq<char>)>, list_size: u64)
    ensures
        window(kept, list_size).len() <= (list_size as usize) as int,
        window(kept, list_size).len() <= kept.len(),
        window(kept, list_size).len() == kept.len() || window(kept, list_size).len() == (list_size as usize) as int,
        time_sorted(window(kept, list_size)),
        forall|k: int| 0 <= k < window(kept, list_size).len() ==> kept.contains(#[trigger] window(kept, list_size)[k]),
        forall|x: (i64, Seq<char>)| #[trigger] kept.to_multiset().count(x)
            > window(kept, list_size).to_multiset().count(x)
            ==> forall|k: int| 0 <= k < window(kept, list_size).len()
                ==> time_le(x, #[trigger] window(kept, list_size)[k]),
{
    broadcast use vstd::seq_lib::group_to_multiset_ensures;
    lemma_time_total_ordering();
    kept.lemma_sort_by_ensures(time_order());
    let sorted = chronological(kept);
    vstd::seq_lib::to_multiset_len(kept);
    vstd::seq_lib::to_multiset_len(sorted);
    let w = window(kept, list_size);
    let limit = (list_size as usize) as int;
    let off = if sorted.len() > limit { sorted.len() - limit } else { 0 };
    assert forall|k: int| 0 <= k < w.len() implies w[k] == sorted[k + off] by {}
    assert(time_sorted(w)) by {
        assert forall|x: int, y: int| 0 <= x < y < w.len() implies time_le(#[trigger] w[x], #[trigger] w[y]) by {
            assert(time_order()(sorted[x + off], sorted[y + off]));
        }
    }
    assert forall|k: int| 0 <= k < w.len() implies kept.contains(#[trigger] w[k]) by {
        assert(sorted.contains(sorted[k + off]));
        assert(sorted.to_multiset().count(sorted[k + off]) > 0);
    }
    assert(sorted =~= sorted.take(off) + w);
    vstd::seq_lib::lemma_multiset_commutative(sorted.take(off), w);
    assert forall|x: (i64, Seq<char>)| #[trigger] kept.to_multiset().count(x) > w.to_multiset().count(x)
        implies forall|k: int| 0 <= k < w.len() ==> time_le(x, #[trigger] w[k]) by {
        assert(sorted.take(off).to_multiset().count(x) > 0);
        assert(sorted.take(off).contains(x));
        let a = choose|a: int| 0 <= a < off && sorted.take(off)[a] == x;
        assert forall|k: int| 0 <= k < w.len() implies time_le(x, #[trigger] w[k]) by {
            assert(sorted[a] == x);
            assert(time_order()(sorted[a], sorted[k + off]));
        }
    }
}

impl Config {
    /// The segments that a pass lists in the playlist.
    pub open spec fn listed_segments(&self, entries: Seq<DirEntry>, now: i64) -> Seq<(i64, Seq<char>)> {
        window(kept_segments(entries, now, self.retention_secs_spec().unwrap()), self.hls_list_size_spec())
    }

    /// The settings are usable and the arithmetic of a pass fits its integers.
    pub open spec fn playlist_plannable(&self, entries: Seq<DirEntry>, now: i64) -> bool {
        &&& self.recording_valid()
        &&& ages_fit(entries, now)
        &&& sequence_fits(self.listed_segments(entries, now), self.recording_segment_seconds)
    }

    /// One pass of the playlist manager over the recording directory's
    /// entries at UNIX time `now`.
    pub fn plan_playlist(&self, entries: &Vec<DirEntry>, now: i64) -> (r: PlaylistPlan)
        requires
            self.recording_valid(),
            ages_fit(entries@, now),
            sequence_fits(window(kept_segments(entries@, now, self.retention_secs_spec().unwrap()),
                self.hls_list_size_spec()), self.recording_segment_seconds),
        ensures
            string_views(r.expired@) == expired_names(entries@, now, self.retention_secs_spec().unwrap()),
            r.playlist matches Some(s) ==> playlist_text(window(kept_segments(entries@, now,
                self.retention_secs_spec().unwrap()), self.hls_list_size_spec()),
                self.recording_segment_seconds) == Some(s@),
            r.playlist is None ==> window(kept_segments(entries@, now, self.retention_secs_spec().unwrap()),
                self.hls_list_size_spec()).len() == 0,
    {
        let retention = self.retention_seconds();
        let list_size = self.hls_list_size();
        let (expired, kept) = select_segments(entries, now, retention);
        let listed = playlist_window(&kept, list_size);
        let playlist = render_playlist(&listed, self.recording_segment_seconds);
        PlaylistPlan { expired, playlist }
    }

    /// `plan_playlist`, or why the pass cannot be made: unusable settings come
    /// first, then an age, then the media sequence number out of range.
    pub fn try_plan_playlist(&self, entries: &Vec<DirEntry>, now: i64) -> (r: Result<PlaylistPlan, PlanError>)
        ensures
            r is Ok <==> self.playlist_plannable(entries@, now),
            r matches Err(PlanError::Config(e)) ==> !self.recording_valid() && self.gives_error(e),
            r matches Err(PlanError::AgeOverflow) ==> self.recording_valid() && !ages_fit(entries@, now),
            r matches Err(PlanError::SequenceOverflow) ==> self.recording_valid() && ages_fit(entries@, now)
                && !sequence_fits(self.listed_segments(entries@, now), self.recording_segment_seconds),
            r matches Ok(p) ==> string_views(p.expired@) == expired_names(entries@, now,
                self.retention_secs_spec().unwrap()),
            r matches Ok(p) ==> (p.playlist matches Some(s) ==> playlist_text(self.listed_segments(entries@, now),
                self.recording_segment_seconds) == Some(s@)),
            r matches Ok(p) ==> (p.playlist is None ==> self.listed_segments(entries@, now).len() == 0),
    {
        let list_size = match self.try_hls_list_size() {
            Ok(n) => n,
            Err(e) => return Err(PlanError::Config(e)),
        };
        if !check_ages_fit(entries, now) {
            return Err(PlanError::AgeOverflow);
        }
        let retention = self.retention_seconds();
        let (_, kept) = select_segments(entries, now, retention);
        let listed = playlist_window(&kept, list_size);
        if !check_sequence_fits(&listed, self.recording_segment_seconds) {
            return Err(PlanError::SequenceOverflow);
        }
        Ok(self.plan_playlist(entries, now))
    }
}

} // verus!
