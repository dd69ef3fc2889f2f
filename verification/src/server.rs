//! The web server's decisions: which embedded asset answers a request, the
//! MJPEG multipart framing of camera frames, and the listening address.
use vstd::prelude::*;
use vstd::utf8::encode_utf8;
use crate::text::{all_digits, decimal, digits_value, lemma_decimal_digits, push_decimal};

verus! {

/// The path without every leading `/` (what `trim_start_matches('/')` leaves).
pub open spec fn trim_leading_slashes(s: Seq<char>) -> Seq<char>
    decreases s.len(),
{
    if s.len() > 0 && s[0] == '/' {
        trim_leading_slashes(s.drop_first())
    } else {
        s
    }
}

/// The asset path that a request URI's path names.
pub fn asset_path(uri_path: &str) -> (r: &str)
    ensures
        r@ == trim_leading_slashes(uri_path@),
{
    let mut cur: &str = uri_path;
    while cur.unicode_len() > 0 && cur.get_char(0) == '/'
        invariant
            trim_leading_slashes(cur@) == trim_leading_slashes(uri_path@),
        decreases cur@.len(),
    {
        let len = cur.unicode_len();
        let rest = cur.substring_char(1, len);
        assert(rest@ =~= cur@.drop_first());
        cur = rest;
    }
    cur
}

/// What `mime_guess` guesses for a path, with `application/octet-stream`
/// where it has no guess, as text.
pub uninterp spec fn guessed_mime(path: Seq<char>) -> Seq<char>;

/// Calls `mime_guess::from_path(path).first_or_octet_stream()` and renders
/// the media type. Trusted: the text is the named guess for the path.
#[verifier::external_body]
fn guess_mime(path: &str) -> (r: String)
    ensures
        r@ == guessed_mime(path@),
{
    mime_guess::from_path(path).first_or_octet_stream().to_string()
}

/// How a request for an asset is answered.
pub enum StaticRoute {
    /// Serve the embedded asset at `path` with this media type (404 where
    /// there is none).
    Serve { path: String, content_type: String },
    /// Answer 404 Not Found.
    NotFound,
}

/// Whether a text holds a dot.
pub open spec fn has_dot(s: Seq<char>) -> bool {
    exists|i: int| 0 <= i < s.len() && s[i] == '.'
}

/// Whether the route serves the single-page app's entry, `index.html`, as HTML.
pub open spec fn serves_index(r: StaticRoute) -> bool {
    r matches StaticRoute::Serve { path: p, content_type: t } && p@ == "index.html"@ && t@ == "text/html"@
}

/// Decides the answer for the asset `path` (already stripped of leading
/// slashes), given whether an embedded asset has that path. The empty path
/// and unknown paths without a dot get the app's entry page; unknown paths
/// with a dot (missing scripts, styles, images) get 404.
pub fn static_route(path: &str, found: bool) -> (r: StaticRoute)
    ensures
        path@.len() == 0 ==> serves_index(r),
        path@.len() > 0 && found ==> (r matches StaticRoute::Serve { path: p, content_type: t }
            && p@ == path@ && t@ == guessed_mime(path@)),
        path@.len() > 0 && !found && has_dot(path@) ==> r is NotFound,
        path@.len() > 0 && !found && !has_dot(path@) ==> serves_index(r),
{
    let len = path.unicode_len();
    if len == 0 {
        return index_route();
    }
    if found {
        return StaticRoute::Serve { path: String::from_str(path), content_type: guess_mime(path) };
    }
    let mut i: usize = 0;
    while i < len
        invariant
            len == path@.len(),
            len > 0,
            !found,
            i <= len,
            forall|k: int| 0 <= k < i ==> path@[k] != '.',
        decreases len - i,
    {
        if path.get_char(i) == '.' {
            return StaticRoute::NotFound;
        }
        i = i + 1;
    }
    index_route()
}

fn index_route() -> (r: StaticRoute)
    ensures
        serves_index(r),
{
    StaticRoute::Serve { path: String::from_str("index.html"), content_type: String::from_str("text/html") }
}

/// The header of one part of the MJPEG multipart stream.
pub open spec fn part_header(len: nat) -> Seq<char> {
    "--frame\r\nContent-Type: image/jpeg\r\nContent-Length: "@ + decimal(len) + "\r\n\r\n"@
}

/// One part of the stream: header, the JPEG frame, and a line break.
pub open spec fn mjpeg_part_bytes(frame: Seq<u8>) -> Seq<u8> {
    encode_utf8(part_header(frame.len())) + frame + seq![13u8, 10u8]
}

/// Frames one JPEG image as a part of the `multipart/x-mixed-replace` stream.
pub fn mjpeg_part(frame: &[u8]) -> (r: Vec<u8>)
    ensures
        r@ == mjpeg_part_bytes(frame@),
{
    let mut header = String::new();
    header.append("--frame\r\nContent-Type: image/jpeg\r\nContent-Length: ");
    push_decimal(&mut header, frame.len() as u128);
    header.append("\r\n\r\n");
    let head_bytes = header.as_str().as_bytes();
    let mut out: Vec<u8> = Vec::new();
    let mut i: usize = 0;
    while i < head_bytes.len()
        invariant
            i <= head_bytes@.len(),
            out@ == head_bytes@.take(i as int),
        decreases head_bytes@.len() - i,
    {
        out.push(head_bytes[i]);
        assert(head_bytes@.take(i + 1) =~= head_bytes@.take(i as int).push(head_bytes@[i as int]));
        i = i + 1;
    }
    assert(head_bytes@.take(head_bytes@.len() as int) =~= head_bytes@);
    let ghost head = out@;
    let mut j: usize = 0;
    while j < frame.len()
        invariant
            j <= frame@.len(),
            out@ == head + frame@.take(j as int),
        decreases frame@.len() - j,
    {
        out.push(frame[j]);
        assert(frame@.take(j + 1) =~= frame@.take(j as int).push(frame@[j as int]));
        j = j + 1;
    }
    assert(frame@.take(frame@.len() as int) =~= frame@);
    out.push(13u8);
    out.push(10u8);
    assert(out@ =~= mjpeg_part_bytes(frame@));
    out
}

/// Each part announces its frame's true length: the part is the header
/// lines, the frame and a line break, and the `Content-Length` field holds a
/// run of decimal digits that reads back as the frame's byte count.
pub proof fn lemma_part_announces_frame_length(frame: Seq<u8>)
    ensures
        exists|digits: Seq<char>| {
            &&& digits.len() > 0
            &&& all_digits(digits)
            &&& digits_value(digits) == frame.len()
            &&& #[trigger] mjpeg_part_bytes(frame) == encode_utf8(
                "--frame\r\nContent-Type: image/jpeg\r\nContent-Length: "@ + digits + "\r\n\r\n"@) + frame
                + seq![13u8, 10u8]
        },
{
    lemma_decimal_digits(frame.len());
    let digits = decimal(frame.len());
    assert(mjpeg_part_bytes(frame) == encode_utf8(
        "--frame\r\nContent-Type: image/jpeg\r\nContent-Length: "@ + digits + "\r\n\r\n"@) + frame
        + seq![13u8, 10u8]);
}

/// The address the server listens on: all interfaces, the configured port.
pub open spec fn listen_address_text(port: u16) -> Seq<char> {
    "0.0.0.0:"@ + decimal(port as nat)
}

/// The server listens on every interface, at the configured port: the
/// address is `0.0.0.0:` and a run of decimal digits that reads back as the
/// port.
pub proof fn lemma_listen_address_port(port: u16)
    ensures
        exists|digits: Seq<char>| {
            &&& digits.len() > 0
            &&& all_digits(digits)
            &&& digits_value(digits) == port
            &&& #[trigger] listen_address_text(port) == "0.0.0.0:"@ + digits
        },
{
    lemma_decimal_digits(port as nat);
    assert(listen_address_text(port) == "0.0.0.0:"@ + decimal(port as nat));
}

/// Renders the listening address `0.0.0.0:<port>`.
pub fn listen_address(port: u16) -> (r: String)
    ensures
        r@ == listen_address_text(port),
{
    let mut s = String::from_str("0.0.0.0:");
    push_decimal(&mut s, port as u128);
    s
}

} // verus!
