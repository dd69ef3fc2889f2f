//! The systemd unit that runs the streamer as a service.
use vstd::prelude::*;

verus! {

/// The service's name.
pub const SERVICE_NAME: &'static str = "pi-webcam-streamer";

/// Where the unit file is installed.
pub const SERVICE_FILE_PATH: &'static str = "/etc/systemd/system/pi-webcam-streamer.service";

/// What `Path::parent` gives for a path: the path without its final
/// component, as text, or nothing where the path ends in a root or is empty.
pub uninterp spec fn path_parent(path: Seq<char>) -> Option<Seq<char>>;

/// Calls `std::path::Path::parent`. Trusted: the result is the named parent.
#[verifier::external_body]
fn parent_of(path: &str) -> (r: Option<String>)
    ensures
        r matches Some(p) ==> path_parent(path@) == Some(p@),
        r is None ==> path_parent(path@) is None,
{
    match std::path::Path::new(path).parent() {
        Some(q) => match q.to_str() {
            Some(t) => Some(t.to_string()),
            None => None,
        },
        None => None,
    }
}

/// The directory the service runs in: the executable's directory, or the
/// root where the executable's path has no parent.
pub open spec fn working_directory_text(exe: Seq<char>) -> Seq<char> {
    match path_parent(exe) {
        Some(dir) => dir,
        None => "/"@,
    }
}

/// The unit file's text for the executable at `exe`.
pub open spec fn unit_text(exe: Seq<char>) -> Seq<char> {
    "[Unit]\nDescription=Pi Webcam Streamer\nAfter=network.target\n\n[Service]\nType=simple\nUser=root\nWorkingDirectory="@ + working_directory_text(exe) + "\nExecStart="@ + exe + "\nRestart=always\nRestartSec=5\n\n[Install]\nWantedBy=multi-user.target\n"@
}

/// The executable's directory, or `/`.
pub fn working_directory(exe: &str) -> (r: String)
    ensures
        r@ == working_directory_text(exe@),
{
    match parent_of(exe) {
        Some(dir) => dir,
        None => String::from_str("/"),
    }
}

/// Renders the systemd unit that starts `exe` at boot and restarts it
/// five seconds after it exits.
pub fn service_unit(exe: &str) -> (r: String)
    ensures
        r@ == unit_text(exe@),
{
    let dir = working_directory(exe);
    let mut s = String::from_str("[Unit]\nDescription=Pi Webcam Streamer\nAfter=network.target\n\n[Service]\nType=simple\nUser=root\nWorkingDirectory=");
    s.append(dir.as_str());
    s.append("\nExecStart=");
    s.append(exe);
    s.append("\nRestart=always\nRestartSec=5\n\n[Install]\nWantedBy=multi-user.target\n");
    s
}

} // verus!
