//! Decisions about files on disk: which log files are old enough to remove,
//! and the names under which the media worker binary is looked for.
use vstd::prelude::*;
use vstd::string::*;
use crate::args::has_prefix;
use crate::text::{chars_of, range_eq};

verus! {

/// Seconds in a day.
pub const SECS_PER_DAY: u64 = 86400;

/// A log file is removed when its name (if readable) starts with
/// `stageview.log` and it was last modified more than `max_age_days` days
/// before `now_secs`.
pub open spec fn log_is_stale_spec(
    name: Option<Seq<char>>,
    modified_secs: int,
    now_secs: int,
    max_age_days: int,
) -> bool {
    let named = match name {
        Some(n) => has_prefix(n, "stageview.log"@),
        None => true,
    };
    named && modified_secs + max_age_days * SECS_PER_DAY < now_secs
}

/// Whether the log file called `name` (`None` when its name is not text),
/// last modified at `modified_secs`, is to be removed at `now_secs`.
pub fn log_is_stale(name: Option<&str>, modified_secs: u64, now_secs: u64, max_age_days: u64) -> (r:
    bool)
    ensures
        r == log_is_stale_spec(
            match name {
                Some(n) => Some(n@),
                None => None,
            },
            modified_secs as int,
            now_secs as int,
            max_age_days as int,
        ),
{
    let named = match name {
        Some(n) => {
            let cs = chars_of(n);
            let p = "stageview.log";
            let plen = p.unicode_len();
            plen <= cs.len() && range_eq(&cs, 0, plen, p)
        },
        None => true,
    };
    if !named {
        return false;
    }
    match max_age_days.checked_mul(SECS_PER_DAY) {
        Some(window) => match modified_secs.checked_add(window) {
            Some(deadline) => deadline < now_secs,
            None => false,
        },
        None => {
            assert(max_age_days * SECS_PER_DAY > u64::MAX);
            false
        },
    }
}

/// The worker binary's file name next to the executable.
pub fn sidecar_binary_name(windows: bool) -> (r: String)
    ensures
        windows ==> r@ == "ffmpeg.exe"@,
        !windows ==> r@ == "ffmpeg"@,
{
    if windows {
        String::from_str("ffmpeg.exe")
    } else {
        String::from_str("ffmpeg")
    }
}

/// The worker binary's file name in a development tree: named after the
/// target, `ffmpeg-<arch>-<os>` (a fixed name on Windows).
pub fn dev_binary_name(windows: bool, macos: bool, arch: &str) -> (r: String)
    ensures
        windows ==> r@ == "ffmpeg-x86_64-pc-windows-msvc.exe"@,
        !windows && macos ==> r@ == "ffmpeg-"@ + arch@ + "-apple-darwin"@,
        !windows && !macos ==> r@ == "ffmpeg-"@ + arch@ + "-unknown-linux-gnu"@,
{
    if windows {
        return String::from_str("ffmpeg-x86_64-pc-windows-msvc.exe");
    }
    let mut s = String::from_str("ffmpeg-");
    s.append(arch);
    if macos {
        s.append("-apple-darwin");
    } else {
        s.append("-unknown-linux-gnu");
    }
    s
}

} // verus!
