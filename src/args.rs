//! Command line of the external media worker: a preamble chosen by the URL's
//! scheme, the input, and the output selection (fragmented-MP4 passthrough or
//! MJPEG), written to standard output.
use vstd::prelude::*;
use vstd::string::*;
use crate::text::{chars_of, decimal, decimal_string, range_eq};

verus! {

/// Picture quality of the MJPEG output.
#[derive(Clone, Copy, Debug, PartialEq, Eq, Structural)]
pub enum Quality {
    Low,
    Medium,
    High,
}

/// Frame-rate policy of the MJPEG output: the quality's own cap, or a given one.
#[derive(Clone, Copy, Debug, PartialEq, Eq, Structural)]
pub enum FpsMode {
    Native,
    Capped(u32),
}

/// Codec settings of the MJPEG output.
#[derive(Clone, Copy, Debug, PartialEq, Eq, Structural)]
pub struct CodecSettings {
    pub quality: Quality,
    pub fps_mode: FpsMode,
}

/// What the worker writes to its standard output.
#[derive(Clone, Copy, Debug, PartialEq, Eq, Structural)]
pub enum OutputMode {
    /// H.264 copied without transcoding into fragmented MP4.
    Fmp4Copy,
    /// JPEG frames, one after another.
    Mjpeg(CodecSettings),
}

pub open spec fn strings_view(v: Seq<String>) -> Seq<Seq<char>> {
    v.map_values(|s: String| s@)
}

/// `s` begins with `p`.
pub open spec fn has_prefix(s: Seq<char>, p: Seq<char>) -> bool {
    p.len() <= s.len() && s.subrange(0, p.len() as int) == p
}

/// `s` with every leading copy of the non-empty `p` removed.
pub open spec fn strip_prefixes(s: Seq<char>, p: Seq<char>) -> Seq<char>
    decreases s.len(),
{
    if p.len() > 0 && has_prefix(s, p) {
        strip_prefixes(s.subrange(p.len() as int, s.len() as int), p)
    } else {
        s
    }
}

/// The options that open every command line.
pub open spec fn common_args() -> Seq<Seq<char>> {
    seq!["-hide_banner"@, "-loglevel"@, "error"@]
}

/// Input options for RTP multicast: long analysis, so that a keyframe with
/// its parameter sets is seen when joining mid-stream.
pub open spec fn rtp_args() -> Seq<Seq<char>> {
    seq![
        "-analyzeduration"@, "10000000"@, "-probesize"@, "10000000"@,
        "-fflags"@, "+genpts+discardcorrupt+fastseek"@, "-flags"@, "low_delay"@,
        "-thread_queue_size"@, "512"@,
    ]
}

/// Input options for raw UDP multicast: those of RTP, plus a large socket
/// buffer and tolerance of buffer overruns.
pub open spec fn udp_args() -> Seq<Seq<char>> {
    rtp_args() + seq!["-buffer_size"@, "2000000"@, "-overrun_nonfatal"@, "1"@]
}

/// Input options for RTSP over TCP.
pub open spec fn rtsp_args() -> Seq<Seq<char>> {
    seq![
        "-analyzeduration"@, "100000"@, "-probesize"@, "50000"@,
        "-fflags"@, "+nobuffer+discardcorrupt+fastseek"@, "-flags"@, "low_delay"@,
        "-avioflags"@, "direct"@, "-rtsp_transport"@, "tcp"@,
        "-allowed_media_types"@, "video"@, "-thread_queue_size"@, "512"@,
        "-stimeout"@, "10000000"@,
    ]
}

/// Input options for SRT.
pub open spec fn srt_args() -> Seq<Seq<char>> {
    seq![
        "-analyzeduration"@, "50000"@, "-probesize"@, "50000"@,
        "-fflags"@, "+nobuffer+discardcorrupt+fastseek"@, "-flags"@, "low_delay"@,
        "-avioflags"@, "direct"@, "-thread_queue_size"@, "512"@,
        "-timeout"@, "10000000"@,
    ]
}

/// Input options for any other source (HTTP, files).
pub open spec fn other_args() -> Seq<Seq<char>> {
    seq![
        "-analyzeduration"@, "100000"@, "-probesize"@, "100000"@,
        "-fflags"@, "+nobuffer+discardcorrupt"@, "-flags"@, "low_delay"@,
        "-rw_timeout"@, "10000000"@,
    ]
}

/// The scheme-specific input options for `url`.
pub open spec fn input_preamble(url: Seq<char>) -> Seq<Seq<char>> {
    if has_prefix(url, "rtp://"@) {
        rtp_args()
    } else if has_prefix(url, "udp://"@) {
        udp_args()
    } else if has_prefix(url, "rtsp://"@) {
        rtsp_args()
    } else if has_prefix(url, "srt://"@) {
        srt_args()
    } else {
        other_args()
    }
}

/// The input the worker opens: a UDP address (what follows `udp://`, without
/// leading `@`) is rewritten to join its group (`udp://@addr`) with a
/// ten-second timeout; other URLs pass unchanged.
pub open spec fn input_url(url: Seq<char>) -> Seq<char> {
    if !has_prefix(url, "rtp://"@) && has_prefix(url, "udp://"@) {
        let addr = strip_prefixes(url.subrange(6, url.len() as int), "@"@);
        "udp://@"@ + addr + "?timeout=10000000"@
    } else {
        url
    }
}

/// Output options for H.264 passthrough into fragmented MP4 with 50 ms
/// fragments, flushed at once, without audio.
pub open spec fn h264_copy_args() -> Seq<Seq<char>> {
    seq![
        "-c:v"@, "copy"@, "-f"@, "mp4"@,
        "-movflags"@, "frag_keyframe+empty_moov+default_base_moof"@,
        "-frag_duration"@, "50000"@, "-min_frag_duration"@, "50000"@,
        "-flush_packets"@, "1"@, "-an"@,
    ]
}

/// The MJPEG `-q:v` value of a quality (lower is better).
pub open spec fn mjpeg_qscale(q: Quality) -> Seq<char> {
    match q {
        Quality::High => "3"@,
        Quality::Medium => "5"@,
        Quality::Low => "10"@,
    }
}

/// The frame-rate cap of MJPEG output, if any: a given cap wins; else Low
/// caps at 10, Medium at 15, High is uncapped.
pub open spec fn fps_cap(c: CodecSettings) -> Option<u32> {
    match c.fps_mode {
        FpsMode::Capped(n) => Some(n),
        FpsMode::Native => match c.quality {
            Quality::Low => Some(10),
            Quality::Medium => Some(15),
            Quality::High => None,
        },
    }
}

/// Output options for MJPEG frames written back to back.
pub open spec fn mjpeg_args(c: CodecSettings) -> Seq<Seq<char>> {
    let rate: Seq<Seq<char>> = match fps_cap(c) {
        Some(n) => seq!["-r"@, decimal(n as nat)],
        None => seq![],
    };
    seq!["-c:v"@, "mjpeg"@, "-q:v"@, mjpeg_qscale(c.quality)] + rate + seq![
        "-f"@,
        "image2pipe"@,
        "-an"@,
    ]
}

/// The whole argument list of the worker for `url` and `mode`.
pub open spec fn worker_args(url: Seq<char>, mode: OutputMode) -> Seq<Seq<char>> {
    let output = match mode {
        OutputMode::Fmp4Copy => h264_copy_args(),
        OutputMode::Mjpeg(c) => mjpeg_args(c),
    };
    common_args() + input_preamble(url) + seq!["-i"@, input_url(url)] + output + seq!["pipe:1"@]
}

fn push_str(v: &mut Vec<String>, s: &str)
    ensures
        strings_view(final(v)@) == strings_view(old(v)@).push(s@),
{
    v.push(String::from_str(s));
    assert(strings_view(v@) =~= strings_view(old(v)@).push(s@));
}

fn push_string(v: &mut Vec<String>, s: String)
    ensures
        strings_view(final(v)@) == strings_view(old(v)@).push(s@),
{
    let ghost sv = s@;
    v.push(s);
    assert(strings_view(v@) =~= strings_view(old(v)@).push(sv));
}

/// Output options for H.264 passthrough into fragmented MP4.
pub fn build_h264_copy_args() -> (r: Vec<String>)
    ensures
        strings_view(r@) == h264_copy_args(),
{
    let mut v: Vec<String> = Vec::new();
    push_str(&mut v, "-c:v");
    push_str(&mut v, "copy");
    push_str(&mut v, "-f");
    push_str(&mut v, "mp4");
    push_str(&mut v, "-movflags");
    push_str(&mut v, "frag_keyframe+empty_moov+default_base_moof");
    push_str(&mut v, "-frag_duration");
    push_str(&mut v, "50000");
    push_str(&mut v, "-min_frag_duration");
    push_str(&mut v, "50000");
    push_str(&mut v, "-flush_packets");
    push_str(&mut v, "1");
    push_str(&mut v, "-an");
    assert(strings_view(v@) =~= h264_copy_args());
    v
}

/// Output options for MJPEG frames.
pub fn build_mjpeg_args(c: CodecSettings) -> (r: Vec<String>)
    ensures
        strings_view(r@) == mjpeg_args(c),
{
    let mut v: Vec<String> = Vec::new();
    push_str(&mut v, "-c:v");
    push_str(&mut v, "mjpeg");
    push_str(&mut v, "-q:v");
    match c.quality {
        Quality::High => push_str(&mut v, "3"),
        Quality::Medium => push_str(&mut v, "5"),
        Quality::Low => push_str(&mut v, "10"),
    }
    let cap: Option<u32> = match c.fps_mode {
        FpsMode::Capped(n) => Some(n),
        FpsMode::Native => match c.quality {
            Quality::Low => Some(10),
            Quality::Medium => Some(15),
            Quality::High => None,
        },
    };
    let ghost before_rate = strings_view(v@);
    match cap {
        Some(n) => {
            push_str(&mut v, "-r");
            let rate = decimal_string(n as u64);
            push_string(&mut v, rate);
            assert(strings_view(v@) =~= before_rate + seq!["-r"@, decimal(n as nat)]);
        },
        None => {
            assert(strings_view(v@) =~= before_rate + Seq::<Seq<char>>::empty());
        },
    }
    push_str(&mut v, "-f");
    push_str(&mut v, "image2pipe");
    push_str(&mut v, "-an");
    assert(strings_view(v@) =~= mjpeg_args(c));
    v
}

/// Whether `s` begins with `p`, on characters.
fn starts_with_chars(s: &Vec<char>, p: &str) -> (r: bool)
    ensures
        r == has_prefix(s@, p@),
{
    let n = p.unicode_len();
    if n > s.len() {
        return false;
    }
    range_eq(s, 0, n, p)
}

/// Index of the first character after every leading copy of `p` in `s[from..]`.
fn skip_prefixes(s: &Vec<char>, from: usize, p: &str) -> (r: usize)
    requires
        from <= s@.len(),
        p@.len() > 0,
    ensures
        from <= r <= s@.len(),
        s@.subrange(r as int, s@.len() as int) == strip_prefixes(
            s@.subrange(from as int, s@.len() as int),
            p@,
        ),
{
    let n = p.unicode_len();
    let len = s.len();
    let mut i = from;
    while n <= len - i && range_eq(s, i, i + n, p)
        invariant
            n == p@.len(),
            n > 0,
            len == s@.len(),
            from <= i <= len,
            strip_prefixes(s@.subrange(i as int, len as int), p@) == strip_prefixes(
                s@.subrange(from as int, len as int),
                p@,
            ),
        decreases len - i,
    {
        proof {
            let t = s@.subrange(i as int, len as int);
            assert(t.subrange(0, n as int) =~= s@.subrange(i as int, i + n));
            assert(t.subrange(n as int, t.len() as int) =~= s@.subrange(i + n, len as int));
        }
        i = i + n;
    }
    proof {
        let t = s@.subrange(i as int, len as int);
        if n <= len - i {
            assert(t.subrange(0, n as int) =~= s@.subrange(i as int, i + n));
        }
    }
    i
}

/// The input the worker opens for `url`, as [`input_url`] says.
pub fn build_input_url(url: &str) -> (r: String)
    ensures
        r@ == input_url(url@),
{
    let cs = chars_of(url);
    if !starts_with_chars(&cs, "rtp://") && starts_with_chars(&cs, "udp://") {
        proof {
            reveal_strlit("udp://");
            reveal_strlit("@");
        }
        let b = skip_prefixes(&cs, 6, "@");
        let mut s = String::from_str("udp://@");
        s.append(url.substring_char(b, cs.len()));
        s.append("?timeout=10000000");
        s
    } else {
        String::from_str(url)
    }
}

/// Appends the scheme-specific input options for `url`.
fn push_input_preamble(v: &mut Vec<String>, cs: &Vec<char>)
    ensures
        strings_view(final(v)@) == strings_view(old(v)@) + input_preamble(cs@),
{
    let ghost v0 = strings_view(v@);
    if starts_with_chars(cs, "rtp://") {
        push_str(v, "-analyzeduration");
        push_str(v, "10000000");
        push_str(v, "-probesize");
        push_str(v, "10000000");
        push_str(v, "-fflags");
        push_str(v, "+genpts+discardcorrupt+fastseek");
        push_str(v, "-flags");
        push_str(v, "low_delay");
        push_str(v, "-thread_queue_size");
        push_str(v, "512");
        assert(strings_view(v@) =~= v0 + rtp_args());
    } else if starts_with_chars(cs, "udp://") {
        push_str(v, "-analyzeduration");
        push_str(v, "10000000");
        push_str(v, "-probesize");
        push_str(v, "10000000");
        push_str(v, "-fflags");
        push_str(v, "+genpts+discardcorrupt+fastseek");
        push_str(v, "-flags");
        push_str(v, "low_delay");
        push_str(v, "-thread_queue_size");
        push_str(v, "512");
        push_str(v, "-buffer_size");
        push_str(v, "2000000");
        push_str(v, "-overrun_nonfatal");
        push_str(v, "1");
        assert(strings_view(v@) =~= v0 + udp_args());
    } else if starts_with_chars(cs, "rtsp://") {
        push_str(v, "-analyzeduration");
        push_str(v, "100000");
        push_str(v, "-probesize");
        push_str(v, "50000");
        push_str(v, "-fflags");
        push_str(v, "+nobuffer+discardcorrupt+fastseek");
        push_str(v, "-flags");
        push_str(v, "low_delay");
        push_str(v, "-avioflags");
        push_str(v, "direct");
        push_str(v, "-rtsp_transport");
        push_str(v, "tcp");
        push_str(v, "-allowed_media_types");
        push_str(v, "video");
        push_str(v, "-thread_queue_size");
        push_str(v, "512");
        push_str(v, "-stimeout");
        push_str(v, "10000000");
        assert(strings_view(v@) =~= v0 + rtsp_args());
    } else if starts_with_chars(cs, "srt://") {
        push_str(v, "-analyzeduration");
        push_str(v, "50000");
        push_str(v, "-probesize");
        push_str(v, "50000");
        push_str(v, "-fflags");
        push_str(v, "+nobuffer+discardcorrupt+fastseek");
        push_str(v, "-flags");
        push_str(v, "low_delay");
        push_str(v, "-avioflags");
        push_str(v, "direct");
        push_str(v, "-thread_queue_size");
        push_str(v, "512");
        push_str(v, "-timeout");
        push_str(v, "10000000");
        assert(strings_view(v@) =~= v0 + srt_args());
    } else {
        push_str(v, "-analyzeduration");
        push_str(v, "100000");
        push_str(v, "-probesize");
        push_str(v, "100000");
        push_str(v, "-fflags");
        push_str(v, "+nobuffer+discardcorrupt");
        push_str(v, "-flags");
        push_str(v, "low_delay");
        push_str(v, "-rw_timeout");
        push_str(v, "10000000");
        assert(strings_view(v@) =~= v0 + other_args());
    }
}

/// The full argument list of the worker that reads `url` and writes `mode`
/// to its standard output.
pub fn build_worker_args(url: &str, mode: OutputMode) -> (r: Vec<String>)
    ensures
        strings_view(r@) == worker_args(url@, mode),
{
    let cs = chars_of(url);
    let mut v: Vec<String> = Vec::new();
    push_str(&mut v, "-hide_banner");
    push_str(&mut v, "-loglevel");
    push_str(&mut v, "error");
    push_input_preamble(&mut v, &cs);
    push_str(&mut v, "-i");
    let input = build_input_url(url);
    push_string(&mut v, input);
    let ghost before_output = strings_view(v@);
    assert(before_output =~= common_args() + input_preamble(url@) + seq!["-i"@, input_url(url@)]);
    let mut out = match mode {
        OutputMode::Fmp4Copy => build_h264_copy_args(),
        OutputMode::Mjpeg(c) => build_mjpeg_args(c),
    };
    let ghost out_view = strings_view(out@);
    v.append(&mut out);
    assert(strings_view(v@) =~= before_output + out_view);
    push_str(&mut v, "pipe:1");
    assert(strings_view(v@) =~= worker_args(url@, mode));
    v
}

} // verus!
