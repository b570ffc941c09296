//! ISO-BMFF box reading for fragmented MP4: big-endian fields, four-character
//! box types, and the two questions asked of a `moof` box: does its fragment
//! begin with a sync sample, and how many samples does it declare.
use vstd::prelude::*;

verus! {

/// Box type `ftyp` as a big-endian four-character code.
pub const FTYP: u32 = 0x66747970;

/// Box type `moov`.
pub const MOOV: u32 = 0x6d6f6f76;

/// Box type `moof`.
pub const MOOF: u32 = 0x6d6f6f66;

/// Box type `mdat`.
pub const MDAT: u32 = 0x6d646174;

/// Box type `traf`.
pub const TRAF: u32 = 0x74726166;

/// Box type `tfhd`.
pub const TFHD: u32 = 0x74666864;

/// Box type `trun`.
pub const TRUN: u32 = 0x7472756e;

/// The big-endian 32-bit integer stored at `s[i..i + 4]`.
pub open spec fn be32(s: Seq<u8>, i: int) -> u32 {
    (s[i] as int * 16777216 + s[i + 1] as int * 65536 + s[i + 2] as int * 256
        + s[i + 3] as int) as u32
}

/// The 24-bit flags field of a full box whose header starts at `off`.
pub open spec fn full_box_flags(s: Seq<u8>, off: int) -> u32 {
    (s[off + 9] as int * 65536 + s[off + 10] as int * 256 + s[off + 11] as int) as u32
}

/// The declared size of the box whose header starts at `off`.
pub open spec fn box_size(s: Seq<u8>, off: int) -> int {
    be32(s, off) as int
}

/// The four-character type of the box whose header starts at `off`.
pub open spec fn box_type(s: Seq<u8>, off: int) -> u32 {
    be32(s, off + 4)
}

/// A complete, well-sized box starts at `off` and ends no later than `end`.
pub open spec fn box_fits(s: Seq<u8>, off: int, end: int) -> bool {
    0 <= off && off + 8 <= end && end <= s.len() && box_size(s, off) >= 8 && off + box_size(s, off)
        <= end
}

/// Sample flags describe a sync sample when `sample_is_non_sync_sample` is clear.
pub open spec fn is_sync_flags(flags: u32) -> bool {
    (flags >> 16u32) & 1u32 == 0
}

/// `default_sample_flags` of the `tfhd` box at `off` (of size `size`) when it
/// carries them, else `prior`.
pub open spec fn tfhd_default_flags(s: Seq<u8>, off: int, size: int, prior: Option<u32>) -> Option<
    u32,
> {
    let fl = full_box_flags(s, off);
    let foff = off + 16 + (if fl & 1u32 != 0 {
        8int
    } else {
        0int
    }) + (if fl & 2u32 != 0 {
        4int
    } else {
        0int
    }) + (if fl & 8u32 != 0 {
        4int
    } else {
        0int
    }) + (if fl & 0x10u32 != 0 {
        4int
    } else {
        0int
    });
    if fl & 0x20u32 != 0 && foff + 4 <= off + size {
        Some(be32(s, foff))
    } else {
        prior
    }
}

/// Whether the first sample of the `trun` box at `off` (of size `size`) is a
/// sync sample: its `first_sample_flags` decide when present, else the track
/// default, else it is taken to be one.
pub open spec fn trun_starts_with_sync(
    s: Seq<u8>,
    off: int,
    size: int,
    default_flags: Option<u32>,
) -> bool {
    let fl = full_box_flags(s, off);
    let toff = off + 16 + (if fl & 1u32 != 0 {
        4int
    } else {
        0int
    });
    if fl & 4u32 != 0 && toff + 4 <= off + size {
        is_sync_flags(be32(s, toff))
    } else {
        match default_flags {
            Some(d) => is_sync_flags(d),
            None => true,
        }
    }
}

/// Walks the children of a `traf` from `off` to `end`; the first `trun` (of at
/// least 12 bytes) decides, using the defaults of any `tfhd` before it.
/// `None` when the walk meets no such `trun`.
pub open spec fn traf_keyframe(s: Seq<u8>, off: int, end: int, default_flags: Option<u32>) -> Option<
    bool,
>
    decreases end - off,
{
    if !box_fits(s, off, end) {
        None
    } else {
        let size = box_size(s, off);
        let t = box_type(s, off);
        let df = if t == TFHD && size >= 16 {
            tfhd_default_flags(s, off, size, default_flags)
        } else {
            default_flags
        };
        if t == TRUN && size >= 12 {
            Some(trun_starts_with_sync(s, off, size, df))
        } else {
            traf_keyframe(s, off + size, end, df)
        }
    }
}

/// Walks the children of a `moof` from `off`: the first `traf` that holds a
/// deciding `trun` gives the answer; no such `traf` means no keyframe.
pub open spec fn moof_keyframe_from(s: Seq<u8>, off: int) -> bool
    decreases s.len() - off,
{
    if !box_fits(s, off, s.len() as int) {
        false
    } else {
        let size = box_size(s, off);
        let r = traf_keyframe(s, off + 8, off + size, None);
        if box_type(s, off) == TRAF && r is Some {
            r->Some_0
        } else {
            moof_keyframe_from(s, off + size)
        }
    }
}

/// Whether the fragment that starts with this `moof` starts with a keyframe.
pub open spec fn spec_is_keyframe(s: Seq<u8>) -> bool {
    s.len() >= 16 && moof_keyframe_from(s, 8)
}

/// Sum of `sample_count` over the `trun` children (of at least 16 bytes) of a
/// `traf`, walked from `off` to `end`.
pub open spec fn traf_samples(s: Seq<u8>, off: int, end: int) -> int
    decreases end - off,
{
    if !box_fits(s, off, end) {
        0
    } else {
        let size = box_size(s, off);
        (if box_type(s, off) == TRUN && size >= 16 {
            be32(s, off + 12) as int
        } else {
            0
        }) + traf_samples(s, off + size, end)
    }
}

/// Sum of the samples declared by every `traf` child of a `moof`, walked from `off`.
pub open spec fn moof_samples_from(s: Seq<u8>, off: int) -> int
    decreases s.len() - off,
{
    if !box_fits(s, off, s.len() as int) {
        0
    } else {
        let size = box_size(s, off);
        (if box_type(s, off) == TRAF {
            traf_samples(s, off + 8, off + size)
        } else {
            0
        }) + moof_samples_from(s, off + size)
    }
}

/// The number of frames a fragment is counted for: the samples its `moof`
/// declares, at least one, and at most `u64::MAX`.
pub open spec fn spec_sample_count(s: Seq<u8>) -> u64 {
    if s.len() < 8 {
        1
    } else {
        let t = moof_samples_from(s, 8);
        if t < 1 {
            1
        } else if t > u64::MAX {
            u64::MAX
        } else {
            t as u64
        }
    }
}

/// Reads the big-endian 32-bit integer at `s[i..i + 4]`.
pub fn read_be32(s: &[u8], i: usize) -> (r: u32)
    requires
        i + 4 <= s@.len(),
    ensures
        r == be32(s@, i as int),
{
    (s[i] as u32) * 16777216 + (s[i + 1] as u32) * 65536 + (s[i + 2] as u32) * 256 + (s[i
        + 3] as u32)
}

/// Reads the 24-bit flags of the full box whose header starts at `off`.
fn read_flags(s: &[u8], off: usize) -> (r: u32)
    requires
        off + 12 <= s.len(),
    ensures
        r == full_box_flags(s@, off as int),
{
    (s[off + 9] as u32) * 65536 + (s[off + 10] as u32) * 256 + (s[off + 11] as u32)
}

/// Reads the header of the box at `off` and tells whether it is a complete,
/// well-sized box ending no later than `end`; returns its size and type.
fn read_box_header(s: &[u8], off: usize, end: usize) -> (r: (bool, usize, u32))
    requires
        off <= end <= s@.len(),
    ensures
        r.0 == box_fits(s@, off as int, end as int),
        r.0 ==> r.1 as int == box_size(s@, off as int) && r.2 == box_type(s@, off as int),
{
    if end - off < 8 {
        return (false, 0, 0);
    }
    let size = read_be32(s, off) as usize;
    let t = read_be32(s, off + 4);
    (size >= 8 && size <= end - off, size, t)
}

/// Walks the children of the `traf` whose content lies in `off..end` and
/// returns what its first deciding `trun` says, as `traf_keyframe` does.
fn traf_keyframe_exec(s: &[u8], off: usize, end: usize) -> (r: Option<bool>)
    requires
        off <= end <= s@.len(),
    ensures
        r == traf_keyframe(s@, off as int, end as int, None),
{
    let mut traf_off = off;
    let mut default_flags: Option<u32> = None;
    while traf_off <= end
        invariant
            off <= traf_off,
            end <= s@.len(),
            traf_keyframe(s@, off as int, end as int, None) == traf_keyframe(
                s@,
                traf_off as int,
                end as int,
                default_flags,
            ),
        decreases end - traf_off,
    {
        let (ok, child_size, child_type) = read_box_header(s, traf_off, end);
        if !ok {
            return None;
        }
        if child_type == TFHD && child_size >= 16 {
            let fl = read_flags(s, traf_off);
            let mut rel: usize = 16;
            if fl & 1 != 0 {
                rel = rel + 8;
            }
            if fl & 2 != 0 {
                rel = rel + 4;
            }
            if fl & 8 != 0 {
                rel = rel + 4;
            }
            if fl & 0x10 != 0 {
                rel = rel + 4;
            }
            if fl & 0x20 != 0 && rel + 4 <= child_size {
                default_flags = Some(read_be32(s, traf_off + rel));
            }
        }
        if child_type == TRUN && child_size >= 12 {
            let fl = read_flags(s, traf_off);
            let mut rel: usize = 16;
            if fl & 1 != 0 {
                rel = rel + 4;
            }
            if fl & 4 != 0 && rel + 4 <= child_size {
                let flags = read_be32(s, traf_off + rel);
                return Some((flags >> 16) & 1 == 0);
            }
            return match default_flags {
                Some(df) => Some((df >> 16) & 1 == 0),
                None => Some(true),
            };
        }
        traf_off = traf_off + child_size;
    }
    None
}

/// Whether the fragment that starts with the `moof` box `moof_data` begins
/// with a keyframe, read from the first `trun` of the first `traf` that has one.
pub fn is_keyframe_fragment(moof_data: &[u8]) -> (r: bool)
    ensures
        r == spec_is_keyframe(moof_data@),
{
    let len = moof_data.len();
    if len < 16 {
        return false;
    }
    let mut offset: usize = 8;
    while offset <= len
        invariant
            len == moof_data@.len(),
            8 <= offset,
            moof_keyframe_from(moof_data@, 8) == moof_keyframe_from(moof_data@, offset as int),
        decreases len - offset,
    {
        let (ok, box_size, box_type) = read_box_header(moof_data, offset, len);
        if !ok {
            return false;
        }
        if box_type == TRAF {
            if let Some(k) = traf_keyframe_exec(moof_data, offset + 8, offset + box_size) {
                return k;
            }
        }
        offset = offset + box_size;
    }
    false
}

/// Sums `sample_count` over the `trun` children of the `traf` whose content
/// lies in `off..end`, saturating at `u64::MAX`.
fn traf_samples_exec(s: &[u8], off: usize, end: usize) -> (r: u64)
    requires
        off <= end <= s@.len(),
    ensures
        r as int == if traf_samples(s@, off as int, end as int) > u64::MAX {
            u64::MAX as int
        } else {
            traf_samples(s@, off as int, end as int)
        },
{
    let mut total: u64 = 0;
    let ghost mut acc: int = 0;
    let mut traf_off = off;
    while traf_off <= end
        invariant
            off <= traf_off,
            end <= s@.len(),
            acc >= 0,
            acc + traf_samples(s@, traf_off as int, end as int) == traf_samples(
                s@,
                off as int,
                end as int,
            ),
            total as int == if acc > u64::MAX {
                u64::MAX as int
            } else {
                acc
            },
        ensures
            acc == traf_samples(s@, off as int, end as int),
            total as int == if acc > u64::MAX {
                u64::MAX as int
            } else {
                acc
            },
        decreases end - traf_off,
    {
        let (ok, child_size, child_type) = read_box_header(s, traf_off, end);
        if !ok {
            break;
        }
        if child_type == TRUN && child_size >= 16 {
            let sample_count = read_be32(s, traf_off + 12);
            total = total.saturating_add(sample_count as u64);
            proof {
                acc = acc + sample_count as int;
            }
        }
        traf_off = traf_off + child_size;
    }
    total
}

/// The number of video samples that the `trun` boxes of `moof_data` declare,
/// counted as at least one so that a malformed box never stalls the frame count.
pub fn count_samples_in_moof(moof_data: &[u8]) -> (r: u64)
    ensures
        r == spec_sample_count(moof_data@),
{
    let len = moof_data.len();
    if len < 8 {
        return 1;
    }
    let mut total: u64 = 0;
    let ghost mut acc: int = 0;
    let mut offset: usize = 8;
    while offset <= len
        invariant
            len == moof_data@.len(),
            8 <= offset,
            acc >= 0,
            acc + moof_samples_from(moof_data@, offset as int) == moof_samples_from(moof_data@, 8),
            total as int == if acc > u64::MAX {
                u64::MAX as int
            } else {
                acc
            },
        ensures
            acc == moof_samples_from(moof_data@, 8),
            total as int == if acc > u64::MAX {
                u64::MAX as int
            } else {
                acc
            },
        decreases len - offset,
    {
        let (ok, box_size, box_type) = read_box_header(moof_data, offset, len);
        if !ok {
            break;
        }
        if box_type == TRAF {
            let n = traf_samples_exec(moof_data, offset + 8, offset + box_size);
            proof {
                acc = acc + traf_samples(moof_data@, offset + 8, offset + box_size);
            }
            total = total.saturating_add(n);
        }
        offset = offset + box_size;
    }
    if total < 1 {
        1
    } else {
        total
    }
}

} // verus!
