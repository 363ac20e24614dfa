//! Disk transfer counters from `/proc/diskstats`.
use vstd::prelude::*;
use crate::text::{contains, fields, has_substring, parse_u64, parsed_u64, split_fields, views, Separator};

verus! {

/// Bytes transferred since boot, and bytes per second since the previous
/// reading.
#[derive(Clone, Copy, Debug)]
pub struct DiskStats {
    pub read_bytes: u64,
    pub write_bytes: u64,
    pub read_speed: u64,
    pub write_speed: u64,
}

/// The `(read, written)` sector counts for `dev`: the first line that
/// mentions it and has at least fourteen fields decides, by its sixth and
/// tenth fields; `None` if they are not numbers or no line qualifies.
pub open spec fn device_sectors(ls: Seq<Seq<char>>, dev: Seq<char>) -> Option<(u64, u64)>
    decreases ls.len(),
{
    if ls.len() == 0 {
        None
    } else {
        let ps = fields(ls[0], Separator::Whitespace);
        if has_substring(ls[0], dev) && ps.len() >= 14 {
            if parsed_u64(ps[5]) is Some && parsed_u64(ps[9]) is Some {
                Some((parsed_u64(ps[5])->0, parsed_u64(ps[9])->0))
            } else {
                None
            }
        } else {
            device_sectors(ls.drop_first(), dev)
        }
    }
}

/// Reads the sector counters of `device` from a `/proc/diskstats` report.
pub fn read_device_stats(report: &str, device: &str) -> (r: Option<(u64, u64)>)
    ensures
        r == device_sectors(fields(report@, Separator::Newline), device@),
{
    let ls = split_fields(report, Separator::Newline);
    let mut i: usize = 0;
    assert(views(ls@).subrange(0, ls@.len() as int) =~= views(ls@));
    while i < ls.len()
        invariant
            i <= ls@.len(),
            views(ls@) == fields(report@, Separator::Newline),
            device_sectors(views(ls@), device@) == device_sectors(
                views(ls@).subrange(i as int, ls@.len() as int),
                device@,
            ),
        decreases ls@.len() - i,
    {
        let ghost rest = views(ls@).subrange(i as int, ls@.len() as int);
        assert(rest.drop_first() =~= views(ls@).subrange(i + 1, ls@.len() as int));
        assert(rest[0] == ls@[i as int]@);
        if contains(ls[i].as_str(), device) {
            let ps = split_fields(ls[i].as_str(), Separator::Whitespace);
            if ps.len() >= 14 {
                return match (parse_u64(ps[5].as_str()), parse_u64(ps[9].as_str())) {
                    (Some(r), Some(w)) => Some((r, w)),
                    _ => None,
                };
            }
        }
        i = i + 1;
    }
    assert(views(ls@).subrange(i as int, ls@.len() as int) =~= Seq::<Seq<char>>::empty());
    None
}

/// Bytes in `sectors` 512-byte sectors, saturating at `u64::MAX`.
pub open spec fn sector_bytes(sectors: u64) -> u64 {
    if sectors > u64::MAX / 512 {
        u64::MAX
    } else {
        (sectors * 512) as u64
    }
}

pub fn bytes_of_sectors(sectors: u64) -> (r: u64)
    ensures
        r == sector_bytes(sectors),
{
    if sectors > u64::MAX / 512 {
        u64::MAX
    } else {
        sectors * 512
    }
}

} // verus!
