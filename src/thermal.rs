//! Thermal zone names and the choice of the CPU's zone.
use vstd::prelude::*;
use crate::text::{contains, has_substring, lower_of, same_text, signed_decimal, signed_string, to_lower};

verus! {

/// `/sys/class/thermal/thermal_zone<zone><leaf>`.
pub fn zone_path(zone: i32, leaf: &str) -> (r: String)
    ensures
        r@ == "/sys/class/thermal/thermal_zone"@ + signed_decimal(zone as int) + leaf@,
{
    String::from_str("/sys/class/thermal/thermal_zone").concat(signed_string(zone as i64).as_str()).concat(
        leaf,
    )
}

/// The name of a zone: the text of its `type` file, or `zone<n>`.
pub open spec fn zone_name(reading: Option<Seq<char>>, zone: i32) -> Seq<char> {
    match reading {
        Some(t) => t,
        None => "zone"@ + signed_decimal(zone as int),
    }
}

pub fn zone_name_from(reading: Option<String>, zone: i32) -> (r: String)
    ensures
        r@ == zone_name(
            match reading {
                Some(t) => Some(t@),
                None => None,
            },
            zone,
        ),
{
    match reading {
        Some(t) => t,
        None => String::from_str("zone").concat(signed_string(zone as i64).as_str()),
    }
}

/// Whether a zone name, ignoring case, is a CPU sensor's: it mentions
/// `cpu` or `tsens`, or is `pa`.
pub open spec fn cpu_zone_name(t: Seq<char>) -> bool {
    cpu_zone_lowered(lower_of(t))
}

/// Whether a lowercased zone name is a CPU sensor's.
pub open spec fn cpu_zone_lowered(l: Seq<char>) -> bool {
    has_substring(l, "cpu"@) || has_substring(l, "tsens"@) || l == "pa"@
}

pub fn is_cpu_zone(t: &str) -> (r: bool)
    ensures
        r == cpu_zone_name(t@),
{
    let l = to_lower(t);
    is_cpu_zone_lowered(l.as_str())
}

pub fn is_cpu_zone_lowered(l: &str) -> (r: bool)
    ensures
        r == cpu_zone_lowered(l@),
{
    contains(l, "cpu") || contains(l, "tsens") || same_text(l, "pa")
}

} // verus!
