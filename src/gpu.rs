//! GPU identification from its several signals, and frequency and busy
//! readings.
use vstd::prelude::*;
use crate::text::{
    contains, decimal, decimal_string, fields, has_prefix, has_substring, lower_of, parse_i64,
    parse_u32, parsed_i64, parsed_u32, pieces, split_fields, split_pieces, starts_with, to_lower,
    trim, trimmed, views, Separator, Trim,
};

verus! {

#[derive(Clone, Copy, PartialEq, Eq, Structural, Debug)]
pub enum GpuVendor {
    Qualcomm,
    Mali,
    PowerVR,
    Nvidia,
    Unknown,
}

pub open spec fn vendor_text(v: GpuVendor) -> Seq<char> {
    match v {
        GpuVendor::Qualcomm => "Qualcomm"@,
        GpuVendor::Mali => "ARM Mali"@,
        GpuVendor::PowerVR => "PowerVR"@,
        GpuVendor::Nvidia => "NVIDIA"@,
        GpuVendor::Unknown => "Unknown"@,
    }
}

impl GpuVendor {
    /// The vendor's display name.
    pub fn to_string(&self) -> (r: String)
        ensures
            r@ == vendor_text(*self),
    {
        match self {
            GpuVendor::Qualcomm => String::from_str("Qualcomm"),
            GpuVendor::Mali => String::from_str("ARM Mali"),
            GpuVendor::PowerVR => String::from_str("PowerVR"),
            GpuVendor::Nvidia => String::from_str("NVIDIA"),
            GpuVendor::Unknown => String::from_str("Unknown"),
        }
    }
}

/// A detected GPU: its vendor and model name.
pub type GpuInfo = (GpuVendor, String);

pub open spec fn info_view(r: Option<GpuInfo>) -> Option<(GpuVendor, Seq<char>)> {
    match r {
        Some((v, m)) => Some((v, m@)),
        None => None,
    }
}

/// A model name as the vendor's files give it, prefixed by `prefix` unless
/// it already begins (ignoring case) with `key`.
pub open spec fn model_named(model: Seq<char>, key: Seq<char>, prefix: Seq<char>) -> Seq<char> {
    let m = trimmed(model, Trim::Whitespace);
    if has_prefix(lower_of(m), key) {
        m
    } else {
        prefix + m
    }
}

/// The Adreno model name for the text of a `gpu_model` file.
pub fn adreno_model_of(model: &str) -> (r: String)
    ensures
        r@ == model_named(model@, "adreno"@, "Adreno "@),
{
    let m = trim(model, Trim::Whitespace);
    if starts_with(to_lower(m.as_str()).as_str(), "adreno") {
        m
    } else {
        String::from_str("Adreno ").concat(m.as_str())
    }
}

/// The Mali model name for the text of a `gpuinfo` file.
pub fn mali_model_of(model: &str) -> (r: String)
    ensures
        r@ == model_named(model@, "mali"@, "Mali "@),
{
    let m = trim(model, Trim::Whitespace);
    if starts_with(to_lower(m.as_str()).as_str(), "mali") {
        m
    } else {
        String::from_str("Mali ").concat(m.as_str())
    }
}

/// The Adreno version a word gives: its digits without surrounding
/// non-numeric characters, between 200 and 900.
pub open spec fn version_in(ws: Seq<Seq<char>>, k: int) -> Option<u32> {
    if 0 <= k < ws.len() {
        match parsed_u32(trimmed(ws[k], Trim::NonNumeric)) {
            Some(n) => if 200 <= n <= 900 {
                Some(n)
            } else {
                None
            },
            None => None,
        }
    } else {
        None
    }
}

/// The first version among the three words after word `i`.
pub open spec fn version_after(ws: Seq<Seq<char>>, i: int) -> Option<u32> {
    if version_in(ws, i + 1) is Some {
        version_in(ws, i + 1)
    } else if version_in(ws, i + 2) is Some {
        version_in(ws, i + 2)
    } else {
        version_in(ws, i + 3)
    }
}

/// The version after the first word from `i` on that mentions Adreno and
/// has one.
pub open spec fn adreno_version_from(ws: Seq<Seq<char>>, i: int) -> Option<u32>
    decreases ws.len() - i,
{
    if i < 0 || i >= ws.len() {
        None
    } else if has_substring(lower_of(ws[i]), "adreno"@) && version_after(ws, i) is Some {
        version_after(ws, i)
    } else {
        adreno_version_from(ws, i + 1)
    }
}

pub open spec fn adreno_version(s: Seq<char>) -> Option<Seq<char>> {
    match adreno_version_from(fields(s, Separator::Whitespace), 0) {
        Some(n) => Some(decimal(n as nat)),
        None => None,
    }
}

fn version_word(ws: &Vec<String>, k: usize) -> (r: Option<u32>)
    ensures
        r == version_in(views(ws@), k as int),
{
    if k >= ws.len() {
        return None;
    }
    let t = trim(ws[k].as_str(), Trim::NonNumeric);
    match parse_u32(t.as_str()) {
        Some(n) => if 200 <= n && n <= 900 {
            Some(n)
        } else {
            None
        },
        None => None,
    }
}

/// The Adreno version number in a renderer description, as decimal text.
pub fn extract_adreno_version(s: &str) -> (r: Option<String>)
    ensures
        match r {
            Some(v) => adreno_version(s@) == Some(v@),
            None => adreno_version(s@) is None,
        },
{
    let ws = split_fields(s, Separator::Whitespace);
    let mut i: usize = 0;
    while i < ws.len()
        invariant
            i <= ws@.len(),
            views(ws@) == fields(s@, Separator::Whitespace),
            adreno_version_from(views(ws@), 0) == adreno_version_from(views(ws@), i as int),
        decreases ws@.len() - i,
    {
        assert(views(ws@)[i as int] == ws@[i as int]@);
        if contains(to_lower(ws[i].as_str()).as_str(), "adreno") {
            let a = version_word(&ws, i + 1);
            let near = if a.is_some() {
                a
            } else if i + 1 < ws.len() {
                let b = version_word(&ws, i + 2);
                if b.is_some() {
                    b
                } else if i + 2 < ws.len() {
                    version_word(&ws, i + 3)
                } else {
                    None
                }
            } else {
                None
            };
            assert(near == version_after(views(ws@), i as int));
            match near {
                Some(n) => {
                    return Some(decimal_string(n as u64));
                },
                None => {},
            }
        }
        i = i + 1;
    }
    None
}

/// The word after the first word that mentions Mali and is followed by a
/// non-blank one, with blanks trimmed; words are cut at spaces and dashes.
pub open spec fn mali_version_from(ws: Seq<Seq<char>>, i: int) -> Option<Seq<char>>
    decreases ws.len() - i,
{
    if i < 0 || i >= ws.len() {
        None
    } else if has_substring(lower_of(ws[i]), "mali"@) && i + 1 < ws.len() && trimmed(
        ws[i + 1],
        Trim::Whitespace,
    ).len() > 0 {
        Some(trimmed(ws[i + 1], Trim::Whitespace))
    } else {
        mali_version_from(ws, i + 1)
    }
}

pub open spec fn mali_version(s: Seq<char>) -> Option<Seq<char>> {
    mali_version_from(pieces(s, Separator::SpaceOrDash), 0)
}

/// The Mali version in a renderer description.
pub fn extract_mali_version(s: &str) -> (r: Option<String>)
    ensures
        match r {
            Some(v) => mali_version(s@) == Some(v@),
            None => mali_version(s@) is None,
        },
{
    let ws = split_pieces(s, Separator::SpaceOrDash);
    let mut i: usize = 0;
    while i < ws.len()
        invariant
            i <= ws@.len(),
            views(ws@) == pieces(s@, Separator::SpaceOrDash),
            mali_version_from(views(ws@), 0) == mali_version_from(views(ws@), i as int),
        decreases ws@.len() - i,
    {
        if contains(to_lower(ws[i].as_str()).as_str(), "mali") && i + 1 < ws.len() {
            let v = trim(ws[i + 1].as_str(), Trim::Whitespace);
            if v.unicode_len() > 0 {
                return Some(v);
            }
        }
        i = i + 1;
    }
    None
}

/// What one renderer line says of the GPU, if it is a GLES or renderer line
/// that names a known vendor.
pub open spec fn renderer_line(line: Seq<char>) -> Option<(GpuVendor, Seq<char>)> {
    renderer_line_lowered(line, lower_of(line))
}

/// What a renderer line says, given the line and its lowercased text `l`.
pub open spec fn renderer_line_lowered(line: Seq<char>, l: Seq<char>) -> Option<(GpuVendor, Seq<char>)> {
    if !(has_substring(l, "gles"@) || has_substring(l, "renderer"@)) {
        None
    } else if has_substring(l, "adreno"@) {
        match adreno_version(line) {
            Some(v) => Some((GpuVendor::Qualcomm, "Adreno "@ + v)),
            None => Some((GpuVendor::Qualcomm, "Adreno"@)),
        }
    } else if has_substring(l, "mali"@) {
        match mali_version(line) {
            Some(v) => Some((GpuVendor::Mali, "Mali "@ + v)),
            None => Some((GpuVendor::Mali, "Mali"@)),
        }
    } else if has_substring(l, "powervr"@) {
        Some((GpuVendor::PowerVR, "PowerVR"@))
    } else if has_substring(l, "nvidia"@) || has_substring(l, "tegra"@) {
        Some((GpuVendor::Nvidia, "Tegra"@))
    } else {
        None
    }
}

/// The first renderer line of `ls` that identifies the GPU.
pub open spec fn renderer_lines(ls: Seq<Seq<char>>) -> Option<(GpuVendor, Seq<char>)>
    decreases ls.len(),
{
    if ls.len() == 0 {
        None
    } else if renderer_line(ls[0]) is Some {
        renderer_line(ls[0])
    } else {
        renderer_lines(ls.drop_first())
    }
}

fn renderer_line_info(line: &str) -> (r: Option<GpuInfo>)
    ensures
        info_view(r) == renderer_line(line@),
{
    let l = to_lower(line);
    renderer_info_lowered(line, l.as_str())
}

/// What a renderer line says of the GPU, given the line and its lowercased
/// text.
pub fn renderer_info_lowered(line: &str, ls: &str) -> (r: Option<GpuInfo>)
    ensures
        info_view(r) == renderer_line_lowered(line@, ls@),
{
    if !(contains(ls, "gles") || contains(ls, "renderer")) {
        None
    } else if contains(ls, "adreno") {
        match extract_adreno_version(line) {
            Some(v) => Some((GpuVendor::Qualcomm, String::from_str("Adreno ").concat(v.as_str()))),
            None => Some((GpuVendor::Qualcomm, String::from_str("Adreno"))),
        }
    } else if contains(ls, "mali") {
        match extract_mali_version(line) {
            Some(v) => Some((GpuVendor::Mali, String::from_str("Mali ").concat(v.as_str()))),
            None => Some((GpuVendor::Mali, String::from_str("Mali"))),
        }
    } else if contains(ls, "powervr") {
        Some((GpuVendor::PowerVR, String::from_str("PowerVR")))
    } else if contains(ls, "nvidia") || contains(ls, "tegra") {
        Some((GpuVendor::Nvidia, String::from_str("Tegra")))
    } else {
        None
    }
}

/// Identifies the GPU from the display stack's report: the first GLES or
/// renderer line that names a known vendor decides.
pub fn vendor_from_renderer(report: &str) -> (r: Option<GpuInfo>)
    ensures
        info_view(r) == renderer_lines(fields(report@, Separator::Newline)),
{
    let ls = split_fields(report, Separator::Newline);
    let mut i: usize = 0;
    assert(views(ls@).subrange(0, ls@.len() as int) =~= views(ls@));
    while i < ls.len()
        invariant
            i <= ls@.len(),
            views(ls@) == fields(report@, Separator::Newline),
            renderer_lines(views(ls@)) == renderer_lines(
                views(ls@).subrange(i as int, ls@.len() as int),
            ),
        decreases ls@.len() - i,
    {
        let ghost rest = views(ls@).subrange(i as int, ls@.len() as int);
        assert(rest.drop_first() =~= views(ls@).subrange(i + 1, ls@.len() as int));
        assert(rest[0] == ls@[i as int]@);
        let found = renderer_line_info(ls[i].as_str());
        if found.is_some() {
            return found;
        }
        i = i + 1;
    }
    assert(views(ls@).subrange(i as int, ls@.len() as int) =~= Seq::<Seq<char>>::empty());
    None
}

/// What a text that may mention the GPU says of it: Adreno first, then Mali.
pub open spec fn mentioned_vendor(t: Seq<char>) -> Option<(GpuVendor, Seq<char>)> {
    lowered_vendor(lower_of(t))
}

/// What a lowercased text that may mention the GPU says of it.
pub open spec fn lowered_vendor(l: Seq<char>) -> Option<(GpuVendor, Seq<char>)> {
    if has_substring(l, "adreno"@) {
        Some((GpuVendor::Qualcomm, "Adreno"@))
    } else if has_substring(l, "mali"@) {
        Some((GpuVendor::Mali, "Mali"@))
    } else {
        None
    }
}

/// Identifies the GPU from a text that may mention it (the kernel's CPU
/// description, or the Vulkan hardware property).
pub fn vendor_mentioned(t: &str) -> (r: Option<GpuInfo>)
    ensures
        info_view(r) == mentioned_vendor(t@),
{
    let l = to_lower(t);
    vendor_in_lowered(l.as_str())
}

/// Identifies the GPU from a lowercased text: Adreno first, then Mali.
pub fn vendor_in_lowered(l: &str) -> (r: Option<GpuInfo>)
    ensures
        info_view(r) == lowered_vendor(l@),
{
    if contains(l, "adreno") {
        Some((GpuVendor::Qualcomm, String::from_str("Adreno")))
    } else if contains(l, "mali") {
        Some((GpuVendor::Mali, String::from_str("Mali")))
    } else {
        None
    }
}

/// The answers of the GPU probes, in cascade order. A probe that the
/// cascade did not reach holds `false` or `None`.
pub struct GpuProbes {
    /// The Adreno clock node exists.
    pub gpuclk: bool,
    /// The text of the first readable Adreno model file.
    pub adreno_model: Option<String>,
    /// A Mali device node exists.
    pub mali_node: bool,
    /// The text of the first readable Mali model file.
    pub mali_model: Option<String>,
    /// The display stack's report.
    pub renderer: Option<String>,
    /// The kernel's CPU description.
    pub cpuinfo: Option<String>,
    /// The Vulkan hardware property.
    pub vulkan: Option<String>,
}

/// The GPU that the probes identify: the first conclusive probe wins, and
/// with none the record is `Unknown`, `Unknown GPU`.
pub open spec fn gpu_cascade(p: GpuProbes) -> (GpuVendor, Seq<char>) {
    if p.gpuclk {
        match p.adreno_model {
            Some(m) => (GpuVendor::Qualcomm, model_named(m@, "adreno"@, "Adreno "@)),
            None => (GpuVendor::Qualcomm, "Adreno"@),
        }
    } else if p.mali_node {
        match p.mali_model {
            Some(m) => (GpuVendor::Mali, model_named(m@, "mali"@, "Mali "@)),
            None => (GpuVendor::Mali, "Mali"@),
        }
    } else if p.renderer is Some && renderer_lines(fields(p.renderer->0@, Separator::Newline)) is Some {
        renderer_lines(fields(p.renderer->0@, Separator::Newline))->0
    } else if p.cpuinfo is Some && mentioned_vendor(p.cpuinfo->0@) is Some {
        mentioned_vendor(p.cpuinfo->0@)->0
    } else if p.vulkan is Some && mentioned_vendor(p.vulkan->0@) is Some {
        mentioned_vendor(p.vulkan->0@)->0
    } else {
        (GpuVendor::Unknown, "Unknown GPU"@)
    }
}

/// Decides the GPU from the probes' answers.
pub fn gpu_from_probes(p: &GpuProbes) -> (r: GpuInfo)
    ensures
        (r.0, r.1@) == gpu_cascade(*p),
{
    if p.gpuclk {
        return match &p.adreno_model {
            Some(m) => (GpuVendor::Qualcomm, adreno_model_of(m.as_str())),
            None => (GpuVendor::Qualcomm, String::from_str("Adreno")),
        };
    }
    if p.mali_node {
        return match &p.mali_model {
            Some(m) => (GpuVendor::Mali, mali_model_of(m.as_str())),
            None => (GpuVendor::Mali, String::from_str("Mali")),
        };
    }
    match &p.renderer {
        Some(rep) => match vendor_from_renderer(rep.as_str()) {
            Some(found) => {
                return found;
            },
            None => {},
        },
        None => {},
    }
    match &p.cpuinfo {
        Some(c) => match vendor_mentioned(c.as_str()) {
            Some(found) => {
                return found;
            },
            None => {},
        },
        None => {},
    }
    match &p.vulkan {
        Some(v) => match vendor_mentioned(v.as_str()) {
            Some(found) => {
                return found;
            },
            None => {},
        },
        None => {},
    }
    (GpuVendor::Unknown, String::from_str("Unknown GPU"))
}

/// A raw GPU clock in Hz, kHz or MHz, in MHz: values above a million are
/// taken as Hz, above a thousand as kHz, others as MHz.
pub open spec fn mhz_of(v: i64) -> i32 {
    if v > 1_000_000 {
        (v / 1_000_000) as i32
    } else if v > 1000 {
        (v / 1000) as i32
    } else {
        v as i32
    }
}

pub fn freq_to_mhz(v: i64) -> (r: i32)
    ensures
        r == mhz_of(v),
{
    if v > 1_000_000 {
        #[verifier::truncate]
        ((v / 1_000_000) as i32)
    } else if v > 1000 {
        #[verifier::truncate]
        ((v / 1000) as i32)
    } else {
        #[verifier::truncate]
        (v as i32)
    }
}

/// A raw Mali clock in Hz or MHz, in MHz: values above a million are taken
/// as Hz.
pub open spec fn mali_mhz_of(v: i32) -> i32 {
    if v > 1_000_000 {
        (v / 1_000_000) as i32
    } else {
        v
    }
}

pub fn mali_freq_to_mhz(v: i32) -> (r: i32)
    ensures
        r == mali_mhz_of(v),
{
    if v > 1_000_000 {
        v / 1_000_000
    } else {
        v
    }
}

/// A clock text in MHz when it is a positive number.
pub open spec fn parsed_mhz(t: Seq<char>) -> Option<i32> {
    match parsed_i64(t) {
        Some(v) => if v <= 0 {
            None
        } else {
            Some(mhz_of(v))
        },
        None => None,
    }
}

pub fn parse_freq_to_mhz(value: &str) -> (r: Option<i32>)
    ensures
        r == parsed_mhz(value@),
{
    match parse_i64(value) {
        Some(v) => if v <= 0 {
            None
        } else {
            Some(freq_to_mhz(v))
        },
        None => None,
    }
}

/// The frequencies of a list of clock numbers in MHz; words that are not
/// numbers are skipped.
pub open spec fn mhz_list(ws: Seq<Seq<char>>) -> Seq<i32>
    decreases ws.len(),
{
    if ws.len() == 0 {
        Seq::empty()
    } else {
        match parsed_i64(ws.last()) {
            Some(v) => mhz_list(ws.drop_last()).push(mhz_of(v)),
            None => mhz_list(ws.drop_last()),
        }
    }
}

/// Reads a list of available clocks, in MHz.
pub fn frequencies_from(t: &str) -> (r: Vec<i32>)
    ensures
        r@ == mhz_list(fields(t@, Separator::Whitespace)),
{
    let ws = split_fields(t, Separator::Whitespace);
    let mut out: Vec<i32> = Vec::new();
    let mut i: usize = 0;
    while i < ws.len()
        invariant
            i <= ws@.len(),
            views(ws@) == fields(t@, Separator::Whitespace),
            out@ == mhz_list(views(ws@).subrange(0, i as int)),
        decreases ws@.len() - i,
    {
        assert(views(ws@).subrange(0, i + 1).drop_last() =~= views(ws@).subrange(0, i as int));
        assert(views(ws@).subrange(0, i + 1).last() == ws@[i as int]@);
        match parse_i64(ws[i].as_str()) {
            Some(v) => out.push(freq_to_mhz(v)),
            None => {},
        }
        i = i + 1;
    }
    assert(views(ws@).subrange(0, ws@.len() as int) =~= views(ws@));
    out
}

/// The least and greatest of a list of frequencies; `(0, 0)` for none.
pub fn freq_range(freqs: &Vec<i32>) -> (r: (i32, i32))
    ensures
        freqs@.len() == 0 ==> r == (0i32, 0i32),
        freqs@.len() > 0 ==> {
            &&& freqs@.contains(r.0) && freqs@.contains(r.1)
            &&& forall|i: int| 0 <= i < freqs@.len() ==> r.0 <= #[trigger] freqs@[i] <= r.1
        },
{
    if freqs.len() == 0 {
        return (0, 0);
    }
    let mut lo = freqs[0];
    let mut hi = freqs[0];
    let mut i: usize = 1;
    while i < freqs.len()
        invariant
            1 <= i <= freqs@.len(),
            freqs@.contains(lo) && freqs@.contains(hi),
            forall|k: int| 0 <= k < i ==> lo <= #[trigger] freqs@[k] <= hi,
        decreases freqs@.len() - i,
    {
        if freqs[i] < lo {
            lo = freqs[i];
        }
        if freqs[i] > hi {
            hi = freqs[i];
        }
        i = i + 1;
    }
    (lo, hi)
}

/// Whether the GPU clock is held below 90% of its maximum.
pub open spec fn throttled(freq: i32, max_freq: i32) -> bool {
    max_freq > 0 && freq > 0 && freq < max_freq * 9 / 10
}

pub fn is_throttled(freq: i32, max_freq: i32) -> (r: bool)
    ensures
        r == throttled(freq, max_freq),
{
    max_freq > 0 && freq > 0 && (freq as i64) < (max_freq as i64) * 9 / 10
}

/// The `(busy, total)` cycle counters of a `gpubusy` text: its first two
/// words.
pub open spec fn busy_counters_of(t: Seq<char>) -> Option<(i64, i64)> {
    let ws = fields(t, Separator::Whitespace);
    if ws.len() >= 2 && parsed_i64(ws[0]) is Some && parsed_i64(ws[1]) is Some {
        Some((parsed_i64(ws[0])->0, parsed_i64(ws[1])->0))
    } else {
        None
    }
}

pub fn busy_counters_from(t: &str) -> (r: Option<(i64, i64)>)
    ensures
        r == busy_counters_of(t@),
{
    let ws = split_fields(t, Separator::Whitespace);
    if ws.len() < 2 {
        return None;
    }
    match (parse_i64(ws[0].as_str()), parse_i64(ws[1].as_str())) {
        (Some(b), Some(t)) => Some((b, t)),
        _ => None,
    }
}

} // verus!
