//! The GPU gauge's data: what `nvidia-smi` or the kernel's DRM sysfs files
//! report, and the order in which those sources are tried.

use vstd::prelude::*;
use crate::text::{
    line_end, parse_decimal, parse_unsigned, same_text, split_on, split_text, string_views, trim,
    trimmed, first_line,
};

verus! {

/// What the GPU backend reports. `backend` names the source that answered:
/// `"nvidia-smi"`, `"sysfs"` or `"unsupported"`.
#[derive(Clone, Debug)]
pub struct GpuInfo {
    pub backend: &'static str,
    pub name: Option<String>,
    pub utilization: Option<u8>,
    pub vram_used_mib: Option<u64>,
    pub vram_total_mib: Option<u64>,
}

/// The mathematical content of a [`GpuInfo`].
pub struct GpuView {
    pub backend: Seq<char>,
    pub name: Option<Seq<char>>,
    pub utilization: Option<u8>,
    pub vram_used_mib: Option<u64>,
    pub vram_total_mib: Option<u64>,
}

/// The characters of an optional string.
pub open spec fn opt_text(o: Option<String>) -> Option<Seq<char>> {
    match o {
        Some(s) => Some(s@),
        None => None,
    }
}

impl View for GpuInfo {
    type V = GpuView;

    open spec fn view(&self) -> GpuView {
        GpuView {
            backend: self.backend@,
            name: opt_text(self.name),
            utilization: self.utilization,
            vram_used_mib: self.vram_used_mib,
            vram_total_mib: self.vram_total_mib,
        }
    }
}

/// The view of an optional [`GpuInfo`].
pub open spec fn opt_gpu(o: Option<GpuInfo>) -> Option<GpuView> {
    match o {
        Some(g) => Some(g@),
        None => None,
    }
}

/// `str::parse::<u8>` on the given characters.
pub open spec fn parse_u8_spec(s: Seq<char>) -> Option<u8> {
    match parse_unsigned(s, 255) {
        Some(v) => Some(v as u8),
        None => None,
    }
}

/// `str::parse::<u64>` on the given characters.
pub open spec fn parse_u64_spec(s: Seq<char>) -> Option<u64> {
    match parse_unsigned(s, u64::MAX as nat) {
        Some(v) => Some(v as u64),
        None => None,
    }
}

fn parse_u8(s: &str) -> (r: Option<u8>)
    ensures
        r == parse_u8_spec(s@),
{
    match parse_decimal(s, 255) {
        Some(v) => Some(v as u8),
        None => None,
    }
}

fn parse_u64(s: &str) -> (r: Option<u64>)
    ensures
        r == parse_u64_spec(s@),
{
    parse_decimal(s, u64::MAX)
}

/// Whole mebibytes in a byte count.
pub open spec fn mib_of(bytes: u64) -> u64 {
    (bytes / 1024 / 1024) as u64
}

/// Converts a byte count to whole mebibytes, rounding down.
pub fn to_mib(bytes: u64) -> (r: u64)
    ensures
        r == mib_of(bytes),
        r as int == bytes as int / 1048576int,
{
    bytes / 1024 / 1024
}

impl GpuInfo {
    /// The utilization in percent, capped at 100.
    pub fn utilization(&self) -> (r: Option<u8>)
        ensures
            r == capped_utilization(self.utilization),
    {
        match self.utilization {
            Some(u) => Some(if u <= 100 {
                u
            } else {
                100
            }),
            None => None,
        }
    }

    /// The VRAM fill level as a fraction `(used, total)` no larger than one:
    /// present when both amounts are known and the total is not zero, with
    /// `used` capped at `total`. (The gauge divides the two.)
    pub fn vram_fraction(&self) -> (r: Option<(u64, u64)>)
        ensures
            r == (match (self.vram_used_mib, self.vram_total_mib) {
                (Some(u), Some(t)) => if t > 0 {
                    Some((if u <= t { u } else { t }, t))
                } else {
                    None
                },
                _ => None,
            }),
    {
        match (self.vram_used_mib, self.vram_total_mib) {
            (Some(u), Some(t)) => {
                if t > 0 {
                    Some((if u <= t {
                        u
                    } else {
                        t
                    }, t))
                } else {
                    None
                }
            },
            _ => None,
        }
    }

    /// Picks the GPU information from the sources in order: the output of
    /// `nvidia-smi` first, then the DRM cards' sysfs files, and reports the
    /// backend as `"unsupported"` when neither gives anything.
    pub fn probe(nvidia: &Option<CommandOutput>, cards: &Vec<SysfsCard>) -> (r: GpuInfo)
        ensures
            r@ == probe_spec(opt_output(*nvidia), card_views(cards@)),
            nvidia_info(opt_output(*nvidia)) matches Some(g) ==> r@ == g,
            nvidia_info(opt_output(*nvidia)) is None ==> (sysfs_select(card_views(cards@)) matches Some(
                g,
            ) ==> r@ == g),
            *nvidia is None ==> (sysfs_select(card_views(cards@)) matches Some(g) ==> r@ == g),
    {
        proof {
            lemma_probe_order(opt_output(*nvidia), card_views(cards@));
        }
        match detect_nvidia(nvidia) {
            Some(g) => g,
            None => match sysfs_probe(cards) {
                Some(g) => g,
                None => GpuInfo {
                    backend: "unsupported",
                    name: None,
                    utilization: None,
                    vram_used_mib: None,
                    vram_total_mib: None,
                },
            },
        }
    }
}

/// What the GPU gauge's label shows: the utilization with the VRAM figures
/// when all three are known, the utilization alone when the VRAM figures are
/// not both known, or the backend's name when the utilization is unknown.
#[derive(Clone, Copy, PartialEq, Eq, Debug, Structural)]
pub enum GpuLabel {
    Full { percent: u8, used_mib: u64, total_mib: u64 },
    Percent(u8),
    Backend,
}

/// The utilization in percent, capped at 100.
pub open spec fn capped_utilization(u: Option<u8>) -> Option<u8> {
    match u {
        Some(u) => Some(if u <= 100 { u } else { 100u8 }),
        None => None,
    }
}

pub open spec fn gauge_label_spec(g: GpuView) -> GpuLabel {
    match (capped_utilization(g.utilization), g.vram_used_mib, g.vram_total_mib) {
        (Some(u), Some(used), Some(total)) => GpuLabel::Full {
            percent: u,
            used_mib: used,
            total_mib: total,
        },
        (Some(u), _, _) => GpuLabel::Percent(u),
        (None, _, _) => GpuLabel::Backend,
    }
}

impl GpuInfo {
    /// Which label the GPU gauge shows.
    pub fn gauge_label(&self) -> (r: GpuLabel)
        ensures
            r == gauge_label_spec(self@),
    {
        match (self.utilization(), self.vram_used_mib, self.vram_total_mib) {
            (Some(u), Some(used), Some(total)) => GpuLabel::Full {
                percent: u,
                used_mib: used,
                total_mib: total,
            },
            (Some(u), _, _) => GpuLabel::Percent(u),
            (None, _, _) => GpuLabel::Backend,
        }
    }
}

/// The utilization shown is never above 100: a known reading up to 100 is
/// shown as it is, a higher one as 100, an unknown one as unknown.
pub proof fn lemma_utilization_capped(u: Option<u8>)
    ensures
        capped_utilization(u) is None <==> u is None,
        u matches Some(x) ==> (x <= 100 ==> capped_utilization(u) == Some(x)),
        u matches Some(x) ==> (x > 100 ==> capped_utilization(u) == Some(100u8)),
        capped_utilization(u) matches Some(y) ==> y <= 100,
{
}

/// The gauge's label shows the VRAM figures exactly when the utilization and
/// both VRAM figures are known, the backend's name exactly when the
/// utilization is unknown, and any percentage it shows is the capped
/// utilization.
pub proof fn lemma_gauge_label(g: GpuView)
    ensures
        gauge_label_spec(g) is Backend <==> g.utilization is None,
        gauge_label_spec(g) is Full <==> (g.utilization is Some && g.vram_used_mib is Some
            && g.vram_total_mib is Some),
        gauge_label_spec(g) matches GpuLabel::Full { percent, used_mib, total_mib } ==> Some(percent)
            == capped_utilization(g.utilization) && Some(used_mib) == g.vram_used_mib && Some(
            total_mib,
        ) == g.vram_total_mib,
        gauge_label_spec(g) matches GpuLabel::Percent(p) ==> Some(p) == capped_utilization(
            g.utilization,
        ),
{
}

/// Once `nvidia-smi` has answered, the cards' files play no part: they need
/// to be read only when it has not.
pub proof fn lemma_probe_needs_cards_only_without_nvidia(
    nvidia: Option<(bool, Seq<char>)>,
    cards1: Seq<CardView>,
    cards2: Seq<CardView>,
)
    requires
        nvidia_info(nvidia) is Some,
    ensures
        probe_spec(nvidia, cards1) == probe_spec(nvidia, cards2),
{
}

/// The probe's order: `nvidia-smi`'s answer when it gives one; else the first
/// card whose sysfs files give figures; else the `"unsupported"` backend with
/// nothing known. `nvidia-smi` gives nothing when it could not run or failed.
pub proof fn lemma_probe_order(nvidia: Option<(bool, Seq<char>)>, cards: Seq<CardView>)
    ensures
        nvidia_info(nvidia) matches Some(g) ==> probe_spec(nvidia, cards) == g,
        nvidia_info(nvidia) is None ==> (sysfs_select(cards) matches Some(g) ==> probe_spec(
            nvidia,
            cards,
        ) == g),
        nvidia_info(nvidia) is None && sysfs_select(cards) is None ==> {
            let g = probe_spec(nvidia, cards);
            &&& g.backend == "unsupported"@
            &&& g.name is None
            &&& g.utilization is None
            &&& g.vram_used_mib is None
            &&& g.vram_total_mib is None
        },
        nvidia is None ==> nvidia_info(nvidia) is None,
        nvidia matches Some((ok, _)) && !ok ==> nvidia_info(nvidia) is None,
{
}

/// The GPU information that the probe settles on.
pub open spec fn probe_spec(nvidia: Option<(bool, Seq<char>)>, cards: Seq<CardView>) -> GpuView {
    match nvidia_info(nvidia) {
        Some(g) => g,
        None => match sysfs_select(cards) {
            Some(g) => g,
            None => GpuView {
                backend: "unsupported"@,
                name: None,
                utilization: None,
                vram_used_mib: None,
                vram_total_mib: None,
            },
        },
    }
}

// ---------------------------------------------------------------------------
// nvidia-smi
// ---------------------------------------------------------------------------

/// What running a command gave: whether it exited successfully, and its
/// standard output as text.
pub struct CommandOutput {
    pub success: bool,
    pub stdout: String,
}

pub open spec fn opt_output(o: Option<CommandOutput>) -> Option<(bool, Seq<char>)> {
    match o {
        Some(out) => Some((out.success, out.stdout@)),
        None => None,
    }
}

/// The trimmed comma-separated fields of a line.
pub open spec fn csv_fields(line: Seq<char>) -> Seq<Seq<char>> {
    split_on(line, ',').map_values(|f: Seq<char>| trimmed(f))
}

/// What the first line of `nvidia-smi --query-gpu=name,utilization.gpu,
/// memory.used,memory.total --format=csv,noheader,nounits` gives: nothing
/// when the command could not run, failed, printed an empty first line or
/// fewer than four fields; else the name and the three numbers, each of which
/// is absent when it does not parse.
pub open spec fn nvidia_info(out: Option<(bool, Seq<char>)>) -> Option<GpuView> {
    match out {
        None => None,
        Some((ok, text)) => if !ok {
            None
        } else {
            let line = trimmed(text.take(line_end(text) as int));
            let parts = csv_fields(line);
            if line.len() == 0 || parts.len() < 4 {
                None
            } else {
                Some(
                    GpuView {
                        backend: "nvidia-smi"@,
                        name: Some(parts[0]),
                        utilization: parse_u8_spec(parts[1]),
                        vram_used_mib: parse_u64_spec(parts[2]),
                        vram_total_mib: parse_u64_spec(parts[3]),
                    },
                )
            }
        },
    }
}

/// Reads the GPU information out of what `nvidia-smi` printed.
pub fn detect_nvidia(output: &Option<CommandOutput>) -> (r: Option<GpuInfo>)
    ensures
        opt_gpu(r) == nvidia_info(opt_output(*output)),
{
    let out = match output {
        Some(out) => out,
        None => return None,
    };
    if !out.success {
        return None;
    }
    let first = first_line(out.stdout.as_str());
    let line = trim(first.as_str());
    if line.as_str().unicode_len() == 0 {
        return None;
    }
    let raw = split_text(line.as_str(), ',');
    let ghost parts = csv_fields(line@);
    assert(parts.len() == raw@.len());
    if raw.len() < 4 {
        return None;
    }
    let name = trim(raw[0].as_str());
    let util = trim(raw[1].as_str());
    let used = trim(raw[2].as_str());
    let total = trim(raw[3].as_str());
    assert(string_views(raw@)[0] == raw@[0]@);
    assert(string_views(raw@)[1] == raw@[1]@);
    assert(string_views(raw@)[2] == raw@[2]@);
    assert(string_views(raw@)[3] == raw@[3]@);
    Some(
        GpuInfo {
            backend: "nvidia-smi",
            name: Some(name),
            utilization: parse_u8(util.as_str()),
            vram_used_mib: parse_u64(used.as_str()),
            vram_total_mib: parse_u64(total.as_str()),
        },
    )
}

// ---------------------------------------------------------------------------
// sysfs
// ---------------------------------------------------------------------------

/// The contents of a DRM card's files under `/sys/class/drm/card*/device`,
/// each absent when the file could not be read.
pub struct SysfsCard {
    pub vendor: Option<String>,
    pub gpu_busy_percent: Option<String>,
    pub mem_info_vram_total: Option<String>,
    pub mem_info_vram_used: Option<String>,
}

pub struct CardView {
    pub vendor: Option<Seq<char>>,
    pub gpu_busy_percent: Option<Seq<char>>,
    pub mem_info_vram_total: Option<Seq<char>>,
    pub mem_info_vram_used: Option<Seq<char>>,
}

impl View for SysfsCard {
    type V = CardView;

    open spec fn view(&self) -> CardView {
        CardView {
            vendor: opt_text(self.vendor),
            gpu_busy_percent: opt_text(self.gpu_busy_percent),
            mem_info_vram_total: opt_text(self.mem_info_vram_total),
            mem_info_vram_used: opt_text(self.mem_info_vram_used),
        }
    }
}

pub open spec fn card_views(cards: Seq<SysfsCard>) -> Seq<CardView> {
    cards.map_values(|c: SysfsCard| c@)
}

/// The marketing name of a PCI vendor id.
pub open spec fn vendor_name_spec(vendor: Seq<char>) -> Seq<char> {
    if vendor == "0x1002"@ {
        "AMD GPU"@
    } else if vendor == "0x8086"@ {
        "Intel GPU"@
    } else if vendor == "0x10de"@ {
        "NVIDIA GPU"@
    } else {
        "GPU"@
    }
}

fn vendor_name(vendor: &str) -> (r: String)
    ensures
        r@ == vendor_name_spec(vendor@),
{
    if same_text(vendor, "0x1002") {
        String::from_str("AMD GPU")
    } else if same_text(vendor, "0x8086") {
        String::from_str("Intel GPU")
    } else if same_text(vendor, "0x10de") {
        String::from_str("NVIDIA GPU")
    } else {
        String::from_str("GPU")
    }
}

/// A number read from a sysfs file: the trimmed contents, parsed.
pub open spec fn file_u64(raw: Option<Seq<char>>) -> Option<u64> {
    match raw {
        Some(t) => parse_u64_spec(trimmed(t)),
        None => None,
    }
}

/// What one card's files give: nothing when neither the busy percentage nor
/// the used VRAM can be read as a number.
pub open spec fn card_info(c: CardView) -> Option<GpuView> {
    let vendor = match c.vendor {
        Some(t) => trimmed(t),
        None => Seq::<char>::empty(),
    };
    let utilization = match c.gpu_busy_percent {
        Some(t) => parse_u8_spec(trimmed(t)),
        None => None,
    };
    let total = match file_u64(c.mem_info_vram_total) {
        Some(b) => Some(mib_of(b)),
        None => None,
    };
    let used = match file_u64(c.mem_info_vram_used) {
        Some(b) => Some(mib_of(b)),
        None => None,
    };
    if utilization is None && used is None {
        None
    } else {
        Some(
            GpuView {
                backend: "sysfs"@,
                name: Some(vendor_name_spec(vendor)),
                utilization,
                vram_used_mib: used,
                vram_total_mib: total,
            },
        )
    }
}

/// The first card, in the given order, whose files give something.
pub open spec fn sysfs_select(cards: Seq<CardView>) -> Option<GpuView>
    decreases cards.len(),
{
    if cards.len() == 0 {
        None
    } else {
        match card_info(cards[0]) {
            Some(g) => Some(g),
            None => sysfs_select(cards.drop_first()),
        }
    }
}

fn read_number(raw: &Option<String>) -> (r: Option<u64>)
    ensures
        r == file_u64(opt_text(*raw)),
{
    match raw {
        Some(t) => {
            let v = trim(t.as_str());
            parse_u64(v.as_str())
        },
        None => None,
    }
}

fn card_probe(c: &SysfsCard) -> (r: Option<GpuInfo>)
    ensures
        opt_gpu(r) == card_info(c@),
{
    let vendor = match &c.vendor {
        Some(t) => trim(t.as_str()),
        None => String::new(),
    };
    let utilization = match &c.gpu_busy_percent {
        Some(t) => {
            let v = trim(t.as_str());
            parse_u8(v.as_str())
        },
        None => None,
    };
    let vram_total_mib = match read_number(&c.mem_info_vram_total) {
        Some(b) => Some(to_mib(b)),
        None => None,
    };
    let vram_used_mib = match read_number(&c.mem_info_vram_used) {
        Some(b) => Some(to_mib(b)),
        None => None,
    };
    if utilization.is_none() && vram_used_mib.is_none() {
        return None;
    }
    let name = vendor_name(vendor.as_str());
    Some(GpuInfo { backend: "sysfs", name: Some(name), utilization, vram_used_mib, vram_total_mib })
}

/// Reads the GPU information from the first card whose sysfs files report a
/// busy percentage or used VRAM.
pub fn sysfs_probe(cards: &Vec<SysfsCard>) -> (r: Option<GpuInfo>)
    ensures
        opt_gpu(r) == sysfs_select(card_views(cards@)),
{
    let mut i: usize = 0;
    assert(card_views(cards@).skip(0) =~= card_views(cards@));
    while i < cards.len()
        invariant
            i <= cards@.len(),
            sysfs_select(card_views(cards@)) == sysfs_select(card_views(cards@).skip(i as int)),
        decreases cards@.len() - i,
    {
        let ghost rest = card_views(cards@).skip(i as int);
        assert(rest[0] == cards@[i as int]@);
        assert(rest.drop_first() =~= card_views(cards@).skip(i + 1));
        match card_probe(&cards[i]) {
            Some(g) => {
                return Some(g);
            },
            None => {},
        }
        i = i + 1;
    }
    assert(card_views(cards@).skip(i as int) =~= Seq::<CardView>::empty());
    None
}

// ---------------------------------------------------------------------------
// Laws of the readers
// ---------------------------------------------------------------------------

/// What `nvidia-smi`'s output gives, field by field: an answer exactly when
/// the command succeeded and the trimmed first line is non-empty with at
/// least four comma-separated fields; then the name is the first field
/// trimmed, and the utilization, used and total VRAM are the second, third
/// and fourth fields trimmed and read as decimal numbers that fit a `u8`, a
/// `u64` and a `u64`.
pub proof fn lemma_nvidia_fields(ok: bool, text: Seq<char>)
    ensures
        ({
            let line = trimmed(text.take(line_end(text) as int));
            let f = split_on(line, ',');
            &&& nvidia_info(Some((ok, text))) is Some <==> (ok && line.len() > 0 && f.len() >= 4)
            &&& nvidia_info(Some((ok, text))) matches Some(g) ==> {
                &&& g.backend == "nvidia-smi"@
                &&& g.name == Some(trimmed(f[0]))
                &&& g.utilization == (match parse_unsigned(trimmed(f[1]), 255) {
                    Some(v) => Some(v as u8),
                    None => None,
                })
                &&& g.vram_used_mib == (match parse_unsigned(trimmed(f[2]), u64::MAX as nat) {
                    Some(v) => Some(v as u64),
                    None => None,
                })
                &&& g.vram_total_mib == (match parse_unsigned(trimmed(f[3]), u64::MAX as nat) {
                    Some(v) => Some(v as u64),
                    None => None,
                })
            }
        }),
{
}

/// What one card's files give: something exactly when the busy percentage
/// reads as a number up to 255 or the used VRAM reads as a number; then the
/// backend is `"sysfs"`, the utilization is the busy percentage read, the
/// VRAM figures are the bytes read divided by 1048576, and the name comes from
/// the PCI vendor id (AMD, Intel, NVIDIA, or plain "GPU").
pub proof fn lemma_card_info(c: CardView)
    ensures
        ({
            let busy = match c.gpu_busy_percent {
                Some(t) => parse_unsigned(trimmed(t), 255),
                None => None,
            };
            let used = match c.mem_info_vram_used {
                Some(t) => parse_unsigned(trimmed(t), u64::MAX as nat),
                None => None,
            };
            let total = match c.mem_info_vram_total {
                Some(t) => parse_unsigned(trimmed(t), u64::MAX as nat),
                None => None,
            };
            let vendor = match c.vendor {
                Some(t) => trimmed(t),
                None => Seq::<char>::empty(),
            };
            &&& card_info(c) is Some <==> (busy is Some || used is Some)
            &&& card_info(c) matches Some(g) ==> {
                &&& g.backend == "sysfs"@
                &&& g.utilization == (match busy {
                    Some(v) => Some(v as u8),
                    None => None,
                })
                &&& g.vram_used_mib == (match used {
                    Some(v) => Some((v / 1048576) as u64),
                    None => None,
                })
                &&& g.vram_total_mib == (match total {
                    Some(v) => Some((v / 1048576) as u64),
                    None => None,
                })
                &&& vendor == "0x1002"@ ==> g.name == Some("AMD GPU"@)
                &&& vendor == "0x8086"@ ==> g.name == Some("Intel GPU"@)
                &&& vendor == "0x10de"@ ==> g.name == Some("NVIDIA GPU"@)
                &&& (vendor != "0x1002"@ && vendor != "0x8086"@ && vendor != "0x10de"@) ==> g.name
                    == Some("GPU"@)
            }
        }),
{
    let used = match c.mem_info_vram_used {
        Some(t) => parse_unsigned(trimmed(t), u64::MAX as nat),
        None => None,
    };
    let total = match c.mem_info_vram_total {
        Some(t) => parse_unsigned(trimmed(t), u64::MAX as nat),
        None => None,
    };
    if let Some(v) = used {
        vstd::arithmetic::div_mod::lemma_div_denominator(v as int, 1024, 1024);
        assert(v <= u64::MAX);
        assert(file_u64(c.mem_info_vram_used) == Some(v as u64));
        assert(mib_of(v as u64) == (v / 1048576) as u64);
    }
    if let Some(v) = total {
        vstd::arithmetic::div_mod::lemma_div_denominator(v as int, 1024, 1024);
        assert(v <= u64::MAX);
        assert(mib_of(v as u64) == (v / 1048576) as u64);
    }
    let busy = match c.gpu_busy_percent {
        Some(t) => parse_unsigned(trimmed(t), 255),
        None => None,
    };
    assert(card_info(c) is Some <==> (busy is Some || used is Some));
    reveal_strlit("0x1002");
    reveal_strlit("0x8086");
    reveal_strlit("0x10de");
    assert("0x8086"@ != "0x1002"@) by {
        assert("0x8086"@[2] != "0x1002"@[2]);
    }
    assert("0x10de"@ != "0x1002"@) by {
        assert("0x10de"@[4] != "0x1002"@[4]);
    }
    assert("0x10de"@ != "0x8086"@) by {
        assert("0x10de"@[2] != "0x8086"@[2]);
    }
    if let Some(g) = card_info(c) {
        assert(g.backend == "sysfs"@);
        assert(g.utilization == (match busy {
            Some(v) => Some(v as u8),
            None => None,
        }));
        assert(g.vram_used_mib == (match used {
            Some(v) => Some((v / 1048576) as u64),
            None => None,
        }));
        assert(g.vram_total_mib == (match total {
            Some(v) => Some((v / 1048576) as u64),
            None => None,
        }));
    }
}

/// The sysfs probe takes the first card that gives something: its answer is
/// that card's, every card before it gives nothing, and it gives nothing only
/// when no card does.
pub proof fn lemma_sysfs_first_card(cards: Seq<CardView>)
    ensures
        sysfs_select(cards) matches Some(g) ==> exists|i: int|
            0 <= i < cards.len() && card_info(#[trigger] cards[i]) == Some(g) && forall|j: int|
                0 <= j < i ==> card_info(#[trigger] cards[j]) is None,
        sysfs_select(cards) is None <==> forall|i: int|
            0 <= i < cards.len() ==> card_info(#[trigger] cards[i]) is None,
    decreases cards.len(),
{
    if cards.len() > 0 {
        let rest = cards.drop_first();
        lemma_sysfs_first_card(rest);
        if card_info(cards[0]) is None {
            if sysfs_select(cards) is Some {
                let g = sysfs_select(cards)->0;
                let i = choose|i: int|
                    0 <= i < rest.len() && card_info(#[trigger] rest[i]) == Some(g) && forall|j: int|
                        0 <= j < i ==> card_info(#[trigger] rest[j]) is None;
                assert(cards[i + 1] == rest[i]);
                assert forall|j: int| 0 <= j < i + 1 implies card_info(#[trigger] cards[j]) is None by {
                    if j > 0 {
                        assert(cards[j] == rest[j - 1]);
                    }
                }
            }
            if forall|i: int| 0 <= i < rest.len() ==> card_info(#[trigger] rest[i]) is None {
                assert forall|i: int| 0 <= i < cards.len() implies card_info(#[trigger] cards[i]) is None by {
                    if i > 0 {
                        assert(cards[i] == rest[i - 1]);
                    }
                }
            } else {
                let i = choose|i: int| 0 <= i < rest.len() && !(card_info(#[trigger] rest[i]) is None);
                assert(cards[i + 1] == rest[i]);
            }
        } else {
            assert(card_info(cards[0]) == sysfs_select(cards));
        }
    }
}

} // verus!
