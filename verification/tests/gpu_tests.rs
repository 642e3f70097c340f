use steamtop::gpu::{detect_nvidia, sysfs_probe, to_mib, CommandOutput, GpuInfo, GpuLabel, SysfsCard};

fn output(success: bool, stdout: &str) -> Option<CommandOutput> {
    Some(CommandOutput { success, stdout: stdout.to_string() })
}

fn card(vendor: Option<&str>, busy: Option<&str>, total: Option<&str>, used: Option<&str>) -> SysfsCard {
    SysfsCard {
        vendor: vendor.map(|s| s.to_string()),
        gpu_busy_percent: busy.map(|s| s.to_string()),
        mem_info_vram_total: total.map(|s| s.to_string()),
        mem_info_vram_used: used.map(|s| s.to_string()),
    }
}

fn info(util: Option<u8>, used: Option<u64>, total: Option<u64>) -> GpuInfo {
    GpuInfo {
        backend: "sysfs",
        name: Some("GPU".to_string()),
        utilization: util,
        vram_used_mib: used,
        vram_total_mib: total,
    }
}

#[test]
fn nvidia_smi_line_is_read() {
    let g = detect_nvidia(&output(true, "NVIDIA GeForce RTX 3080, 45, 1024, 10240\n")).unwrap();
    assert_eq!(g.backend, "nvidia-smi");
    assert_eq!(g.name.as_deref(), Some("NVIDIA GeForce RTX 3080"));
    assert_eq!(g.utilization, Some(45));
    assert_eq!(g.vram_used_mib, Some(1024));
    assert_eq!(g.vram_total_mib, Some(10240));
}

#[test]
fn nvidia_smi_only_first_line_counts() {
    let g = detect_nvidia(&output(true, "  A, 1, 2, 3  \nB, 4, 5, 6\n")).unwrap();
    assert_eq!(g.name.as_deref(), Some("A"));
    assert_eq!(g.utilization, Some(1));
    assert_eq!(g.vram_total_mib, Some(3));
}

#[test]
fn nvidia_smi_unparsable_numbers_are_absent() {
    let g = detect_nvidia(&output(true, "Card, [N/A], 300, x, extra\n")).unwrap();
    assert_eq!(g.name.as_deref(), Some("Card"));
    assert_eq!(g.utilization, None);
    assert_eq!(g.vram_used_mib, Some(300));
    assert_eq!(g.vram_total_mib, None);
    let g = detect_nvidia(&output(true, "Card, 300, 1, 2")).unwrap();
    assert_eq!(g.utilization, None);
}

#[test]
fn nvidia_smi_gives_nothing_on_failure() {
    assert!(detect_nvidia(&None).is_none());
    assert!(detect_nvidia(&output(false, "A, 1, 2, 3\n")).is_none());
    assert!(detect_nvidia(&output(true, "")).is_none());
    assert!(detect_nvidia(&output(true, "   \nA, 1, 2, 3")).is_none());
    assert!(detect_nvidia(&output(true, "A, 1, 2\n")).is_none());
}

#[test]
fn sysfs_first_useful_card_wins() {
    let cards = vec![
        card(Some("0x8086\n"), None, Some("1048576\n"), None),
        card(Some("0x1002\n"), Some("37\n"), Some("8589934592\n"), Some("1073741824\n")),
        card(Some("0x10de\n"), Some("99\n"), None, None),
    ];
    let g = sysfs_probe(&cards).unwrap();
    assert_eq!(g.backend, "sysfs");
    assert_eq!(g.name.as_deref(), Some("AMD GPU"));
    assert_eq!(g.utilization, Some(37));
    assert_eq!(g.vram_total_mib, Some(8192));
    assert_eq!(g.vram_used_mib, Some(1024));
}

#[test]
fn sysfs_vendor_names() {
    let name = |v: Option<&str>| {
        sysfs_probe(&vec![card(v, Some("1"), None, None)]).unwrap().name.unwrap()
    };
    assert_eq!(name(Some("0x1002")), "AMD GPU");
    assert_eq!(name(Some(" 0x8086 \n")), "Intel GPU");
    assert_eq!(name(Some("0x10de")), "NVIDIA GPU");
    assert_eq!(name(Some("0x1234")), "GPU");
    assert_eq!(name(None), "GPU");
}

#[test]
fn sysfs_used_vram_alone_is_enough() {
    let g = sysfs_probe(&vec![card(None, Some("busy"), None, Some("2097152"))]).unwrap();
    assert_eq!(g.utilization, None);
    assert_eq!(g.vram_used_mib, Some(2));
    assert_eq!(g.vram_total_mib, None);
}

#[test]
fn sysfs_gives_nothing_without_figures() {
    assert!(sysfs_probe(&vec![]).is_none());
    assert!(sysfs_probe(&vec![card(Some("0x1002"), None, Some("1048576"), None)]).is_none());
    assert!(sysfs_probe(&vec![card(None, Some("300"), None, Some("x"))]).is_none());
}

#[test]
fn probe_prefers_nvidia_smi() {
    let cards = vec![card(Some("0x1002"), Some("5"), None, None)];
    let g = GpuInfo::probe(&output(true, "RTX, 10, 20, 30"), &cards);
    assert_eq!(g.backend, "nvidia-smi");
    let g = GpuInfo::probe(&output(false, "RTX, 10, 20, 30"), &cards);
    assert_eq!(g.backend, "sysfs");
    assert_eq!(g.utilization, Some(5));
}

#[test]
fn probe_falls_back_to_unsupported() {
    let g = GpuInfo::probe(&None, &vec![]);
    assert_eq!(g.backend, "unsupported");
    assert_eq!(g.name, None);
    assert_eq!(g.utilization, None);
    assert_eq!(g.vram_used_mib, None);
    assert_eq!(g.vram_total_mib, None);
}

#[test]
fn utilization_is_capped_at_100() {
    assert_eq!(info(Some(150), None, None).utilization(), Some(100));
    assert_eq!(info(Some(100), None, None).utilization(), Some(100));
    assert_eq!(info(Some(42), None, None).utilization(), Some(42));
    assert_eq!(info(None, None, None).utilization(), None);
}

#[test]
fn vram_fraction_is_capped_and_needs_a_total() {
    assert_eq!(info(None, Some(512), Some(1024)).vram_fraction(), Some((512, 1024)));
    assert_eq!(info(None, Some(2048), Some(1024)).vram_fraction(), Some((1024, 1024)));
    assert_eq!(info(None, Some(5), Some(0)).vram_fraction(), None);
    assert_eq!(info(None, None, Some(10)).vram_fraction(), None);
    assert_eq!(info(None, Some(10), None).vram_fraction(), None);
}

#[test]
fn to_mib_rounds_down() {
    assert_eq!(to_mib(0), 0);
    assert_eq!(to_mib(1048575), 0);
    assert_eq!(to_mib(1048576), 1);
    assert_eq!(to_mib(3 * 1048576 + 5), 3);
    assert_eq!(to_mib(u64::MAX), u64::MAX / 1048576);
}

#[test]
fn gauge_label_choices() {
    assert_eq!(
        info(Some(150), Some(1), Some(2)).gauge_label(),
        GpuLabel::Full { percent: 100, used_mib: 1, total_mib: 2 }
    );
    assert_eq!(info(Some(40), Some(1), None).gauge_label(), GpuLabel::Percent(40));
    assert_eq!(info(Some(40), None, Some(2)).gauge_label(), GpuLabel::Percent(40));
    assert_eq!(info(None, Some(1), Some(2)).gauge_label(), GpuLabel::Backend);
}
