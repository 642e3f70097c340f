use steamtop::games::Game;
use steamtop::rows::{cpu_order_key, row_goes_before, sort_rows_by, DisplayRow, SortCol, View};

fn row(pid: u32, name: &str, cpu: f32, mem: u64) -> DisplayRow {
    DisplayRow { pid, name: name.to_string(), cpu_bits: cpu.to_bits(), mem_bytes: mem, pinned: false, steam: false }
}

fn pids(rows: &[DisplayRow]) -> Vec<u32> {
    rows.iter().map(|r| r.pid).collect()
}

#[test]
fn sort_labels() {
    assert_eq!(SortCol::Cpu.label(), "cpu");
    assert_eq!(SortCol::Mem.label(), "mem");
    assert_eq!(SortCol::Gpu.label(), "gpu");
    assert_eq!(SortCol::Name.label(), "name");
    assert_ne!(View::Games, View::AllProcs);
}

#[test]
fn markers_follow_the_readme() {
    let mut r = row(1, "x", 0.0, 0);
    assert_eq!(r.marker(), ' ');
    r.steam = true;
    assert_eq!(r.marker(), '*');
    r.pinned = true;
    assert_eq!(r.marker(), '+');
    r.steam = false;
    assert_eq!(r.marker(), '+');
}

#[test]
fn display_row_from_game() {
    let g = Game { pid: 4, name: "G".to_string(), cpu_bits: 7, mem_bytes: 8, pinned: true, steam: false };
    let r = DisplayRow::from(&g);
    assert_eq!((r.pid, r.name.as_str(), r.cpu_bits, r.mem_bytes, r.pinned, r.steam), (4, "G", 7, 8, true, false));
}

#[test]
fn sort_by_cpu_descending_and_stable() {
    let mut rows = vec![row(1, "a", 1.5, 0), row(2, "b", 10.0, 0), row(3, "c", 1.5, 0), row(4, "d", 0.0, 0), row(5, "e", 99.9, 0)];
    sort_rows_by(&mut rows, SortCol::Cpu);
    assert_eq!(pids(&rows), vec![5, 2, 1, 3, 4]);
}

#[test]
fn sort_by_gpu_uses_cpu() {
    let mut rows = vec![row(1, "a", 1.0, 5), row(2, "b", 2.0, 1)];
    sort_rows_by(&mut rows, SortCol::Gpu);
    assert_eq!(pids(&rows), vec![2, 1]);
}

#[test]
fn sort_by_memory_descending_and_stable() {
    let mut rows = vec![row(1, "a", 0.0, 5), row(2, "b", 0.0, 50), row(3, "c", 0.0, 5), row(4, "d", 0.0, 500)];
    sort_rows_by(&mut rows, SortCol::Mem);
    assert_eq!(pids(&rows), vec![4, 2, 1, 3]);
}

#[test]
fn sort_by_name_ignores_case_and_is_stable() {
    let mut rows = vec![row(1, "beta", 0.0, 0), row(2, "Alpha", 0.0, 0), row(3, "alpha", 0.0, 0), row(4, "ALPHA", 0.0, 0), row(5, "Zed", 0.0, 0)];
    sort_rows_by(&mut rows, SortCol::Name);
    assert_eq!(pids(&rows), vec![2, 3, 4, 1, 5]);
}

#[test]
fn sort_agrees_with_std_stable_sort() {
    let cpus = [3.0f32, 0.5, 3.0, 7.25, 0.0, 0.5, 12.0, 3.0];
    let names = ["b", "A", "a", "c", "B", "é", "É", "z"];
    let make = || -> Vec<DisplayRow> {
        (0..8).map(|i| row(i as u32, names[i], cpus[i], (i as u64 * 37) % 5)).collect()
    };
    for col in [SortCol::Cpu, SortCol::Mem, SortCol::Gpu, SortCol::Name] {
        let mut ours = make();
        sort_rows_by(&mut ours, col);
        let mut std_sorted = make();
        std_sorted.sort_by(|a, b| match col {
            SortCol::Cpu | SortCol::Gpu => f32::from_bits(b.cpu_bits).partial_cmp(&f32::from_bits(a.cpu_bits)).unwrap(),
            SortCol::Mem => b.mem_bytes.cmp(&a.mem_bytes),
            SortCol::Name => a.name.to_lowercase().cmp(&b.name.to_lowercase()),
        });
        assert_eq!(pids(&ours), pids(&std_sorted));
    }
}

#[test]
fn sorting_twice_changes_nothing() {
    let mut rows = vec![row(1, "b", 2.0, 3), row(2, "a", 2.0, 1), row(3, "c", 5.0, 2)];
    sort_rows_by(&mut rows, SortCol::Name);
    let once = pids(&rows);
    sort_rows_by(&mut rows, SortCol::Name);
    assert_eq!(pids(&rows), once);
}

#[test]
fn sort_keeps_every_row() {
    let mut rows = vec![row(1, "x", 1.0, 1), row(1, "x", 1.0, 1), row(2, "y", 0.0, 0)];
    sort_rows_by(&mut rows, SortCol::Cpu);
    assert_eq!(rows.len(), 3);
    assert_eq!(pids(&rows), vec![1, 1, 2]);
    let mut empty: Vec<DisplayRow> = vec![];
    sort_rows_by(&mut empty, SortCol::Name);
    assert!(empty.is_empty());
}

#[test]
fn row_order_is_strict() {
    let a = row(1, "Apple", 2.0, 1);
    let b = row(2, "apple", 1.0, 2);
    assert!(!row_goes_before(&a, &b, SortCol::Name));
    assert!(!row_goes_before(&b, &a, SortCol::Name));
    assert!(row_goes_before(&a, &b, SortCol::Cpu));
    assert!(row_goes_before(&b, &a, SortCol::Mem));
    assert!(!row_goes_before(&a, &a, SortCol::Cpu));
}

#[test]
fn cpu_order_follows_float_values() {
    let values = [
        f32::NEG_INFINITY, -1e30, -2.5, -1.0, -1e-40, -0.0, 0.0, 1e-40, 0.5, 1.0, 99.9, 1e30,
        f32::INFINITY,
    ];
    for a in values {
        for b in values {
            let ka = cpu_order_key(a.to_bits());
            let kb = cpu_order_key(b.to_bits());
            assert_eq!(ka < kb, a < b, "{a} {b}");
            assert_eq!(ka == kb, a == b, "{a} {b}");
        }
    }
}

#[test]
fn sort_by_cpu_handles_negative_and_signed_zero() {
    let mut rows = vec![row(1, "a", -1.0, 0), row(2, "b", 1.0, 0), row(3, "c", -0.0, 0), row(4, "d", 0.0, 0), row(5, "e", -0.0, 0)];
    sort_rows_by(&mut rows, SortCol::Cpu);
    assert_eq!(pids(&rows), vec![2, 3, 4, 5, 1]);
    let mut std_sorted = vec![row(1, "a", -1.0, 0), row(2, "b", 1.0, 0), row(3, "c", -0.0, 0), row(4, "d", 0.0, 0), row(5, "e", -0.0, 0)];
    std_sorted.sort_by(|a, b| {
        f32::from_bits(b.cpu_bits)
            .partial_cmp(&f32::from_bits(a.cpu_bits))
            .unwrap_or(std::cmp::Ordering::Equal)
    });
    assert_eq!(pids(&rows), pids(&std_sorted));
}
