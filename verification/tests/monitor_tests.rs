use steamtop::games::ProcInfo;
use steamtop::gpu::GpuInfo;
use steamtop::monitor::{handle_key, App, KeyInput, Sample};
use steamtop::rows::{SortCol, View};

fn gpu() -> GpuInfo {
    GpuInfo::probe(&None, &vec![])
}

fn proc(pid: u32, name: &str, exe: Option<&str>, cpu: f32, mem: u64) -> ProcInfo {
    ProcInfo {
        pid,
        name: name.to_string(),
        exe: exe.map(|s| s.to_string()),
        cwd: None,
        cpu_bits: cpu.to_bits(),
        mem_bytes: mem,
    }
}

fn sample(procs: Vec<ProcInfo>) -> Sample {
    Sample { cpu_bits: 12.5f32.to_bits(), mem_used: 4, mem_total: 16, gpu: gpu(), processes: procs }
}

fn shown(app: &App) -> Vec<(u32, String, bool, bool)> {
    app.display_rows().iter().map(|r| (r.pid, r.name.clone(), r.pinned, r.steam)).collect()
}

fn some_procs() -> Vec<ProcInfo> {
    vec![
        proc(1, "bash", Some("/usr/bin/bash"), 0.5, 100),
        proc(2, "Game", Some("/s/steamapps/common/Game"), 80.0, 5000),
        proc(3, "firefox", Some("/usr/lib/firefox"), 20.0, 3000),
    ]
}

#[test]
fn new_app_defaults() {
    let app = App::new(gpu());
    assert_eq!(app.interval_ms, 1000);
    assert_eq!(app.view, View::Games);
    assert_eq!(app.sort, SortCol::Cpu);
    assert_eq!(app.selected, 0);
    assert_eq!(app.row_len(), 0);
    assert!(app.pinned.is_empty());
    assert!(app.watch_names.is_empty());
    assert_eq!(app.gpu.backend, "unsupported");
}

#[test]
fn refresh_fills_both_views() {
    let mut app = App::new(gpu());
    app.refresh(sample(some_procs()));
    assert_eq!(app.cpu_bits, 12.5f32.to_bits());
    assert_eq!((app.mem_used, app.mem_total), (4, 16));
    assert_eq!(shown(&app), vec![(2, "Game".to_string(), false, true)]);
    assert!(handle_key(&mut app, KeyInput::Tab));
    assert_eq!(app.view, View::AllProcs);
    let pids: Vec<u32> = app.display_rows().iter().map(|r| r.pid).collect();
    assert_eq!(pids, vec![2, 3, 1]);
}

#[test]
fn quit_key_stops_and_changes_nothing() {
    let mut app = App::new(gpu());
    app.refresh(sample(some_procs()));
    assert!(!handle_key(&mut app, KeyInput::Char('q')));
    assert_eq!(app.view, View::Games);
    assert!(handle_key(&mut app, KeyInput::Char('Q')));
    assert!(handle_key(&mut app, KeyInput::Other));
}

#[test]
fn tab_twice_returns_to_games_at_top() {
    let mut app = App::new(gpu());
    app.refresh(sample(some_procs()));
    handle_key(&mut app, KeyInput::Tab);
    handle_key(&mut app, KeyInput::Down);
    assert_eq!(app.selected, 1);
    handle_key(&mut app, KeyInput::Tab);
    assert_eq!(app.view, View::Games);
    assert_eq!(app.selected, 0);
}

#[test]
fn selection_moves_within_rows() {
    let mut app = App::new(gpu());
    app.refresh(sample(some_procs()));
    handle_key(&mut app, KeyInput::Tab);
    handle_key(&mut app, KeyInput::Up);
    assert_eq!(app.selected, 0);
    handle_key(&mut app, KeyInput::Down);
    handle_key(&mut app, KeyInput::Down);
    handle_key(&mut app, KeyInput::Down);
    assert_eq!(app.selected, 2);
    handle_key(&mut app, KeyInput::Up);
    assert_eq!(app.selected, 1);
    assert_eq!(app.selected_pid(), Some(3));
    assert_eq!(app.selected_name().as_deref(), Some("firefox"));
}

#[test]
fn empty_view_has_no_selection() {
    let mut app = App::new(gpu());
    handle_key(&mut app, KeyInput::Down);
    assert_eq!(app.selected, 0);
    assert_eq!(app.selected_pid(), None);
    assert_eq!(app.selected_name(), None);
    handle_key(&mut app, KeyInput::Char(' '));
    assert!(app.pinned.is_empty());
}

#[test]
fn sort_keys_pick_columns() {
    let mut app = App::new(gpu());
    for (c, col) in [('2', SortCol::Mem), ('3', SortCol::Gpu), ('4', SortCol::Name), ('1', SortCol::Cpu)] {
        handle_key(&mut app, KeyInput::Char(c));
        assert_eq!(app.sort, col);
    }
    handle_key(&mut app, KeyInput::Char('4'));
    app.refresh(sample(some_procs()));
    handle_key(&mut app, KeyInput::Tab);
    let names: Vec<String> = app.display_rows().iter().map(|r| r.name.clone()).collect();
    assert_eq!(names, vec!["bash", "firefox", "Game"]);
}

#[test]
fn rate_keys_step_a_quarter_second_within_bounds() {
    let mut app = App::new(gpu());
    handle_key(&mut app, KeyInput::Char('+'));
    assert_eq!(app.interval_ms, 750);
    handle_key(&mut app, KeyInput::Char('-'));
    assert_eq!(app.interval_ms, 1000);
    for _ in 0..10 {
        handle_key(&mut app, KeyInput::Char('='));
    }
    assert_eq!(app.interval_ms, 250);
    for _ in 0..30 {
        handle_key(&mut app, KeyInput::Char('_'));
    }
    assert_eq!(app.interval_ms, 5000);
    app.adjust_rate(true);
    assert_eq!(app.interval_ms, 5000);
    app.adjust_rate(false);
    assert_eq!(app.interval_ms, 4750);
}

#[test]
fn adjust_rate_up_lengthens_the_interval() {
    let mut app = App::new(gpu());
    app.adjust_rate(true);
    assert_eq!(app.interval_ms, 1250);
    app.adjust_rate(false);
    app.adjust_rate(false);
    assert_eq!(app.interval_ms, 750);
    app.adjust_rate(false);
    app.adjust_rate(false);
    assert_eq!(app.interval_ms, 250);
}

#[test]
fn adjust_rate_clamps_any_interval() {
    let mut app = App::new(gpu());
    app.interval_ms = 9000;
    app.adjust_rate(false);
    assert_eq!(app.interval_ms, 5000);
    app.interval_ms = 100;
    app.adjust_rate(true);
    assert_eq!(app.interval_ms, 350);
    app.interval_ms = u64::MAX;
    app.adjust_rate(true);
    assert_eq!(app.interval_ms, 5000);
}

#[test]
fn refresh_timing() {
    let app = App::new(gpu());
    assert!(!app.refresh_due(999_999_999));
    assert!(app.refresh_due(1_000_000_000));
    assert!(app.refresh_due(u128::MAX));
    assert_eq!(app.time_left_ns(0), 1_000_000_000);
    assert_eq!(app.time_left_ns(400_000_000), 600_000_000);
    assert_eq!(app.time_left_ns(1_000_000_001), 0);
}

#[test]
fn down_key_is_safe_on_any_selection() {
    let mut app = App::new(gpu());
    app.selected = usize::MAX;
    assert!(handle_key(&mut app, KeyInput::Down));
    assert_eq!(app.selected, usize::MAX);
}

#[test]
fn pinning_keeps_a_process_in_the_games_view() {
    let mut app = App::new(gpu());
    app.refresh(sample(some_procs()));
    handle_key(&mut app, KeyInput::Tab);
    handle_key(&mut app, KeyInput::Down);
    assert_eq!(app.selected_pid(), Some(3));
    handle_key(&mut app, KeyInput::Char(' '));
    assert!(app.pinned.contains(&3));
    assert_eq!(app.watch_names.get(&3).map(|s| s.as_str()), Some("firefox"));
    app.refresh(sample(some_procs()));
    handle_key(&mut app, KeyInput::Tab);
    assert_eq!(
        shown(&app),
        vec![(2, "Game".to_string(), false, true), (3, "firefox".to_string(), true, false)]
    );
    // The process goes away: it stays listed as gone.
    app.refresh(sample(vec![proc(2, "Game", Some("/s/steamapps/common/Game"), 80.0, 5000)]));
    assert_eq!(
        shown(&app),
        vec![(2, "Game".to_string(), false, true), (3, "firefox (gone)".to_string(), true, false)]
    );
    let gone = &app.display_rows()[1];
    assert_eq!((gone.cpu_bits, gone.mem_bytes), (0, 0));
    assert_eq!(gone.marker(), '+');
}

#[test]
fn pinning_twice_restores_the_pins() {
    let mut app = App::new(gpu());
    app.refresh(sample(some_procs()));
    handle_key(&mut app, KeyInput::Char(' '));
    assert!(app.pinned.contains(&2));
    handle_key(&mut app, KeyInput::Char(' '));
    assert!(app.pinned.is_empty());
    assert!(app.watch_names.is_empty());
}

#[test]
fn selection_is_clamped_after_refresh() {
    let mut app = App::new(gpu());
    app.refresh(sample(some_procs()));
    handle_key(&mut app, KeyInput::Tab);
    handle_key(&mut app, KeyInput::Down);
    handle_key(&mut app, KeyInput::Down);
    assert_eq!(app.selected, 2);
    app.refresh(sample(vec![proc(9, "only", None, 1.0, 1)]));
    assert_eq!(app.selected, 0);
    app.refresh(sample(vec![]));
    assert_eq!(app.selected, 0);
    assert_eq!(app.row_len(), 0);
}
