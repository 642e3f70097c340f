use std::collections::{HashMap, HashSet};
use steamtop::games::{
    collect_games, in_steamapps, is_game_lowered, is_steam_library_path, looks_like_game, Game,
    ProcInfo,
};

fn proc(pid: u32, name: &str, exe: Option<&str>, cwd: Option<&str>, cpu: f32, mem: u64) -> ProcInfo {
    ProcInfo {
        pid,
        name: name.to_string(),
        exe: exe.map(|s| s.to_string()),
        cwd: cwd.map(|s| s.to_string()),
        cpu_bits: cpu.to_bits(),
        mem_bytes: mem,
    }
}

#[test]
fn steam_library_paths() {
    assert!(in_steamapps("/home/me/.local/share/Steam/steamapps/common/Game/game.x86_64"));
    assert!(in_steamapps("/mnt/games/SteamLibrary/common/Foo/Foo.exe"));
    assert!(in_steamapps("/home/me/.steam/steam/SteamApps/compatdata/123/pfx"));
    assert!(!in_steamapps("/usr/bin/firefox"));
    assert!(!in_steamapps("/home/me/.local/share/Steam/ubuntu12_64/steamwebhelper"));
    assert!(!in_steamapps(""));
}

#[test]
fn lowered_paths_are_not_lowered_again() {
    assert!(is_steam_library_path("/x/steamapps/y"));
    assert!(!is_steam_library_path("/x/SteamApps/y"));
    assert!(is_game_lowered("game", Some("/a/steamlibrary/b"), None));
    assert!(!is_game_lowered("game", None, None));
    assert!(!is_game_lowered("steam", Some("/a/steamapps/b"), None));
    assert!(is_game_lowered("game", None, Some("/a/steamapps/b")));
}

#[test]
fn games_under_a_steam_library_are_detected() {
    assert!(looks_like_game(&proc(1, "Game.x86_64", Some("/data/steamapps/common/G/Game.x86_64"), None, 1.0, 1)));
    assert!(looks_like_game(&proc(2, "Game.exe", Some("/usr/bin/wine64-preloader"), Some("/data/SteamApps/common/G"), 1.0, 1)));
}

#[test]
fn steam_client_and_others_are_not_games() {
    assert!(!looks_like_game(&proc(1, "steamwebhelper", Some("/data/steamapps/x"), None, 1.0, 1)));
    assert!(!looks_like_game(&proc(2, "SteamChild", None, Some("/data/steamapps/x"), 1.0, 1)));
    assert!(!looks_like_game(&proc(3, "firefox", Some("/usr/lib/firefox/firefox"), Some("/home/me"), 1.0, 1)));
    assert!(!looks_like_game(&proc(4, "Game.exe", None, None, 1.0, 1)));
}

fn summary(games: &[Game]) -> Vec<(u32, String, u32, u64, bool, bool)> {
    games
        .iter()
        .map(|g| (g.pid, g.name.clone(), g.cpu_bits, g.mem_bytes, g.pinned, g.steam))
        .collect()
}

#[test]
fn game_list_combines_detected_pinned_and_gone() {
    let procs = vec![
        proc(10, "Game.x86_64", Some("/g/steamapps/common/G/Game.x86_64"), None, 55.0, 4000),
        proc(11, "firefox", Some("/usr/lib/firefox/firefox"), None, 3.5, 900),
        proc(12, "bash", Some("/usr/bin/bash"), None, 0.0, 10),
        proc(13, "Other.exe", None, Some("/g/SteamLibrary/x"), 1.0, 20),
    ];
    let pinned: HashSet<u32> = [11, 13, 99].into_iter().collect();
    let mut watch: HashMap<u32, String> = HashMap::new();
    watch.insert(11, "firefox".to_string());
    watch.insert(13, "Other.exe".to_string());
    watch.insert(99, "oldgame".to_string());
    let games = collect_games(&procs, &pinned, &watch);
    assert_eq!(
        summary(&games),
        vec![
            (10, "Game.x86_64".to_string(), 55.0f32.to_bits(), 4000, false, true),
            (11, "firefox".to_string(), 3.5f32.to_bits(), 900, true, false),
            (13, "Other.exe".to_string(), 1.0f32.to_bits(), 20, true, false),
            (99, "oldgame (gone)".to_string(), 0.0f32.to_bits(), 0, true, false),
        ]
    );
}

#[test]
fn game_list_every_gone_pin_once() {
    let procs = vec![proc(1, "a", None, None, 0.0, 0)];
    let pinned: HashSet<u32> = [1, 2, 3, 4].into_iter().collect();
    let mut watch: HashMap<u32, String> = HashMap::new();
    for p in [1u32, 2, 3, 4] {
        watch.insert(p, format!("p{p}"));
    }
    let games = collect_games(&procs, &pinned, &watch);
    assert_eq!(games.len(), 4);
    assert_eq!(games[0].pid, 1);
    assert_eq!(games[0].name, "a");
    let mut gone: Vec<(u32, String)> = games[1..].iter().map(|g| (g.pid, g.name.clone())).collect();
    gone.sort();
    assert_eq!(
        gone,
        vec![(2, "p2 (gone)".to_string()), (3, "p3 (gone)".to_string()), (4, "p4 (gone)".to_string())]
    );
}

#[test]
fn game_list_skips_unpinned_names_and_nothing_pinned() {
    let procs = vec![proc(5, "tool", None, None, 0.0, 0)];
    let pinned: HashSet<u32> = HashSet::new();
    let mut watch: HashMap<u32, String> = HashMap::new();
    watch.insert(7, "stale".to_string());
    assert!(collect_games(&procs, &pinned, &watch).is_empty());
    assert!(collect_games(&vec![], &HashSet::new(), &HashMap::new()).is_empty());
}

#[test]
fn detection_ignores_case_of_names_and_paths() {
    // Only lower-casing makes these match.
    assert!(in_steamapps("/G/STEAMAPPS/x"));
    assert!(!looks_like_game(&proc(1, "STEAMwebhelper", Some("/g/steamapps/x"), None, 0.0, 0)));
    assert!(looks_like_game(&proc(2, "Ärger", Some("/G/SteamLibrary/Ärger"), None, 0.0, 0)));
}

#[test]
fn proton_prefixes_count_as_steam_libraries() {
    assert!(in_steamapps("/data/CompatData/1245620/pfx/drive_c/game.exe"));
    assert!(looks_like_game(&proc(3, "game.exe", None, Some("/x/compatdata/1/pfx"), 0.0, 0)));
}
