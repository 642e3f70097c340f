//! Which processes count as Steam games, and the game list that combines the
//! auto-detected games with the processes the user pinned.

use std::collections::{HashMap, HashSet};
use vstd::prelude::*;
use crate::text::{ascii_lowered, contains_text, has_substring, is_ascii_text, lowercase, to_lower};

verus! {

broadcast use vstd::std_specs::hash::group_hash_axioms;

/// A running process as the sampler saw it. `cpu_bits` holds the bit pattern
/// of the process's CPU usage (an `f32`); `exe` and `cwd` are the paths of
/// its executable and working directory, where they could be read.
pub struct ProcInfo {
    pub pid: u32,
    pub name: String,
    pub exe: Option<String>,
    pub cwd: Option<String>,
    pub cpu_bits: u32,
    pub mem_bytes: u64,
}

pub struct ProcView {
    pub pid: u32,
    pub name: Seq<char>,
    pub exe: Option<Seq<char>>,
    pub cwd: Option<Seq<char>>,
    pub cpu_bits: u32,
    pub mem_bytes: u64,
}

impl View for ProcInfo {
    type V = ProcView;

    open spec fn view(&self) -> ProcView {
        ProcView {
            pid: self.pid,
            name: self.name@,
            exe: crate::gpu::opt_text(self.exe),
            cwd: crate::gpu::opt_text(self.cwd),
            cpu_bits: self.cpu_bits,
            mem_bytes: self.mem_bytes,
        }
    }
}

pub open spec fn proc_views(s: Seq<ProcInfo>) -> Seq<ProcView> {
    s.map_values(|p: ProcInfo| p@)
}

/// An entry of the game list. `pinned` marks a process the user pinned;
/// `steam` one detected as a Steam game.
pub struct Game {
    pub pid: u32,
    pub name: String,
    pub cpu_bits: u32,
    pub mem_bytes: u64,
    pub pinned: bool,
    pub steam: bool,
}

/// The content of a game-list or process-table row.
pub struct RowView {
    pub pid: u32,
    pub name: Seq<char>,
    pub cpu_bits: u32,
    pub mem_bytes: u64,
    pub pinned: bool,
    pub steam: bool,
}

impl View for Game {
    type V = RowView;

    open spec fn view(&self) -> RowView {
        RowView {
            pid: self.pid,
            name: self.name@,
            cpu_bits: self.cpu_bits,
            mem_bytes: self.mem_bytes,
            pinned: self.pinned,
            steam: self.steam,
        }
    }
}

pub open spec fn game_views(s: Seq<Game>) -> Seq<RowView> {
    s.map_values(|g: Game| g@)
}

// ---------------------------------------------------------------------------
// Detection
// ---------------------------------------------------------------------------

/// A lower-cased path lies under a Steam library dir or a Proton prefix: it
/// mentions `steamapps`, `steamlibrary` or `compatdata`.
pub open spec fn mentions_steam_library(lower: Seq<char>) -> bool {
    ||| has_substring(lower, "steamapps"@)
    ||| has_substring(lower, "steamlibrary"@)
    ||| has_substring(lower, "compatdata"@)
}

/// Whether an already lower-cased path lies under a Steam library.
pub fn is_steam_library_path(lower: &str) -> (r: bool)
    ensures
        r == mentions_steam_library(lower@),
{
    contains_text(lower, "steamapps") || contains_text(lower, "steamlibrary") || contains_text(
        lower,
        "compatdata",
    )
}

/// Whether a path lies under a Steam library dir or a Proton prefix,
/// compared without regard to case.
pub fn in_steamapps(path: &str) -> (r: bool)
    ensures
        r == mentions_steam_library(lowercase(path@)),
        is_ascii_text(path@) ==> r == mentions_steam_library(ascii_lowered(path@)),
{
    let lower = to_lower(path);
    is_steam_library_path(lower.as_str())
}

/// A path, lower-cased, lies under a Steam library; an absent path does not.
pub open spec fn in_game_dir(path: Option<Seq<char>>) -> bool {
    match path {
        Some(p) => mentions_steam_library(lowercase(p)),
        None => false,
    }
}

/// The decision on lower-cased inputs: a process whose name mentions `steam`
/// (the Steam client and its helpers) is no game; otherwise it is one when
/// its executable or working directory lies under a Steam library.
pub open spec fn game_by_lowered(name: Seq<char>, exe: Option<Seq<char>>, cwd: Option<Seq<char>>) -> bool {
    !has_substring(name, "steam"@) && (match exe {
        Some(p) => mentions_steam_library(p),
        None => false,
    } || match cwd {
        Some(p) => mentions_steam_library(p),
        None => false,
    })
}

/// An optional path with its ASCII upper-case letters lowered.
pub open spec fn ascii_lowered_path(p: Option<Seq<char>>) -> Option<Seq<char>> {
    match p {
        Some(t) => Some(ascii_lowered(t)),
        None => None,
    }
}

/// A process whose name and paths are all ASCII.
pub open spec fn ascii_process(p: ProcView) -> bool {
    &&& is_ascii_text(p.name)
    &&& (p.exe matches Some(e) ==> is_ascii_text(e))
    &&& (p.cwd matches Some(c) ==> is_ascii_text(c))
}

/// The detection rule: a process whose lower-cased name mentions `steam` is
/// never a game; any other process is a game as soon as its executable, or
/// its working directory, lower-cased lies under a Steam library, whatever
/// the other path is; and a game always has one of the two there. A path
/// under a Steam library is one that mentions `steamapps`, `steamlibrary` or
/// `compatdata`.
pub proof fn lemma_game_detection(p: ProcView, lower: Seq<char>)
    ensures
        has_substring(lowercase(p.name), "steam"@) ==> !looks_like_game_spec(p),
        !has_substring(lowercase(p.name), "steam"@) && (p.exe matches Some(e)
            && mentions_steam_library(lowercase(e))) ==> looks_like_game_spec(p),
        !has_substring(lowercase(p.name), "steam"@) && (p.cwd matches Some(c)
            && mentions_steam_library(lowercase(c))) ==> looks_like_game_spec(p),
        looks_like_game_spec(p) ==> (p.exe matches Some(e) && mentions_steam_library(lowercase(e)))
            || (p.cwd matches Some(c) && mentions_steam_library(lowercase(c))),
        mentions_steam_library(lower) <==> (has_substring(lower, "steamapps"@) || has_substring(
            lower,
            "steamlibrary"@,
        ) || has_substring(lower, "compatdata"@)),
{
}

/// The same rule on lower-cased inputs.
pub proof fn lemma_game_by_lowered(name: Seq<char>, exe: Option<Seq<char>>, cwd: Option<Seq<char>>)
    ensures
        has_substring(name, "steam"@) ==> !game_by_lowered(name, exe, cwd),
        !has_substring(name, "steam"@) && (exe matches Some(e) && mentions_steam_library(e))
            ==> game_by_lowered(name, exe, cwd),
        !has_substring(name, "steam"@) && (cwd matches Some(c) && mentions_steam_library(c))
            ==> game_by_lowered(name, exe, cwd),
        game_by_lowered(name, exe, cwd) ==> (exe matches Some(e) && mentions_steam_library(e)) || (
        cwd matches Some(c) && mentions_steam_library(c)),
{
}

/// A process looks like a Steam game.
pub open spec fn looks_like_game_spec(p: ProcView) -> bool {
    !has_substring(lowercase(p.name), "steam"@) && (in_game_dir(p.exe) || in_game_dir(p.cwd))
}

/// Decides whether a process is a game from its lower-cased name and paths.
pub fn is_game_lowered(name: &str, exe: Option<&str>, cwd: Option<&str>) -> (r: bool)
    ensures
        r == game_by_lowered(
            name@,
            match exe {
                Some(p) => Some(p@),
                None => None,
            },
            match cwd {
                Some(p) => Some(p@),
                None => None,
            },
        ),
        has_substring(name@, "steam"@) ==> !r,
        !has_substring(name@, "steam"@) && (exe matches Some(e) && mentions_steam_library(e@))
            ==> r,
        !has_substring(name@, "steam"@) && (cwd matches Some(c) && mentions_steam_library(c@))
            ==> r,
        r ==> (exe matches Some(e) && mentions_steam_library(e@)) || (cwd matches Some(c)
            && mentions_steam_library(c@)),
{
    if contains_text(name, "steam") {
        return false;
    }
    let by_exe = match exe {
        Some(p) => is_steam_library_path(p),
        None => false,
    };
    by_exe || match cwd {
        Some(p) => is_steam_library_path(p),
        None => false,
    }
}

/// Whether a process is a real Steam game: it lives under a Steam library
/// (by its executable or its working directory) and is not part of the Steam
/// client, whose name mentions `steam`.
pub fn looks_like_game(p: &ProcInfo) -> (r: bool)
    ensures
        r == looks_like_game_spec(p@),
        has_substring(lowercase(p@.name), "steam"@) ==> !r,
        !has_substring(lowercase(p@.name), "steam"@) && (p@.exe matches Some(e)
            && mentions_steam_library(lowercase(e))) ==> r,
        !has_substring(lowercase(p@.name), "steam"@) && (p@.cwd matches Some(c)
            && mentions_steam_library(lowercase(c))) ==> r,
        r ==> (p@.exe matches Some(e) && mentions_steam_library(lowercase(e))) || (p@.cwd matches Some(
            c,
        ) && mentions_steam_library(lowercase(c))),
        ascii_process(p@) ==> r == game_by_lowered(
            ascii_lowered(p@.name),
            ascii_lowered_path(p@.exe),
            ascii_lowered_path(p@.cwd),
        ),
{
    let name = to_lower(p.name.as_str());
    let exe = match &p.exe {
        Some(e) => Some(to_lower(e.as_str())),
        None => None,
    };
    let cwd = match &p.cwd {
        Some(c) => Some(to_lower(c.as_str())),
        None => None,
    };
    let exe_ref: Option<&str> = match &exe {
        Some(e) => Some(e.as_str()),
        None => None,
    };
    let cwd_ref: Option<&str> = match &cwd {
        Some(c) => Some(c.as_str()),
        None => None,
    };
    is_game_lowered(name.as_str(), exe_ref, cwd_ref)
}

// ---------------------------------------------------------------------------
// The game list
// ---------------------------------------------------------------------------

/// The entries that live processes give, in process order: every pinned
/// process, and every unpinned one that looks like a game.
pub open spec fn live_games(procs: Seq<ProcView>, pinned: Set<u32>) -> Seq<RowView>
    decreases procs.len(),
{
    if procs.len() == 0 {
        Seq::empty()
    } else {
        let rest = live_games(procs.drop_last(), pinned);
        let p = procs.last();
        let is_pinned = pinned.contains(p.pid);
        let auto = !is_pinned && looks_like_game_spec(p);
        if is_pinned || auto {
            rest.push(
                RowView {
                    pid: p.pid,
                    name: p.name,
                    cpu_bits: p.cpu_bits,
                    mem_bytes: p.mem_bytes,
                    pinned: is_pinned,
                    steam: auto,
                },
            )
        } else {
            rest
        }
    }
}

/// The entry of a pinned process that no longer runs: its remembered name
/// with ` (gone)` appended, no CPU or memory use.
pub open spec fn gone_game(pid: u32, name: Seq<char>) -> RowView {
    RowView { pid, name: name + " (gone)"@, cpu_bits: 0, mem_bytes: 0, pinned: true, steam: false }
}

/// Some entry of `rows` has this pid.
pub open spec fn has_pid(rows: Seq<RowView>, pid: u32) -> bool {
    exists|i: int| 0 <= i < rows.len() && (#[trigger] rows[i]).pid == pid
}

/// A pid that needs an entry for a process that is gone: pinned, remembered
/// by name, and without a live entry.
pub open spec fn needs_gone_entry(
    live: Seq<RowView>,
    pinned: Set<u32>,
    watch: Map<u32, String>,
    pid: u32,
) -> bool {
    pinned.contains(pid) && watch.contains_key(pid) && !has_pid(live, pid)
}

/// `rows` is the combined game list: the live entries in process order,
/// then exactly one entry for each pinned, remembered process that no longer
/// runs (in the order in which the map of names was walked).
pub open spec fn is_game_list(
    rows: Seq<RowView>,
    procs: Seq<ProcView>,
    pinned: Set<u32>,
    watch: Map<u32, String>,
) -> bool {
    let live = live_games(procs, pinned);
    let tail = rows.skip(live.len() as int);
    &&& live.len() <= rows.len()
    &&& rows.take(live.len() as int) == live
    &&& forall|k: int|
        0 <= k < tail.len() ==> needs_gone_entry(live, pinned, watch, #[trigger] tail[k].pid)
            && tail[k] == gone_game(tail[k].pid, watch[tail[k].pid]@)
    &&& forall|pid: u32| #[trigger] needs_gone_entry(live, pinned, watch, pid) ==> has_pid(tail, pid)
    &&& forall|k1: int, k2: int|
        0 <= k1 < tail.len() && 0 <= k2 < tail.len() && k1 != k2 ==> tail[k1].pid
            != tail[k2].pid
}

fn find_pid(games: &Vec<Game>, pid: u32) -> (r: bool)
    ensures
        r == has_pid(game_views(games@), pid),
{
    let mut i: usize = 0;
    while i < games.len()
        invariant
            i <= games@.len(),
            forall|k: int| 0 <= k < i ==> games@[k].pid != pid,
        decreases games@.len() - i,
    {
        if games[i].pid == pid {
            assert(game_views(games@)[i as int].pid == pid);
            return true;
        }
        i = i + 1;
    }
    assert forall|k: int| 0 <= k < game_views(games@).len() implies (#[trigger] game_views(
        games@,
    )[k]).pid != pid by {
        assert(games@[k].pid != pid);
    }
    false
}

/// Builds the combined game list: auto-detected Steam games plus the
/// processes the user pinned, with an entry marked ` (gone)` for each pinned
/// process that is no longer running.
pub fn collect_games(
    procs: &Vec<ProcInfo>,
    pinned: &HashSet<u32>,
    watch_names: &HashMap<u32, String>,
) -> (r: Vec<Game>)
    ensures
        is_game_list(game_views(r@), proc_views(procs@), pinned@, watch_names@),
{
    let mut games: Vec<Game> = Vec::new();
    let n = procs.len();
    let mut i: usize = 0;
    while i < n
        invariant
            n == procs@.len(),
            i <= n,
            game_views(games@) == live_games(proc_views(procs@.take(i as int)), pinned@),
        decreases n - i,
    {
        let p = &procs[i];
        let u = p.pid;
        let is_pinned = pinned.contains(&u);
        let auto = !is_pinned && looks_like_game(p);
        proof {
            assert(proc_views(procs@.take(i + 1)).drop_last() =~= proc_views(procs@.take(i as int)));
            assert(proc_views(procs@.take(i + 1)).last() == p@);
        }
        if is_pinned || auto {
            let ghost before = games@;
            games.push(
                Game {
                    pid: u,
                    name: p.name.clone(),
                    cpu_bits: p.cpu_bits,
                    mem_bytes: p.mem_bytes,
                    pinned: is_pinned,
                    steam: auto,
                },
            );
            assert(game_views(games@) =~= game_views(before).push(games@.last()@));
        }
        i = i + 1;
    }
    assert(procs@.take(n as int) =~= procs@);
    let ghost live = game_views(games@);
    let ghost live_len = games@.len();
    assert(live == live_games(proc_views(procs@), pinned@));
    let ghost w = watch_names@;
    for (pid_ref, name) in it: watch_names.iter()
        invariant
            w == watch_names@,
            live_len <= games@.len(),
            live == live_games(proc_views(procs@), pinned@),
            game_views(games@).take(live_len as int) == live,
            it.seq().no_duplicates(),
            forall|j: int|
                #![trigger it.seq()[j]]
                0 <= j < it.seq().len() ==> w.contains_key(*it.seq()[j].0) && w[*it.seq()[j].0]
                    == *it.seq()[j].1,
            forall|k: u32| #[trigger] w.contains_key(k) ==> it.seq().contains((&k, &w[k])),
            forall|k: int|
                live_len <= k < games@.len() ==> needs_gone_entry(
                    live,
                    pinned@,
                    w,
                    #[trigger] games@[k].pid,
                ) && game_views(games@)[k] == gone_game(games@[k].pid, w[games@[k].pid]@)
                    && exists|j: int|
                    0 <= j < it.index() && *it.seq()[j].0 == games@[k].pid,
            forall|j: int|
                0 <= j < it.index() && needs_gone_entry(live, pinned@, w, *it.seq()[j].0)
                    ==> has_pid(game_views(games@).skip(live_len as int), *it.seq()[j].0),
            forall|k1: int, k2: int|
                live_len <= k1 < games@.len() && live_len <= k2 < games@.len() && k1 != k2
                    ==> games@[k1].pid != games@[k2].pid,
        ensures
            live_len <= games@.len(),
            game_views(games@).take(live_len as int) == live,
            forall|k: int|
                live_len <= k < games@.len() ==> needs_gone_entry(
                    live,
                    pinned@,
                    w,
                    #[trigger] games@[k].pid,
                ) && game_views(games@)[k] == gone_game(games@[k].pid, w[games@[k].pid]@),
            forall|pid: u32|
                needs_gone_entry(live, pinned@, w, pid) ==> has_pid(
                    game_views(games@).skip(live_len as int),
                    pid,
                ),
            forall|k1: int, k2: int|
                live_len <= k1 < games@.len() && live_len <= k2 < games@.len() && k1 != k2
                    ==> games@[k1].pid != games@[k2].pid,
    {
        let pid = *pid_ref;
        let ghost idx = it.index();
        let ghost old_games = games@;
        assert(it.seq()[idx] == (pid_ref, name));
        assert(w.contains_key(pid) && w[pid] == *name);
        proof {
            // No gone entry so far has this pid: the walk visits each key once.
            assert forall|k: int| live_len <= k < games@.len() implies games@[k].pid != pid by {
                let j = choose|j: int| 0 <= j < idx && *it.seq()[j].0 == games@[k].pid;
                assert(w[*it.seq()[j].0] == *it.seq()[j].1);
                if games@[k].pid == pid {
                    assert(it.seq()[j] == it.seq()[idx]);
                }
            }
        }
        let present = find_pid(&games, pid);
        proof {
            let gv = game_views(games@);
            assert(gv =~= gv.take(live_len as int) + gv.skip(live_len as int));
            if has_pid(live, pid) {
                let i0 = choose|i0: int| 0 <= i0 < live.len() && (#[trigger] live[i0]).pid == pid;
                assert(gv[i0] == live[i0]);
            }
            if present {
                let i0 = choose|i0: int| 0 <= i0 < gv.len() && (#[trigger] gv[i0]).pid == pid;
                if i0 < live_len {
                    assert(live[i0] == gv[i0]);
                } else {
                    assert(games@[i0].pid == pid);
                }
            }
        }
        if pinned.contains(&pid) && !present {
            let mut label = name.clone();
            label.append(" (gone)");
            games.push(
                Game { pid, name: label, cpu_bits: 0, mem_bytes: 0, pinned: true, steam: false },
            );
            proof {
                let gv = game_views(games@);
                assert(gv =~= game_views(old_games).push(games@.last()@));
                assert(gv.take(live_len as int) =~= game_views(old_games).take(live_len as int));
                assert(gv.skip(live_len as int)[gv.len() - 1 - live_len] == gv[gv.len() - 1]);
            }
        }
        proof {
            let gv = game_views(games@);
            assert forall|j: int|
                0 <= j < idx + 1 && needs_gone_entry(live, pinned@, w, *it.seq()[j].0)
                    implies has_pid(gv.skip(live_len as int), *it.seq()[j].0) by {
                if j < idx {
                    let t = game_views(old_games).skip(live_len as int);
                    let k = choose|k: int| 0 <= k < t.len() && (#[trigger] t[k]).pid == *it.seq()[j].0;
                    assert(gv.skip(live_len as int)[k] == t[k]);
                }
            }
        }
    }
    proof {
        let gv = game_views(games@);
        let tail = gv.skip(live_len as int);
        assert forall|k: int| 0 <= k < tail.len() implies needs_gone_entry(live, pinned@, w, #[trigger] tail[k].pid)
            && tail[k] == gone_game(tail[k].pid, w[tail[k].pid]@) by {
            assert(tail[k] == gv[k + live_len]);
            assert(games@[k + live_len].pid == tail[k].pid);
        }
        assert forall|k1: int, k2: int|
            0 <= k1 < tail.len() && 0 <= k2 < tail.len() && k1 != k2 implies tail[k1].pid != tail[k2].pid by {
            assert(tail[k1] == gv[k1 + live_len]);
            assert(tail[k2] == gv[k2 + live_len]);
        }
    }
    games
}

// ---------------------------------------------------------------------------
// What the game list holds
// ---------------------------------------------------------------------------

/// Every live entry stands for a process that is pinned or looks like a game;
/// its `pinned` mark tells whether the pid is pinned, and its `steam` mark
/// whether it was detected without being pinned. Every pinned process and
/// every process that looks like a game has a live entry.
pub proof fn lemma_live_games(procs: Seq<ProcView>, pinned: Set<u32>)
    ensures
        forall|k: int|
            0 <= k < live_games(procs, pinned).len() ==> {
                let r = #[trigger] live_games(procs, pinned)[k];
                &&& r.pinned == pinned.contains(r.pid)
                &&& r.pinned || r.steam
                &&& r.steam ==> !r.pinned
                &&& exists|i: int|
                    0 <= i < procs.len() && (#[trigger] procs[i]).pid == r.pid && procs[i].name
                        == r.name && procs[i].cpu_bits == r.cpu_bits && procs[i].mem_bytes
                        == r.mem_bytes && r.steam == (!r.pinned && looks_like_game_spec(procs[i]))
            },
        forall|i: int|
            0 <= i < procs.len() && (pinned.contains(#[trigger] procs[i].pid) || looks_like_game_spec(
                procs[i],
            )) ==> has_pid(live_games(procs, pinned), procs[i].pid),
    decreases procs.len(),
{
    if procs.len() > 0 {
        let rest = procs.drop_last();
        lemma_live_games(rest, pinned);
        let live = live_games(procs, pinned);
        let prev = live_games(rest, pinned);
        assert forall|i: int|
            0 <= i < procs.len() && (pinned.contains(#[trigger] procs[i].pid) || looks_like_game_spec(
                procs[i],
            )) implies has_pid(live, procs[i].pid) by {
            if i < procs.len() - 1 {
                assert(procs[i] == rest[i]);
                let k = choose|k: int| 0 <= k < prev.len() && (#[trigger] prev[k]).pid == procs[i].pid;
                assert(live[k] == prev[k]);
            } else {
                assert(live[live.len() - 1].pid == procs[i].pid);
            }
        }
        assert forall|k: int| 0 <= k < live.len() implies {
            let r = #[trigger] live[k];
            &&& r.pinned == pinned.contains(r.pid)
            &&& r.pinned || r.steam
            &&& r.steam ==> !r.pinned
            &&& exists|i: int|
                0 <= i < procs.len() && (#[trigger] procs[i]).pid == r.pid && procs[i].name
                    == r.name && procs[i].cpu_bits == r.cpu_bits && procs[i].mem_bytes
                    == r.mem_bytes && r.steam == (!r.pinned && looks_like_game_spec(procs[i]))
        } by {
            if k < prev.len() {
                assert(live[k] == prev[k]);
                let r = prev[k];
                let i = choose|i: int|
                    0 <= i < rest.len() && (#[trigger] rest[i]).pid == r.pid && rest[i].name
                        == r.name && rest[i].cpu_bits == r.cpu_bits && rest[i].mem_bytes
                        == r.mem_bytes && r.steam == (!r.pinned && looks_like_game_spec(rest[i]));
                assert(procs[i] == rest[i]);
            } else {
                assert(procs[procs.len() - 1] == procs.last());
            }
        }
    }
}

/// Every entry of a game list is one of two kinds. Either it shows a running
/// process (its pid, name, CPU and memory figures) that is pinned or looks
/// like a game, marked as detected exactly when it is not pinned. Or it
/// stands for a pinned, remembered pid that no running process has: named
/// its remembered name followed by ` (gone)`, with no CPU or memory use,
/// marked pinned and not detected.
pub proof fn lemma_game_list_entries(
    rows: Seq<RowView>,
    procs: Seq<ProcView>,
    pinned: Set<u32>,
    watch: Map<u32, String>,
)
    requires
        is_game_list(rows, procs, pinned, watch),
    ensures
        forall|k: int|
            0 <= k < rows.len() ==> {
                let r = #[trigger] rows[k];
                ||| exists|i: int|
                    0 <= i < procs.len() && (#[trigger] procs[i]).pid == r.pid && procs[i].name
                        == r.name && procs[i].cpu_bits == r.cpu_bits && procs[i].mem_bytes
                        == r.mem_bytes && (pinned.contains(r.pid) || looks_like_game_spec(procs[i]))
                        && r.pinned == pinned.contains(r.pid) && r.steam == (!r.pinned
                        && looks_like_game_spec(procs[i]))
                ||| {
                    &&& pinned.contains(r.pid)
                    &&& watch.contains_key(r.pid)
                    &&& forall|i: int| 0 <= i < procs.len() ==> (#[trigger] procs[i]).pid != r.pid
                    &&& r.name == watch[r.pid]@ + " (gone)"@
                    &&& r.cpu_bits == 0
                    &&& r.mem_bytes == 0
                    &&& r.pinned
                    &&& !r.steam
                }
            },
{
    let live = live_games(procs, pinned);
    let tail = rows.skip(live.len() as int);
    lemma_live_games(procs, pinned);
    assert forall|k: int| 0 <= k < rows.len() implies {
        let r = #[trigger] rows[k];
        ||| exists|i: int|
            0 <= i < procs.len() && (#[trigger] procs[i]).pid == r.pid && procs[i].name == r.name
                && procs[i].cpu_bits == r.cpu_bits && procs[i].mem_bytes == r.mem_bytes && (
            pinned.contains(r.pid) || looks_like_game_spec(procs[i])) && r.pinned == pinned.contains(
                r.pid,
            ) && r.steam == (!r.pinned && looks_like_game_spec(procs[i]))
        ||| {
            &&& pinned.contains(r.pid)
            &&& watch.contains_key(r.pid)
            &&& forall|i: int| 0 <= i < procs.len() ==> (#[trigger] procs[i]).pid != r.pid
            &&& r.name == watch[r.pid]@ + " (gone)"@
            &&& r.cpu_bits == 0
            &&& r.mem_bytes == 0
            &&& r.pinned
            &&& !r.steam
        }
    } by {
        if k < live.len() {
            assert(rows.take(live.len() as int)[k] == rows[k]);
            assert(rows[k] == live[k]);
        } else {
            let r = rows[k];
            assert(r == tail[k - live.len()]);
            assert(needs_gone_entry(live, pinned, watch, r.pid));
            assert forall|i: int| 0 <= i < procs.len() implies (#[trigger] procs[i]).pid != r.pid by {
                if procs[i].pid == r.pid {
                    assert(has_pid(live, procs[i].pid));
                }
            }
        }
    }
}

/// The entries of a game list all stand for pinned processes or detected
/// games, and carry a `pinned` mark that tells whether their pid is pinned.
/// Every pinned process with a remembered name and every running process
/// that looks like a game has an entry.
pub proof fn lemma_game_list_members(
    rows: Seq<RowView>,
    procs: Seq<ProcView>,
    pinned: Set<u32>,
    watch: Map<u32, String>,
)
    requires
        is_game_list(rows, procs, pinned, watch),
    ensures
        forall|k: int|
            0 <= k < rows.len() ==> (#[trigger] rows[k]).pinned == pinned.contains(rows[k].pid)
                && (rows[k].pinned || rows[k].steam),
        forall|pid: u32| pinned.contains(pid) && watch.contains_key(pid) ==> has_pid(rows, pid),
        forall|i: int|
            0 <= i < procs.len() && looks_like_game_spec(#[trigger] procs[i]) ==> has_pid(
                rows,
                procs[i].pid,
            ),
{
    let live = live_games(procs, pinned);
    let tail = rows.skip(live.len() as int);
    lemma_live_games(procs, pinned);
    assert(rows =~= rows.take(live.len() as int) + tail);
    assert forall|k: int| 0 <= k < rows.len() implies (#[trigger] rows[k]).pinned == pinned.contains(
        rows[k].pid,
    ) && (rows[k].pinned || rows[k].steam) by {
        if k < live.len() {
            assert(rows[k] == live[k]);
        } else {
            assert(rows[k] == tail[k - live.len()]);
        }
    }
    assert forall|pid: u32| pinned.contains(pid) && watch.contains_key(pid) implies has_pid(rows, pid) by {
        if has_pid(live, pid) {
            let k = choose|k: int| 0 <= k < live.len() && (#[trigger] live[k]).pid == pid;
            assert(rows[k] == live[k]);
        } else {
            assert(needs_gone_entry(live, pinned, watch, pid));
            let k = choose|k: int| 0 <= k < tail.len() && (#[trigger] tail[k]).pid == pid;
            assert(rows[k + live.len()] == tail[k]);
        }
    }
    assert forall|i: int| 0 <= i < procs.len() && looks_like_game_spec(#[trigger] procs[i]) implies has_pid(
        rows,
        procs[i].pid,
    ) by {
        assert(pinned.contains(procs[i].pid) || looks_like_game_spec(procs[i]));
        let k = choose|k: int| 0 <= k < live.len() && (#[trigger] live[k]).pid == procs[i].pid;
        assert(rows[k] == live[k]);
    }
}

} // verus!
