//! The monitor's state and its transitions: a new sample of the system, a
//! key press, pinning, the refresh interval.

use std::collections::{HashMap, HashSet};
use vstd::prelude::*;
use vstd::view::View as _;
use crate::games::{
    collect_games, game_views, has_pid, is_game_list, looks_like_game_spec, proc_views, ProcInfo,
    ProcView, RowView,
};
use crate::gpu::GpuInfo;
use crate::rows::{row_views, sort_rows_by, sorted_rows, DisplayRow, SortCol, View};

verus! {

broadcast use vstd::std_specs::hash::group_hash_axioms;

/// A key press, as the event loop hands it over.
#[derive(Clone, Copy, PartialEq, Eq, Debug, Structural)]
pub enum KeyInput {
    Char(char),
    Tab,
    Up,
    Down,
    Other,
}

/// One sample of the system: the global CPU usage (the bit pattern of an
/// `f32`), used and total memory in bytes, the GPU's figures and the running
/// processes.
pub struct Sample {
    pub cpu_bits: u32,
    pub mem_used: u64,
    pub mem_total: u64,
    pub gpu: GpuInfo,
    pub processes: Vec<ProcInfo>,
}

/// The monitor's state. The refresh interval is kept in milliseconds;
/// `pinned` holds the pids the user pinned and `watch_names` the name each
/// had when it was pinned.
pub struct App {
    pub interval_ms: u64,
    pub view: View,
    pub sort: SortCol,
    pub selected: usize,
    pub cpu_bits: u32,
    pub mem_used: u64,
    pub mem_total: u64,
    pub gpu: GpuInfo,
    pub pinned: HashSet<u32>,
    pub watch_names: HashMap<u32, String>,
    pub games_rows: Vec<DisplayRow>,
    pub procs: Vec<DisplayRow>,
}

/// The remembered names by their characters.
pub open spec fn name_views(m: Map<u32, String>) -> Map<u32, Seq<char>> {
    Map::new(|k: u32| m.contains_key(k), |k: u32| m[k]@)
}

/// The shortest and longest refresh intervals, and the step between them.
pub open spec fn interval_ok(ms: u64) -> bool {
    250 <= ms <= 5000 && ms % 250 == 0
}

/// A refresh interval, kept between a quarter second and five seconds.
pub open spec fn clamp_interval(v: int) -> u64 {
    if v < 250 {
        250
    } else if v > 5000 {
        5000
    } else {
        v as u64
    }
}

/// The interval after raising the refresh rate by one step.
pub open spec fn faster(ms: u64) -> u64 {
    clamp_interval(ms - 250)
}

/// The interval after lowering the refresh rate by one step.
pub open spec fn slower(ms: u64) -> u64 {
    clamp_interval(ms + 250)
}

/// The other view.
pub open spec fn other_view(v: View) -> View {
    match v {
        View::Games => View::AllProcs,
        View::AllProcs => View::Games,
    }
}

/// The selection kept within `len` rows.
pub open spec fn clamp_selected(sel: usize, len: nat) -> usize {
    if len == 0 {
        0
    } else if sel >= len {
        (len - 1) as usize
    } else {
        sel
    }
}

/// The rows of the full process list, in process order.
pub open spec fn proc_rows_of(procs: Seq<ProcView>, pinned: Set<u32>) -> Seq<RowView> {
    Seq::new(
        procs.len(),
        |i: int|
            RowView {
                pid: procs[i].pid,
                name: procs[i].name,
                cpu_bits: procs[i].cpu_bits,
                mem_bytes: procs[i].mem_bytes,
                pinned: pinned.contains(procs[i].pid),
                steam: false,
            },
    )
}

/// Pinning or unpinning the process of `row`: a pinned pid is dropped
/// together with its remembered name; an unpinned one is pinned and its
/// current name remembered. Without a row nothing changes.
pub open spec fn toggled_pins(
    pinned: Set<u32>,
    names: Map<u32, Seq<char>>,
    row: Option<RowView>,
) -> (Set<u32>, Map<u32, Seq<char>>) {
    match row {
        None => (pinned, names),
        Some(r) => if pinned.contains(r.pid) {
            (pinned.remove(r.pid), names.remove(r.pid))
        } else {
            (pinned.insert(r.pid), names.insert(r.pid, r.name))
        },
    }
}

/// The sort column a key selects: `1` CPU, `2` memory, `3` GPU, `4` name.
pub open spec fn sort_for_key(key: KeyInput, current: SortCol) -> SortCol {
    match key {
        KeyInput::Char(c) => if c == '1' {
            SortCol::Cpu
        } else if c == '2' {
            SortCol::Mem
        } else if c == '3' {
            SortCol::Gpu
        } else if c == '4' {
            SortCol::Name
        } else {
            current
        },
        _ => current,
    }
}

/// The refresh interval after a key: `+` or `=` refresh faster, `-` or `_`
/// slower.
pub open spec fn interval_for_key(key: KeyInput, ms: u64) -> u64 {
    match key {
        KeyInput::Char(c) => if c == '+' || c == '=' {
            faster(ms)
        } else if c == '-' || c == '_' {
            slower(ms)
        } else {
            ms
        },
        _ => ms,
    }
}

/// The view after a key: Tab switches between the games and all processes.
pub open spec fn view_for_key(key: KeyInput, v: View) -> View {
    if key == KeyInput::Tab {
        other_view(v)
    } else {
        v
    }
}

/// The selection after a key, with `len` rows shown: Tab goes back to the
/// first row, Down and Up move by one row within the list.
pub open spec fn selected_for_key(key: KeyInput, sel: usize, len: nat) -> usize {
    match key {
        KeyInput::Tab => 0,
        KeyInput::Down => if sel + 1 < len {
            (sel + 1) as usize
        } else {
            sel
        },
        KeyInput::Up => if sel > 0 {
            (sel - 1) as usize
        } else {
            0
        },
        _ => sel,
    }
}

impl App {
    /// The rows of the game list.
    pub open spec fn game_rows(&self) -> Seq<RowView> {
        row_views(self.games_rows@)
    }

    /// The rows of the full process list.
    pub open spec fn proc_rows(&self) -> Seq<RowView> {
        row_views(self.procs@)
    }

    /// The rows the current view shows.
    pub open spec fn shown(&self) -> Seq<RowView> {
        match self.view {
            View::Games => self.game_rows(),
            View::AllProcs => self.proc_rows(),
        }
    }

    /// The row under the selection, if there is one.
    pub open spec fn selected_row(&self) -> Option<RowView> {
        if self.selected < self.shown().len() {
            Some(self.shown()[self.selected as int])
        } else {
            None
        }
    }

    /// The state's invariant: the interval within its range and on its
    /// step, the selection on a row (or at the top of an empty list), and a
    /// remembered name for exactly the pinned pids.
    pub open spec fn wf(&self) -> bool {
        &&& interval_ok(self.interval_ms)
        &&& (self.selected == 0 || self.selected < self.shown().len())
        &&& self.pinned@ == self.watch_names@.dom()
    }

    /// Everything the screen shows but the pins is the same in `a` and `b`.
    pub open spec fn same_display(a: App, b: App) -> bool {
        &&& a.interval_ms == b.interval_ms
        &&& a.view == b.view
        &&& a.sort == b.sort
        &&& a.selected == b.selected
        &&& a.cpu_bits == b.cpu_bits
        &&& a.mem_used == b.mem_used
        &&& a.mem_total == b.mem_total
        &&& a.gpu == b.gpu
        &&& a.game_rows() == b.game_rows()
        &&& a.proc_rows() == b.proc_rows()
    }

    /// The initial state: a one-second interval, the games view sorted by
    /// CPU, nothing pinned, no rows yet.
    pub fn new(gpu: GpuInfo) -> (r: App)
        ensures
            r.wf(),
            r.interval_ms == 1000,
            r.view == View::Games,
            r.sort == SortCol::Cpu,
            r.selected == 0,
            r.cpu_bits == 0,
            r.mem_used == 0,
            r.mem_total == 0,
            r.gpu == gpu,
            r.pinned@ == Set::<u32>::empty(),
            r.watch_names@ == Map::<u32, String>::empty(),
            r.game_rows() == Seq::<RowView>::empty(),
            r.proc_rows() == Seq::<RowView>::empty(),
    {
        let r = App {
            interval_ms: 1000,
            view: View::Games,
            sort: SortCol::Cpu,
            selected: 0,
            cpu_bits: 0,
            mem_used: 0,
            mem_total: 0,
            gpu,
            pinned: HashSet::new(),
            watch_names: HashMap::new(),
            games_rows: Vec::new(),
            procs: Vec::new(),
        };
        assert(r.game_rows() =~= Seq::<RowView>::empty());
        assert(r.proc_rows() =~= Seq::<RowView>::empty());
        assert(r.pinned@ =~= r.watch_names@.dom());
        r
    }

    /// The rows of the current view.
    pub fn display_rows(&self) -> (r: &[DisplayRow])
        ensures
            row_views(r@) == self.shown(),
    {
        match self.view {
            View::Games => self.games_rows.as_slice(),
            View::AllProcs => self.procs.as_slice(),
        }
    }

    /// How many rows the current view shows.
    pub fn row_len(&self) -> (n: usize)
        ensures
            n == self.shown().len(),
    {
        match self.view {
            View::Games => self.games_rows.len(),
            View::AllProcs => self.procs.len(),
        }
    }

    /// The pid of the selected row.
    pub fn selected_pid(&self) -> (r: Option<u32>)
        ensures
            r == (match self.selected_row() {
                Some(row) => Some(row.pid),
                None => None,
            }),
    {
        let rows = self.display_rows();
        if self.selected < rows.len() {
            assert(row_views(rows@)[self.selected as int] == rows@[self.selected as int]@);
            Some(rows[self.selected].pid)
        } else {
            None
        }
    }

    /// The name of the selected row.
    pub fn selected_name(&self) -> (r: Option<String>)
        ensures
            match self.selected_row() {
                Some(row) => r is Some && r->0@ == row.name,
                None => r is None,
            },
    {
        let rows = self.display_rows();
        if self.selected < rows.len() {
            assert(row_views(rows@)[self.selected as int] == rows@[self.selected as int]@);
            Some(rows[self.selected].name.clone())
        } else {
            None
        }
    }

    /// Pins the selected process, or unpins it when it is pinned.
    pub fn toggle_pin(&mut self)
        ensures
            old(self).wf() ==> final(self).wf(),
            App::same_display(*old(self), *final(self)),
            (final(self).pinned@, name_views(final(self).watch_names@)) == toggled_pins(
                old(self).pinned@,
                name_views(old(self).watch_names@),
                old(self).selected_row(),
            ),
    {
        let pid = match self.selected_pid() {
            Some(p) => p,
            None => {
                return;
            },
        };
        let name = match self.selected_name() {
            Some(n) => n,
            None => {
                return;
            },
        };
        let ghost names0 = name_views(self.watch_names@);
        if self.pinned.contains(&pid) {
            self.pinned.remove(&pid);
            self.watch_names.remove(&pid);
            assert(name_views(self.watch_names@) =~= names0.remove(pid));
        } else {
            self.pinned.insert(pid);
            self.watch_names.insert(pid, name);
            assert(name_views(self.watch_names@) =~= names0.insert(pid, name@));
        }
        assert(old(self).wf() ==> self.pinned@ =~= self.watch_names@.dom());
    }

    /// Lengthens the refresh interval by a quarter second when `up` (the
    /// monitor then refreshes less often), else shortens it by as much; the
    /// result is clamped to between a quarter second and five seconds.
    pub fn adjust_rate(&mut self, up: bool)
        ensures
            old(self).wf() ==> final(self).wf(),
            final(self).interval_ms == (if up {
                slower(old(self).interval_ms)
            } else {
                faster(old(self).interval_ms)
            }),
            final(self).view == old(self).view,
            final(self).sort == old(self).sort,
            final(self).selected == old(self).selected,
            final(self).cpu_bits == old(self).cpu_bits,
            final(self).mem_used == old(self).mem_used,
            final(self).mem_total == old(self).mem_total,
            final(self).gpu == old(self).gpu,
            final(self).game_rows() == old(self).game_rows(),
            final(self).proc_rows() == old(self).proc_rows(),
            final(self).pinned@ == old(self).pinned@,
            final(self).watch_names@ == old(self).watch_names@,
    {
        let ms = self.interval_ms;
        let next: u64 = if up {
            if ms > 4750 {
                5000
            } else {
                ms + 250
            }
        } else {
            if ms < 500 {
                250
            } else if ms > 5250 {
                5000
            } else {
                ms - 250
            }
        };
        self.interval_ms = next;
    }

    /// The refresh interval in nanoseconds.
    pub open spec fn interval_ns(&self) -> int {
        self.interval_ms * 1_000_000
    }

    /// Whether a refresh is due, `elapsed_ns` nanoseconds after the last one.
    pub fn refresh_due(&self, elapsed_ns: u128) -> (r: bool)
        ensures
            r == (elapsed_ns >= self.interval_ns()),
    {
        elapsed_ns >= (self.interval_ms as u128) * 1_000_000
    }

    /// How long to wait for a key before the next refresh is due,
    /// `elapsed_ns` nanoseconds after the last one: the rest of the
    /// interval, or nothing once it has passed.
    pub fn time_left_ns(&self, elapsed_ns: u128) -> (r: u128)
        ensures
            r == (if elapsed_ns >= self.interval_ns() {
                0
            } else {
                self.interval_ns() - elapsed_ns
            }),
    {
        let interval = (self.interval_ms as u128) * 1_000_000;
        if elapsed_ns >= interval {
            0
        } else {
            interval - elapsed_ns
        }
    }

    /// Sorts both lists by the current column.
    pub fn sort_rows(&mut self)
        ensures
            final(self).game_rows() == sorted_rows(old(self).game_rows(), old(self).sort),
            final(self).proc_rows() == sorted_rows(old(self).proc_rows(), old(self).sort),
            final(self).interval_ms == old(self).interval_ms,
            final(self).view == old(self).view,
            final(self).sort == old(self).sort,
            final(self).selected == old(self).selected,
            final(self).cpu_bits == old(self).cpu_bits,
            final(self).mem_used == old(self).mem_used,
            final(self).mem_total == old(self).mem_total,
            final(self).gpu == old(self).gpu,
            final(self).pinned@ == old(self).pinned@,
            final(self).watch_names@ == old(self).watch_names@,
    {
        let col = self.sort;
        sort_rows_by(&mut self.games_rows, col);
        sort_rows_by(&mut self.procs, col);
    }

    /// Takes in a new sample: the system figures, the game list (the
    /// detected games and the pinned processes) and the full process list,
    /// both sorted by the current column, and the selection kept on a row.
    pub fn refresh(&mut self, sample: Sample)
        ensures
            old(self).wf() ==> final(self).wf(),
            final(self).cpu_bits == sample.cpu_bits,
            final(self).mem_used == sample.mem_used,
            final(self).mem_total == sample.mem_total,
            final(self).gpu == sample.gpu,
            exists|g: Seq<RowView>|
                is_game_list(
                    g,
                    proc_views(sample.processes@),
                    old(self).pinned@,
                    old(self).watch_names@,
                ) && final(self).game_rows() == sorted_rows(g, old(self).sort),
            final(self).proc_rows() == sorted_rows(
                proc_rows_of(proc_views(sample.processes@), old(self).pinned@),
                old(self).sort,
            ),
            final(self).proc_rows().len() == sample.processes@.len(),
            forall|k: int|
                0 <= k < final(self).proc_rows().len() ==> (#[trigger] final(self).proc_rows()[k]).pinned
                    == old(self).pinned@.contains(final(self).proc_rows()[k].pid)
                    && !final(self).proc_rows()[k].steam,
            forall|i: int|
                0 <= i < sample.processes@.len() ==> has_pid(
                    final(self).proc_rows(),
                    #[trigger] sample.processes@[i].pid,
                ),
            old(self).wf() ==> forall|pid: u32|
                #[trigger] old(self).pinned@.contains(pid) ==> has_pid(final(self).game_rows(), pid),
            forall|i: int|
                0 <= i < sample.processes@.len() && looks_like_game_spec(
                    #[trigger] sample.processes@[i]@,
                ) ==> has_pid(final(self).game_rows(), sample.processes@[i].pid),
            forall|k: int|
                0 <= k < final(self).game_rows().len() ==> (#[trigger] final(self).game_rows()[k]).pinned
                    == old(self).pinned@.contains(final(self).game_rows()[k].pid)
                    && (final(self).game_rows()[k].pinned || final(self).game_rows()[k].steam),
            final(self).selected == clamp_selected(old(self).selected, final(self).shown().len()),
            final(self).interval_ms == old(self).interval_ms,
            final(self).view == old(self).view,
            final(self).sort == old(self).sort,
            final(self).pinned@ == old(self).pinned@,
            final(self).watch_names@ == old(self).watch_names@,
    {
        let Sample { cpu_bits, mem_used, mem_total, gpu, processes } = sample;
        self.cpu_bits = cpu_bits;
        self.mem_used = mem_used;
        self.mem_total = mem_total;
        self.gpu = gpu;
        let games = collect_games(&processes, &self.pinned, &self.watch_names);
        let ghost g = game_views(games@);
        let mut game_rows: Vec<DisplayRow> = Vec::new();
        let mut i: usize = 0;
        while i < games.len()
            invariant
                i <= games@.len(),
                g == game_views(games@),
                row_views(game_rows@) == g.take(i as int),
            decreases games@.len() - i,
        {
            let row = DisplayRow::from(&games[i]);
            let ghost before = game_rows@;
            game_rows.push(row);
            assert(row_views(game_rows@) =~= row_views(before).push(row@));
            assert(g.take(i + 1) =~= g.take(i as int).push(g[i as int]));
            i = i + 1;
        }
        assert(g.take(games@.len() as int) =~= g);
        let ghost pv = proc_views(processes@);
        let mut proc_rows: Vec<DisplayRow> = Vec::new();
        let mut j: usize = 0;
        while j < processes.len()
            invariant
                j <= processes@.len(),
                pv == proc_views(processes@),
                self.pinned@ == old(self).pinned@,
                row_views(proc_rows@) == proc_rows_of(pv, self.pinned@).take(j as int),
            decreases processes@.len() - j,
        {
            let p = &processes[j];
            let row = DisplayRow {
                pid: p.pid,
                name: p.name.clone(),
                cpu_bits: p.cpu_bits,
                mem_bytes: p.mem_bytes,
                pinned: self.pinned.contains(&p.pid),
                steam: false,
            };
            let ghost before = proc_rows@;
            proc_rows.push(row);
            assert(row_views(proc_rows@) =~= row_views(before).push(row@));
            assert(proc_rows_of(pv, self.pinned@).take(j + 1) =~= proc_rows_of(
                pv,
                self.pinned@,
            ).take(j as int).push(row@));
            j = j + 1;
        }
        assert(proc_rows_of(pv, self.pinned@).take(processes@.len() as int) =~= proc_rows_of(
            pv,
            self.pinned@,
        ));
        self.games_rows = game_rows;
        self.procs = proc_rows;
        self.sort_rows();
        let len = self.row_len();
        if len == 0 {
            self.selected = 0;
        } else if self.selected >= len {
            self.selected = len - 1;
        }
        proof {
            let col = self.sort;
            lemma_process_view(pv, self.pinned@, col);
            lemma_sorted_game_list(g, pv, self.pinned@, self.watch_names@, col);
            assert forall|i: int|
                0 <= i < processes@.len() implies has_pid(
                    self.proc_rows(),
                    #[trigger] processes@[i].pid,
                ) by {
                assert(pv[i] == processes@[i]@);
                assert(has_pid(sorted_rows(proc_rows_of(pv, self.pinned@), col), pv[i].pid));
            }
            assert forall|i: int|
                0 <= i < processes@.len() && looks_like_game_spec(
                    #[trigger] processes@[i]@,
                ) implies has_pid(self.game_rows(), processes@[i].pid) by {
                assert(pv[i] == processes@[i]@);
            }
        }
    }
}

/// Applies a key press to the state. `q` asks to quit (the result is then
/// `false`); Tab switches the view and goes back to the first row; Down and
/// Up move the selection; Space pins or unpins the selected process; `1` to
/// `4` pick the sort column; `+`/`=` and `-`/`_` make the refresh faster or
/// slower. Any other key changes nothing.
pub fn handle_key(app: &mut App, key: KeyInput) -> (r: bool)
    ensures
        r == (key != KeyInput::Char('q')),
        old(app).wf() ==> final(app).wf(),
        !r ==> *final(app) == *old(app),
        r ==> final(app).interval_ms == interval_for_key(key, old(app).interval_ms),
        final(app).view == view_for_key(key, old(app).view),
        final(app).sort == sort_for_key(key, old(app).sort),
        r ==> final(app).selected == selected_for_key(key, old(app).selected, old(app).shown().len()),
        final(app).cpu_bits == old(app).cpu_bits,
        final(app).mem_used == old(app).mem_used,
        final(app).mem_total == old(app).mem_total,
        final(app).gpu == old(app).gpu,
        final(app).game_rows() == old(app).game_rows(),
        final(app).proc_rows() == old(app).proc_rows(),
        key == KeyInput::Char(' ') ==> (final(app).pinned@, name_views(final(app).watch_names@))
            == toggled_pins(
            old(app).pinned@,
            name_views(old(app).watch_names@),
            old(app).selected_row(),
        ),
        key != KeyInput::Char(' ') ==> final(app).pinned@ == old(app).pinned@
            && final(app).watch_names@ == old(app).watch_names@,
{
    match key {
        KeyInput::Char('q') => {
            return false;
        },
        KeyInput::Tab => {
            app.view = match app.view {
                View::Games => View::AllProcs,
                View::AllProcs => View::Games,
            };
            app.selected = 0;
        },
        KeyInput::Down => {
            let len = app.row_len();
            if len > 0 && app.selected < len - 1 {
                app.selected = app.selected + 1;
            }
        },
        KeyInput::Up => {
            app.selected = app.selected.saturating_sub(1);
        },
        KeyInput::Char(' ') => app.toggle_pin(),
        KeyInput::Char('1') => app.sort = SortCol::Cpu,
        KeyInput::Char('2') => app.sort = SortCol::Mem,
        KeyInput::Char('3') => app.sort = SortCol::Gpu,
        KeyInput::Char('4') => app.sort = SortCol::Name,
        KeyInput::Char('+') | KeyInput::Char('=') => app.adjust_rate(false),
        KeyInput::Char('-') | KeyInput::Char('_') => app.adjust_rate(true),
        _ => {},
    }
    true
}

// ---------------------------------------------------------------------------
// Laws
// ---------------------------------------------------------------------------

/// Switching the view twice comes back to the view one started from.
pub proof fn lemma_tab_twice(v: View)
    ensures
        view_for_key(KeyInput::Tab, view_for_key(KeyInput::Tab, v)) == v,
{
}

/// A rate step keeps the interval between a quarter second and five
/// seconds, on the quarter-second step; a step one way and then the other
/// comes back to the interval one started from, unless the first step was
/// stopped by a bound.
pub proof fn lemma_rate_steps(ms: u64)
    requires
        interval_ok(ms),
    ensures
        interval_ok(faster(ms)),
        interval_ok(slower(ms)),
        ms > 250 ==> slower(faster(ms)) == ms,
        ms < 5000 ==> faster(slower(ms)) == ms,
{
}

/// Pinning the same row twice leaves the pins as they were, when the row's
/// process was not pinned, or was pinned under the row's name.
pub proof fn lemma_pin_twice(pinned: Set<u32>, names: Map<u32, Seq<char>>, row: RowView)
    requires
        pinned == names.dom(),
        pinned.contains(row.pid) ==> names[row.pid] == row.name,
    ensures
        ({
            let once = toggled_pins(pinned, names, Some(row));
            toggled_pins(once.0, once.1, Some(row))
        }) == (pinned, names),
{
    let once = toggled_pins(pinned, names, Some(row));
    if pinned.contains(row.pid) {
        assert(once.0.insert(row.pid) =~= pinned);
        assert(once.1.insert(row.pid, row.name) =~= names);
    } else {
        assert(once.0.remove(row.pid) =~= pinned);
        assert(once.1.remove(row.pid) =~= names);
    }
}

proof fn lemma_sorted_game_list(
    g: Seq<RowView>,
    procs: Seq<ProcView>,
    pinned: Set<u32>,
    watch: Map<u32, String>,
    col: SortCol,
)
    requires
        is_game_list(g, procs, pinned, watch),
    ensures
        forall|pid: u32|
            #[trigger] pinned.contains(pid) && watch.contains_key(pid) ==> has_pid(
                sorted_rows(g, col),
                pid,
            ),
        forall|i: int|
            0 <= i < procs.len() && looks_like_game_spec(#[trigger] procs[i]) ==> has_pid(
                sorted_rows(g, col),
                procs[i].pid,
            ),
        forall|k: int|
            0 <= k < sorted_rows(g, col).len() ==> (#[trigger] sorted_rows(g, col)[k]).pinned
                == pinned.contains(sorted_rows(g, col)[k].pid) && (sorted_rows(g, col)[k].pinned
                || sorted_rows(g, col)[k].steam),
{
    let rows = sorted_rows(g, col);
    crate::games::lemma_game_list_members(g, procs, pinned, watch);
    crate::rows::lemma_sorted_rows_same_members(g, col);
    assert forall|pid: u32| has_pid(g, pid) implies has_pid(rows, pid) by {
        let k = choose|k: int| 0 <= k < g.len() && (#[trigger] g[k]).pid == pid;
        assert(g.contains(g[k]));
        assert(rows.contains(g[k]));
        let j = choose|j: int| 0 <= j < rows.len() && rows[j] == g[k];
        assert(rows[j].pid == pid);
    }
    assert forall|k: int| 0 <= k < rows.len() implies (#[trigger] rows[k]).pinned == pinned.contains(
        rows[k].pid,
    ) && (rows[k].pinned || rows[k].steam) by {
        assert(rows.contains(rows[k]));
        assert(g.contains(rows[k]));
        let j = choose|j: int| 0 <= j < g.len() && g[j] == rows[k];
        assert(g[j] == rows[k]);
    }
    assert forall|pid: u32| #[trigger] pinned.contains(pid) && watch.contains_key(pid) implies has_pid(
        rows,
        pid,
    ) by {
        assert(has_pid(g, pid));
    }
    assert forall|i: int|
        0 <= i < procs.len() && looks_like_game_spec(#[trigger] procs[i]) implies has_pid(
            rows,
            procs[i].pid,
        ) by {
        assert(has_pid(g, procs[i].pid));
    }
}

/// After a sample, the games view holds an entry for every pinned process
/// and for every running process that looks like a Steam game, and for
/// nothing else: each entry is pinned or detected, and its `pinned` mark
/// tells whether its pid is pinned. Its rows are in the order of the sort
/// column.
pub proof fn lemma_games_view(
    g: Seq<RowView>,
    procs: Seq<ProcView>,
    pinned: Set<u32>,
    watch: Map<u32, String>,
    col: SortCol,
)
    requires
        is_game_list(g, procs, pinned, watch),
        pinned == watch.dom(),
    ensures
        forall|pid: u32| #[trigger] pinned.contains(pid) ==> has_pid(sorted_rows(g, col), pid),
        forall|i: int|
            0 <= i < procs.len() && looks_like_game_spec(#[trigger] procs[i]) ==> has_pid(
                sorted_rows(g, col),
                procs[i].pid,
            ),
        forall|k: int|
            0 <= k < sorted_rows(g, col).len() ==> (#[trigger] sorted_rows(g, col)[k]).pinned
                == pinned.contains(sorted_rows(g, col)[k].pid) && (sorted_rows(g, col)[k].pinned
                || sorted_rows(g, col)[k].steam),
        crate::rows::is_sorted_by(sorted_rows(g, col), col),
{
    let rows = sorted_rows(g, col);
    crate::games::lemma_game_list_members(g, procs, pinned, watch);
    crate::rows::lemma_sorted_rows_same_members(g, col);
    crate::rows::lemma_sorted_rows_in_order(g, col);
    assert forall|pid: u32| has_pid(g, pid) implies has_pid(rows, pid) by {
        let k = choose|k: int| 0 <= k < g.len() && (#[trigger] g[k]).pid == pid;
        assert(g.contains(g[k]));
        assert(rows.contains(g[k]));
        let j = choose|j: int| 0 <= j < rows.len() && rows[j] == g[k];
        assert(rows[j].pid == pid);
    }
    assert forall|k: int| 0 <= k < rows.len() implies (#[trigger] rows[k]).pinned == pinned.contains(
        rows[k].pid,
    ) && (rows[k].pinned || rows[k].steam) by {
        assert(rows.contains(rows[k]));
        assert(g.contains(rows[k]));
        let j = choose|j: int| 0 <= j < g.len() && g[j] == rows[k];
        assert(g[j] == rows[k]);
    }
    assert forall|pid: u32| #[trigger] pinned.contains(pid) implies has_pid(rows, pid) by {
        assert(watch.contains_key(pid));
        assert(has_pid(g, pid));
    }
    assert forall|i: int|
        0 <= i < procs.len() && looks_like_game_spec(#[trigger] procs[i]) implies has_pid(
            rows,
            procs[i].pid,
        ) by {
        assert(has_pid(g, procs[i].pid));
    }
}

/// After a sample, the all-processes view holds one row per process, and
/// nothing else: each row carries a process's pid, name and figures, its
/// `pinned` mark tells whether the pid is pinned, and it is never marked as a
/// detected game.
pub proof fn lemma_process_view(procs: Seq<ProcView>, pinned: Set<u32>, col: SortCol)
    ensures
        sorted_rows(proc_rows_of(procs, pinned), col).len() == procs.len(),
        forall|k: int|
            0 <= k < sorted_rows(proc_rows_of(procs, pinned), col).len() ==> {
                let r = #[trigger] sorted_rows(proc_rows_of(procs, pinned), col)[k];
                &&& r.pinned == pinned.contains(r.pid)
                &&& !r.steam
                &&& exists|i: int|
                    0 <= i < procs.len() && (#[trigger] procs[i]).pid == r.pid && procs[i].name
                        == r.name && procs[i].cpu_bits == r.cpu_bits && procs[i].mem_bytes
                        == r.mem_bytes
            },
        forall|i: int|
            0 <= i < procs.len() ==> has_pid(
                sorted_rows(proc_rows_of(procs, pinned), col),
                #[trigger] procs[i].pid,
            ),
{
    let g = proc_rows_of(procs, pinned);
    let rows = sorted_rows(g, col);
    crate::rows::lemma_sorted_rows_permutes(g, col);
    crate::rows::lemma_sorted_rows_same_members(g, col);
    assert forall|k: int| 0 <= k < rows.len() implies {
        let r = #[trigger] rows[k];
        &&& r.pinned == pinned.contains(r.pid)
        &&& !r.steam
        &&& exists|i: int|
            0 <= i < procs.len() && (#[trigger] procs[i]).pid == r.pid && procs[i].name == r.name
                && procs[i].cpu_bits == r.cpu_bits && procs[i].mem_bytes == r.mem_bytes
    } by {
        assert(rows.contains(rows[k]));
        assert(g.contains(rows[k]));
        let j = choose|j: int| 0 <= j < g.len() && g[j] == rows[k];
        assert(procs[j].pid == rows[k].pid);
    }
    assert forall|i: int| 0 <= i < procs.len() implies has_pid(rows, #[trigger] procs[i].pid) by {
        assert(g[i].pid == procs[i].pid);
        assert(g.contains(g[i]));
        assert(rows.contains(g[i]));
        let j = choose|j: int| 0 <= j < rows.len() && rows[j] == g[i];
        assert(rows[j].pid == procs[i].pid);
    }
}

/// What the keys do: `+` and `=` never lengthen the interval and shorten
/// it unless it is at its shortest; `-` and `_` never shorten it and lengthen
/// it unless it is at its longest; other keys keep it. `1` to `4` pick CPU,
/// memory, GPU and name; other keys keep the column. Tab always changes the
/// view; other keys keep it.
pub proof fn lemma_key_bindings(key: KeyInput, ms: u64, col: SortCol, v: View)
    requires
        interval_ok(ms),
    ensures
        (key == KeyInput::Char('+') || key == KeyInput::Char('=')) ==> interval_for_key(key, ms)
            <= ms && (ms > 250 ==> interval_for_key(key, ms) < ms),
        (key == KeyInput::Char('-') || key == KeyInput::Char('_')) ==> interval_for_key(key, ms)
            >= ms && (ms < 5000 ==> interval_for_key(key, ms) > ms),
        !(key == KeyInput::Char('+') || key == KeyInput::Char('=') || key == KeyInput::Char('-')
            || key == KeyInput::Char('_')) ==> interval_for_key(key, ms) == ms,
        interval_ok(interval_for_key(key, ms)),
        key == KeyInput::Char('1') ==> sort_for_key(key, col) == SortCol::Cpu,
        key == KeyInput::Char('2') ==> sort_for_key(key, col) == SortCol::Mem,
        key == KeyInput::Char('3') ==> sort_for_key(key, col) == SortCol::Gpu,
        key == KeyInput::Char('4') ==> sort_for_key(key, col) == SortCol::Name,
        !(key == KeyInput::Char('1') || key == KeyInput::Char('2') || key == KeyInput::Char('3')
            || key == KeyInput::Char('4')) ==> sort_for_key(key, col) == col,
        key == KeyInput::Tab ==> view_for_key(key, v) != v,
        key != KeyInput::Tab ==> view_for_key(key, v) == v,
{
}

/// Moving the selection: Down goes one row further when there is a row
/// below and stays otherwise; Up goes one row back and stays on the first
/// row; Tab goes to the first row. A selection on a row (or at the top of an
/// empty list) stays so.
pub proof fn lemma_selection_moves(key: KeyInput, sel: usize, len: nat)
    requires
        sel == 0 || sel < len,
        len <= usize::MAX,
    ensures
        key == KeyInput::Down && sel + 1 < len ==> selected_for_key(key, sel, len) == sel + 1,
        key == KeyInput::Down && sel + 1 >= len ==> selected_for_key(key, sel, len) == sel,
        key == KeyInput::Up && sel > 0 ==> selected_for_key(key, sel, len) == sel - 1,
        key == KeyInput::Up && sel == 0 ==> selected_for_key(key, sel, len) == 0,
        key == KeyInput::Tab ==> selected_for_key(key, sel, len) == 0,
        selected_for_key(key, sel, len) == 0 || selected_for_key(key, sel, len) < len,
{
}

/// After a refresh the selection is on a row, or at 0 when the list is
/// empty; a selection that was on a row of the new list is kept.
pub proof fn lemma_selection_clamped(sel: usize, len: nat)
    requires
        len <= usize::MAX,
    ensures
        len == 0 ==> clamp_selected(sel, len) == 0,
        len > 0 ==> clamp_selected(sel, len) < len,
        sel < len ==> clamp_selected(sel, len) == sel,
        sel >= len && len > 0 ==> clamp_selected(sel, len) == len - 1,
{
}

/// Pinning flips the selected row's pid: pinned after exactly when it was
/// not pinned before, remembered under the row's name when it becomes pinned
/// and forgotten when it is unpinned; every other pid keeps its pin and its
/// name. Without a selected row nothing changes.
pub proof fn lemma_toggle_flips(pinned: Set<u32>, names: Map<u32, Seq<char>>, row: RowView, other: u32)
    ensures
        ({
            let after = toggled_pins(pinned, names, Some(row));
            &&& after.0.contains(row.pid) == !pinned.contains(row.pid)
            &&& !pinned.contains(row.pid) ==> after.1.contains_key(row.pid) && after.1[row.pid]
                == row.name
            &&& pinned.contains(row.pid) ==> !after.1.contains_key(row.pid)
            &&& other != row.pid ==> (after.0.contains(other) == pinned.contains(other))
            &&& other != row.pid ==> (after.1.contains_key(other) == names.contains_key(other))
            &&& other != row.pid && names.contains_key(other) ==> after.1[other] == names[other]
        }),
        toggled_pins(pinned, names, None) == (pinned, names),
{
}

} // verus!
