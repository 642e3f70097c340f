//! The rows of the process table, the columns they can be sorted by, and
//! the stable sort that orders them.

use vstd::prelude::*;
use vstd::view::View as _;
use crate::games::{Game, RowView};
use crate::text::{
    ascii_lowered, is_ascii_text, lemma_text_less_irreflexive, lemma_text_less_transitive, lowercase, text_before, text_less,
    to_lower,
};

verus! {

broadcast use vstd::seq_lib::group_to_multiset_ensures;

/// Which list the table shows: the game list or every process.
#[derive(Clone, Copy, PartialEq, Eq, Debug, Structural)]
pub enum View {
    Games,
    AllProcs,
}

/// The column the rows are sorted by.
#[derive(Clone, Copy, PartialEq, Eq, Debug, Structural)]
pub enum SortCol {
    Cpu,
    Mem,
    Gpu,
    Name,
}

pub open spec fn sort_label(col: SortCol) -> Seq<char> {
    match col {
        SortCol::Cpu => "cpu"@,
        SortCol::Mem => "mem"@,
        SortCol::Gpu => "gpu"@,
        SortCol::Name => "name"@,
    }
}

impl SortCol {
    /// The column's name as the header shows it.
    pub fn label(self) -> (r: &'static str)
        ensures
            r@ == sort_label(self),
    {
        match self {
            SortCol::Cpu => "cpu",
            SortCol::Mem => "mem",
            SortCol::Gpu => "gpu",
            SortCol::Name => "name",
        }
    }
}

/// A row of the table. `cpu_bits` is the bit pattern of the process's CPU
/// usage, an `f32`.
#[derive(Debug)]
pub struct DisplayRow {
    pub pid: u32,
    pub name: String,
    pub cpu_bits: u32,
    pub mem_bytes: u64,
    pub pinned: bool,
    pub steam: bool,
}

impl vstd::view::View for DisplayRow {
    type V = RowView;

    open spec fn view(&self) -> RowView {
        RowView {
            pid: self.pid,
            name: self.name@,
            cpu_bits: self.cpu_bits,
            mem_bytes: self.mem_bytes,
            pinned: self.pinned,
            steam: self.steam,
        }
    }
}

pub open spec fn row_views(s: Seq<DisplayRow>) -> Seq<RowView> {
    s.map_values(|r: DisplayRow| r@)
}

/// The marker in front of a row's name.
pub open spec fn marker_of(r: RowView) -> char {
    if r.pinned {
        '+'
    } else if r.steam {
        '*'
    } else {
        ' '
    }
}

/// The marker tells pinned rows (`+`) from detected games that are not
/// pinned (`*`) and from any other row (a space).
pub proof fn lemma_markers(r: RowView)
    ensures
        marker_of(r) == '+' <==> r.pinned,
        marker_of(r) == '*' <==> (!r.pinned && r.steam),
        marker_of(r) == ' ' <==> (!r.pinned && !r.steam),
{
}

impl DisplayRow {
    /// `+` for a pinned process, `*` for an auto-detected Steam game, a space
    /// for any other process.
    pub fn marker(&self) -> (c: char)
        ensures
            c == marker_of(self@),
    {
        if self.pinned {
            '+'
        } else if self.steam {
            '*'
        } else {
            ' '
        }
    }
}

impl From<&Game> for DisplayRow {
    fn from(g: &Game) -> (r: DisplayRow) {
        DisplayRow {
            pid: g.pid,
            name: g.name.clone(),
            cpu_bits: g.cpu_bits,
            mem_bytes: g.mem_bytes,
            pinned: g.pinned,
            steam: g.steam,
        }
    }
}

impl vstd::std_specs::convert::FromSpecImpl<&Game> for DisplayRow {
    open spec fn obeys_from_spec() -> bool {
        true
    }

    open spec fn from_spec(g: &Game) -> DisplayRow {
        DisplayRow {
            pid: g.pid,
            name: g.name,
            cpu_bits: g.cpu_bits,
            mem_bytes: g.mem_bytes,
            pinned: g.pinned,
            steam: g.steam,
        }
    }
}

// ---------------------------------------------------------------------------
// Order
// ---------------------------------------------------------------------------

/// The order key of an `f32` given by its bit pattern: the magnitude bits,
/// negated when the sign bit is set. Keys compare as the numbers do for every
/// value that is not NaN: negative values below positive ones, larger
/// magnitudes further out, infinities at the ends, and `-0.0` equal to
/// `0.0`. (A NaN gets a key beyond the infinity of its sign.)
pub open spec fn cpu_key(bits: u32) -> int {
    if bits >= 0x8000_0000 {
        -(bits - 0x8000_0000)
    } else {
        bits as int
    }
}

/// Computes [`cpu_key`].
pub fn cpu_order_key(bits: u32) -> (k: i64)
    ensures
        k == cpu_key(bits),
{
    if bits >= 0x8000_0000 {
        -((bits - 0x8000_0000) as i64)
    } else {
        bits as i64
    }
}

/// `a` goes strictly before `b` when sorting by `col`: higher CPU use first
/// (for the CPU column and, as the table has no per-process GPU figure, for
/// the GPU column too), higher memory use first, or names in ascending order
/// without regard to case. CPU use is compared by the value of the `f32`
/// that its bits hold, through [`cpu_key`].
pub open spec fn row_before(a: RowView, b: RowView, col: SortCol) -> bool {
    match col {
        SortCol::Cpu => cpu_key(a.cpu_bits) > cpu_key(b.cpu_bits),
        SortCol::Gpu => cpu_key(a.cpu_bits) > cpu_key(b.cpu_bits),
        SortCol::Mem => a.mem_bytes > b.mem_bytes,
        SortCol::Name => text_less(lowercase(a.name), lowercase(b.name)),
    }
}

/// Whether row `a` goes strictly before row `b`.
pub fn row_goes_before(a: &DisplayRow, b: &DisplayRow, col: SortCol) -> (r: bool)
    ensures
        r == row_before(a@, b@, col),
        col == SortCol::Mem ==> r == (a.mem_bytes > b.mem_bytes),
        col == SortCol::Cpu || col == SortCol::Gpu ==> r == (cpu_key(a.cpu_bits) > cpu_key(
            b.cpu_bits,
        )),
        col == SortCol::Name ==> r == text_less(lowercase(a.name@), lowercase(b.name@)),
        col == SortCol::Name && is_ascii_text(a.name@) && is_ascii_text(b.name@) ==> r
            == text_less(ascii_lowered(a.name@), ascii_lowered(b.name@)),
{
    match col {
        SortCol::Cpu => cpu_order_key(a.cpu_bits) > cpu_order_key(b.cpu_bits),
        SortCol::Gpu => cpu_order_key(a.cpu_bits) > cpu_order_key(b.cpu_bits),
        SortCol::Mem => a.mem_bytes > b.mem_bytes,
        SortCol::Name => {
            let la = to_lower(a.name.as_str());
            let lb = to_lower(b.name.as_str());
            text_before(la.as_str(), lb.as_str())
        },
    }
}

pub proof fn lemma_row_before_irreflexive(a: RowView, col: SortCol)
    ensures
        !row_before(a, a, col),
{
    lemma_text_less_irreflexive(lowercase(a.name));
}

pub proof fn lemma_row_before_transitive(a: RowView, b: RowView, c: RowView, col: SortCol)
    requires
        row_before(a, b, col),
        row_before(b, c, col),
    ensures
        row_before(a, c, col),
{
    if col == SortCol::Name {
        lemma_text_less_transitive(lowercase(a.name), lowercase(b.name), lowercase(c.name));
    }
}

/// Where `x` goes into `p`: before the first row that it goes strictly
/// before, so that it follows every row it ties with.
pub open spec fn insert_pos(p: Seq<RowView>, x: RowView, col: SortCol) -> nat
    decreases p.len(),
{
    if p.len() == 0 {
        0
    } else if row_before(x, p[0], col) {
        0
    } else {
        1 + insert_pos(p.drop_first(), x, col)
    }
}

/// `p` with `x` inserted at its place.
pub open spec fn insert_sorted(p: Seq<RowView>, x: RowView, col: SortCol) -> Seq<RowView> {
    p.insert(insert_pos(p, x, col) as int, x)
}

/// The rows in the order of a stable sort by `col`: each row, taken in turn,
/// is placed after every row already placed that does not go strictly after
/// it.
pub open spec fn sorted_rows(s: Seq<RowView>, col: SortCol) -> Seq<RowView>
    decreases s.len(),
{
    if s.len() == 0 {
        s
    } else {
        insert_sorted(sorted_rows(s.drop_last(), col), s.last(), col)
    }
}

/// No row goes strictly before a row that precedes it.
pub open spec fn is_sorted_by(s: Seq<RowView>, col: SortCol) -> bool {
    forall|i: int, j: int| 0 <= i < j < s.len() ==> !row_before(#[trigger] s[j], #[trigger] s[i], col)
}

proof fn lemma_insert_pos_bound(p: Seq<RowView>, x: RowView, col: SortCol)
    ensures
        insert_pos(p, x, col) <= p.len(),
        forall|j: int| 0 <= j < insert_pos(p, x, col) ==> !row_before(x, #[trigger] p[j], col),
        insert_pos(p, x, col) < p.len() ==> row_before(x, p[insert_pos(p, x, col) as int], col),
    decreases p.len(),
{
    if p.len() > 0 && !row_before(x, p[0], col) {
        lemma_insert_pos_bound(p.drop_first(), x, col);
        assert forall|j: int| 0 <= j < insert_pos(p, x, col) implies !row_before(x, #[trigger] p[j], col) by {
            if j > 0 {
                assert(p[j] == p.drop_first()[j - 1]);
            }
        }
    }
}

proof fn lemma_insert_pos_unique(p: Seq<RowView>, x: RowView, col: SortCol, k: int)
    requires
        0 <= k <= p.len(),
        forall|j: int| 0 <= j < k ==> !row_before(x, #[trigger] p[j], col),
        k == p.len() || row_before(x, p[k], col),
    ensures
        insert_pos(p, x, col) == k,
    decreases k,
{
    if k > 0 {
        assert(!row_before(x, p[0], col));
        assert forall|j: int| 0 <= j < k - 1 implies !row_before(x, #[trigger] p.drop_first()[j], col) by {
            assert(p.drop_first()[j] == p[j + 1]);
        }
        lemma_insert_pos_unique(p.drop_first(), x, col, k - 1);
    }
}

proof fn lemma_insert_keeps_sorted(p: Seq<RowView>, x: RowView, col: SortCol)
    requires
        is_sorted_by(p, col),
    ensures
        is_sorted_by(insert_sorted(p, x, col), col),
{
    lemma_insert_pos_bound(p, x, col);
    let k = insert_pos(p, x, col) as int;
    let r = insert_sorted(p, x, col);
    assert forall|i: int, j: int| 0 <= i < j < r.len() implies !row_before(#[trigger] r[j], #[trigger] r[i], col) by {
        if i < k && j < k {
            assert(r[i] == p[i] && r[j] == p[j]);
        } else if i < k && j == k {
            assert(r[i] == p[i] && r[j] == x);
        } else if i < k {
            assert(r[i] == p[i] && r[j] == p[j - 1]);
        } else if i == k {
            assert(r[i] == x && r[j] == p[j - 1]);
            if row_before(p[j - 1], x, col) {
                lemma_row_before_transitive(p[j - 1], x, p[k], col);
                if j - 1 == k {
                    lemma_row_before_irreflexive(p[k], col);
                }
            }
        } else {
            assert(r[i] == p[i - 1] && r[j] == p[j - 1]);
        }
    }
}

/// The sorted rows are in order.
pub proof fn lemma_sorted_rows_in_order(s: Seq<RowView>, col: SortCol)
    ensures
        is_sorted_by(sorted_rows(s, col), col),
    decreases s.len(),
{
    if s.len() > 0 {
        lemma_sorted_rows_in_order(s.drop_last(), col);
        lemma_insert_keeps_sorted(sorted_rows(s.drop_last(), col), s.last(), col);
    }
}

/// Sorting neither drops nor adds a row: the sorted rows are a permutation
/// of the rows.
pub proof fn lemma_sorted_rows_permutes(s: Seq<RowView>, col: SortCol)
    ensures
        sorted_rows(s, col).to_multiset() == s.to_multiset(),
        sorted_rows(s, col).len() == s.len(),
    decreases s.len(),
{
    if s.len() > 0 {
        lemma_sorted_rows_permutes(s.drop_last(), col);
        let p = sorted_rows(s.drop_last(), col);
        lemma_insert_pos_bound(p, s.last(), col);
        assert(s.drop_last().push(s.last()) =~= s);
    }
}

/// A row is among the sorted rows exactly when it is among the rows.
pub proof fn lemma_sorted_rows_same_members(s: Seq<RowView>, col: SortCol)
    ensures
        forall|x: RowView| #[trigger] sorted_rows(s, col).contains(x) <==> s.contains(x),
{
    lemma_sorted_rows_permutes(s, col);
    assert forall|x: RowView| #[trigger] sorted_rows(s, col).contains(x) <==> s.contains(x) by {
        s.to_multiset_ensures();
        sorted_rows(s, col).to_multiset_ensures();
        assert(s.to_multiset().count(x) == sorted_rows(s, col).to_multiset().count(x));
    }
}

/// Rows already in order are left as they are.
pub proof fn lemma_sorted_rows_keeps_order(s: Seq<RowView>, col: SortCol)
    requires
        is_sorted_by(s, col),
    ensures
        sorted_rows(s, col) == s,
    decreases s.len(),
{
    if s.len() > 0 {
        let p = s.drop_last();
        assert(is_sorted_by(p, col)) by {
            assert forall|i: int, j: int| 0 <= i < j < p.len() implies !row_before(#[trigger] p[j], #[trigger] p[i], col) by {
                assert(p[i] == s[i] && p[j] == s[j]);
            }
        }
        lemma_sorted_rows_keeps_order(p, col);
        assert forall|j: int| 0 <= j < p.len() implies !row_before(s.last(), #[trigger] p[j], col) by {
            assert(p[j] == s[j]);
        }
        lemma_insert_pos_unique(p, s.last(), col, p.len() as int);
        assert(p.insert(p.len() as int, s.last()) =~= s);
    }
}

/// Sorting twice gives what sorting once gives.
pub proof fn lemma_sort_idempotent(s: Seq<RowView>, col: SortCol)
    ensures
        sorted_rows(sorted_rows(s, col), col) == sorted_rows(s, col),
{
    lemma_sorted_rows_in_order(s, col);
    lemma_sorted_rows_keeps_order(sorted_rows(s, col), col);
}

/// `a` and `b` have the same sort key for `col`: neither goes before the
/// other.
pub open spec fn same_key(a: RowView, b: RowView, col: SortCol) -> bool {
    match col {
        SortCol::Cpu => cpu_key(a.cpu_bits) == cpu_key(b.cpu_bits),
        SortCol::Gpu => cpu_key(a.cpu_bits) == cpu_key(b.cpu_bits),
        SortCol::Mem => a.mem_bytes == b.mem_bytes,
        SortCol::Name => lowercase(a.name) == lowercase(b.name),
    }
}

/// Two rows tie, neither going before the other, exactly when they have the
/// same sort key.
pub proof fn lemma_ties_are_same_key(a: RowView, b: RowView, col: SortCol)
    ensures
        (!row_before(a, b, col) && !row_before(b, a, col)) == same_key(a, b, col),
{
    crate::text::lemma_text_less_total(lowercase(a.name), lowercase(b.name));
    lemma_text_less_irreflexive(lowercase(a.name));
}

proof fn lemma_filter_none(s: Seq<RowView>, pred: spec_fn(RowView) -> bool)
    requires
        forall|i: int| 0 <= i < s.len() ==> !pred(#[trigger] s[i]),
    ensures
        s.filter(pred) == Seq::<RowView>::empty(),
    decreases s.len(),
{
    reveal(Seq::filter);
    if s.len() > 0 {
        assert forall|i: int| 0 <= i < s.drop_last().len() implies !pred(#[trigger] s.drop_last()[i]) by {
            assert(s.drop_last()[i] == s[i]);
        }
        lemma_filter_none(s.drop_last(), pred);
    }
}

/// The sort is stable: the rows that share a sort key keep, among
/// themselves, the order they had.
pub proof fn lemma_sort_is_stable(s: Seq<RowView>, col: SortCol, key: RowView)
    ensures
        sorted_rows(s, col).filter(|r: RowView| same_key(r, key, col)) == s.filter(
            |r: RowView| same_key(r, key, col),
        ),
    decreases s.len(),
{
    let pred = |r: RowView| same_key(r, key, col);
    if s.len() > 0 {
        let x = s.last();
        let prev = s.drop_last();
        let p = sorted_rows(prev, col);
        lemma_sort_is_stable(prev, col, key);
        lemma_sorted_rows_in_order(prev, col);
        lemma_insert_pos_bound(p, x, col);
        let k = insert_pos(p, x, col) as int;
        assert(p =~= p.take(k) + p.skip(k));
        assert(p.insert(k, x) =~= p.take(k).push(x) + p.skip(k));
        assert(s =~= prev.push(x));
        Seq::filter_distributes_over_add(p.take(k), p.skip(k), pred);
        Seq::filter_distributes_over_add(p.take(k).push(x), p.skip(k), pred);
        p.take(k).lemma_filter_push(x, pred);
        prev.lemma_filter_push(x, pred);
        if pred(x) {
            // No row from the insertion point on shares x's key: x goes before
            // the row at the insertion point, and the rows are in order.
            assert forall|i: int| 0 <= i < p.skip(k).len() implies !pred(#[trigger] p.skip(k)[i]) by {
                let m = k + i;
                assert(p.skip(k)[i] == p[m]);
                if pred(p[m]) {
                    assert(row_before(p[m], p[k], col));
                    if m == k {
                        lemma_row_before_irreflexive(p[k], col);
                    }
                }
            }
            lemma_filter_none(p.skip(k), pred);
            assert(p.take(k).filter(pred) + Seq::<RowView>::empty() =~= p.take(k).filter(pred));
            assert(p.take(k).filter(pred).push(x) + Seq::<RowView>::empty() =~= p.take(k).filter(
                pred,
            ).push(x));
        }
    }
}

/// The order key agrees with the bits' numbers: a non-negative value's key
/// is its bit pattern, a negative value's key is at most zero and falls as its
/// magnitude grows, and the two zeros have the same key.
pub proof fn lemma_cpu_key_order(a: u32, b: u32)
    ensures
        a < 0x8000_0000 ==> cpu_key(a) == a,
        a >= 0x8000_0000 ==> cpu_key(a) <= 0,
        a >= 0x8000_0000 && b >= 0x8000_0000 ==> (cpu_key(a) < cpu_key(b) <==> a > b),
        a < 0x8000_0000 && b < 0x8000_0000 ==> (cpu_key(a) < cpu_key(b) <==> a < b),
        a >= 0x8000_0000 && b < 0x8000_0000 ==> cpu_key(a) <= cpu_key(b),
        cpu_key(0x8000_0000) == cpu_key(0),
{
}

/// In rows sorted by a column, the column's figures never rise from a row to
/// a later one (CPU use by its value, memory by its bytes), and names never
/// fall (compared lower-cased).
pub proof fn lemma_sorted_rows_by_column(s: Seq<RowView>, col: SortCol)
    ensures
        forall|i: int, j: int|
            0 <= i < j < sorted_rows(s, col).len() ==> {
                let a = #[trigger] sorted_rows(s, col)[i];
                let b = #[trigger] sorted_rows(s, col)[j];
                &&& col == SortCol::Mem ==> a.mem_bytes >= b.mem_bytes
                &&& (col == SortCol::Cpu || col == SortCol::Gpu) ==> cpu_key(a.cpu_bits) >= cpu_key(
                    b.cpu_bits,
                )
                &&& col == SortCol::Name ==> !text_less(lowercase(b.name), lowercase(a.name))
            },
{
    lemma_sorted_rows_in_order(s, col);
}

/// Sorts the rows by `col`, keeping rows that tie in the order they had.
pub fn sort_rows_by(rows: &mut Vec<DisplayRow>, col: SortCol)
    ensures
        row_views(final(rows)@) == sorted_rows(row_views(old(rows)@), col),
        row_views(final(rows)@).to_multiset() == row_views(old(rows)@).to_multiset(),
        forall|i: int, j: int|
            0 <= i < j < final(rows)@.len() ==> {
                let a = #[trigger] final(rows)@[i];
                let b = #[trigger] final(rows)@[j];
                &&& col == SortCol::Mem ==> a.mem_bytes >= b.mem_bytes
                &&& (col == SortCol::Cpu || col == SortCol::Gpu) ==> cpu_key(a.cpu_bits) >= cpu_key(
                    b.cpu_bits,
                )
                &&& col == SortCol::Name ==> !text_less(lowercase(b.name@), lowercase(a.name@))
            },
{
    let mut input: Vec<DisplayRow> = Vec::new();
    std::mem::swap(rows, &mut input);
    let ghost orig = row_views(input@);
    assert(orig.skip(0) =~= orig);
    assert(orig.take(0) =~= Seq::<RowView>::empty());
    assert(row_views(rows@) =~= Seq::<RowView>::empty());
    let ghost mut done: int = 0;
    while input.len() > 0
        invariant
            0 <= done <= orig.len(),
            row_views(input@) == orig.skip(done),
            row_views(rows@) == sorted_rows(orig.take(done), col),
        decreases input@.len(),
    {
        let ghost pre = input@;
        let x = input.remove(0);
        proof {
            assert(row_views(pre).len() == pre.len());
            assert(row_views(pre)[0] == pre[0]@);
            assert(x@ == orig[done]);
            assert(orig.skip(done + 1) =~= orig.skip(done).drop_first());
            assert(row_views(input@) =~= orig.skip(done + 1));
            assert(orig.take(done + 1).drop_last() =~= orig.take(done));
            assert(orig.take(done + 1).last() == x@);
        }
        let mut k: usize = 0;
        while k < rows.len() && !row_goes_before(&x, &rows[k], col)
            invariant
                k <= rows@.len(),
                forall|j: int| 0 <= j < k ==> !row_before(x@, #[trigger] row_views(rows@)[j], col),
            decreases rows@.len() - k,
        {
            k = k + 1;
        }
        proof {
            lemma_insert_pos_unique(row_views(rows@), x@, col, k as int);
        }
        let ghost before = rows@;
        rows.insert(k, x);
        proof {
            assert(row_views(rows@) =~= row_views(before).insert(k as int, x@));
            done = done + 1;
        }
    }
    proof {
        assert(orig.skip(done).len() == 0);
        assert(orig.take(done) =~= orig);
        lemma_sorted_rows_permutes(orig, col);
        lemma_sorted_rows_by_column(orig, col);
        let v = row_views(rows@);
        assert forall|i: int, j: int| 0 <= i < j < rows@.len() implies {
            let a = #[trigger] rows@[i];
            let b = #[trigger] rows@[j];
            &&& col == SortCol::Mem ==> a.mem_bytes >= b.mem_bytes
            &&& (col == SortCol::Cpu || col == SortCol::Gpu) ==> cpu_key(a.cpu_bits) >= cpu_key(
                b.cpu_bits,
            )
            &&& col == SortCol::Name ==> !text_less(lowercase(b.name@), lowercase(a.name@))
        } by {
            assert(v[i] == rows@[i]@ && v[j] == rows@[j]@);
        }
    }
}

} // verus!
