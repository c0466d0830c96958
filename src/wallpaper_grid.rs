//! The grid the catalog is shown in: columns, rows, one optional selection,
//! arrow-key movement and sorting.

use vstd::prelude::*;
use crate::wallpaper::Wallpaper;

verus! {

broadcast use vstd::seq_lib::group_to_multiset_ensures;

/// An arrow key.
#[derive(Debug, Clone, Copy, PartialEq, Eq, Structural)]
pub enum Direction {
    Up,
    Down,
    Left,
    Right,
}

/// Where a move from `current` goes in a grid of `len` cells and `columns`
/// columns: a row up or down, a cell left or right, if that stays in range.
/// Left and right do not wrap to another row's end.
pub open spec fn move_target(current: nat, columns: nat, len: nat, direction: Direction) -> Option<
    nat,
> {
    match direction {
        Direction::Up => if current >= columns {
            Some((current - columns) as nat)
        } else {
            None
        },
        Direction::Down => if current + columns < len {
            Some(current + columns)
        } else {
            None
        },
        Direction::Left => if current > 0 {
            Some((current - 1) as nat)
        } else {
            None
        },
        Direction::Right => if current + 1 < len {
            Some(current + 1)
        } else {
            None
        },
    }
}

/// `a` comes before `b` in character order, as `str` compares.
pub open spec fn lex_lt(a: Seq<char>, b: Seq<char>) -> bool
    decreases a.len(),
{
    if b.len() == 0 {
        false
    } else if a.len() == 0 {
        true
    } else if a[0] != b[0] {
        a[0] < b[0]
    } else {
        lex_lt(a.drop_first(), b.drop_first())
    }
}

/// Character order is asymmetric.
pub proof fn lemma_lex_lt_asymmetric(a: Seq<char>, b: Seq<char>)
    ensures
        lex_lt(a, b) ==> !lex_lt(b, a),
    decreases a.len(),
{
    if a.len() > 0 && b.len() > 0 && a[0] == b[0] {
        lemma_lex_lt_asymmetric(a.drop_first(), b.drop_first());
    }
}

/// Where `a` comes before `c`, any `b` comes after `a` or before `c`.
pub proof fn lemma_lex_lt_split(a: Seq<char>, b: Seq<char>, c: Seq<char>)
    ensures
        lex_lt(a, c) ==> lex_lt(a, b) || lex_lt(b, c),
    decreases a.len(),
{
    if a.len() > 0 && b.len() > 0 && c.len() > 0 && a[0] == b[0] && b[0] == c[0] {
        lemma_lex_lt_split(a.drop_first(), b.drop_first(), c.drop_first());
    }
}

/// The pixel area of a record.
pub open spec fn area(w: Wallpaper) -> int {
    w.size.0 as int * w.size.1 as int
}

/// `a` goes strictly before `b` in the requested order: by area or by file
/// name, ascending or descending.
pub open spec fn goes_before(a: Wallpaper, b: Wallpaper, by_name: bool, ascending: bool) -> bool {
    if by_name {
        if ascending {
            lex_lt(a.filename@, b.filename@)
        } else {
            lex_lt(b.filename@, a.filename@)
        }
    } else {
        if ascending {
            area(a) < area(b)
        } else {
            area(b) < area(a)
        }
    }
}

/// No record goes strictly before one that precedes it.
pub open spec fn is_ordered(s: Seq<Wallpaper>, by_name: bool, ascending: bool) -> bool {
    forall|i: int, j: int|
        0 <= i < j < s.len() ==> !#[trigger] goes_before(s[j], s[i], by_name, ascending)
}

/// `x` inserted into `t` after every record it does not go strictly before,
/// so that it follows its equals.
pub open spec fn insert_stable(t: Seq<Wallpaper>, x: Wallpaper, by_name: bool, ascending: bool) -> Seq<
    Wallpaper,
>
    decreases t.len(),
{
    if t.len() == 0 {
        seq![x]
    } else if goes_before(x, t.last(), by_name, ascending) {
        insert_stable(t.drop_last(), x, by_name, ascending).push(t.last())
    } else {
        t.push(x)
    }
}

/// The records stably sorted in the requested order: each inserted, in turn,
/// after its equals.
pub open spec fn stable_sorted(s: Seq<Wallpaper>, by_name: bool, ascending: bool) -> Seq<Wallpaper>
    decreases s.len(),
{
    if s.len() == 0 {
        s
    } else {
        insert_stable(stable_sorted(s.drop_last(), by_name, ascending), s.last(), by_name, ascending)
    }
}

/// Inserting at the first place from the end where `x` no longer goes
/// strictly before the record in front is the stable insertion.
proof fn lemma_insert_stable_at(t: Seq<Wallpaper>, x: Wallpaper, p: int, by_name: bool, ascending: bool)
    requires
        0 <= p <= t.len(),
        forall|k: int| p <= k < t.len() ==> #[trigger] goes_before(x, t[k], by_name, ascending),
        p > 0 ==> !goes_before(x, t[p - 1], by_name, ascending),
    ensures
        insert_stable(t, x, by_name, ascending) == t.insert(p, x),
    decreases t.len(),
{
    if t.len() == 0 {
        assert(t.insert(p, x) =~= seq![x]);
    } else if p == t.len() {
        assert(t.insert(p, x) =~= t.push(x));
    } else {
        assert(goes_before(x, t[t.len() - 1], by_name, ascending));
        let d = t.drop_last();
        assert forall|k: int| p <= k < d.len() implies #[trigger] goes_before(x, d[k], by_name, ascending) by {
            assert(d[k] == t[k]);
        }
        if p > 0 {
            assert(d[p - 1] == t[p - 1]);
        }
        lemma_insert_stable_at(d, x, p, by_name, ascending);
        assert(d.insert(p, x).push(t.last()) =~= t.insert(p, x));
    }
}

proof fn lemma_goes_before_asymmetric(a: Wallpaper, b: Wallpaper, by_name: bool, ascending: bool)
    ensures
        goes_before(a, b, by_name, ascending) ==> !goes_before(b, a, by_name, ascending),
{
    lemma_lex_lt_asymmetric(a.filename@, b.filename@);
    lemma_lex_lt_asymmetric(b.filename@, a.filename@);
}

proof fn lemma_goes_before_split(
    a: Wallpaper,
    b: Wallpaper,
    c: Wallpaper,
    by_name: bool,
    ascending: bool,
)
    ensures
        goes_before(a, c, by_name, ascending) ==> goes_before(a, b, by_name, ascending)
            || goes_before(b, c, by_name, ascending),
{
    lemma_lex_lt_split(a.filename@, b.filename@, c.filename@);
    lemma_lex_lt_split(c.filename@, b.filename@, a.filename@);
}

/// Compares file names in character order.
fn name_lt(a: &str, b: &str) -> (r: bool)
    ensures
        r == lex_lt(a@, b@),
{
    let n: usize = a.unicode_len();
    let m: usize = b.unicode_len();
    let mut i: usize = 0;
    assert(a@.subrange(0, n as int) =~= a@ && b@.subrange(0, m as int) =~= b@);
    while i < n && i < m
        invariant
            n == a@.len(),
            m == b@.len(),
            i <= n,
            i <= m,
            lex_lt(a@, b@) == lex_lt(a@.subrange(i as int, n as int), b@.subrange(i as int, m as int)),
        decreases n - i,
    {
        let x = a.get_char(i);
        let y = b.get_char(i);
        let ghost sa = a@.subrange(i as int, n as int);
        let ghost sb = b@.subrange(i as int, m as int);
        assert(sa[0] == x && sb[0] == y);
        if x != y {
            return x < y;
        }
        assert(sa.drop_first() =~= a@.subrange(i as int + 1, n as int));
        assert(sb.drop_first() =~= b@.subrange(i as int + 1, m as int));
        i = i + 1;
    }
    i < m
}

/// Whether `a` goes strictly before `b` in the requested order.
fn goes_before_exec(a: &Wallpaper, b: &Wallpaper, by_name: bool, ascending: bool) -> (r: bool)
    ensures
        r == goes_before(*a, *b, by_name, ascending),
{
    if by_name {
        if ascending {
            name_lt(a.filename.as_str(), b.filename.as_str())
        } else {
            name_lt(b.filename.as_str(), a.filename.as_str())
        }
    } else {
        let (aw, ah): (u64, u64) = (a.size.0 as u64, a.size.1 as u64);
        let (bw, bh): (u64, u64) = (b.size.0 as u64, b.size.1 as u64);
        assert(aw * ah <= 0xffff_ffff * 0xffff_ffff && bw * bh <= 0xffff_ffff * 0xffff_ffff)
            by (nonlinear_arith)
            requires
                aw <= 0xffff_ffff,
                ah <= 0xffff_ffff,
                bw <= 0xffff_ffff,
                bh <= 0xffff_ffff,
        ;
        let area_a: u64 = aw * ah;
        let area_b: u64 = bw * bh;
        if ascending {
            area_a < area_b
        } else {
            area_b < area_a
        }
    }
}

/// Sorts records stably by insertion into the requested order.
fn sort_records(v: Vec<Wallpaper>, by_name: bool, ascending: bool) -> (r: Vec<Wallpaper>)
    ensures
        r@.to_multiset() == v@.to_multiset(),
        is_ordered(r@, by_name, ascending),
        r@ == stable_sorted(v@, by_name, ascending),
{
    let ghost all = v@;
    let mut rest = v;
    let mut out: Vec<Wallpaper> = Vec::new();
    let ghost mut done: int = 0;
    while rest.len() > 0
        invariant
            0 <= done <= all.len(),
            rest@ == all.subrange(done, all.len() as int),
            out@.to_multiset() == all.subrange(0, done).to_multiset(),
            is_ordered(out@, by_name, ascending),
            out@ == stable_sorted(all.subrange(0, done), by_name, ascending),
        decreases rest@.len(),
    {
        let x = rest.remove(0);
        let mut p: usize = out.len();
        while p > 0 && goes_before_exec(&x, &out[p - 1], by_name, ascending)
            invariant
                p <= out@.len(),
                forall|k: int| p <= k < out@.len() ==> #[trigger] goes_before(x, out@[k], by_name, ascending),
            decreases p,
        {
            p = p - 1;
        }
        let ghost before = out@;
        proof {
            assert forall|k: int| 0 <= k < p implies !#[trigger] goes_before(x, before[k], by_name, ascending) by {
                if k < p - 1 {
                    assert(!goes_before(before[p - 1], before[k], by_name, ascending));
                    lemma_goes_before_split(x, before[p - 1], before[k], by_name, ascending);
                }
            }
            assert forall|k: int| p <= k < before.len() implies !#[trigger] goes_before(before[k], x, by_name, ascending) by {
                lemma_goes_before_asymmetric(x, before[k], by_name, ascending);
            }
        }
        out.insert(p, x);
        proof {
            let t = out@;
            assert(t == before.insert(p as int, x));
            assert forall|i: int, j: int| 0 <= i < j < t.len() implies !#[trigger] goes_before(t[j], t[i], by_name, ascending) by {
                if i < p && j < p {
                    assert(t[i] == before[i] && t[j] == before[j]);
                } else if i < p && j == p {
                    assert(t[i] == before[i]);
                } else if i < p {
                    assert(t[i] == before[i] && t[j] == before[j - 1]);
                } else if i == p {
                    assert(t[j] == before[j - 1]);
                } else {
                    assert(t[i] == before[i - 1] && t[j] == before[j - 1]);
                }
            }
            assert(all.subrange(0, done + 1) =~= all.subrange(0, done).push(x));
            lemma_insert_stable_at(before, x, p as int, by_name, ascending);
            assert(all.subrange(0, done + 1).drop_last() =~= all.subrange(0, done));
            done = done + 1;
            assert(rest@ =~= all.subrange(done, all.len() as int));
        }
    }
    assert(all.subrange(0, all.len() as int) =~= all);
    out
}

/// The catalog laid out in a grid with one optional selection.
#[derive(Debug)]
pub struct WallpaperGrid {
    wallpapers: Vec<Wallpaper>,
    columns: usize,
    selected_index: Option<usize>,
}

impl WallpaperGrid {
    /// The records, in display order.
    pub closed spec fn records(&self) -> Seq<Wallpaper> {
        self.wallpapers@
    }

    /// The number of columns.
    pub closed spec fn column_count(&self) -> nat {
        self.columns as nat
    }

    /// The selected position, if any.
    pub closed spec fn selection(&self) -> Option<usize> {
        self.selected_index
    }

    /// A selection always names a record.
    pub open spec fn wf(&self) -> bool {
        self.selection() matches Some(i) ==> i < self.records().len()
    }

    /// An empty grid with the given number of columns.
    pub fn new(columns: usize) -> (r: WallpaperGrid)
        ensures
            r.wf(),
            r.records().len() == 0,
            r.column_count() == columns,
            r.selection().is_none(),
    {
        WallpaperGrid { wallpapers: Vec::new(), columns, selected_index: None }
    }

    /// Replaces the records and clears the selection.
    pub fn set_wallpapers(&mut self, wallpapers: Vec<Wallpaper>)
        ensures
            final(self).wf(),
            final(self).records() == wallpapers@,
            final(self).column_count() == old(self).column_count(),
            final(self).selection().is_none(),
    {
        self.wallpapers = wallpapers;
        self.selected_index = None;
    }

    /// The records, in display order.
    pub fn get_wallpapers(&self) -> (r: &[Wallpaper])
        ensures
            r@ == self.records(),
    {
        self.wallpapers.as_slice()
    }

    /// Sets the number of columns, at least one.
    pub fn set_columns(&mut self, columns: usize)
        requires
            old(self).wf(),
        ensures
            final(self).wf(),
            final(self).column_count() == if columns < 1 {
                1
            } else {
                columns as nat
            },
            final(self).records() == old(self).records(),
            final(self).selection() == old(self).selection(),
    {
        self.columns = if columns < 1 {
            1
        } else {
            columns
        };
    }

    /// The number of columns.
    pub fn get_columns(&self) -> (r: usize)
        ensures
            r as nat == self.column_count(),
    {
        self.columns
    }

    /// The number of rows: the records divided by the columns, rounded up.
    pub fn get_rows(&self) -> (r: usize)
        requires
            self.records().len() > 0 ==> self.column_count() > 0,
        ensures
            r as int == if self.records().len() == 0 {
                0
            } else {
                (self.records().len() + self.column_count() - 1) / self.column_count() as int
            },
    {
        let n: usize = self.wallpapers.len();
        if n == 0 {
            0
        } else {
            let c: usize = self.columns;
            proof {
                lemma_ceil_div(n as int, c as int);
            }
            let r: usize = n / c + if n % c != 0 {
                1
            } else {
                0
            };
            r
        }
    }

    /// Selects the record at `index` when there is one; otherwise leaves the
    /// selection as it was and gives nothing.
    pub fn select_wallpaper(&mut self, index: usize) -> (r: Option<&Wallpaper>)
        requires
            old(self).wf(),
        ensures
            final(self).wf(),
            final(self).records() == old(self).records(),
            final(self).column_count() == old(self).column_count(),
            index < old(self).records().len() ==> final(self).selection() == Some(index) && r
                == Some(&old(self).records()[index as int]),
            index >= old(self).records().len() ==> final(self).selection() == old(
                self,
            ).selection() && r.is_none(),
    {
        if index < self.wallpapers.len() {
            self.selected_index = Some(index);
            Some(&self.wallpapers[index])
        } else {
            None
        }
    }

    /// The selected record, if any.
    pub fn get_selected_wallpaper(&self) -> (r: Option<&Wallpaper>)
        requires
            self.wf(),
        ensures
            r == match self.selection() {
                Some(i) => Some(&self.records()[i as int]),
                None => None,
            },
    {
        match self.selected_index {
            Some(i) => Some(&self.wallpapers[i]),
            None => None,
        }
    }

    /// The selected position, if any.
    pub fn get_selected_index(&self) -> (r: Option<usize>)
        ensures
            r == self.selection(),
    {
        self.selected_index
    }

    /// Clears the selection.
    pub fn clear_selection(&mut self)
        ensures
            final(self).wf(),
            final(self).records() == old(self).records(),
            final(self).column_count() == old(self).column_count(),
            final(self).selection().is_none(),
    {
        self.selected_index = None;
    }

    /// Moves the selection one row up or down or one cell left or right,
    /// starting from the first cell when nothing is selected. A move that would
    /// leave the grid keeps the selection. Gives the selected record.
    pub fn move_selection(&mut self, direction: Direction) -> (r: Option<&Wallpaper>)
        requires
            old(self).wf(),
        ensures
            final(self).wf(),
            final(self).records() == old(self).records(),
            final(self).column_count() == old(self).column_count(),
            old(self).records().len() == 0 ==> r.is_none() && final(self).selection() == old(
                self,
            ).selection(),
            old(self).records().len() > 0 ==> {
                let current = match old(self).selection() {
                    Some(i) => i as nat,
                    None => 0,
                };
                match move_target(
                    current,
                    old(self).column_count(),
                    old(self).records().len(),
                    direction,
                ) {
                    Some(t) => final(self).selection() == Some(t as usize) && r == Some(
                        &old(self).records()[t as int],
                    ),
                    None => final(self).selection() == old(self).selection() && r == match old(
                        self,
                    ).selection() {
                        Some(i) => Some(&old(self).records()[i as int]),
                        None => None,
                    },
                }
            },
    {
        let n: usize = self.wallpapers.len();
        if n == 0 {
            return None;
        }
        let current: usize = match self.selected_index {
            Some(i) => i,
            None => 0,
        };
        let cols: usize = self.columns;
        let new_index: Option<usize> = match direction {
            Direction::Up => {
                if current >= cols {
                    Some(current - cols)
                } else {
                    None
                }
            },
            Direction::Down => {
                if cols < n - current {
                    Some(current + cols)
                } else {
                    None
                }
            },
            Direction::Left => {
                if current > 0 {
                    Some(current - 1)
                } else {
                    None
                }
            },
            Direction::Right => {
                if current + 1 < n {
                    Some(current + 1)
                } else {
                    None
                }
            },
        };
        match new_index {
            Some(index) => self.select_wallpaper(index),
            None => self.get_selected_wallpaper(),
        }
    }

    /// Sorts by pixel area, ascending or descending, keeping the order of
    /// equal areas, and clears the selection.
    pub fn sort_by_size(&mut self, ascending: bool)
        ensures
            final(self).wf(),
            final(self).records().to_multiset() == old(self).records().to_multiset(),
            is_ordered(final(self).records(), false, ascending),
            final(self).records() == stable_sorted(old(self).records(), false, ascending),
            final(self).column_count() == old(self).column_count(),
            final(self).selection().is_none(),
    {
        let ghost before = self.wallpapers@;
        let v = self.wallpapers.split_off(0);
        assert(v@ =~= before);
        self.wallpapers = sort_records(v, false, ascending);
        self.selected_index = None;
    }

    /// Sorts by file name, ascending or descending, keeping the order of
    /// equal names, and clears the selection.
    pub fn sort_by_name(&mut self, ascending: bool)
        ensures
            final(self).wf(),
            final(self).records().to_multiset() == old(self).records().to_multiset(),
            is_ordered(final(self).records(), true, ascending),
            final(self).records() == stable_sorted(old(self).records(), true, ascending),
            final(self).column_count() == old(self).column_count(),
            final(self).selection().is_none(),
    {
        let ghost before = self.wallpapers@;
        let v = self.wallpapers.split_off(0);
        assert(v@ =~= before);
        self.wallpapers = sort_records(v, true, ascending);
        self.selected_index = None;
    }
}

/// `n / c` rounded up, computed without overflow.
proof fn lemma_ceil_div(n: int, c: int)
    requires
        n > 0,
        c > 0,
    ensures
        n / c + (if n % c != 0 {
            1int
        } else {
            0int
        }) == (n + c - 1) / c,
        (n + c - 1) / c <= n,
{
    assert((n + c - 1) / c <= n) by (nonlinear_arith)
        requires
            n > 0,
            c > 0,
    ;
    assert(n / c + (if n % c != 0 { 1int } else { 0int }) == (n + c - 1) / c) by (nonlinear_arith)
        requires
            n > 0,
            c > 0,
    ;
}

/// For N records in C columns the rows are the fewest that hold them all:
/// `rows * C >= N` and `(rows - 1) * C < N`.
pub proof fn lemma_rows_hold_records(n: int, c: int)
    requires
        n > 0,
        c > 0,
    ensures
        ((n + c - 1) / c) * c >= n,
        ((n + c - 1) / c - 1) * c < n,
{
    let r = (n + c - 1) / c;
    assert(r * c >= n && (r - 1) * c < n) by (nonlinear_arith)
        requires
            r == (n + c - 1) / c,
            n > 0,
            c > 0,
    ;
}

} // verus!
