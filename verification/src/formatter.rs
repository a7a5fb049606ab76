//! Fits source records onto a target `rows x columns` shape, collecting
//! at-most-once warnings, and serializes the result as a LaTeX table.

use vstd::prelude::*;

use crate::text::{
    char_count, dec_str, lemma_char_count_concat, lemma_char_count_four, lemma_char_count_one,
    lemma_char_count_two, parse_records, records_spec, usize_to_string,
};

verus! {

// ------------------------------------------------------------------
// The warning report: four latches, each fired at most once.
// ------------------------------------------------------------------
/// The row-surplus warning for `n` source records against `rows` target rows:
/// latched with its target and found values, or absent.
pub open spec fn w_more_rows(n: int, rows: int) -> Option<(int, int)> {
    if n > rows {
        Some((rows, n))
    } else {
        None
    }
}

/// The row-deficit warning for `n` source records against `rows` target rows.
pub open spec fn w_less_rows(n: int, rows: int) -> Option<(int, int)> {
    if n < rows {
        Some((rows, n))
    } else {
        None
    }
}

/// The column-surplus warning over the per-record field counts `counts`:
/// latched by the first record with more than `columns` fields; later
/// triggers do not update the reported values.
pub open spec fn w_more_columns(counts: Seq<int>, columns: int) -> Option<(int, int)>
    decreases counts.len(),
{
    if counts.len() == 0 {
        None
    } else {
        let prev = w_more_columns(counts.drop_last(), columns);
        if prev is Some {
            prev
        } else if counts.last() > columns {
            Some((columns, counts.last()))
        } else {
            None
        }
    }
}

/// The column-deficit warning over the per-record field counts `counts`:
/// latched by the first record with fewer than `columns` fields.
pub open spec fn w_less_columns(counts: Seq<int>, columns: int) -> Option<(int, int)>
    decreases counts.len(),
{
    if counts.len() == 0 {
        None
    } else {
        let prev = w_less_columns(counts.drop_last(), columns);
        if prev is Some {
            prev
        } else if counts.last() < columns {
            Some((columns, counts.last()))
        } else {
            None
        }
    }
}

/// The field counts of the records that reach the grid: the first `rows`
/// records, or all of them if there are fewer.
pub open spec fn counts_spec(recs: Seq<Seq<Seq<char>>>, rows: int) -> Seq<int> {
    let n = if recs.len() <= rows {
        recs.len() as int
    } else {
        rows
    };
    Seq::new(n as nat, |i: int| recs[i].len() as int)
}

/// The row-surplus message.
pub open spec fn line_more_rows(target: int, found: int) -> Seq<char> {
    "Passed row arg ("@ + dec_str(target as nat) + "). Skipped "@ + dec_str((found - target) as nat)
        + " lines from csv.\n"@
}

/// The column-surplus message.
pub open spec fn line_more_columns(target: int, found: int) -> Seq<char> {
    "Columns should be "@ + dec_str(target as nat) + ". Skipped "@ + dec_str(
        (found - target) as nat,
    ) + " columns from at least one row.\n"@
}

/// The row-deficit message.
pub open spec fn line_less_rows(target: int, found: int) -> Seq<char> {
    "Passed row arg ("@ + dec_str(target as nat) + ") but csv has "@ + dec_str(found as nat)
        + " lines. Generate "@ + dec_str((target - found) as nat) + " empty lines.\n"@
}

/// The column-deficit message.
pub open spec fn line_less_columns(target: int, found: int) -> Seq<char> {
    "Columns should be "@ + dec_str(target as nat) + ". Filled "@ + dec_str(
        (target - found) as nat,
    ) + " columns in at least one row.\n"@
}

/// The whole warning message: each latched warning's line, in the fixed order
/// row-surplus, column-surplus, row-deficit, column-deficit.
pub open spec fn message_spec(
    mr: Option<(int, int)>,
    mc: Option<(int, int)>,
    lr: Option<(int, int)>,
    lc: Option<(int, int)>,
) -> Seq<char> {
    (match mr {
        Some((t, f)) => line_more_rows(t, f),
        None => Seq::<char>::empty(),
    }) + (match mc {
        Some((t, f)) => line_more_columns(t, f),
        None => Seq::<char>::empty(),
    }) + (match lr {
        Some((t, f)) => line_less_rows(t, f),
        None => Seq::<char>::empty(),
    }) + (match lc {
        Some((t, f)) => line_less_columns(t, f),
        None => Seq::<char>::empty(),
    })
}

/// Collects the reconciliation warnings. Each of the four kinds latches on
/// its first trigger and ignores every later one.
pub struct Warning {
    /// Row-surplus latch.
    pub more_rows: bool,
    /// Column-surplus latch.
    pub more_columns: bool,
    /// Row-deficit latch.
    pub less_rows: bool,
    /// Column-deficit latch.
    pub less_columns: bool,
    /// Values reported by the first row-surplus trigger.
    pub more_rows_target: usize,
    pub more_rows_found: usize,
    /// Values reported by the first column-surplus trigger.
    pub more_columns_target: usize,
    pub more_columns_found: usize,
    /// Values reported by the first row-deficit trigger.
    pub less_rows_target: usize,
    pub less_rows_found: usize,
    /// Values reported by the first column-deficit trigger.
    pub less_columns_target: usize,
    pub less_columns_found: usize,
    /// The rendered message, kept in step with the latches.
    pub warning: String,
}

impl Warning {
    /// The row-surplus latch with its values, or `None`.
    pub open spec fn mr_view(&self) -> Option<(int, int)> {
        if self.more_rows {
            Some((self.more_rows_target as int, self.more_rows_found as int))
        } else {
            None
        }
    }

    /// The column-surplus latch with its values, or `None`.
    pub open spec fn mc_view(&self) -> Option<(int, int)> {
        if self.more_columns {
            Some((self.more_columns_target as int, self.more_columns_found as int))
        } else {
            None
        }
    }

    /// The row-deficit latch with its values, or `None`.
    pub open spec fn lr_view(&self) -> Option<(int, int)> {
        if self.less_rows {
            Some((self.less_rows_target as int, self.less_rows_found as int))
        } else {
            None
        }
    }

    /// The column-deficit latch with its values, or `None`.
    pub open spec fn lc_view(&self) -> Option<(int, int)> {
        if self.less_columns {
            Some((self.less_columns_target as int, self.less_columns_found as int))
        } else {
            None
        }
    }

    /// A report is well formed when each latched warning's values are on the
    /// right side of its target and the stored message renders the latches.
    pub open spec fn wf(&self) -> bool {
        &&& (self.more_rows ==> self.more_rows_found > self.more_rows_target)
        &&& (self.more_columns ==> self.more_columns_found > self.more_columns_target)
        &&& (self.less_rows ==> self.less_rows_found < self.less_rows_target)
        &&& (self.less_columns ==> self.less_columns_found < self.less_columns_target)
        &&& self.warning@ == message_spec(
            self.mr_view(),
            self.mc_view(),
            self.lr_view(),
            self.lc_view(),
        )
    }

    /// A fresh report: nothing latched, empty message.
    pub fn new() -> (w: Warning)
        ensures
            w.wf(),
            w.mr_view() is None,
            w.mc_view() is None,
            w.lr_view() is None,
            w.lc_view() is None,
    {
        let w = Warning {
            more_rows: false,
            more_columns: false,
            less_rows: false,
            less_columns: false,
            more_rows_target: 0,
            more_rows_found: 0,
            more_columns_target: 0,
            more_columns_found: 0,
            less_rows_target: 0,
            less_rows_found: 0,
            less_columns_target: 0,
            less_columns_found: 0,
            warning: String::new(),
        };
        proof {
            assert(w.warning@ =~= message_spec(None, None, None, None));
        }
        w
    }

    /// Rebuilds the stored message from the latches, in fixed order.
    fn rebuild(&mut self)
        requires
            old(self).more_rows ==> old(self).more_rows_found > old(self).more_rows_target,
            old(self).more_columns ==> old(self).more_columns_found > old(
                self,
            ).more_columns_target,
            old(self).less_rows ==> old(self).less_rows_found < old(self).less_rows_target,
            old(self).less_columns ==> old(self).less_columns_found < old(
                self,
            ).less_columns_target,
        ensures
            final(self).wf(),
            final(self).mr_view() == old(self).mr_view(),
            final(self).mc_view() == old(self).mc_view(),
            final(self).lr_view() == old(self).lr_view(),
            final(self).lc_view() == old(self).lc_view(),
            final(self).more_rows == old(self).more_rows,
            final(self).more_columns == old(self).more_columns,
            final(self).less_rows == old(self).less_rows,
            final(self).less_columns == old(self).less_columns,
    {
        let mut m = String::new();
        if self.more_rows {
            let line = line_more_rows_exec(self.more_rows_target, self.more_rows_found);
            m.append(line.as_str());
        }
        if self.more_columns {
            let line = line_more_columns_exec(self.more_columns_target, self.more_columns_found);
            m.append(line.as_str());
        }
        if self.less_rows {
            let line = line_less_rows_exec(self.less_rows_target, self.less_rows_found);
            m.append(line.as_str());
        }
        if self.less_columns {
            let line = line_less_columns_exec(self.less_columns_target, self.less_columns_found);
            m.append(line.as_str());
        }
        proof {
            assert(m@ =~= message_spec(
                self.mr_view(),
                self.mc_view(),
                self.lr_view(),
                self.lc_view(),
            ));
        }
        self.warning = m;
    }

    /// Latches the row-surplus warning; a second call changes nothing.
    pub fn warn_more_rows(&mut self, target: usize, found: usize)
        requires
            old(self).wf(),
            found > target,
        ensures
            final(self).wf(),
            old(self).more_rows ==> *final(self) == *old(self),
            !old(self).more_rows ==> final(self).mr_view() == Some((target as int, found as int)),
            final(self).mc_view() == old(self).mc_view(),
            final(self).lr_view() == old(self).lr_view(),
            final(self).lc_view() == old(self).lc_view(),
    {
        if self.more_rows {
            return ;
        }
        self.more_rows = true;
        self.more_rows_target = target;
        self.more_rows_found = found;
        self.rebuild();
    }

    /// Latches the column-surplus warning; a second call changes nothing.
    pub fn warn_more_columns(&mut self, target: usize, found: usize)
        requires
            old(self).wf(),
            found > target,
        ensures
            final(self).wf(),
            old(self).more_columns ==> *final(self) == *old(self),
            !old(self).more_columns ==> final(self).mc_view() == Some(
                (target as int, found as int),
            ),
            final(self).mr_view() == old(self).mr_view(),
            final(self).lr_view() == old(self).lr_view(),
            final(self).lc_view() == old(self).lc_view(),
    {
        if self.more_columns {
            return ;
        }
        self.more_columns = true;
        self.more_columns_target = target;
        self.more_columns_found = found;
        self.rebuild();
    }

    /// Latches the row-deficit warning; a second call changes nothing.
    pub fn warn_less_rows(&mut self, target: usize, found: usize)
        requires
            old(self).wf(),
            found < target,
        ensures
            final(self).wf(),
            old(self).less_rows ==> *final(self) == *old(self),
            !old(self).less_rows ==> final(self).lr_view() == Some((target as int, found as int)),
            final(self).mr_view() == old(self).mr_view(),
            final(self).mc_view() == old(self).mc_view(),
            final(self).lc_view() == old(self).lc_view(),
    {
        if self.less_rows {
            return ;
        }
        self.less_rows = true;
        self.less_rows_target = target;
        self.less_rows_found = found;
        self.rebuild();
    }

    /// Latches the column-deficit warning; a second call changes nothing.
    pub fn warn_less_columns(&mut self, target: usize, found: usize)
        requires
            old(self).wf(),
            found < target,
        ensures
            final(self).wf(),
            old(self).less_columns ==> *final(self) == *old(self),
            !old(self).less_columns ==> final(self).lc_view() == Some(
                (target as int, found as int),
            ),
            final(self).mr_view() == old(self).mr_view(),
            final(self).mc_view() == old(self).mc_view(),
            final(self).lr_view() == old(self).lr_view(),
    {
        if self.less_columns {
            return ;
        }
        self.less_columns = true;
        self.less_columns_target = target;
        self.less_columns_found = found;
        self.rebuild();
    }

    /// The rendered warning message.
    pub fn message(&self) -> (r: &String)
        requires
            self.wf(),
        ensures
            r@ == message_spec(self.mr_view(), self.mc_view(), self.lr_view(), self.lc_view()),
    {
        &self.warning
    }

    /// Whether any warning fired.
    pub fn has_warnings(&self) -> (r: bool)
        ensures
            r == (self.more_rows || self.more_columns || self.less_rows || self.less_columns),
    {
        self.more_rows || self.more_columns || self.less_rows || self.less_columns
    }
}

// ------------------------------------------------------------------
// Reconciliation: fitting records onto the target shape.
// ------------------------------------------------------------------
/// `k` empty cells.
pub open spec fn empty_cells(k: int) -> Seq<Seq<char>> {
    Seq::new(k as nat, |i: int| Seq::<char>::empty())
}

/// One record fitted to `columns` cells: truncated from the right, or padded
/// with empty cells.
pub open spec fn fit_row(fields: Seq<Seq<char>>, columns: int) -> Seq<Seq<char>> {
    if fields.len() >= columns {
        fields.take(columns)
    } else {
        fields + empty_cells(columns - fields.len())
    }
}

/// The reconciled grid: exactly `rows` rows of exactly `columns` cells; the
/// first `rows` records fitted, then empty rows.
pub open spec fn grid_spec(recs: Seq<Seq<Seq<char>>>, rows: int, columns: int) -> Seq<
    Seq<Seq<char>>,
> {
    Seq::new(
        rows as nat,
        |i: int|
            if i < recs.len() {
                fit_row(recs[i], columns)
            } else {
                empty_cells(columns)
            },
    )
}

fn empty_row_exec(columns: usize) -> (row: Vec<String>)
    ensures
        row.deep_view() == empty_cells(columns as int),
{
    let mut row: Vec<String> = Vec::new();
    let mut j: usize = 0;
    while j < columns
        invariant
            0 <= j <= columns,
            row.deep_view() =~= empty_cells(j as int),
        decreases columns - j,
    {
        let ghost old_row = row.deep_view();
        row.push(String::new());
        proof {
            assert(row.deep_view() =~= old_row.push(Seq::<char>::empty()));
            assert(row.deep_view() =~= empty_cells(j + 1));
        }
        j = j + 1;
    }
    row
}

/// Walks the records against the target shape: each of the first `rows`
/// records is truncated or padded to `columns` cells, later records are only
/// counted, and missing rows are filled with empty cells; every shape mismatch
/// latches its warning once.
pub fn reconcile(recs: &Vec<Vec<String>>, rows: usize, columns: usize) -> (res: (
    Vec<Vec<String>>,
    Warning,
))
    ensures
        res.0.deep_view() == grid_spec(recs.deep_view(), rows as int, columns as int),
        res.1.wf(),
        res.1.mr_view() == w_more_rows(recs.deep_view().len() as int, rows as int),
        res.1.lr_view() == w_less_rows(recs.deep_view().len() as int, rows as int),
        res.1.mc_view() == w_more_columns(
            counts_spec(recs.deep_view(), rows as int),
            columns as int,
        ),
        res.1.lc_view() == w_less_columns(
            counts_spec(recs.deep_view(), rows as int),
            columns as int,
        ),
{
    let ghost rv = recs.deep_view();
    let ghost cs = counts_spec(rv, rows as int);
    let n = recs.len();
    let lim = if n <= rows {
        n
    } else {
        rows
    };
    proof {
        assert(cs.len() == lim as int);
    }
    let mut w = Warning::new();
    let mut grid: Vec<Vec<String>> = Vec::new();
    let mut i: usize = 0;
    proof {
        assert(cs.take(0) =~= Seq::<int>::empty());
    }
    while i < lim
        invariant
            0 <= i <= lim,
            lim <= rows,
            lim <= n,
            n == recs.len(),
            rv == recs.deep_view(),
            cs == counts_spec(rv, rows as int),
            cs.len() == lim as int,
            grid.len() == i,
            forall|k: int| 0 <= k < i ==> grid.deep_view()[k] == fit_row(rv[k], columns as int),
            w.wf(),
            w.mr_view() is None,
            w.lr_view() is None,
            w.mc_view() == w_more_columns(cs.take(i as int), columns as int),
            w.lc_view() == w_less_columns(cs.take(i as int), columns as int),
        decreases lim - i,
    {
        let rec = &recs[i];
        proof {
            assert(rv[i as int] == rec.deep_view());
            assert(cs[i as int] == rec.deep_view().len() as int);
            assert(cs.take(i + 1).drop_last() =~= cs.take(i as int));
            assert(cs.take(i + 1).last() == cs[i as int]);
        }
        let cnt = rec.len();
        let mut row: Vec<String> = Vec::new();
        let keep = if cnt > columns {
            columns
        } else {
            cnt
        };
        let mut j: usize = 0;
        while j < keep
            invariant
                0 <= j <= keep,
                keep <= cnt,
                cnt == rec.len(),
                row.deep_view() =~= rec.deep_view().take(j as int),
            decreases keep - j,
        {
            let ghost old_row = row.deep_view();
            row.push(rec[j].clone());
            proof {
                assert(rec.deep_view()[j as int] == rec[j as int]@);
                assert(row.deep_view() =~= old_row.push(rec.deep_view()[j as int]));
                assert(row.deep_view() =~= rec.deep_view().take(j + 1));
            }
            j = j + 1;
        }
        if cnt > columns {
            w.warn_more_columns(columns, cnt);
        } else if cnt < columns {
            w.warn_less_columns(columns, cnt);
            let mut pad = empty_row_exec(columns - cnt);
            let ghost before = row.deep_view();
            row.append(&mut pad);
            proof {
                assert(row.deep_view() =~= before + empty_cells((columns - cnt) as int));
            }
        }
        proof {
            if cnt > columns {
                assert(row.deep_view() =~= fit_row(rv[i as int], columns as int));
            } else if cnt < columns {
                assert(rec.deep_view().take(cnt as int) =~= rec.deep_view());
                assert(row.deep_view() =~= fit_row(rv[i as int], columns as int));
            } else {
                assert(rec.deep_view().take(cnt as int) =~= rec.deep_view());
                assert(fit_row(rv[i as int], columns as int) =~= rec.deep_view());
                assert(row.deep_view() =~= fit_row(rv[i as int], columns as int));
            }
        }
        let ghost old_grid = grid.deep_view();
        grid.push(row);
        proof {
            assert(grid.deep_view() =~= old_grid.push(fit_row(rv[i as int], columns as int)));
        }
        i = i + 1;
    }
    proof {
        assert(cs.take(lim as int) =~= cs);
    }
    if n > rows {
        w.warn_more_rows(rows, n);
    }
    if n < rows {
        w.warn_less_rows(rows, n);
        while i < rows
            invariant
                n < rows,
                lim == n,
                n <= i <= rows,
                rv == recs.deep_view(),
                grid.len() == i,
                forall|k: int|
                    0 <= k < i ==> grid.deep_view()[k] == (if k < n {
                        fit_row(rv[k], columns as int)
                    } else {
                        empty_cells(columns as int)
                    }),
                w.wf(),
                w.mr_view() == w_more_rows(rv.len() as int, rows as int),
                w.lr_view() == w_less_rows(rv.len() as int, rows as int),
                w.mc_view() == w_more_columns(cs, columns as int),
                w.lc_view() == w_less_columns(cs, columns as int),
            decreases rows - i,
        {
            let ghost old_grid = grid.deep_view();
            let row = empty_row_exec(columns);
            grid.push(row);
            proof {
                assert(grid.deep_view() =~= old_grid.push(empty_cells(columns as int)));
            }
            i = i + 1;
        }
    }
    proof {
        assert(grid.deep_view() =~= grid_spec(rv, rows as int, columns as int));
    }
    (grid, w)
}

// ------------------------------------------------------------------
// Serialization into the LaTeX block.
// ------------------------------------------------------------------
/// The cells of one row, joined by the cell separator.
pub open spec fn join_cells(cells: Seq<Seq<char>>) -> Seq<char>
    decreases cells.len(),
{
    if cells.len() == 0 {
        Seq::<char>::empty()
    } else if cells.len() == 1 {
        cells[0]
    } else {
        join_cells(cells.drop_last()) + " & "@ + cells.last()
    }
}

/// One rendered grid row: indented, cells joined, and terminated by the row
/// separator unless it is the last row.
pub open spec fn grid_line(row: Seq<Seq<char>>, last: bool) -> Seq<char> {
    "\t\t"@ + join_cells(row) + (if last {
        "\n"@
    } else {
        " \\\\\n"@
    })
}

/// All rows rendered with the row separator.
pub open spec fn grid_lines_sep(grid: Seq<Seq<Seq<char>>>) -> Seq<char>
    decreases grid.len(),
{
    if grid.len() == 0 {
        Seq::<char>::empty()
    } else {
        grid_lines_sep(grid.drop_last()) + grid_line(grid.last(), false)
    }
}

/// The rendered rows of a grid: every row but the last carries the row
/// separator.
pub open spec fn grid_body(grid: Seq<Seq<Seq<char>>>) -> Seq<char> {
    if grid.len() == 0 {
        Seq::<char>::empty()
    } else {
        grid_lines_sep(grid.drop_last()) + grid_line(grid.last(), true)
    }
}

/// `k` empty cell separators, as rendered on a sourceless row.
pub open spec fn amps(k: int) -> Seq<char>
    decreases k,
{
    if k <= 0 {
        Seq::<char>::empty()
    } else {
        amps(k - 1) + " &"@
    }
}

/// One sourceless row line.
pub open spec fn empty_line(columns: int, last: bool) -> Seq<char> {
    "\t\t"@ + amps(columns - 1) + (if last {
        " \n"@
    } else {
        " \\\\\n"@
    })
}

/// `line` repeated `k` times.
pub open spec fn rep_line(line: Seq<char>, k: int) -> Seq<char>
    decreases k,
{
    if k <= 0 {
        Seq::<char>::empty()
    } else {
        rep_line(line, k - 1) + line
    }
}

/// The body of a sourceless table: `rows` lines of empty cells.
pub open spec fn empty_body(rows: int, columns: int) -> Seq<char> {
    rep_line(empty_line(columns, false), rows - 1) + empty_line(columns, true)
}

/// Everything before the table body.
pub open spec fn table_open(align: Seq<char>) -> Seq<char> {
    "\\begin{table}[ht]\n\t\\begin{tabular}{"@ + align + "}\n"@
}

/// Everything after the table body.
pub open spec fn table_close() -> Seq<char> {
    "\t\\end{tabular}\n\\end{table}\n"@
}

/// A whole sourceless table.
pub open spec fn table_spec(rows: int, columns: int, align: Seq<char>) -> Seq<char> {
    table_open(align) + empty_body(rows, columns) + table_close()
}

/// The warning section: absent when nothing is latched.
pub open spec fn warn_suffix(
    mr: Option<(int, int)>,
    mc: Option<(int, int)>,
    lr: Option<(int, int)>,
    lc: Option<(int, int)>,
) -> Seq<char> {
    if mr is Some || mc is Some || lr is Some || lc is Some {
        "\nWarnings:\n"@ + message_spec(mr, mc, lr, lc)
    } else {
        Seq::<char>::empty()
    }
}

/// A whole table reconciled from a source: the fitted grid between the fixed
/// opening and closing, followed by the warning section.
pub open spec fn csv_table_spec(rows: int, columns: int, align: Seq<char>, csv: Seq<char>) -> Seq<
    char,
> {
    let recs = records_spec(csv);
    let counts = counts_spec(recs, rows);
    table_open(align) + grid_body(grid_spec(recs, rows, columns)) + table_close() + warn_suffix(
        w_more_rows(recs.len() as int, rows),
        w_more_columns(counts, columns),
        w_less_rows(recs.len() as int, rows),
        w_less_columns(counts, columns),
    )
}

fn amps_exec(k: usize) -> (r: String)
    ensures
        r@ == amps(k as int),
{
    let mut r = String::new();
    let mut i: usize = 0;
    proof {
        assert(r@ =~= amps(0));
    }
    while i < k
        invariant
            0 <= i <= k,
            r@ == amps(i as int),
        decreases k - i,
    {
        r.append(" &");
        proof {
            assert(r@ =~= amps(i + 1));
        }
        i = i + 1;
    }
    r
}

fn join_exec(cells: &Vec<String>) -> (r: String)
    ensures
        r@ == join_cells(cells.deep_view()),
{
    let mut r = String::new();
    let n = cells.len();
    let mut i: usize = 0;
    proof {
        assert(cells.deep_view().take(0) =~= Seq::<Seq<char>>::empty());
    }
    while i < n
        invariant
            0 <= i <= n,
            n == cells.len(),
            r@ == join_cells(cells.deep_view().take(i as int)),
        decreases n - i,
    {
        if i > 0 {
            r.append(" & ");
        }
        r.append(cells[i].as_str());
        proof {
            let cv = cells.deep_view();
            assert(cv[i as int] == cells[i as int]@);
            assert(cv.take(i + 1).drop_last() =~= cv.take(i as int));
            assert(cv.take(i + 1).last() == cv[i as int]);
            if i == 0 {
                assert(r@ =~= join_cells(cv.take(1)));
            } else {
                assert(r@ =~= join_cells(cv.take(i + 1)));
            }
        }
        i = i + 1;
    }
    proof {
        assert(cells.deep_view().take(n as int) =~= cells.deep_view());
    }
    r
}

/// Builds a sourceless table: the target shape rendered with empty cells.
pub fn format_latex_table(rows: usize, columns: usize, col_def: String) -> (r: String)
    requires
        rows >= 1,
        columns >= 1,
        col_def@.len() == columns,
    ensures
        r@ == table_spec(rows as int, columns as int, col_def@),
{
    let mut table = String::from_str("\\begin{table}[ht]\n\t\\begin{tabular}{");
    table.append(col_def.as_str());
    table.append("}\n");
    proof {
        assert(table@ =~= table_open(col_def@));
    }
    let amp = amps_exec(columns - 1);
    let ghost sep_line = empty_line(columns as int, false);
    let mut i: usize = 0;
    proof {
        assert(table@ + rep_line(sep_line, 0) =~= table@);
    }
    while i < rows - 1
        invariant
            0 <= i <= rows - 1,
            rows >= 1,
            columns >= 1,
            amp@ == amps(columns - 1),
            sep_line == empty_line(columns as int, false),
            table@ == table_open(col_def@) + rep_line(sep_line, i as int),
        decreases rows - 1 - i,
    {
        table.append("\t\t");
        table.append(amp.as_str());
        table.append(" \\\\\n");
        proof {
            assert(table@ =~= table_open(col_def@) + rep_line(sep_line, i + 1));
        }
        i = i + 1;
    }
    table.append("\t\t");
    table.append(amp.as_str());
    table.append(" \n");
    table.append("\t\\end{tabular}\n\\end{table}\n");
    proof {
        assert(table@ =~= table_spec(rows as int, columns as int, col_def@));
    }
    table
}

/// Serializes a reconciled grid and its warning report.
pub fn render_table(col_def: &String, grid: &Vec<Vec<String>>, w: &Warning) -> (r: String)
    requires
        grid.len() >= 1,
        w.wf(),
    ensures
        r@ == table_open(col_def@) + grid_body(grid.deep_view()) + table_close() + warn_suffix(
            w.mr_view(),
            w.mc_view(),
            w.lr_view(),
            w.lc_view(),
        ),
{
    let mut table = String::from_str("\\begin{table}[ht]\n\t\\begin{tabular}{");
    table.append(col_def.as_str());
    table.append("}\n");
    proof {
        assert(table@ =~= table_open(col_def@));
    }
    let n = grid.len();
    let mut i: usize = 0;
    proof {
        assert(grid.deep_view().take(0) =~= Seq::<Seq<Seq<char>>>::empty());
        assert(table@ + grid_lines_sep(grid.deep_view().take(0)) =~= table@);
    }
    while i < n - 1
        invariant
            0 <= i <= n - 1,
            n == grid.len(),
            n >= 1,
            table@ == table_open(col_def@) + grid_lines_sep(grid.deep_view().take(i as int)),
        decreases n - 1 - i,
    {
        table.append("\t\t");
        let line = join_exec(&grid[i]);
        table.append(line.as_str());
        table.append(" \\\\\n");
        proof {
            let gv = grid.deep_view();
            assert(gv[i as int] == grid[i as int].deep_view());
            assert(gv.take(i + 1).drop_last() =~= gv.take(i as int));
            assert(gv.take(i + 1).last() == gv[i as int]);
            assert(table@ =~= table_open(col_def@) + grid_lines_sep(gv.take(i + 1)));
        }
        i = i + 1;
    }
    table.append("\t\t");
    let line = join_exec(&grid[n - 1]);
    table.append(line.as_str());
    table.append("\n");
    table.append("\t\\end{tabular}\n\\end{table}\n");
    proof {
        let gv = grid.deep_view();
        assert(gv[n - 1] == grid[n - 1 as int].deep_view());
        assert(gv.drop_last() =~= gv.take(n - 1));
        assert(table@ =~= table_open(col_def@) + grid_body(gv) + table_close());
    }
    if w.has_warnings() {
        table.append("\nWarnings:\n");
        table.append(w.message().as_str());
        proof {
            assert(table@ =~= table_open(col_def@) + grid_body(grid.deep_view()) + table_close()
                + warn_suffix(w.mr_view(), w.mc_view(), w.lr_view(), w.lc_view()));
        }
    } else {
        proof {
            assert(table@ =~= table_open(col_def@) + grid_body(grid.deep_view()) + table_close()
                + warn_suffix(w.mr_view(), w.mc_view(), w.lr_view(), w.lc_view()));
        }
    }
    table
}

/// Builds a table from a source: reads the records, fits them onto the target
/// shape, and serializes the grid with the collected warnings.
pub fn format_latex_table_csv(rows: usize, columns: usize, col_def: String, csv: &str) -> (r:
    String)
    requires
        rows >= 1,
        columns >= 1,
        col_def@.len() == columns,
    ensures
        r@ == csv_table_spec(rows as int, columns as int, col_def@, csv@),
{
    let recs = parse_records(csv);
    let (grid, w) = reconcile(&recs, rows, columns);
    proof {
        assert(grid.deep_view().len() == rows as int);
    }
    render_table(&col_def, &grid, &w)
}

// ------------------------------------------------------------------
// Laws.
// ------------------------------------------------------------------
proof fn lemma_amps_counts(k: int)
    requires
        k >= 0,
    ensures
        char_count(amps(k), '&') == k,
        char_count(amps(k), '\n') == 0,
        char_count(amps(k), '\\') == 0,
    decreases k,
{
    reveal_strlit(" &");
    assert(" &"@ =~= seq![' ', '&']);
    if k == 0 {
    } else {
        lemma_amps_counts(k - 1);
        lemma_char_count_two(' ', '&', '&');
        lemma_char_count_two(' ', '&', '\n');
        lemma_char_count_two(' ', '&', '\\');
        lemma_char_count_concat(amps(k - 1), " &"@, '&');
        lemma_char_count_concat(amps(k - 1), " &"@, '\n');
        lemma_char_count_concat(amps(k - 1), " &"@, '\\');
    }
}

proof fn lemma_empty_line_counts(columns: int, last: bool)
    requires
        columns >= 1,
    ensures
        char_count(empty_line(columns, last), '&') == columns - 1,
        char_count(empty_line(columns, last), '\n') == 1,
        char_count(empty_line(columns, last), '\\') == (if last {
            0int
        } else {
            2int
        }),
{
    reveal_strlit("\t\t");
    reveal_strlit(" \n");
    reveal_strlit(" \\\\\n");
    assert("\t\t"@ =~= seq!['\t', '\t']);
    assert(" \n"@ =~= seq![' ', '\n']);
    assert(" \\\\\n"@ =~= seq![' ', '\\', '\\', '\n']);
    lemma_amps_counts(columns - 1);
    let term = if last {
        " \n"@
    } else {
        " \\\\\n"@
    };
    lemma_char_count_two('\t', '\t', '&');
    lemma_char_count_two('\t', '\t', '\n');
    lemma_char_count_two('\t', '\t', '\\');
    lemma_char_count_two(' ', '\n', '&');
    lemma_char_count_two(' ', '\n', '\n');
    lemma_char_count_two(' ', '\n', '\\');
    lemma_char_count_four(' ', '\\', '\\', '\n', '&');
    lemma_char_count_four(' ', '\\', '\\', '\n', '\n');
    lemma_char_count_four(' ', '\\', '\\', '\n', '\\');
    lemma_char_count_concat("\t\t"@, amps(columns - 1), '&');
    lemma_char_count_concat("\t\t"@, amps(columns - 1), '\n');
    lemma_char_count_concat("\t\t"@, amps(columns - 1), '\\');
    lemma_char_count_concat("\t\t"@ + amps(columns - 1), term, '&');
    lemma_char_count_concat("\t\t"@ + amps(columns - 1), term, '\n');
    lemma_char_count_concat("\t\t"@ + amps(columns - 1), term, '\\');
}

proof fn lemma_rep_line_counts(line: Seq<char>, k: int, c: char)
    requires
        k >= 0,
    ensures
        char_count(rep_line(line, k), c) == k * char_count(line, c),
    decreases k,
{
    if k == 0 {
    } else {
        lemma_rep_line_counts(line, k - 1, c);
        lemma_char_count_concat(rep_line(line, k - 1), line, c);
        assert((k - 1) * char_count(line, c) + char_count(line, c) == k * char_count(line, c))
            by (nonlinear_arith);
    }
}

/// Law: the body of a sourceless table has exactly `rows` line ends, one per
/// row, `rows - 1` row separators (each the two characters `\\`), and
/// `columns - 1` cell separators on every row line; the fixed opening and
/// closing around the body hold no cell separator.
pub proof fn lemma_empty_table_shape(rows: int, columns: int)
    requires
        rows >= 1,
        columns >= 1,
    ensures
        char_count(empty_body(rows, columns), '\n') == rows,
        char_count(empty_body(rows, columns), '\\') == 2 * (rows - 1),
        char_count(empty_body(rows, columns), '&') == rows * (columns - 1),
        char_count(empty_line(columns, false), '&') == columns - 1,
        char_count(empty_line(columns, true), '&') == columns - 1,
{
    lemma_empty_line_counts(columns, false);
    lemma_empty_line_counts(columns, true);
    let sep = empty_line(columns, false);
    lemma_rep_line_counts(sep, rows - 1, '\n');
    lemma_rep_line_counts(sep, rows - 1, '\\');
    lemma_rep_line_counts(sep, rows - 1, '&');
    lemma_char_count_concat(rep_line(sep, rows - 1), empty_line(columns, true), '\n');
    lemma_char_count_concat(rep_line(sep, rows - 1), empty_line(columns, true), '\\');
    lemma_char_count_concat(rep_line(sep, rows - 1), empty_line(columns, true), '&');
    assert((rows - 1) * (columns - 1) + (columns - 1) == rows * (columns - 1)) by (nonlinear_arith);
    assert((rows - 1) * 1 == rows - 1) by (nonlinear_arith);
    assert((rows - 1) * 2 == 2 * (rows - 1)) by (nonlinear_arith);
    assert((rows - 1) * 0 == 0) by (nonlinear_arith);
}

proof fn lemma_w_more_columns_none(counts: Seq<int>, columns: int)
    requires
        forall|i: int| 0 <= i < counts.len() ==> counts[i] <= columns,
    ensures
        w_more_columns(counts, columns) is None,
    decreases counts.len(),
{
    if counts.len() > 0 {
        lemma_w_more_columns_none(counts.drop_last(), columns);
    }
}

proof fn lemma_w_less_columns_none(counts: Seq<int>, columns: int)
    requires
        forall|i: int| 0 <= i < counts.len() ==> counts[i] >= columns,
    ensures
        w_less_columns(counts, columns) is None,
    decreases counts.len(),
{
    if counts.len() > 0 {
        lemma_w_less_columns_none(counts.drop_last(), columns);
    }
}

/// Law: a source with exactly `rows` records of exactly `columns` trimmed
/// fields each reconciles to those records unchanged, and no warning latches.
pub proof fn lemma_reconcile_round_trip(recs: Seq<Seq<Seq<char>>>, rows: int, columns: int)
    requires
        recs.len() == rows,
        forall|i: int| 0 <= i < recs.len() ==> recs[i].len() == columns,
    ensures
        grid_spec(recs, rows, columns) == recs,
        w_more_rows(recs.len() as int, rows) is None,
        w_less_rows(recs.len() as int, rows) is None,
        w_more_columns(counts_spec(recs, rows), columns) is None,
        w_less_columns(counts_spec(recs, rows), columns) is None,
{
    let g = grid_spec(recs, rows, columns);
    assert forall|i: int| 0 <= i < rows implies g[i] == recs[i] by {
        assert(recs[i].take(columns) =~= recs[i]);
    }
    assert(g =~= recs);
    lemma_w_more_columns_none(counts_spec(recs, rows), columns);
    lemma_w_less_columns_none(counts_spec(recs, rows), columns);
}

/// Law: when every record that reaches the grid has too many fields, the
/// column-surplus warning is latched exactly once, carrying the first
/// record's numbers; a report with only that latch renders exactly the one
/// warning line.
pub proof fn lemma_column_surplus_latches_once(counts: Seq<int>, columns: int)
    requires
        counts.len() >= 1,
        forall|i: int| 0 <= i < counts.len() ==> counts[i] > columns,
    ensures
        w_more_columns(counts, columns) == Some((columns, counts[0])),
        message_spec(None, Some((columns, counts[0])), None, None) == line_more_columns(
            columns,
            counts[0],
        ),
    decreases counts.len(),
{
    if counts.len() == 1 {
        assert(counts.drop_last() =~= Seq::<int>::empty());
    } else {
        lemma_column_surplus_latches_once(counts.drop_last(), columns);
        assert(counts.drop_last()[0] == counts[0]);
    }
    assert(message_spec(None, Some((columns, counts[0])), None, None) =~= line_more_columns(
        columns,
        counts[0],
    ));
}

fn line_more_rows_exec(target: usize, found: usize) -> (r: String)
    requires
        found > target,
    ensures
        r@ == line_more_rows(target as int, found as int),
{
    let mut r = String::from_str("Passed row arg (");
    let t = usize_to_string(target);
    r.append(t.as_str());
    r.append("). Skipped ");
    let d = usize_to_string(found - target);
    r.append(d.as_str());
    r.append(" lines from csv.\n");
    proof {
        assert(r@ =~= line_more_rows(target as int, found as int));
    }
    r
}

fn line_more_columns_exec(target: usize, found: usize) -> (r: String)
    requires
        found > target,
    ensures
        r@ == line_more_columns(target as int, found as int),
{
    let mut r = String::from_str("Columns should be ");
    let t = usize_to_string(target);
    r.append(t.as_str());
    r.append(". Skipped ");
    let d = usize_to_string(found - target);
    r.append(d.as_str());
    r.append(" columns from at least one row.\n");
    proof {
        assert(r@ =~= line_more_columns(target as int, found as int));
    }
    r
}

fn line_less_rows_exec(target: usize, found: usize) -> (r: String)
    requires
        found < target,
    ensures
        r@ == line_less_rows(target as int, found as int),
{
    let mut r = String::from_str("Passed row arg (");
    let t = usize_to_string(target);
    r.append(t.as_str());
    r.append(") but csv has ");
    let f = usize_to_string(found);
    r.append(f.as_str());
    r.append(" lines. Generate ");
    let d = usize_to_string(target - found);
    r.append(d.as_str());
    r.append(" empty lines.\n");
    proof {
        assert(r@ =~= line_less_rows(target as int, found as int));
    }
    r
}

fn line_less_columns_exec(target: usize, found: usize) -> (r: String)
    requires
        found < target,
    ensures
        r@ == line_less_columns(target as int, found as int),
{
    let mut r = String::from_str("Columns should be ");
    let t = usize_to_string(target);
    r.append(t.as_str());
    r.append(". Filled ");
    let d = usize_to_string(target - found);
    r.append(d.as_str());
    r.append(" columns in at least one row.\n");
    proof {
        assert(r@ =~= line_less_columns(target as int, found as int));
    }
    r
}

} // verus!
