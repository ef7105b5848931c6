use vstd::prelude::*;

use crate::distribution::DistributionSpec;
use crate::error::StatsError;

verus! {

/// One cell of a contingency table as a mathematical value: its row
/// category, its column category and its count.
pub type CellView = (Seq<char>, Seq<char>, nat);

/// Whether a cell lies in row `r` (when given) and in column `c` (when given).
pub open spec fn selects(r: Option<Seq<char>>, c: Option<Seq<char>>, e: CellView) -> bool {
    (r matches Some(x) ==> e.0 == x) && (c matches Some(y) ==> e.1 == y)
}

/// Sum of the counts of the cells in row `r` (when given) and in column `c`
/// (when given).
pub open spec fn sum_counts(cells: Seq<CellView>, r: Option<Seq<char>>, c: Option<Seq<char>>) -> nat
    decreases cells.len(),
{
    if cells.len() == 0 {
        0
    } else {
        sum_counts(cells.drop_last(), r, c) + if selects(r, c, cells.last()) {
            cells.last().2
        } else {
            0
        }
    }
}

/// Count of the cell at row `r` and column `c` (zero where there is none).
pub open spec fn count_of(cells: Seq<CellView>, r: Seq<char>, c: Seq<char>) -> nat {
    sum_counts(cells, Some(r), Some(c))
}

/// Marginal total of row `r`.
pub open spec fn row_sum(cells: Seq<CellView>, r: Seq<char>) -> nat {
    sum_counts(cells, Some(r), None)
}

/// Marginal total of column `c`.
pub open spec fn col_sum(cells: Seq<CellView>, c: Seq<char>) -> nat {
    sum_counts(cells, None, Some(c))
}

/// Sum of all counts.
pub open spec fn grand_sum(cells: Seq<CellView>) -> nat {
    sum_counts(cells, None, None)
}

/// `r` is the row category of some cell.
pub open spec fn has_row(cells: Seq<CellView>, r: Seq<char>) -> bool {
    exists|i: int| 0 <= i < cells.len() && #[trigger] cells[i].0 == r
}

/// `c` is the column category of some cell.
pub open spec fn has_col(cells: Seq<CellView>, c: Seq<char>) -> bool {
    exists|i: int| 0 <= i < cells.len() && #[trigger] cells[i].1 == c
}

/// No two cells share a (row, column) key.
pub open spec fn keys_unique(cells: Seq<CellView>) -> bool {
    forall|i: int, j: int|
        0 <= i < cells.len() && 0 <= j < cells.len() && i != j ==> (#[trigger] cells[i].0
            != #[trigger] cells[j].0 || cells[i].1 != cells[j].1)
}

/// `s` lists each member of `set` exactly once.
pub open spec fn enumerates(s: Seq<Seq<char>>, set: Set<Seq<char>>) -> bool {
    &&& s.no_duplicates()
    &&& forall|x: Seq<char>| s.contains(x) <==> #[trigger] set.contains(x)
}

/// The character sequences of a list of strings.
pub open spec fn string_views(v: Seq<String>) -> Seq<Seq<char>> {
    v.map_values(|s: String| s@)
}

/// The distinct row categories of a table.
pub open spec fn row_set(cells: Seq<CellView>) -> Set<Seq<char>> {
    Set::new(|x: Seq<char>| has_row(cells, x))
}

/// The distinct column categories of a table.
pub open spec fn col_set(cells: Seq<CellView>) -> Set<Seq<char>> {
    Set::new(|x: Seq<char>| has_col(cells, x))
}

/// What the chi-square statistic needs of the cell at row `r` and column
/// `c`: its observed count, its row total and its column total. Its expected
/// count is `row_total * col_total / grand_total`.
pub open spec fn margins_of(cells: Seq<CellView>, r: Seq<char>, c: Seq<char>) -> (nat, nat, nat) {
    (count_of(cells, r, c), row_sum(cells, r), col_sum(cells, c))
}

/// A cell of a contingency table.
#[derive(Debug)]
pub struct TableCell {
    pub row: String,
    pub col: String,
    pub count: usize,
}

impl View for TableCell {
    type V = CellView;

    open spec fn view(&self) -> CellView {
        (self.row@, self.col@, self.count as nat)
    }
}

/// Counts of observations cross-classified by two categorical fields.
///
/// Categories are arbitrary strings. Cells are kept in the order in which
/// their keys were first seen, so every enumeration that the table makes is
/// reproducible.
#[derive(Debug)]
pub struct ContingencyTable {
    cells: Vec<TableCell>,
}

impl View for ContingencyTable {
    type V = Seq<CellView>;

    closed spec fn view(&self) -> Seq<CellView> {
        self.cells@.map_values(|e: TableCell| e@)
    }
}

/// The character sequence of an optional string.
pub open spec fn option_view(o: Option<&String>) -> Option<Seq<char>> {
    match o {
        Some(x) => Some(x@),
        None => None,
    }
}

/// The row category of a cell, or its column category.
pub open spec fn key_of(e: CellView, by_row: bool) -> Seq<char> {
    if by_row {
        e.0
    } else {
        e.1
    }
}

/// `x` is the row (or column) category of one of the first `n` cells.
pub open spec fn key_among(cells: Seq<CellView>, by_row: bool, n: int, x: Seq<char>) -> bool {
    exists|k: int| 0 <= k < n && #[trigger] key_of(cells[k], by_row) == x
}

proof fn lemma_sum_prefix_le(cells: Seq<CellView>, i: int, r: Option<Seq<char>>, c: Option<Seq<char>>)
    requires
        0 <= i <= cells.len(),
    ensures
        sum_counts(cells.take(i), r, c) <= sum_counts(cells, r, c),
    decreases cells.len(),
{
    if i == cells.len() {
        assert(cells.take(i) =~= cells);
    } else {
        lemma_sum_prefix_le(cells.drop_last(), i, r, c);
        assert(cells.take(i) =~= cells.drop_last().take(i));
    }
}

fn string_list_contains(v: &Vec<String>, s: &String) -> (b: bool)
    ensures
        b == string_views(v@).contains(s@),
{
    let mut i: usize = 0;
    while i < v.len()
        invariant
            i <= v@.len(),
            forall|k: int| 0 <= k < i ==> v@[k]@ != s@,
        decreases v@.len() - i,
    {
        if v[i] == *s {
            assert(string_views(v@)[i as int] == s@);
            return true;
        }
        i = i + 1;
    }
    assert forall|k: int| 0 <= k < string_views(v@).len() implies string_views(v@)[k] != s@ by {
        assert(v@[k]@ != s@);
    }
    false
}

/// The observed count of one cell of a cross-tabulation and the two
/// marginal totals from which its expected count follows.
#[derive(Debug, Clone, Copy, PartialEq, Eq, Structural)]
pub struct ExpectedCell {
    pub observed: usize,
    pub row_total: usize,
    pub col_total: usize,
}

impl View for ExpectedCell {
    type V = (nat, nat, nat);

    open spec fn view(&self) -> (nat, nat, nat) {
        (self.observed as nat, self.row_total as nat, self.col_total as nat)
    }
}

/// A chi-square test of independence ready to be evaluated: the categories
/// in the order of enumeration, one row of cells per row category (one cell
/// per column category), the grand total and the reference distribution.
#[derive(Debug)]
pub struct ChiSquareDesign {
    pub rows: Vec<String>,
    pub cols: Vec<String>,
    pub cells: Vec<Vec<ExpectedCell>>,
    pub grand_total: usize,
    pub distribution: DistributionSpec,
}

impl ChiSquareDesign {
    /// The design is the cross-tabulation of `table`: every row and column
    /// category once, each cell with its margins, and a chi-squared
    /// distribution with `(#rows - 1) * (#columns - 1)` degrees of freedom.
    pub open spec fn describes(&self, table: Seq<CellView>) -> bool {
        let rows = string_views(self.rows@);
        let cols = string_views(self.cols@);
        &&& enumerates(rows, row_set(table))
        &&& enumerates(cols, col_set(table))
        &&& self.cells@.len() == rows.len()
        &&& forall|i: int|
            0 <= i < rows.len() ==> (#[trigger] self.cells@[i])@.len() == cols.len()
        &&& forall|i: int, j: int|
            0 <= i < rows.len() && 0 <= j < cols.len() ==> (#[trigger] self.cells@[i]@[j])@
                == margins_of(table, rows[i], cols[j])
        &&& self.grand_total == grand_sum(table)
        &&& self.distribution == DistributionSpec::ChiSquared {
            df: ((row_set(table).len() - 1) * (col_set(table).len() - 1)) as u128,
        }
    }
}

/// Each cell of a design as a (row category, column category, margins)
/// triple.
pub open spec fn design_cells(d: &ChiSquareDesign) -> Set<(Seq<char>, Seq<char>, (nat, nat, nat))> {
    Set::new(
        |x: (Seq<char>, Seq<char>, (nat, nat, nat))|
            exists|i: int, j: int|
                0 <= i < d.rows@.len() && 0 <= j < d.cols@.len() && x == (
                    #[trigger] string_views(d.rows@)[i],
                    #[trigger] string_views(d.cols@)[j],
                    d.cells@[i]@[j]@,
                ),
    )
}

/// Every (row category, column category) pair of a table with its margins.
pub open spec fn table_cells(table: Seq<CellView>) -> Set<(Seq<char>, Seq<char>, (nat, nat, nat))> {
    Set::new(
        |x: (Seq<char>, Seq<char>, (nat, nat, nat))|
            row_set(table).contains(x.0) && col_set(table).contains(x.1) && x.2 == margins_of(
                table,
                x.0,
                x.1,
            ),
    )
}

/// The cross-tabulation of a table does not depend on the order in which
/// its categories are enumerated: any two designs of the same table hold the
/// same cells, each with the same margins, the same grand total and the same
/// reference distribution, whose degrees of freedom are
/// `(#rows - 1) * (#columns - 1)`.
pub proof fn lemma_chi_square_order_free(
    table: Seq<CellView>,
    d1: &ChiSquareDesign,
    d2: &ChiSquareDesign,
)
    requires
        d1.describes(table),
        d2.describes(table),
    ensures
        design_cells(d1) == design_cells(d2),
        d1.rows@.len() * d1.cols@.len() == d2.rows@.len() * d2.cols@.len(),
        d1.grand_total == d2.grand_total,
        d1.distribution == d2.distribution,
        d1.distribution == (DistributionSpec::ChiSquared {
            df: ((row_set(table).len() - 1) * (col_set(table).len() - 1)) as u128,
        }),
{
    lemma_design_cells(table, d1);
    lemma_design_cells(table, d2);
    string_views(d1.rows@).unique_seq_to_set();
    string_views(d2.rows@).unique_seq_to_set();
    string_views(d1.cols@).unique_seq_to_set();
    string_views(d2.cols@).unique_seq_to_set();
    assert(string_views(d1.rows@).to_set() =~= row_set(table));
    assert(string_views(d2.rows@).to_set() =~= row_set(table));
    assert(string_views(d1.cols@).to_set() =~= col_set(table));
    assert(string_views(d2.cols@).to_set() =~= col_set(table));
}

proof fn lemma_design_cells(table: Seq<CellView>, d: &ChiSquareDesign)
    requires
        d.describes(table),
    ensures
        design_cells(d) == table_cells(table),
{
    let rows = string_views(d.rows@);
    let cols = string_views(d.cols@);
    let target = table_cells(table);
    assert forall|x: (Seq<char>, Seq<char>, (nat, nat, nat))|
        design_cells(d).contains(x) <==> target.contains(x) by {
        if design_cells(d).contains(x) {
            let (i, j) = choose|i: int, j: int|
                0 <= i < d.rows@.len() && 0 <= j < d.cols@.len() && x == (
                    #[trigger] string_views(d.rows@)[i],
                    #[trigger] string_views(d.cols@)[j],
                    d.cells@[i]@[j]@,
                );
            assert(rows.contains(rows[i]));
            assert(cols.contains(cols[j]));
            assert(d.cells@[i]@[j]@ == margins_of(table, rows[i], cols[j]));
        }
        if target.contains(x) {
            assert(rows.contains(x.0));
            assert(cols.contains(x.1));
            let i = choose|i: int| 0 <= i < rows.len() && rows[i] == x.0;
            let j = choose|j: int| 0 <= j < cols.len() && cols[j] == x.1;
            assert(d.cells@[i]@[j]@ == margins_of(table, rows[i], cols[j]));
            assert(x == (rows[i], cols[j], d.cells@[i]@[j]@));
        }
    }
    assert(design_cells(d) =~= target);
}

proof fn lemma_sum_push(cells: Seq<CellView>, e: CellView, r: Option<Seq<char>>, c: Option<Seq<char>>)
    ensures
        sum_counts(cells.push(e), r, c) == sum_counts(cells, r, c) + if selects(r, c, e) {
            e.2
        } else {
            0
        },
{
    assert(cells.push(e).drop_last() =~= cells);
}

proof fn lemma_sum_update(
    cells: Seq<CellView>,
    j: int,
    e: CellView,
    r: Option<Seq<char>>, c: Option<Seq<char>>,
)
    requires
        0 <= j < cells.len(),
    ensures
        sum_counts(cells.update(j, e), r, c) + (if selects(r, c, cells[j]) {
            cells[j].2
        } else {
            0
        }) == sum_counts(cells, r, c) + if selects(r, c, e) {
            e.2
        } else {
            0
        },
    decreases cells.len(),
{
    let u = cells.update(j, e);
    if j == cells.len() - 1 {
        assert(u.drop_last() =~= cells.drop_last());
    } else {
        lemma_sum_update(cells.drop_last(), j, e, r, c);
        assert(u.drop_last() =~= cells.drop_last().update(j, e));
    }
}

proof fn lemma_sum_le_total(cells: Seq<CellView>, r: Option<Seq<char>>, c: Option<Seq<char>>)
    ensures
        sum_counts(cells, r, c) <= grand_sum(cells),
    decreases cells.len(),
{
    if cells.len() > 0 {
        lemma_sum_le_total(cells.drop_last(), r, c);
    }
}

impl ContingencyTable {
    /// Keys are unique and the grand total fits in a `usize`.
    pub open spec fn wf(&self) -> bool {
        keys_unique(self@) && grand_sum(self@) <= usize::MAX
    }

    /// An empty table.
    pub fn new() -> (t: ContingencyTable)
        ensures
            t.wf(),
            t@ == Seq::<CellView>::empty(),
    {
        ContingencyTable { cells: Vec::new() }
    }

    fn total_where(&self, row: Option<&String>, col: Option<&String>) -> (r: usize)
        requires
            self.wf(),
        ensures
            r == sum_counts(self@, option_view(row), option_view(col)),
    {
        let ghost rv = option_view(row);
        let ghost cv = option_view(col);
        let mut acc: usize = 0;
        let mut i: usize = 0;
        while i < self.cells.len()
            invariant
                self.wf(),
                i <= self@.len(),
                rv == option_view(row),
                cv == option_view(col),
                acc == sum_counts(self@.take(i as int), rv, cv),
            decreases self@.len() - i,
        {
            proof {
                assert(self@.take(i as int + 1).drop_last() =~= self@.take(i as int));
                lemma_sum_prefix_le(self@, i as int + 1, rv, cv);
                lemma_sum_le_total(self@, rv, cv);
            }
            let cell = &self.cells[i];
            let in_row = match row {
                Some(x) => cell.row == *x,
                None => true,
            };
            let in_col = match col {
                Some(y) => cell.col == *y,
                None => true,
            };
            assert(self@[i as int] == cell@);
            assert(self@.take(i as int + 1).last() == cell@);
            assert((in_row && in_col) == selects(rv, cv, cell@));
            if in_row && in_col {
                acc = acc + cell.count;
            }
            i = i + 1;
        }
        assert(self@.take(self@.len() as int) =~= self@);
        acc
    }

    /// Count of the cell at row `row` and column `col`, zero where the
    /// table has no such cell.
    pub fn count(&self, row: &String, col: &String) -> (r: usize)
        requires
            self.wf(),
        ensures
            r == count_of(self@, row@, col@),
    {
        self.total_where(Some(row), Some(col))
    }

    /// Marginal total of row `row`.
    pub fn row_total(&self, row: &String) -> (r: usize)
        requires
            self.wf(),
        ensures
            r == row_sum(self@, row@),
    {
        self.total_where(Some(row), None)
    }

    /// Marginal total of column `col`.
    pub fn col_total(&self, col: &String) -> (r: usize)
        requires
            self.wf(),
        ensures
            r == col_sum(self@, col@),
    {
        self.total_where(None, Some(col))
    }

    /// Sum of all counts.
    pub fn grand_total(&self) -> (r: usize)
        requires
            self.wf(),
        ensures
            r == grand_sum(self@),
    {
        self.total_where(None, None)
    }

    fn categories(&self, by_row: bool) -> (r: Vec<String>)
        requires
            self.wf(),
        ensures
            string_views(r@).no_duplicates(),
            forall|x: Seq<char>|
                #[trigger] string_views(r@).contains(x) <==> key_among(
                    self@,
                    by_row,
                    self@.len() as int,
                    x,
                ),
    {
        let mut out: Vec<String> = Vec::new();
        let mut i: usize = 0;
        while i < self.cells.len()
            invariant
                i <= self@.len(),
                string_views(out@).no_duplicates(),
                forall|x: Seq<char>|
                    #[trigger] string_views(out@).contains(x) <==> key_among(
                        self@,
                        by_row,
                        i as int,
                        x,
                    ),
            decreases self@.len() - i,
        {
            let key: &String = if by_row {
                &self.cells[i].row
            } else {
                &self.cells[i].col
            };
            assert(key@ == key_of(self@[i as int], by_row));
            let ghost before = out@;
            if !string_list_contains(&out, key) {
                out.push(key.clone());
                proof {
                    let sv = string_views(before);
                    assert(string_views(out@) =~= sv.push(key@));
                    assert forall|x: Seq<char>| #[trigger]
                        string_views(out@).contains(x) <==> sv.contains(x) || x == key@ by {
                        if sv.contains(x) {
                            let k = choose|k: int| 0 <= k < sv.len() && sv[k] == x;
                            assert(string_views(out@)[k] == x);
                        }
                        if x == key@ {
                            assert(string_views(out@)[sv.len() as int] == x);
                        }
                    }
                }
            }
            assert(forall|x: Seq<char>| #[trigger]
                string_views(out@).contains(x) <==> string_views(before).contains(x) || x == key@);
            proof {
                assert forall|x: Seq<char>|
                    #[trigger] string_views(out@).contains(x) <==> key_among(
                        self@,
                        by_row,
                        i as int + 1,
                        x,
                    ) by {
                    if key_among(self@, by_row, i as int + 1, x) && x != key@ {
                        let k = choose|k: int|
                            0 <= k < i + 1 && #[trigger] key_of(self@[k], by_row) == x;
                        assert(key_among(self@, by_row, i as int, x));
                    }
                    if x == key@ {
                        assert(key_of(self@[i as int], by_row) == x);
                    }
                    if key_among(self@, by_row, i as int, x) {
                        let k = choose|k: int|
                            0 <= k < i && #[trigger] key_of(self@[k], by_row) == x;
                        assert(key_of(self@[k], by_row) == x);
                    }
                }
            }
            i = i + 1;
        }
        out
    }

    /// The distinct row categories, each once, in the order in which the
    /// table first saw them.
    pub fn row_categories(&self) -> (r: Vec<String>)
        requires
            self.wf(),
        ensures
            enumerates(string_views(r@), row_set(self@)),
    {
        let r = self.categories(true);
        assert forall|x: Seq<char>| #[trigger]
            string_views(r@).contains(x) <==> has_row(self@, x) by {
            if has_row(self@, x) {
                let i = choose|i: int| 0 <= i < self@.len() && self@[i].0 == x;
                assert(key_of(self@[i], true) == x);
            }
        }
        r
    }

    /// The distinct column categories, each once, in the order in which the
    /// table first saw them.
    pub fn col_categories(&self) -> (r: Vec<String>)
        requires
            self.wf(),
        ensures
            enumerates(string_views(r@), col_set(self@)),
    {
        let r = self.categories(false);
        assert forall|x: Seq<char>| #[trigger]
            string_views(r@).contains(x) <==> has_col(self@, x) by {
            if has_col(self@, x) {
                let i = choose|i: int| 0 <= i < self@.len() && self@[i].1 == x;
                assert(key_of(self@[i], false) == x);
            }
        }
        r
    }

    /// Prepares a chi-square test of independence on this table.
    ///
    /// Fails with `EmptyContingencyTable` when the counts sum to zero, and
    /// otherwise with `InvalidParameter` when there are fewer than two row
    /// categories or fewer than two column categories (the degrees of
    /// freedom would be zero).
    pub fn chi_square_design(&self) -> (r: Result<ChiSquareDesign, StatsError>)
        requires
            self.wf(),
        ensures
            (r matches Err(e) && e == StatsError::EmptyContingencyTable) <==> grand_sum(self@)
                == 0,
            (r matches Err(e) && e == StatsError::InvalidParameter) <==> grand_sum(self@) > 0 && (
            row_set(self@).len() < 2 || col_set(self@).len() < 2),
            r is Ok <==> grand_sum(self@) > 0 && row_set(self@).len() >= 2 && col_set(
                self@,
            ).len() >= 2,
            r matches Ok(d) ==> d.describes(self@) && d.distribution.valid(),
    {
        let total = self.grand_total();
        if total == 0 {
            return Err(StatsError::EmptyContingencyTable);
        }
        let rows = self.row_categories();
        let cols = self.col_categories();
        let nr = rows.len();
        let nc = cols.len();
        proof {
            let rv = string_views(rows@);
            let cv = string_views(cols@);
            assert(rv.to_set() =~= row_set(self@));
            assert(cv.to_set() =~= col_set(self@));
            rv.unique_seq_to_set();
            cv.unique_seq_to_set();
            assert(self@.len() > 0);
            assert(has_row(self@, self@[0].0));
            assert(has_col(self@, self@[0].1));
            assert(row_set(self@).contains(self@[0].0));
            assert(col_set(self@).contains(self@[0].1));
            assert(rv.contains(self@[0].0));
            assert(cv.contains(self@[0].1));
        }
        let mut cells: Vec<Vec<ExpectedCell>> = Vec::new();
        let mut i: usize = 0;
        while i < nr
            invariant
                self.wf(),
                nr == rows@.len(),
                nc == cols@.len(),
                i <= nr,
                cells@.len() == i,
                forall|a: int| 0 <= a < i ==> (#[trigger] cells@[a])@.len() == nc,
                forall|a: int, b: int|
                    0 <= a < i && 0 <= b < nc ==> (#[trigger] cells@[a]@[b])@ == margins_of(
                        self@,
                        string_views(rows@)[a],
                        string_views(cols@)[b],
                    ),
            decreases nr - i,
        {
            let mut line: Vec<ExpectedCell> = Vec::new();
            let mut j: usize = 0;
            while j < nc
                invariant
                    self.wf(),
                    nr == rows@.len(),
                    nc == cols@.len(),
                    i < nr,
                    j <= nc,
                    line@.len() == j,
                    forall|b: int|
                        0 <= b < j ==> (#[trigger] line@[b])@ == margins_of(
                            self@,
                            string_views(rows@)[i as int],
                            string_views(cols@)[b],
                        ),
                decreases nc - j,
            {
                let observed = self.count(&rows[i], &cols[j]);
                let row_total = self.row_total(&rows[i]);
                let col_total = self.col_total(&cols[j]);
                line.push(ExpectedCell { observed, row_total, col_total });
                j = j + 1;
            }
            cells.push(line);
            i = i + 1;
        }
        proof {
            assert(0 < nr && 0 < nc);
            assert((nr - 1) * (nc - 1) <= usize::MAX * usize::MAX) by (nonlinear_arith)
                requires
                    0 < nr <= usize::MAX,
                    0 < nc <= usize::MAX,
            ;
            assert(((nr - 1) * (nc - 1) == 0) == (nr < 2 || nc < 2)) by (nonlinear_arith)
                requires
                    0 < nr,
                    0 < nc,
            ;
        }
        let df: u128 = (nr - 1) as u128 * (nc - 1) as u128;
        match DistributionSpec::chi_squared(df) {
            Ok(distribution) => Ok(ChiSquareDesign { rows, cols, cells, grand_total: total, distribution }),
            Err(e) => Err(e),
        }
    }

    /// Adds `n` observations to the cell at row `row` and column `col`.
    pub fn add(&mut self, row: String, col: String, n: usize)
        requires
            old(self).wf(),
            grand_sum(old(self)@) + n <= usize::MAX,
        ensures
            final(self).wf(),
            grand_sum(final(self)@) == grand_sum(old(self)@) + n,
            forall|r: Seq<char>, c: Seq<char>|
                #[trigger] count_of(final(self)@, r, c) == count_of(old(self)@, r, c) + if r
                    == row@ && c == col@ {
                    n as nat
                } else {
                    0
                },
            forall|r: Seq<char>| #[trigger]
                has_row(final(self)@, r) <==> has_row(old(self)@, r) || r == row@,
            forall|c: Seq<char>| #[trigger]
                has_col(final(self)@, c) <==> has_col(old(self)@, c) || c == col@,
    {
        let ghost before = self@;
        let len = self.cells.len();
        let mut j: usize = 0;
        while j < len
            invariant
                len == self.cells@.len(),
                self@ == before,
                j <= len,
                forall|k: int| 0 <= k < j ==> !(#[trigger] before[k].0 == row@ && before[k].1 == col@),
            ensures
                self@ == before,
                j <= len,
                forall|k: int| 0 <= k < j ==> !(#[trigger] before[k].0 == row@ && before[k].1 == col@),
                j < len ==> before[j as int].0 == row@ && before[j as int].1 == col@,
            decreases len - j,
        {
            if self.cells[j].row == row && self.cells[j].col == col {
                break;
            }
            j = j + 1;
        }
        if j < len {
            let old_count = self.cells[j].count;
            proof {
                lemma_sum_update(before, j as int, (row@, col@, 0), None, None);
                lemma_sum_update(before, j as int, (row@, col@, (old_count + n) as nat), None, None);
            }
            self.cells[j].count = old_count + n;
            proof {
                let e = (row@, col@, (old_count + n) as nat);
                assert(self@ =~= before.update(j as int, e));
                assert forall|r: Seq<char>, c: Seq<char>|
                    #[trigger] count_of(self@, r, c) == count_of(before, r, c) + if r == row@ && c
                        == col@ {
                        n as nat
                    } else {
                        0
                    } by {
                    lemma_sum_update(before, j as int, e, Some(r), Some(c));
                }
                assert forall|r: Seq<char>| #[trigger]
                    has_row(self@, r) <==> has_row(before, r) || r == row@ by {
                    if r == row@ {
                        assert(self@[j as int].0 == r);
                    }
                    if has_row(before, r) {
                        let i = choose|i: int| 0 <= i < before.len() && before[i].0 == r;
                        assert(self@[i].0 == r);
                    }
                    if has_row(self@, r) {
                        let i = choose|i: int| 0 <= i < self@.len() && self@[i].0 == r;
                        assert(before[i].0 == r);
                    }
                }
                assert forall|c: Seq<char>| #[trigger]
                    has_col(self@, c) <==> has_col(before, c) || c == col@ by {
                    if c == col@ {
                        assert(self@[j as int].1 == c);
                    }
                    if has_col(before, c) {
                        let i = choose|i: int| 0 <= i < before.len() && before[i].1 == c;
                        assert(self@[i].1 == c);
                    }
                    if has_col(self@, c) {
                        let i = choose|i: int| 0 <= i < self@.len() && self@[i].1 == c;
                        assert(before[i].1 == c);
                    }
                }
            }
        } else {
            let ghost e = (row@, col@, n as nat);
            self.cells.push(TableCell { row, col, count: n });
            proof {
                assert(self@ =~= before.push(e));
                lemma_sum_push(before, e, None, None);
                assert forall|r: Seq<char>, c: Seq<char>|
                    #[trigger] count_of(self@, r, c) == count_of(before, r, c) + if r == e.0 && c
                        == e.1 {
                        n as nat
                    } else {
                        0
                    } by {
                    lemma_sum_push(before, e, Some(r), Some(c));
                }
                assert forall|r: Seq<char>| #[trigger]
                    has_row(self@, r) <==> has_row(before, r) || r == e.0 by {
                    if r == e.0 {
                        assert(self@[len as int].0 == r);
                    }
                    if has_row(before, r) {
                        let i = choose|i: int| 0 <= i < before.len() && before[i].0 == r;
                        assert(self@[i].0 == r);
                    }
                }
                assert forall|c: Seq<char>| #[trigger]
                    has_col(self@, c) <==> has_col(before, c) || c == e.1 by {
                    if c == e.1 {
                        assert(self@[len as int].1 == c);
                    }
                    if has_col(before, c) {
                        let i = choose|i: int| 0 <= i < before.len() && before[i].1 == c;
                        assert(self@[i].1 == c);
                    }
                }
            }
        }
    }
}

} // verus!
