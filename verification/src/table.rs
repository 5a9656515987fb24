//! Tables: rows of cells, column alignment and column widths.

use crate::paragraph::{Length, Paragraph, ParagraphView};
use vstd::prelude::*;

verus! {

/// How the cells of a column are aligned.
#[derive(Clone, Copy, Debug, PartialEq, Eq, Structural)]
pub enum TableColumnAlign {
    Left,
    Center,
    Right,
}

impl Default for TableColumnAlign {
    fn default() -> (r: Self)
        ensures
            r == TableColumnAlign::Left,
    {
        TableColumnAlign::Left
    }
}

/// The alignment that the source text of a table asks for in a column.
#[derive(Clone, Copy, Debug, PartialEq, Eq, Structural)]
pub enum AlignKind {
    Left,
    Right,
    Center,
    Unset,
}

impl TableColumnAlign {
    /// The alignment of a column whose source asks for `kind`: a column
    /// without a wish is aligned left.
    pub open spec fn of(kind: AlignKind) -> TableColumnAlign {
        match kind {
            AlignKind::Unset => TableColumnAlign::Left,
            AlignKind::Left => TableColumnAlign::Left,
            AlignKind::Center => TableColumnAlign::Center,
            AlignKind::Right => TableColumnAlign::Right,
        }
    }
}

impl From<AlignKind> for TableColumnAlign {
    fn from(value: AlignKind) -> (r: Self) {
        match value {
            AlignKind::Unset => TableColumnAlign::Left,
            AlignKind::Left => TableColumnAlign::Left,
            AlignKind::Center => TableColumnAlign::Center,
            AlignKind::Right => TableColumnAlign::Right,
        }
    }
}

impl vstd::std_specs::convert::FromSpecImpl<AlignKind> for TableColumnAlign {
    open spec fn obeys_from_spec() -> bool {
        true
    }

    open spec fn from_spec(value: AlignKind) -> Self {
        TableColumnAlign::of(value)
    }
}

/// One cell of a table.
#[derive(Debug, PartialEq)]
pub struct TableCell {
    pub children: Paragraph,
    pub width: Option<Length>,
}

/// One row of a table.
#[derive(Debug, PartialEq)]
pub struct TableRow {
    pub children: Vec<TableCell>,
}

/// A table. Rows need not be equally long.
#[derive(Debug, PartialEq)]
pub struct Table {
    pub children: Vec<TableRow>,
    pub column_aligns: Vec<TableColumnAlign>,
}

/// What a [`TableCell`] holds.
pub struct TableCellView {
    pub children: ParagraphView,
    pub width: Option<Length>,
}

/// What a [`Table`] holds: its rows, each a sequence of cells, and the
/// alignment of its columns.
pub struct TableView {
    pub rows: Seq<Seq<TableCellView>>,
    pub column_aligns: Seq<TableColumnAlign>,
}

impl View for TableCell {
    type V = TableCellView;

    open spec fn view(&self) -> TableCellView {
        TableCellView { children: self.children@, width: self.width }
    }
}

impl View for TableRow {
    type V = Seq<TableCellView>;

    open spec fn view(&self) -> Seq<TableCellView> {
        self.children@.map_values(|c: TableCell| c@)
    }
}

impl View for Table {
    type V = TableView;

    open spec fn view(&self) -> TableView {
        TableView {
            rows: self.children@.map_values(|r: TableRow| r@),
            column_aligns: self.column_aligns@,
        }
    }
}

impl Clone for TableCell {
    fn clone(&self) -> (r: Self)
        ensures
            r@ == self@,
    {
        TableCell { children: self.children.clone(), width: self.width }
    }
}

impl Clone for TableRow {
    fn clone(&self) -> (r: Self)
        ensures
            r@ == self@,
    {
        let mut out: Vec<TableCell> = Vec::new();
        let mut i: usize = 0;
        while i < self.children.len()
            invariant
                i <= self.children.len(),
                out@.len() == i,
                forall|j: int| 0 <= j < i ==> (#[trigger] out@[j])@ == self.children@[j]@,
            decreases self.children.len() - i,
        {
            out.push(self.children[i].clone());
            i += 1;
        }
        let r = TableRow { children: out };
        proof {
            assert(r@ =~= self@);
        }
        r
    }
}

impl Clone for Table {
    fn clone(&self) -> (r: Self)
        ensures
            r@ == self@,
    {
        let mut rows: Vec<TableRow> = Vec::new();
        let mut i: usize = 0;
        while i < self.children.len()
            invariant
                i <= self.children.len(),
                rows@.len() == i,
                forall|k: int| 0 <= k < i ==> (#[trigger] rows@[k])@ == self.children@[k]@,
            decreases self.children.len() - i,
        {
            rows.push(self.children[i].clone());
            i += 1;
        }
        let mut aligns: Vec<TableColumnAlign> = Vec::new();
        let mut j: usize = 0;
        while j < self.column_aligns.len()
            invariant
                j <= self.column_aligns.len(),
                aligns@ == self.column_aligns@.take(j as int),
            decreases self.column_aligns.len() - j,
        {
            aligns.push(self.column_aligns[j]);
            proof {
                assert(aligns@ =~= self.column_aligns@.take(j + 1));
            }
            j += 1;
        }
        let r = Table { children: rows, column_aligns: aligns };
        proof {
            assert(self.column_aligns@.take(self.column_aligns@.len() as int)
                =~= self.column_aligns@);
            assert(r@.rows =~= self@.rows);
        }
        r
    }
}

impl Default for TableCell {
    fn default() -> (r: Self)
        ensures
            r@ == (TableCellView { children: ParagraphView::empty(), width: None }),
    {
        TableCell { children: Paragraph::default(), width: None }
    }
}

impl Default for TableRow {
    fn default() -> (r: Self)
        ensures
            r@ == Seq::<TableCellView>::empty(),
    {
        let r = TableRow { children: Vec::new() };
        proof {
            assert(r@ =~= Seq::<TableCellView>::empty());
        }
        r
    }
}

impl Default for Table {
    fn default() -> (r: Self)
        ensures
            r@.rows == Seq::<Seq<TableCellView>>::empty(),
            r@.column_aligns == Seq::<TableColumnAlign>::empty(),
    {
        let r = Table { children: Vec::new(), column_aligns: Vec::new() };
        proof {
            assert(r@.rows =~= Seq::<Seq<TableCellView>>::empty());
        }
        r
    }
}

impl Table {
    /// The alignment of column `index`: left where the table names none.
    pub fn column_align(&self, index: usize) -> (r: TableColumnAlign)
        ensures
            r == self@.column_align(index as int),
    {
        if index < self.column_aligns.len() {
            self.column_aligns[index]
        } else {
            TableColumnAlign::Left
        }
    }
}

impl TableView {
    /// The alignment of column `index`: left where the table names none.
    pub open spec fn column_align(self, index: int) -> TableColumnAlign {
        if 0 <= index < self.column_aligns.len() {
            self.column_aligns[index]
        } else {
            TableColumnAlign::Left
        }
    }
}

/// The width of a column in which no cell is longer.
pub const DEFAULT_LENGTH: usize = 5;

/// The widest that a column is drawn.
pub const MAX_LENGTH: usize = 150;

/// The number of columns of a table: the length of its longest row.
pub open spec fn column_count(rows: Seq<Seq<TableCellView>>) -> nat
    decreases rows.len(),
{
    if rows.len() == 0 {
        0
    } else {
        let rest = column_count(rows.drop_last());
        if rows.last().len() > rest {
            rows.last().len()
        } else {
            rest
        }
    }
}

/// The width of column `c`: the length of the longest text among its cells,
/// and at least [`DEFAULT_LENGTH`]. It is not capped.
pub open spec fn column_width(rows: Seq<Seq<TableCellView>>, c: int) -> nat
    decreases rows.len(),
{
    if rows.len() == 0 {
        DEFAULT_LENGTH as nat
    } else {
        let rest = column_width(rows.drop_last(), c);
        let row = rows.last();
        if 0 <= c < row.len() && row[c].children.text_len() > rest {
            row[c].children.text_len()
        } else {
            rest
        }
    }
}

/// The width at which column `ix` is drawn: its stored width, capped at
/// [`MAX_LENGTH`]; a column that has no stored width is drawn at the cap.
pub open spec fn shown_width(widths: Seq<usize>, ix: int) -> usize {
    if 0 <= ix < widths.len() && widths[ix] < MAX_LENGTH {
        widths[ix]
    } else {
        MAX_LENGTH
    }
}

/// A column that no row reaches has the default width.
pub proof fn lemma_unseen_column(rows: Seq<Seq<TableCellView>>, c: int)
    requires
        c >= column_count(rows),
    ensures
        column_width(rows, c) == DEFAULT_LENGTH,
    decreases rows.len(),
{
    if rows.len() > 0 {
        lemma_unseen_column(rows.drop_last(), c);
    }
}

/// How one cell of a table is drawn.
#[derive(Clone, Copy, Debug, PartialEq, Eq, Structural)]
pub struct CellLayout {
    pub align: TableColumnAlign,
    /// The share of the row's width that the cell takes, against the other
    /// cells of the row.
    pub width: usize,
    /// Whether a line parts the cell from the next one.
    pub border_right: bool,
}

/// How one row of a table is drawn.
#[derive(Debug, PartialEq)]
pub struct RowLayout {
    /// Whether a line parts the row from the next one.
    pub border_bottom: bool,
    pub cells: Vec<CellLayout>,
}

/// How a table is drawn.
#[derive(Debug, PartialEq)]
pub struct TableLayout {
    /// The stored width of each column, uncapped.
    pub widths: Vec<usize>,
    pub rows: Vec<RowLayout>,
}

impl TableView {
    /// Whether `widths` holds the width of every column of the table.
    pub open spec fn has_widths(self, widths: Seq<usize>) -> bool {
        &&& widths.len() == column_count(self.rows)
        &&& forall|c: int|
            0 <= c < widths.len() ==> #[trigger] widths[c] == column_width(self.rows, c)
    }

    /// How the cell in column `c` of a row of `len` cells is drawn.
    pub open spec fn cell_layout(self, widths: Seq<usize>, len: nat, c: int) -> CellLayout {
        CellLayout {
            align: self.column_align(c),
            width: shown_width(widths, c),
            border_right: c + 1 < len,
        }
    }

    /// Whether `layout` is how the table is drawn: every column at its
    /// width, a line after every row but the last and after every cell but
    /// the last of its row.
    pub open spec fn laid_out(self, layout: TableLayout) -> bool {
        &&& self.has_widths(layout.widths@)
        &&& layout.rows@.len() == self.rows.len()
        &&& forall|r: int|
            0 <= r < self.rows.len() ==> {
                &&& (#[trigger] layout.rows@[r]).border_bottom == (r + 1 < self.rows.len())
                &&& layout.rows@[r].cells@.len() == self.rows[r].len()
                &&& forall|c: int|
                    0 <= c < self.rows[r].len() ==> #[trigger] layout.rows@[r].cells@[c]
                        == self.cell_layout(layout.widths@, self.rows[r].len(), c)
            }
    }
}

/// The width at which column `ix` is drawn. See [`shown_width`].
pub fn display_width(widths: &Vec<usize>, ix: usize) -> (r: usize)
    ensures
        r == shown_width(widths@, ix as int),
        r <= MAX_LENGTH,
{
    if ix < widths.len() && widths[ix] < MAX_LENGTH {
        widths[ix]
    } else {
        MAX_LENGTH
    }
}

/// Whether a line is drawn after entry `ix` of `len`: after each but the last.
pub fn border_after(ix: usize, len: usize) -> (r: bool)
    ensures
        r == (ix + 1 < len),
{
    len > 0 && ix < len - 1
}

impl Table {
    /// The stored width of every column. Rows may differ in length: there
    /// are as many columns as the longest row has cells.
    pub fn column_widths(&self) -> (widths: Vec<usize>)
        ensures
            self@.has_widths(widths@),
    {
        let ghost rows = self@.rows;
        let mut widths: Vec<usize> = Vec::new();
        let mut r: usize = 0;
        while r < self.children.len()
            invariant
                r <= self.children.len(),
                rows == self@.rows,
                widths@.len() == column_count(rows.take(r as int)),
                forall|c: int|
                    0 <= c < widths@.len() ==> #[trigger] widths@[c] == column_width(
                        rows.take(r as int),
                        c,
                    ),
            decreases self.children.len() - r,
        {
            let row = &self.children[r];
            let ghost seen = rows.take(r as int);
            let ghost upto = rows.take(r + 1);
            proof {
                assert(upto.drop_last() =~= seen);
                assert(upto.last() == row@);
            }
            let mut ix: usize = 0;
            while ix < row.children.len()
                invariant
                    ix <= row.children.len(),
                    upto.len() > 0,
                    upto.drop_last() == seen,
                    upto.last() == row@,
                    widths@.len() == if ix > column_count(seen) {
                        ix as nat
                    } else {
                        column_count(seen)
                    },
                    forall|c: int|
                        0 <= c < widths@.len() ==> #[trigger] widths@[c] == if c < ix {
                            column_width(upto, c)
                        } else {
                            column_width(seen, c)
                        },
                decreases row.children.len() - ix,
            {
                if widths.len() <= ix {
                    proof {
                        lemma_unseen_column(seen, ix as int);
                    }
                    widths.push(DEFAULT_LENGTH);
                }
                let len = row.children[ix].children.text_len();
                proof {
                    assert(row@[ix as int] == row.children@[ix as int]@);
                }
                if len > widths[ix] {
                    widths.set(ix, len);
                }
                ix += 1;
            }
            r += 1;
        }
        proof {
            assert(rows.take(self.children@.len() as int) =~= rows);
        }
        widths
    }

    /// How the table is drawn. See [`TableView::laid_out`].
    pub fn layout(&self) -> (layout: TableLayout)
        ensures
            self@.laid_out(layout),
    {
        let widths = self.column_widths();
        let mut rows: Vec<RowLayout> = Vec::new();
        let mut r: usize = 0;
        while r < self.children.len()
            invariant
                r <= self.children.len(),
                rows@.len() == r,
                forall|k: int|
                    0 <= k < r ==> {
                        &&& (#[trigger] rows@[k]).border_bottom == (k + 1 < self@.rows.len())
                        &&& rows@[k].cells@.len() == self@.rows[k].len()
                        &&& forall|c: int|
                            0 <= c < self@.rows[k].len() ==> #[trigger] rows@[k].cells@[c]
                                == self@.cell_layout(widths@, self@.rows[k].len(), c)
                    },
            decreases self.children.len() - r,
        {
            let row = &self.children[r];
            let n = row.children.len();
            let mut cells: Vec<CellLayout> = Vec::new();
            let mut ix: usize = 0;
            while ix < n
                invariant
                    ix <= n,
                    n == row@.len(),
                    cells@.len() == ix,
                    forall|c: int|
                        0 <= c < ix ==> #[trigger] cells@[c] == self@.cell_layout(
                            widths@,
                            n as nat,
                            c,
                        ),
                decreases n - ix,
            {
                cells.push(
                    CellLayout {
                        align: self.column_align(ix),
                        width: display_width(&widths, ix),
                        border_right: border_after(ix, n),
                    },
                );
                ix += 1;
            }
            rows.push(RowLayout { border_bottom: border_after(r, self.children.len()), cells });
            r += 1;
        }
        TableLayout { widths, rows }
    }
}

/// A column is stored at no less than the default width and at no less than
/// the text of any of its cells.
pub proof fn column_width_is_a_maximum(rows: Seq<Seq<TableCellView>>, c: int)
    ensures
        column_width(rows, c) >= DEFAULT_LENGTH,
        forall|r: int|
            0 <= r < rows.len() && 0 <= c < (#[trigger] rows[r]).len()
                ==> rows[r][c].children.text_len() <= column_width(rows, c),
    decreases rows.len(),
{
    if rows.len() > 0 {
        let front = rows.drop_last();
        column_width_is_a_maximum(front, c);
        assert forall|r: int|
            0 <= r < rows.len() && 0 <= c < (#[trigger] rows[r]).len()
            implies rows[r][c].children.text_len() <= column_width(rows, c)
        by {
            if r < rows.len() - 1 {
                assert(front[r] == rows[r]);
            }
        }
    }
}

/// A column is drawn at its stored width where that is below the cap, and at
/// the cap otherwise; a column without a stored width is drawn at the cap.
pub proof fn shown_width_is_capped(widths: Seq<usize>, ix: int)
    ensures
        shown_width(widths, ix) <= MAX_LENGTH,
        0 <= ix < widths.len() && widths[ix] <= MAX_LENGTH ==> shown_width(widths, ix)
            == widths[ix],
        0 <= ix < widths.len() && widths[ix] >= MAX_LENGTH ==> shown_width(widths, ix)
            == MAX_LENGTH,
        !(0 <= ix < widths.len()) ==> shown_width(widths, ix) == MAX_LENGTH,
{
}

} // verus!
