//! A table of text cells, some of them colored.
use vstd::prelude::*;

verus! {

/// The colors a cell can have.
#[derive(Debug, Clone, Copy, PartialEq, Eq, Structural)]
pub enum TableCellColor {
    Red,
    Green,
    Yellow,
}

/// A cell: its text and, maybe, its color.
#[derive(Debug, Clone, PartialEq, Eq)]
pub struct TableCell {
    pub text: String,
    pub color: Option<TableCellColor>,
}

impl TableCell {
    pub fn no_color(text: String) -> (r: TableCell)
        ensures
            r.text == text,
            r.color is None,
    {
        TableCell { text, color: None }
    }

    pub fn with_color(text: String, color: TableCellColor) -> (r: TableCell)
        ensures
            r.text == text,
            r.color == Some(color),
    {
        TableCell { text, color: Some(color) }
    }
}

/// Rows of cells; the rows from `foot_index` on, when it is set, form a foot.
#[derive(Debug)]
pub struct Table {
    pub ncol: usize,
    pub rows: Vec<Vec<TableCell>>,
    pub foot_index: usize,
}

impl Table {
    /// Every row has `ncol` cells, and `ncol` is set once there is a row.
    pub open spec fn wf(&self) -> bool {
        &&& (self.rows@.len() > 0 ==> self.ncol > 0)
        &&& forall|i: int| 0 <= i < self.rows@.len() ==> (#[trigger] self.rows@[i])@.len() == self.ncol
    }

    pub fn with_capacity(size: usize) -> (t: Table)
        ensures
            t.ncol == 0,
            t.rows@.len() == 0,
            t.foot_index == 0,
            t.wf(),
    {
        Table { ncol: 0, rows: Vec::with_capacity(size), foot_index: 0 }
    }

    /// The rows added from now on form the foot.
    pub fn foot(&mut self)
        ensures
            final(self).foot_index == old(self).rows@.len(),
            final(self).rows == old(self).rows,
            final(self).ncol == old(self).ncol,
    {
        self.foot_index = self.rows.len();
    }

    /// Adds a row of uncolored cells.
    pub fn add(&mut self, row: Vec<String>)
        requires
            old(self).wf(),
            row@.len() > 0,
            old(self).ncol == 0 || row@.len() == old(self).ncol,
        ensures
            final(self).wf(),
            final(self).rows@.len() == old(self).rows@.len() + 1,
            final(self).rows@.drop_last() == old(self).rows@,
            final(self).rows@.last()@.len() == row@.len(),
            forall|j: int| 0 <= j < row@.len() ==> (#[trigger] final(self).rows@.last()@[j]) == TableCell::no_color_spec(row@[j]),
            final(self).ncol == row@.len(),
            final(self).foot_index == old(self).foot_index,
    {
        let mut cells: Vec<TableCell> = Vec::new();
        let ghost orig = row@;
        let n = row.len();
        let mut i: usize = 0;
        while i < n
            invariant
                i <= n,
                n == orig.len(),
                row@ == orig,
                cells@.len() == i,
                forall|j: int| 0 <= j < i ==> (#[trigger] cells@[j]) == TableCell::no_color_spec(orig[j]),
            decreases n - i,
        {
            let text = row[i].clone();
            cells.push(TableCell::no_color(text));
            i += 1;
        }
        self.add_color(cells);
    }

    /// Adds a row; the first row fixes the number of columns.
    pub fn add_color(&mut self, row: Vec<TableCell>)
        requires
            old(self).wf(),
            row@.len() > 0,
            old(self).ncol == 0 || row@.len() == old(self).ncol,
        ensures
            final(self).wf(),
            final(self).rows@ == old(self).rows@.push(row),
            final(self).ncol == row@.len(),
            final(self).foot_index == old(self).foot_index,
    {
        if self.ncol == 0 {
            self.ncol = row.len();
        }
        self.rows.push(row);
        assert forall|i: int| 0 <= i < self.rows@.len() implies (#[trigger] self.rows@[i])@.len() == self.ncol by {
            if i < self.rows@.len() - 1 {
                assert(self.rows@[i] == old(self).rows@[i]);
            }
        }
    }
}

impl TableCell {
    /// A cell with this text and no color.
    pub open spec fn no_color_spec(text: String) -> TableCell {
        TableCell { text, color: None }
    }
}

} // verus!
