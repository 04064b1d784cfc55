//! The witness table a step is synthesized into: one value column per
//! allocated column handle, one boolean column per selector, a list of
//! copy-equality constraints, and region bookkeeping.
//!
//! A region is a scoped batch of cell assignments; its rows are addressed by
//! an offset starting at 0 and land after every row an earlier region used.
//! Writing outside the table's declared row capacity is a synthesis error.

use vstd::prelude::*;
use vstd::pervasive::VecAdditionalExecFns;
use crate::FieldElem;
use crate::circuit::AdviceColumn;
use crate::circuit::ConstraintSystem;
use crate::circuit::FixedColumn;
use crate::circuit::Selector;

verus! {

/// A witness cell's content: a concrete field element, or the placeholder
/// used during shape analysis when no witness has been supplied.
#[derive(Clone, Copy, PartialEq, Eq, Structural, Debug)]
pub enum WitnessValue {
    Known(FieldElem),
    Unknown,
}

impl WitnessValue {
    /// Whether a concrete value has been supplied.
    pub open spec fn is_known(self) -> bool {
        self is Known
    }

    /// The concrete value; disabled or unknown cells read as zero.
    pub open spec fn value(self) -> FieldElem {
        match self {
            WitnessValue::Known(v) => v,
            WitnessValue::Unknown => 0,
        }
    }
}

/// Handle of a witness cell that has been assigned: enough to tie it to
/// other cells by copy equality and to hand it on as a step output.
#[derive(Clone, Copy, PartialEq, Eq, Structural, Debug)]
pub struct AssignedCell {
    pub column: AdviceColumn,
    pub row: usize,
    pub value: WitnessValue,
}

/// A recorded copy-equality constraint between two witness cells.
#[derive(Clone, Copy, PartialEq, Eq, Structural, Debug)]
pub struct CopyConstraint {
    pub from_column: AdviceColumn,
    pub from_row: usize,
    pub to_column: AdviceColumn,
    pub to_row: usize,
}

/// A failure while assigning cells into the table.
#[derive(Clone, Copy, PartialEq, Eq, Structural, Debug)]
pub enum SynthesisError {
    /// A cell was addressed at or past the table's declared row capacity.
    RowOutOfCapacity,
    /// A layout of one gate was handed to a step circuit of another kind.
    LayoutMismatch,
    /// The step's witness sequences do not all have the circuit's length.
    WitnessLengthMismatch,
}

/// A scoped batch of assignments; `start` is the absolute row its offset 0
/// addresses.
#[derive(Clone, Copy, PartialEq, Eq, Structural, Debug)]
pub struct Region {
    pub start: usize,
}

/// The witness/constant table of one synthesized circuit.
pub struct Table {
    /// Declared row capacity; no cell may be addressed at or past it.
    pub capacity: usize,
    /// One column of witness cells per allocated advice column.
    pub advice: Vec<Vec<WitnessValue>>,
    /// One column of constants per allocated fixed column.
    pub fixed: Vec<Vec<FieldElem>>,
    /// One boolean enable column per allocated selector.
    pub selectors: Vec<Vec<bool>>,
    /// Copy-equality constraints recorded so far.
    pub copies: Vec<CopyConstraint>,
    /// High-water mark of assigned rows; the next region starts here.
    pub rows_used: usize,
}

impl Table {
    /// Every column holds exactly `capacity` rows and the region high-water
    /// mark has not passed the capacity.
    pub open spec fn wf(self) -> bool {
        &&& forall|c: int|
            0 <= c < self.advice@.len() ==> (#[trigger] self.advice@[c])@.len() == self.capacity
        &&& forall|c: int|
            0 <= c < self.fixed@.len() ==> (#[trigger] self.fixed@[c])@.len() == self.capacity
        &&& forall|c: int|
            0 <= c < self.selectors@.len() ==> (#[trigger] self.selectors@[c])@.len()
                == self.capacity
        &&& self.rows_used <= self.capacity
    }

    /// No region has used a row yet and every selector is still disabled:
    /// the state a step circuit's synthesis starts from.
    pub open spec fn fresh(self) -> bool {
        &&& self.rows_used == 0
        &&& forall|c: int, i: int|
            0 <= c < self.selectors@.len() && 0 <= i < self.capacity
                ==> (#[trigger] self.selectors@[c]@[i]) == false
    }

    /// The table has one column per handle the shape allocated.
    pub open spec fn matches_shape(self, cs: ConstraintSystem) -> bool {
        &&& self.advice@.len() == cs.num_advice
        &&& self.fixed@.len() == cs.num_fixed
        &&& self.selectors@.len() == cs.num_selectors
    }

    /// The witness cell at a column handle and absolute row.
    pub open spec fn advice_at(self, col: AdviceColumn, row: int) -> WitnessValue {
        self.advice@[col.index as int]@[row]
    }

    /// The constant at a fixed column handle and absolute row.
    pub open spec fn fixed_at(self, col: FixedColumn, row: int) -> FieldElem {
        self.fixed@[col.index as int]@[row]
    }

    /// Whether a selector is enabled at an absolute row.
    pub open spec fn selector_at(self, sel: Selector, row: int) -> bool {
        self.selectors@[sel.index as int]@[row]
    }

    /// A fresh table for a shape: every witness cell unknown, every constant
    /// zero, every selector disabled, no copies, no rows used.
    pub fn new(cs: &ConstraintSystem, capacity: usize) -> (r: Table)
        ensures
            r.wf(),
            r.matches_shape(*cs),
            r.capacity == capacity,
            r.rows_used == 0,
            r.copies@ =~= Seq::<CopyConstraint>::empty(),
            forall|c: int, i: int|
                0 <= c < cs.num_advice && 0 <= i < capacity ==> r.advice@[c]@[i]
                    == WitnessValue::Unknown,
            forall|c: int, i: int|
                0 <= c < cs.num_fixed && 0 <= i < capacity ==> r.fixed@[c]@[i] == 0,
            forall|c: int, i: int|
                0 <= c < cs.num_selectors && 0 <= i < capacity ==> r.selectors@[c]@[i] == false,
    {
        let mut advice: Vec<Vec<WitnessValue>> = Vec::new();
        let mut fixed: Vec<Vec<FieldElem>> = Vec::new();
        let mut selectors: Vec<Vec<bool>> = Vec::new();
        let mut c: usize = 0;
        while c < cs.num_advice
            invariant
                advice@.len() == c,
                c <= cs.num_advice,
                forall|j: int|
                    0 <= j < c ==> (#[trigger] advice@[j])@.len() == capacity,
                forall|j: int, i: int|
                    0 <= j < c && 0 <= i < capacity ==> advice@[j]@[i] == WitnessValue::Unknown,
            decreases cs.num_advice - c,
        {
            advice.push(unknown_column(capacity));
            c = c + 1;
        }
        let mut c: usize = 0;
        while c < cs.num_fixed
            invariant
                fixed@.len() == c,
                c <= cs.num_fixed,
                forall|j: int|
                    0 <= j < c ==> (#[trigger] fixed@[j])@.len() == capacity,
                forall|j: int, i: int|
                    0 <= j < c && 0 <= i < capacity ==> fixed@[j]@[i] == 0,
            decreases cs.num_fixed - c,
        {
            fixed.push(zero_column(capacity));
            c = c + 1;
        }
        let mut c: usize = 0;
        while c < cs.num_selectors
            invariant
                selectors@.len() == c,
                c <= cs.num_selectors,
                forall|j: int|
                    0 <= j < c ==> (#[trigger] selectors@[j])@.len() == capacity,
                forall|j: int, i: int|
                    0 <= j < c && 0 <= i < capacity ==> selectors@[j]@[i] == false,
            decreases cs.num_selectors - c,
        {
            selectors.push(disabled_column(capacity));
            c = c + 1;
        }
        Table { capacity, advice, fixed, selectors, copies: Vec::new(), rows_used: 0 }
    }

    /// Open a region right after every row an earlier region used.
    pub fn open_region(&self) -> (r: Region)
        ensures
            r.start == self.rows_used,
    {
        Region { start: self.rows_used }
    }

    /// Whether an offset of a region addresses a row inside the capacity.
    pub open spec fn row_in_capacity(self, region: Region, offset: int) -> bool {
        region.start + offset < self.capacity
    }

    /// Everything but the named advice column, the copies and the row mark
    /// is unchanged.
    pub open spec fn same_but_advice_col(self, other: Table, col: AdviceColumn) -> bool {
        &&& self.capacity == other.capacity
        &&& self.advice@.len() == other.advice@.len()
        &&& forall|c: int|
            0 <= c < self.advice@.len() && c != col.index ==> #[trigger] self.advice@[c]
                == other.advice@[c]
        &&& self.fixed@ == other.fixed@
        &&& self.selectors@ == other.selectors@
    }

    /// Assign a witness value into an advice column at a region offset.
    pub fn assign_advice(
        &mut self,
        region: Region,
        col: AdviceColumn,
        offset: usize,
        v: WitnessValue,
    ) -> (r: Result<AssignedCell, SynthesisError>)
        requires
            old(self).wf(),
            col.index < old(self).advice@.len(),
        ensures
            final(self).wf(),
            match r {
                Ok(cell) => {
                    &&& old(self).row_in_capacity(region, offset as int)
                    &&& cell.column == col
                    &&& cell.row == region.start + offset
                    &&& cell.value == v
                    &&& final(self).advice@[col.index as int]@ == old(
                        self,
                    ).advice@[col.index as int]@.update(cell.row as int, v)
                    &&& final(self).same_but_advice_col(*old(self), col)
                    &&& final(self).copies@ == old(self).copies@
                    &&& final(self).rows_used == max_usize(
                        old(self).rows_used as int,
                        cell.row + 1,
                    )
                },
                Err(e) => {
                    &&& e == SynthesisError::RowOutOfCapacity
                    &&& !old(self).row_in_capacity(region, offset as int)
                    &&& *final(self) == *old(self)
                },
            },
    {
        if region.start >= self.capacity || offset >= self.capacity - region.start {
            return Err(SynthesisError::RowOutOfCapacity);
        }
        let row = region.start + offset;
        let column = &mut self.advice[col.index];
        column.set(row, v);
        if row + 1 > self.rows_used {
            self.rows_used = row + 1;
        }
        Ok(AssignedCell { column: col, row, value: v })
    }

    /// Assign a constant into a fixed column at a region offset.
    pub fn assign_fixed(
        &mut self,
        region: Region,
        col: FixedColumn,
        offset: usize,
        v: FieldElem,
    ) -> (r: Result<(), SynthesisError>)
        requires
            old(self).wf(),
            col.index < old(self).fixed@.len(),
        ensures
            final(self).wf(),
            match r {
                Ok(_) => {
                    &&& old(self).row_in_capacity(region, offset as int)
                    &&& final(self).fixed@[col.index as int]@ == old(
                        self,
                    ).fixed@[col.index as int]@.update(region.start + offset, v)
                    &&& forall|c: int|
                        0 <= c < old(self).fixed@.len() && c != col.index
                            ==> #[trigger] final(self).fixed@[c] == old(self).fixed@[c]
                    &&& final(self).fixed@.len() == old(self).fixed@.len()
                    &&& final(self).advice@ == old(self).advice@
                    &&& final(self).selectors@ == old(self).selectors@
                    &&& final(self).copies@ == old(self).copies@
                    &&& final(self).capacity == old(self).capacity
                    &&& final(self).rows_used == max_usize(
                        old(self).rows_used as int,
                        region.start + offset + 1,
                    )
                },
                Err(e) => {
                    &&& e == SynthesisError::RowOutOfCapacity
                    &&& !old(self).row_in_capacity(region, offset as int)
                    &&& *final(self) == *old(self)
                },
            },
    {
        if region.start >= self.capacity || offset >= self.capacity - region.start {
            return Err(SynthesisError::RowOutOfCapacity);
        }
        let row = region.start + offset;
        let column = &mut self.fixed[col.index];
        column.set(row, v);
        if row + 1 > self.rows_used {
            self.rows_used = row + 1;
        }
        Ok(())
    }

    /// Enable a selector at a region offset.
    pub fn enable_selector(&mut self, region: Region, sel: Selector, offset: usize) -> (r: Result<
        (),
        SynthesisError,
    >)
        requires
            old(self).wf(),
            sel.index < old(self).selectors@.len(),
        ensures
            final(self).wf(),
            match r {
                Ok(_) => {
                    &&& old(self).row_in_capacity(region, offset as int)
                    &&& final(self).selectors@[sel.index as int]@ == old(
                        self,
                    ).selectors@[sel.index as int]@.update(region.start + offset, true)
                    &&& forall|c: int|
                        0 <= c < old(self).selectors@.len() && c != sel.index
                            ==> #[trigger] final(self).selectors@[c] == old(self).selectors@[c]
                    &&& final(self).selectors@.len() == old(self).selectors@.len()
                    &&& final(self).advice@ == old(self).advice@
                    &&& final(self).fixed@ == old(self).fixed@
                    &&& final(self).copies@ == old(self).copies@
                    &&& final(self).capacity == old(self).capacity
                    &&& final(self).rows_used == max_usize(
                        old(self).rows_used as int,
                        region.start + offset + 1,
                    )
                },
                Err(e) => {
                    &&& e == SynthesisError::RowOutOfCapacity
                    &&& !old(self).row_in_capacity(region, offset as int)
                    &&& *final(self) == *old(self)
                },
            },
    {
        if region.start >= self.capacity || offset >= self.capacity - region.start {
            return Err(SynthesisError::RowOutOfCapacity);
        }
        let row = region.start + offset;
        let column = &mut self.selectors[sel.index];
        column.set(row, true);
        if row + 1 > self.rows_used {
            self.rows_used = row + 1;
        }
        Ok(())
    }

    /// Copy an already-assigned cell into an advice column at a region
    /// offset: the target takes the source's value and an equality between
    /// the two cells is recorded, rather than a fresh witness being created.
    pub fn copy_advice(
        &mut self,
        region: Region,
        cell: &AssignedCell,
        col: AdviceColumn,
        offset: usize,
    ) -> (r: Result<AssignedCell, SynthesisError>)
        requires
            old(self).wf(),
            col.index < old(self).advice@.len(),
        ensures
            final(self).wf(),
            match r {
                Ok(target) => {
                    &&& old(self).row_in_capacity(region, offset as int)
                    &&& target.column == col
                    &&& target.row == region.start + offset
                    &&& target.value == cell.value
                    &&& final(self).advice@[col.index as int]@ == old(
                        self,
                    ).advice@[col.index as int]@.update(target.row as int, cell.value)
                    &&& final(self).same_but_advice_col(*old(self), col)
                    &&& final(self).copies@ == old(self).copies@.push(
                        CopyConstraint {
                            from_column: cell.column,
                            from_row: cell.row,
                            to_column: col,
                            to_row: target.row,
                        },
                    )
                    &&& final(self).rows_used == max_usize(
                        old(self).rows_used as int,
                        target.row + 1,
                    )
                },
                Err(e) => {
                    &&& e == SynthesisError::RowOutOfCapacity
                    &&& !old(self).row_in_capacity(region, offset as int)
                    &&& *final(self) == *old(self)
                },
            },
    {
        if region.start >= self.capacity || offset >= self.capacity - region.start {
            return Err(SynthesisError::RowOutOfCapacity);
        }
        let row = region.start + offset;
        let column = &mut self.advice[col.index];
        column.set(row, cell.value);
        self.copies.push(
            CopyConstraint {
                from_column: cell.column,
                from_row: cell.row,
                to_column: col,
                to_row: row,
            },
        );
        if row + 1 > self.rows_used {
            self.rows_used = row + 1;
        }
        Ok(AssignedCell { column: col, row, value: cell.value })
    }
}

/// The larger of a row mark and a freshly assigned row bound.
pub open spec fn max_usize(a: int, b: int) -> int {
    if a >= b {
        a
    } else {
        b
    }
}

/// A column of `capacity` unknown witness cells.
fn unknown_column(capacity: usize) -> (r: Vec<WitnessValue>)
    ensures
        r@.len() == capacity,
        forall|i: int| 0 <= i < capacity ==> r@[i] == WitnessValue::Unknown,
{
    let mut col: Vec<WitnessValue> = Vec::new();
    let mut i: usize = 0;
    while i < capacity
        invariant
            col@.len() == i,
            i <= capacity,
            forall|j: int| 0 <= j < i ==> col@[j] == WitnessValue::Unknown,
        decreases capacity - i,
    {
        col.push(WitnessValue::Unknown);
        i = i + 1;
    }
    col
}

/// A column of `capacity` zero constants.
fn zero_column(capacity: usize) -> (r: Vec<FieldElem>)
    ensures
        r@.len() == capacity,
        forall|i: int| 0 <= i < capacity ==> r@[i] == 0,
{
    let mut col: Vec<FieldElem> = Vec::new();
    let mut i: usize = 0;
    while i < capacity
        invariant
            col@.len() == i,
            i <= capacity,
            forall|j: int| 0 <= j < i ==> col@[j] == 0,
        decreases capacity - i,
    {
        col.push(0);
        i = i + 1;
    }
    col
}

/// A column of `capacity` disabled selector flags.
fn disabled_column(capacity: usize) -> (r: Vec<bool>)
    ensures
        r@.len() == capacity,
        forall|i: int| 0 <= i < capacity ==> r@[i] == false,
{
    let mut col: Vec<bool> = Vec::new();
    let mut i: usize = 0;
    while i < capacity
        invariant
            col@.len() == i,
            i <= capacity,
            forall|j: int| 0 <= j < i ==> col@[j] == false,
        decreases capacity - i,
    {
        col.push(false);
        i = i + 1;
    }
    col
}

} // verus!
