//! The playfield as a mathematical value: rows of cells, what it means for a
//! row to be empty or full, and what clearing and compacting make of a grid.

use vstd::prelude::*;

verus! {

/// Columns of the playfield.
pub const GRID_WIDTH: usize = 10;

/// Rows of the playfield.
pub const GRID_HEIGHT: usize = 20;

/// One cell of the playfield. The color of a cell that is not set is 0.
#[derive(Debug, Clone, Copy, PartialEq, Eq, Structural)]
pub struct BlockState {
    pub set: bool,
    pub color: u32,
}

/// A row of the playfield, left to right.
pub type Row = Seq<BlockState>;

/// The playfield, top row first.
pub type Rows = Seq<Seq<BlockState>>;

/// The cell that nothing occupies.
pub open spec fn empty_block() -> BlockState {
    BlockState { set: false, color: 0 }
}

/// The row that nothing occupies.
pub open spec fn empty_row() -> Row {
    Seq::new(GRID_WIDTH as nat, |c: int| empty_block())
}

/// The playfield that nothing occupies.
pub open spec fn empty_rows() -> Rows {
    Seq::new(GRID_HEIGHT as nat, |r: int| empty_row())
}

/// A row of the right width in which every cell that is not set has color 0.
pub open spec fn row_well_formed(row: Row) -> bool {
    &&& row.len() == GRID_WIDTH
    &&& forall|c: int| 0 <= c < row.len() ==> !(#[trigger] row[c]).set ==> row[c].color == 0
}

/// Rows that are each well formed, in any number.
pub open spec fn rows_well_formed(rows: Rows) -> bool {
    forall|r: int| 0 <= r < rows.len() ==> row_well_formed(#[trigger] rows[r])
}

/// No cell of the row is set.
pub open spec fn row_is_empty(row: Row) -> bool {
    forall|c: int| 0 <= c < row.len() ==> !(#[trigger] row[c]).set
}

/// Every cell of the row is set.
pub open spec fn row_is_full(row: Row) -> bool {
    forall|c: int| 0 <= c < row.len() ==> (#[trigger] row[c]).set
}

/// The rows in which some cell is set, in their order.
pub open spec fn kept(rows: Rows) -> Rows {
    rows.filter(|row: Row| !row_is_empty(row))
}

/// `n` empty rows.
pub open spec fn padding(n: int) -> Rows {
    Seq::new(n as nat, |r: int| empty_row())
}

/// The rows in which some cell is set, in their order, at the bottom, and
/// empty rows above them.
pub open spec fn compacted(rows: Rows) -> Rows {
    padding(rows.len() - kept(rows).len()) + kept(rows)
}

/// The grid with every full row emptied in place.
pub open spec fn cleared(rows: Rows) -> Rows {
    Seq::new(
        rows.len(),
        |r: int|
            if row_is_full(rows[r]) {
                empty_row()
            } else {
                rows[r]
            },
    )
}

/// How many rows are full.
pub open spec fn full_rows(rows: Rows) -> nat {
    rows.filter(|row: Row| row_is_full(row)).len()
}

/// The grid after its full rows are removed: unchanged where none is full,
/// and otherwise emptied of them and compacted.
pub open spec fn after_clear(rows: Rows) -> Rows {
    if full_rows(rows) > 0 {
        compacted(cleared(rows))
    } else {
        rows
    }
}

/// A well-formed row in which no cell is set is the empty row.
pub proof fn lemma_empty_row_is_unique(row: Row)
    requires
        row_well_formed(row),
        row_is_empty(row),
    ensures
        row == empty_row(),
{
    assert(row =~= empty_row());
}

proof fn lemma_filter_one(row: Row, pred: spec_fn(Row) -> bool)
    ensures
        seq![row].filter(pred) == if pred(row) {
            seq![row]
        } else {
            Seq::<Row>::empty()
        },
{
    reveal_with_fuel(Seq::filter, 2);
    assert(seq![row].drop_last() =~= Seq::<Row>::empty());
    assert(seq![row].last() == row);
    assert(Seq::<Row>::empty().push(row) =~= seq![row]);
}

/// Putting one row on top of a grid adds it to the kept rows where it is
/// not empty.
pub proof fn lemma_kept_with_row_above(row: Row, below: Rows)
    ensures
        kept(seq![row] + below) == if row_is_empty(row) {
            kept(below)
        } else {
            seq![row] + kept(below)
        },
{
    let pred = |row: Row| !row_is_empty(row);
    Seq::filter_distributes_over_add(seq![row], below, pred);
    lemma_filter_one(row, pred);
    assert(Seq::<Row>::empty() + kept(below) =~= kept(below));
}

/// Putting one row on top of a grid adds one to the full rows where it is
/// full.
pub proof fn lemma_full_rows_with_row_above(row: Row, below: Rows)
    ensures
        full_rows(seq![row] + below) == full_rows(below) + if row_is_full(row) {
            1nat
        } else {
            0nat
        },
{
    let pred = |row: Row| row_is_full(row);
    Seq::filter_distributes_over_add(seq![row], below, pred);
    lemma_filter_one(row, pred);
}

/// None of the kept rows is empty.
pub proof fn lemma_kept_rows_are_occupied(rows: Rows, i: int)
    requires
        0 <= i < kept(rows).len(),
    ensures
        !row_is_empty(kept(rows)[i]),
        kept(rows).len() <= rows.len(),
{
    let pred = |row: Row| !row_is_empty(row);
    rows.lemma_filter_pred(pred, i);
    rows.lemma_filter_len(pred);
}

/// Where no row is full, emptying the full rows changes nothing.
pub proof fn lemma_nothing_to_clear(rows: Rows)
    requires
        full_rows(rows) == 0,
    ensures
        forall|r: int| 0 <= r < rows.len() ==> !row_is_full(#[trigger] rows[r]),
        cleared(rows) == rows,
        after_clear(rows) == rows,
{
    let pred = |row: Row| row_is_full(row);
    assert forall|r: int| 0 <= r < rows.len() implies !row_is_full(#[trigger] rows[r]) by {
        if row_is_full(rows[r]) {
            rows.lemma_filter_contains(pred, r);
        }
    }
    assert(cleared(rows) =~= rows);
}

/// Where no row is full, none is counted as full.
pub proof fn lemma_no_full_row_counts_zero(rows: Rows)
    requires
        forall|r: int| 0 <= r < rows.len() ==> !row_is_full(#[trigger] rows[r]),
    ensures
        full_rows(rows) == 0,
{
    let pred = |row: Row| row_is_full(row);
    let full = rows.filter(pred);
    if full.len() > 0 {
        rows.lemma_filter_pred(pred, 0);
        assert(full.contains(full[0]));
        rows.lemma_filter_contains_rev(pred, full[0]);
        let r = choose|r: int| 0 <= r < rows.len() && rows[r] == full[0];
        assert(!row_is_full(rows[r]));
    }
}

/// Clearing the full rows of the empty playfield finds none and leaves the
/// playfield as it is.
pub proof fn lemma_clear_on_empty_grid()
    ensures
        full_rows(empty_rows()) == 0,
        after_clear(empty_rows()) == empty_rows(),
{
    assert forall|r: int| 0 <= r < empty_rows().len() implies !row_is_full(
        #[trigger] empty_rows()[r],
    ) by {
        assert(!empty_rows()[r][0].set);
    }
    lemma_no_full_row_counts_zero(empty_rows());
}

/// After the full rows are cleared none is full, so that clearing again
/// changes nothing; and the playfield has as many rows as before.
pub proof fn lemma_clear_leaves_no_full_row(rows: Rows)
    requires
        rows_well_formed(rows),
    ensures
        after_clear(rows).len() == rows.len(),
        full_rows(after_clear(rows)) == 0,
        after_clear(after_clear(rows)) == after_clear(rows),
{
    if full_rows(rows) > 0 {
        let emptied = cleared(rows);
        let pred = |row: Row| !row_is_empty(row);
        emptied.lemma_filter_len(pred);
        let after = compacted(emptied);
        let gap = emptied.len() - kept(emptied).len();
        assert forall|r: int| 0 <= r < after.len() implies !row_is_full(#[trigger] after[r]) by {
            if r < gap {
                assert(after[r] == empty_row());
                assert(!empty_row()[0].set);
            } else {
                let row = kept(emptied)[r - gap];
                assert(kept(emptied).contains(row));
                emptied.lemma_filter_contains_rev(pred, row);
                let i = choose|i: int| 0 <= i < emptied.len() && emptied[i] == row;
                if row_is_full(rows[i]) {
                    assert(!empty_row()[0].set);
                }
            }
        }
        lemma_no_full_row_counts_zero(after);
    }
}

/// The rows that are neither empty nor full, in their order.
pub open spec fn survivors(rows: Rows) -> Rows {
    rows.filter(|row: Row| !row_is_empty(row) && !row_is_full(row))
}

/// Of a grid whose full rows were emptied, the rows that hold cells are the
/// rows that were neither empty nor full.
pub proof fn lemma_kept_of_cleared(rows: Rows)
    requires
        rows_well_formed(rows),
    ensures
        kept(cleared(rows)) == survivors(rows),
    decreases rows.len(),
{
    reveal(Seq::filter);
    if rows.len() > 0 {
        let front = rows.drop_last();
        lemma_kept_of_cleared(front);
        assert(cleared(rows).drop_last() =~= cleared(front));
        if row_is_full(rows.last()) {
            assert(cleared(rows).last() == empty_row());
        } else {
            assert(cleared(rows).last() == rows.last());
        }
    } else {
        assert(cleared(rows) =~= rows);
    }
}

/// Where a row is full, clearing leaves the rows that were neither empty nor
/// full at the bottom, in their order, each moved down past the rows that
/// went, and empty rows above them.
pub proof fn lemma_clear_settles_survivors(rows: Rows)
    requires
        rows_well_formed(rows),
        full_rows(rows) > 0,
    ensures
        survivors(rows).len() <= rows.len(),
        after_clear(rows) == padding(rows.len() - survivors(rows).len()) + survivors(rows),
{
    lemma_kept_of_cleared(rows);
    rows.lemma_filter_len(|row: Row| !row_is_empty(row) && !row_is_full(row));
}

} // verus!
