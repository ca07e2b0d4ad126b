use vstd::prelude::*;

verus! {

/// The outcome of applying a column accessor to one record: the text of one
/// cell, or the accessor's own error.
pub type CellOutcome = Result<String, String>;

/// The mathematical content of an accessor outcome: both sides reduced to
/// their character sequences.
pub open spec fn outcome_view(o: CellOutcome) -> Result<Seq<char>, Seq<char>> {
    match o {
        Ok(s) => Ok(s@),
        Err(e) => Err(e@),
    }
}

/// An accessor is usable by the builder when it accepts every record and
/// behaves as a function of the record: any two outcomes it admits for the
/// same record carry the same text.
pub open spec fn accessor_ok<T, F: Fn(&T) -> CellOutcome>(f: F) -> bool {
    &&& forall|r: &T| #[trigger] call_requires(f, (r,))
    &&& forall|r: &T, o1: CellOutcome, o2: CellOutcome|
        #[trigger] call_ensures(f, (r,), o1) && #[trigger] call_ensures(f, (r,), o2)
            ==> outcome_view(o1) == outcome_view(o2)
}

/// The accessor admits some outcome for the record. Rendering guarantees
/// this for every cell it reached, which lets a caller pin `cell_of` down
/// from what the accessor's own contract admits.
pub open spec fn has_outcome<T, F: Fn(&T) -> CellOutcome>(f: F, r: T) -> bool {
    exists|o: CellOutcome| call_ensures(f, (&r,), o)
}

/// The error is one that some registered accessor actually admits for some
/// registered record: a failed rendering never invents an error of its own.
pub open spec fn failure_witnessed<T, F: Fn(&T) -> CellOutcome>(
    accs: Seq<F>,
    rows: Seq<T>,
    e: String,
) -> bool {
    exists|j: int, i: int|
        0 <= j < rows.len() && 0 <= i < accs.len() && #[trigger] call_ensures(
            accs[i],
            (&rows[j],),
            Err(e),
        )
}

/// The cell an accessor yields for a record: the one outcome it admits,
/// reduced to its text.
pub open spec fn cell_of<T, F: Fn(&T) -> CellOutcome>(f: F, r: T) -> Result<
    Seq<char>,
    Seq<char>,
> {
    outcome_view(choose|o: CellOutcome| call_ensures(f, (&r,), o))
}

/// The items joined by the separator: empty for no items, with no separator
/// before the first item or after the last.
pub open spec fn join_sep(items: Seq<Seq<char>>, sep: char) -> Seq<char>
    decreases items.len(),
{
    if items.len() == 0 {
        Seq::empty()
    } else if items.len() == 1 {
        items[0]
    } else {
        join_sep(items.drop_last(), sep) + seq![sep] + items.last()
    }
}

/// The cell texts of one record under each accessor, in column order.
/// The entry for a failing accessor is meaningless; it is never rendered.
pub open spec fn row_cells<T, F: Fn(&T) -> CellOutcome>(accs: Seq<F>, r: T) -> Seq<Seq<char>> {
    accs.map_values(|f: F| cell_of(f, r)->Ok_0)
}

/// One record's output line: its cell texts joined by commas.
pub open spec fn row_line<T, F: Fn(&T) -> CellOutcome>(accs: Seq<F>, r: T) -> Seq<char> {
    join_sep(row_cells(accs, r), ',')
}

/// The error of the first failing accessor on one record, scanning the
/// columns in registration order; `None` when every accessor succeeds.
pub open spec fn row_failure<T, F: Fn(&T) -> CellOutcome>(accs: Seq<F>, r: T) -> Option<
    Seq<char>,
>
    decreases accs.len(),
{
    if accs.len() == 0 {
        None
    } else {
        match cell_of(accs[0], r) {
            Err(e) => Some(e),
            Ok(_) => row_failure(accs.drop_first(), r),
        }
    }
}

/// The error of the first failing cell over all records, scanning the
/// records in registration order and the columns within each record;
/// `None` when every accessor succeeds on every record.
pub open spec fn rows_failure<T, F: Fn(&T) -> CellOutcome>(accs: Seq<F>, rows: Seq<T>) -> Option<
    Seq<char>,
>
    decreases rows.len(),
{
    if rows.len() == 0 {
        None
    } else {
        match row_failure(accs, rows[0]) {
            Some(e) => Some(e),
            None => rows_failure(accs, rows.drop_first()),
        }
    }
}

/// The data lines of the output: a newline followed by the record's line,
/// for each record in registration order.
pub open spec fn rows_block<T, F: Fn(&T) -> CellOutcome>(accs: Seq<F>, rows: Seq<T>) -> Seq<char>
    decreases rows.len(),
{
    if rows.len() == 0 {
        Seq::empty()
    } else {
        rows_block(accs, rows.drop_last()) + seq!['\n'] + row_line(accs, rows.last())
    }
}

/// The whole rendering when no accessor fails: the comma-joined header
/// labels, then one newline-prefixed line per record, so that every line
/// but the last is newline-terminated and the last is not.
pub open spec fn render_text<T, F: Fn(&T) -> CellOutcome>(
    headers: Seq<Seq<char>>,
    accs: Seq<F>,
    rows: Seq<T>,
) -> Seq<char> {
    join_sep(headers, ',') + rows_block(accs, rows)
}

/// What rendering yields: the full text when every accessor succeeds on
/// every record, and otherwise the error of the first failing cell.
pub open spec fn render_spec<T, F: Fn(&T) -> CellOutcome>(
    headers: Seq<Seq<char>>,
    accs: Seq<F>,
    rows: Seq<T>,
) -> Result<Seq<char>, Seq<char>> {
    match rows_failure(accs, rows) {
        Some(e) => Err(e),
        None => Ok(render_text(headers, accs, rows)),
    }
}

/// An accessor that admits an outcome for a record yields exactly that
/// outcome's text as the record's cell.
pub proof fn lemma_cell_of_outcome<T, F: Fn(&T) -> CellOutcome>(f: F, r: &T, o: CellOutcome)
    requires
        accessor_ok::<T, F>(f),
        call_ensures(f, (r,), o),
    ensures
        cell_of(f, *r) == outcome_view(o),
{
    assert(call_ensures(f, (&*r,), o));
    let w = choose|w: CellOutcome| call_ensures(f, (&*r,), w);
    assert(call_ensures(f, (&*r,), w));
    assert(outcome_view(w) == outcome_view(o));
}

/// While every accessor up to column `i` succeeds on the record, the first
/// failure of the record's line is decided by the remaining columns.
pub proof fn lemma_row_failure_skip<T, F: Fn(&T) -> CellOutcome>(accs: Seq<F>, r: T, i: int)
    requires
        0 <= i <= accs.len(),
        forall|k: int| 0 <= k < i ==> cell_of(#[trigger] accs[k], r) is Ok,
    ensures
        row_failure(accs, r) == row_failure(accs.skip(i), r),
    decreases i,
{
    if i == 0 {
        assert(accs.skip(0) =~= accs);
    } else {
        assert(cell_of(accs[0], r) is Ok);
        assert forall|k: int| 0 <= k < i - 1 implies cell_of(
            #[trigger] accs.drop_first()[k],
            r,
        ) is Ok by {
            assert(accs.drop_first()[k] == accs[k + 1]);
        }
        lemma_row_failure_skip(accs.drop_first(), r, i - 1);
        assert(accs.drop_first().skip(i - 1) =~= accs.skip(i));
    }
}

/// While every record before row `j` is free of failures, the first failure
/// of the whole table is decided by the remaining records.
pub proof fn lemma_rows_failure_skip<T, F: Fn(&T) -> CellOutcome>(
    accs: Seq<F>,
    rows: Seq<T>,
    j: int,
)
    requires
        0 <= j <= rows.len(),
        forall|k: int| 0 <= k < j ==> row_failure(accs, #[trigger] rows[k]) is None,
    ensures
        rows_failure(accs, rows) == rows_failure(accs, rows.skip(j)),
    decreases j,
{
    if j == 0 {
        assert(rows.skip(0) =~= rows);
    } else {
        assert(row_failure(accs, rows[0]) is None);
        assert forall|k: int| 0 <= k < j - 1 implies row_failure(
            accs,
            #[trigger] rows.drop_first()[k],
        ) is None by {
            assert(rows.drop_first()[k] == rows[k + 1]);
        }
        lemma_rows_failure_skip(accs, rows.drop_first(), j - 1);
        assert(rows.drop_first().skip(j - 1) =~= rows.skip(j));
    }
}

} // verus!
