use vstd::prelude::*;

verus! {

use crate::render::{
    CellOutcome, cell_of, join_sep, outcome_view, render_spec, render_text, row_failure, row_line,
    rows_block, rows_failure, lemma_row_failure_skip, lemma_rows_failure_skip,
};

/// The record lines of a rendering, one per record, in registration order.
pub open spec fn row_lines<T, F: Fn(&T) -> CellOutcome>(accs: Seq<F>, rows: Seq<T>) -> Seq<
    Seq<char>,
> {
    rows.map_values(|r: T| row_line(accs, r))
}

/// Joining one more item appends it after a separator, leaving the joined
/// text of the earlier items unchanged: items appear in the order given.
pub proof fn lemma_join_sep_push(items: Seq<Seq<char>>, sep: char, item: Seq<char>)
    ensures
        join_sep(items.push(item), sep) == if items.len() == 0 {
            item
        } else {
            join_sep(items, sep) + seq![sep] + item
        },
{
    assert(items.push(item).drop_last() =~= items);
    assert(items.push(item).last() == item);
    if items.len() == 0 {
        assert(items.push(item)[0] == item);
    }
}

/// A builder with no records contributes no data lines.
pub proof fn lemma_rows_block_empty<T, F: Fn(&T) -> CellOutcome>(accs: Seq<F>, rows: Seq<T>)
    requires
        rows.len() == 0,
    ensures
        rows_block(accs, rows) == Seq::<char>::empty(),
{
}

/// One more record appends one more newline-prefixed line after the block of
/// the earlier records, leaving that block unchanged: records appear in the
/// order given.
pub proof fn lemma_rows_block_push<T, F: Fn(&T) -> CellOutcome>(
    accs: Seq<F>,
    rows: Seq<T>,
    r: T,
)
    ensures
        rows_block(accs, rows.push(r)) == rows_block(accs, rows) + seq!['\n'] + row_line(accs, r),
{
    assert(rows.push(r).drop_last() =~= rows);
    assert(rows.push(r).last() == r);
}

/// A builder with no columns and no rows renders as the empty text.
pub proof fn lemma_render_empty<T, F: Fn(&T) -> CellOutcome>(
    headers: Seq<Seq<char>>,
    accs: Seq<F>,
    rows: Seq<T>,
)
    requires
        headers.len() == 0,
        rows.len() == 0,
    ensures
        render_spec(headers, accs, rows) == Ok::<Seq<char>, Seq<char>>(Seq::<char>::empty()),
{
    assert(render_text(headers, accs, rows) =~= Seq::<char>::empty());
}

/// A builder with no rows renders as exactly its comma-joined header labels.
pub proof fn lemma_render_header_only<T, F: Fn(&T) -> CellOutcome>(
    headers: Seq<Seq<char>>,
    accs: Seq<F>,
    rows: Seq<T>,
)
    requires
        rows.len() == 0,
    ensures
        render_spec(headers, accs, rows) == Ok::<Seq<char>, Seq<char>>(join_sep(headers, ',')),
{
    assert(render_text(headers, accs, rows) =~= join_sep(headers, ','));
}

/// A successful rendering is the header line and the record lines joined by
/// newlines: every line but the last is newline-terminated, the last is not.
pub proof fn lemma_render_lines<T, F: Fn(&T) -> CellOutcome>(
    headers: Seq<Seq<char>>,
    accs: Seq<F>,
    rows: Seq<T>,
)
    ensures
        render_text(headers, accs, rows) == join_sep(
            seq![join_sep(headers, ',')] + row_lines(accs, rows),
            '\n',
        ),
    decreases rows.len(),
{
    let h = join_sep(headers, ',');
    let lines = seq![h] + row_lines(accs, rows);
    if rows.len() == 0 {
        assert(lines =~= seq![h]);
        assert(render_text(headers, accs, rows) =~= h);
    } else {
        lemma_render_lines(headers, accs, rows.drop_last());
        let prev_lines = seq![h] + row_lines(accs, rows.drop_last());
        assert(lines.drop_last() =~= prev_lines);
        assert(lines.last() == row_line(accs, rows.last()));
        assert(lines.len() >= 2);
        assert(join_sep(lines, '\n') == join_sep(prev_lines, '\n') + seq!['\n'] + lines.last());
        assert(render_text(headers, accs, rows) =~= (h + rows_block(accs, rows.drop_last()))
            + seq!['\n'] + row_line(accs, rows.last()));
    }
}

/// Rendering mutates nothing, so it is idempotent: any two outcomes of
/// rendering one and the same builder state carry the same text.
pub proof fn lemma_render_idempotent<T, F: Fn(&T) -> CellOutcome>(
    headers: Seq<Seq<char>>,
    accs: Seq<F>,
    rows: Seq<T>,
    o1: CellOutcome,
    o2: CellOutcome,
)
    requires
        outcome_view(o1) == render_spec(headers, accs, rows),
        outcome_view(o2) == render_spec(headers, accs, rows),
    ensures
        outcome_view(o1) == outcome_view(o2),
{
}

proof fn lemma_row_failure_exists<T, F: Fn(&T) -> CellOutcome>(accs: Seq<F>, r: T)
    ensures
        row_failure(accs, r) is Some <==> exists|i: int|
            0 <= i < accs.len() && cell_of(#[trigger] accs[i], r) is Err,
    decreases accs.len(),
{
    if accs.len() != 0 {
        lemma_row_failure_exists(accs.drop_first(), r);
        if cell_of(accs[0], r) is Err {
            assert(cell_of(accs[0], r) is Err);
        } else {
            if row_failure(accs.drop_first(), r) is Some {
                let i = choose|i: int|
                    0 <= i < accs.drop_first().len() && cell_of(
                        #[trigger] accs.drop_first()[i],
                        r,
                    ) is Err;
                assert(accs[i + 1] == accs.drop_first()[i]);
                assert(cell_of(accs[i + 1], r) is Err);
            }
            if exists|i: int| 0 <= i < accs.len() && cell_of(#[trigger] accs[i], r) is Err {
                let i = choose|i: int|
                    0 <= i < accs.len() && cell_of(#[trigger] accs[i], r) is Err;
                assert(accs.drop_first()[i - 1] == accs[i]);
                assert(cell_of(accs.drop_first()[i - 1], r) is Err);
            }
        }
    }
}

proof fn lemma_rows_failure_exists<T, F: Fn(&T) -> CellOutcome>(accs: Seq<F>, rows: Seq<T>)
    ensures
        rows_failure(accs, rows) is Some <==> exists|j: int|
            0 <= j < rows.len() && row_failure(accs, #[trigger] rows[j]) is Some,
    decreases rows.len(),
{
    if rows.len() != 0 {
        lemma_rows_failure_exists(accs, rows.drop_first());
        if row_failure(accs, rows[0]) is Some {
            assert(row_failure(accs, rows[0]) is Some);
        } else {
            if rows_failure(accs, rows.drop_first()) is Some {
                let j = choose|j: int|
                    0 <= j < rows.drop_first().len() && row_failure(
                        accs,
                        #[trigger] rows.drop_first()[j],
                    ) is Some;
                assert(rows[j + 1] == rows.drop_first()[j]);
                assert(row_failure(accs, rows[j + 1]) is Some);
            }
            if exists|j: int| 0 <= j < rows.len() && row_failure(accs, #[trigger] rows[j]) is Some {
                let j = choose|j: int|
                    0 <= j < rows.len() && row_failure(accs, #[trigger] rows[j]) is Some;
                assert(rows.drop_first()[j - 1] == rows[j]);
                assert(row_failure(accs, rows.drop_first()[j - 1]) is Some);
            }
        }
    }
}

/// Rendering fails exactly when some accessor fails on some record; a
/// failure is never turned into an empty field or a skipped record.
pub proof fn lemma_render_failure<T, F: Fn(&T) -> CellOutcome>(
    headers: Seq<Seq<char>>,
    accs: Seq<F>,
    rows: Seq<T>,
)
    ensures
        render_spec(headers, accs, rows) is Err <==> exists|j: int, i: int|
            0 <= j < rows.len() && 0 <= i < accs.len() && #[trigger] cell_of(
                accs[i],
                rows[j],
            ) is Err,
{
    lemma_rows_failure_exists(accs, rows);
    if rows_failure(accs, rows) is Some {
        let j = choose|j: int| 0 <= j < rows.len() && row_failure(accs, #[trigger] rows[j]) is Some;
        lemma_row_failure_exists(accs, rows[j]);
        let i = choose|i: int| 0 <= i < accs.len() && cell_of(#[trigger] accs[i], rows[j]) is Err;
        assert(cell_of(accs[i], rows[j]) is Err);
    }
    if exists|j: int, i: int|
        0 <= j < rows.len() && 0 <= i < accs.len() && #[trigger] cell_of(accs[i], rows[j]) is Err {
        let (j, i) = choose|j: int, i: int|
            0 <= j < rows.len() && 0 <= i < accs.len() && #[trigger] cell_of(
                accs[i],
                rows[j],
            ) is Err;
        lemma_row_failure_exists(accs, rows[j]);
        assert(row_failure(accs, rows[j]) is Some);
    }
}

/// The failure a rendering reports is the error of the first failing cell in
/// rendering order: records in registration order, columns within a record.
pub proof fn lemma_render_first_failure<T, F: Fn(&T) -> CellOutcome>(
    headers: Seq<Seq<char>>,
    accs: Seq<F>,
    rows: Seq<T>,
    j: int,
    i: int,
)
    requires
        0 <= j < rows.len(),
        0 <= i < accs.len(),
        forall|k: int| 0 <= k < j ==> row_failure(accs, #[trigger] rows[k]) is None,
        forall|k: int| 0 <= k < i ==> cell_of(#[trigger] accs[k], rows[j]) is Ok,
        cell_of(accs[i], rows[j]) is Err,
    ensures
        render_spec(headers, accs, rows) == Err::<Seq<char>, Seq<char>>(
            cell_of(accs[i], rows[j])->Err_0,
        ),
{
    lemma_rows_failure_skip(accs, rows, j);
    lemma_row_failure_skip(accs, rows[j], i);
    assert(accs.skip(i).len() > 0);
    assert(accs.skip(i)[0] == accs[i]);
    assert(row_failure(accs.skip(i), rows[j]) == Some(cell_of(accs[i], rows[j])->Err_0));
    assert(rows.skip(j).len() > 0);
    assert(rows.skip(j)[0] == rows[j]);
    assert(rows_failure(accs, rows.skip(j)) == Some(cell_of(accs[i], rows[j])->Err_0));
}

} // verus!
