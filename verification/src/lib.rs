use vstd::prelude::*;

pub mod laws;
pub mod render;

verus! {

use crate::laws::{lemma_join_sep_push, lemma_rows_block_push};
use crate::render::{
    CellOutcome, accessor_ok, cell_of, failure_witnessed, has_outcome, join_sep,
    lemma_cell_of_outcome,
    lemma_row_failure_skip, lemma_rows_failure_skip, outcome_view, render_spec, row_cells,
    row_failure, row_line, rows_block, rows_failure,
};
use vstd::string::StringExecFns;

/// One column: its header label and the accessor that produces the column's
/// text for a record.
struct Column<F> {
    name: String,
    accessor: F,
}

/// Accumulates column definitions and records, then renders them as
/// comma-delimited text: one header line followed by one line per record.
pub struct Builder<T, F> {
    cols: Vec<Column<F>>,
    rows: Vec<T>,
}

impl<T, F: Fn(&T) -> CellOutcome> Builder<T, F> {
    /// The header labels of the registered columns, in registration order.
    pub closed spec fn headers(&self) -> Seq<Seq<char>> {
        self.cols@.map_values(|c: Column<F>| c.name@)
    }

    /// The accessors of the registered columns, in registration order.
    pub closed spec fn accessors(&self) -> Seq<F> {
        self.cols@.map_values(|c: Column<F>| c.accessor)
    }

    /// The registered records, in registration order.
    pub closed spec fn records(&self) -> Seq<T> {
        self.rows@
    }

    /// Every registered accessor accepts every record and behaves as a
    /// function of the record.
    pub closed spec fn wf(&self) -> bool {
        forall|i: int|
            0 <= i < self.cols@.len() ==> accessor_ok::<T, F>(
                #[trigger] self.cols@[i].accessor,
            )
    }

    /// A fresh builder with no columns and no rows.
    pub fn new() -> (b: Builder<T, F>)
        ensures
            b.headers() == Seq::<Seq<char>>::empty(),
            b.accessors() == Seq::<F>::empty(),
            b.records() == Seq::<T>::empty(),
            b.wf(),
    {
        let b = Builder { cols: Vec::new(), rows: Vec::new() };
        proof {
            assert(b.headers() =~= Seq::<Seq<char>>::empty());
            assert(b.accessors() =~= Seq::<F>::empty());
            assert(b.records() =~= Seq::<T>::empty());
        }
        b
    }

    /// Appends a column with the given header label and accessor, and returns
    /// the builder itself so further registrations can be chained.
    pub fn column(&mut self, name: &str, accessor: F) -> (ret: &mut Builder<T, F>)
        ensures
            (*ret).headers() == old(self).headers().push(name@),
            (*ret).accessors() == old(self).accessors().push(accessor),
            (*ret).records() == old(self).records(),
            (*ret).wf() <==> (old(self).wf() && accessor_ok::<T, F>(accessor)),
            *final(self) == *final(ret),
    {
        let ghost pre = *self;
        let col = Column { name: name.to_owned(), accessor };
        self.cols.push(col);
        proof {
            assert(self.headers() =~= pre.headers().push(name@));
            assert(self.accessors() =~= pre.accessors().push(accessor));
            assert(self.wf() <==> (pre.wf() && accessor_ok::<T, F>(accessor))) by {
                assert forall|i: int| 0 <= i < pre.cols@.len() implies pre.cols@[i]
                    == self.cols@[i] by {}
                if pre.wf() && accessor_ok::<T, F>(accessor) {
                    assert forall|i: int| 0 <= i < self.cols@.len() implies accessor_ok::<T, F>(
                        #[trigger] self.cols@[i].accessor,
                    ) by {
                        if i < pre.cols@.len() {
                            assert(accessor_ok::<T, F>(pre.cols@[i].accessor));
                        }
                    }
                }
                if self.wf() {
                    assert(accessor_ok::<T, F>(self.cols@[pre.cols@.len() as int].accessor));
                }
            }
        }
        self
    }

    /// Appends a record, and returns the builder itself so further
    /// registrations can be chained.
    pub fn row(&mut self, object: T) -> (ret: &mut Builder<T, F>)
        ensures
            (*ret).headers() == old(self).headers(),
            (*ret).accessors() == old(self).accessors(),
            (*ret).records() == old(self).records().push(object),
            (*ret).wf() <==> old(self).wf(),
            *final(self) == *final(ret),
    {
        self.rows.push(object);
        self
    }

    /// Renders the table: the header line, then one line per record, with
    /// each cell produced by its column's accessor, fields comma-joined and
    /// lines newline-separated, no newline after the last line. If an
    /// accessor fails, the first failure in rendering order is returned
    /// instead and no text is produced.
    pub fn run(&self) -> (res: Result<String, String>)
        requires
            self.wf(),
        ensures
            outcome_view(res) == render_spec(self.headers(), self.accessors(), self.records()),
            res is Ok <==> rows_failure(self.accessors(), self.records()) is None,
            res is Ok ==> forall|j: int, i: int|
                0 <= j < self.records().len() && 0 <= i < self.accessors().len()
                    ==> #[trigger] has_outcome(self.accessors()[i], self.records()[j]),
            res matches Err(e) ==> failure_witnessed(self.accessors(), self.records(), e),
    {
        let mut result = String::new();
        self.write_cols(&mut result);
        match self.write_rows(&mut result) {
            Ok(_) => {
                proof {
                    assert(result@ =~= crate::render::render_text(
                        self.headers(),
                        self.accessors(),
                        self.records(),
                    ));
                }
                Ok(result)
            },
            Err(e) => Err(e),
        }
    }

    /// Appends the header line: the column labels joined by commas.
    fn write_cols(&self, result: &mut String)
        ensures
            final(result)@ == old(result)@ + join_sep(self.headers(), ','),
    {
        let ghost pre = result@;
        proof {
            assert(self.headers().take(0) =~= Seq::<Seq<char>>::empty());
            assert(pre + join_sep(self.headers().take(0), ',') =~= pre);
        }
        let mut i: usize = 0;
        while i < self.cols.len()
            invariant
                i <= self.cols.len(),
                result@ == pre + join_sep(self.headers().take(i as int), ','),
            decreases self.cols.len() - i,
        {
            if i > 0 {
                result.append(",");
            }
            result.append(self.cols[i].name.as_str());
            proof {
                reveal_strlit(",");
                assert(","@ =~= seq![',']);
                assert(self.headers()[i as int] == self.cols@[i as int].name@);
                lemma_join_sep_push(self.headers().take(i as int), ',', self.headers()[i as int]);
                assert(self.headers().take(i as int).push(self.headers()[i as int])
                    =~= self.headers().take(i as int + 1));
                assert(result@ =~= pre + join_sep(self.headers().take(i as int + 1), ','));
            }
            i += 1;
        }
        proof {
            assert(self.headers().take(self.cols.len() as int) =~= self.headers());
        }
    }

    /// Appends a newline and then the record's comma-joined cell texts, for
    /// each record in order; stops at the first failing accessor and hands
    /// its error back.
    fn write_rows(&self, result: &mut String) -> (res: Result<(), String>)
        requires
            self.wf(),
        ensures
            res is Ok ==> rows_failure(self.accessors(), self.records()) is None,
            res is Ok ==> final(result)@ == old(result)@ + rows_block(
                self.accessors(),
                self.records(),
            ),
            res is Ok ==> forall|j: int, i: int|
                0 <= j < self.records().len() && 0 <= i < self.accessors().len()
                    ==> #[trigger] has_outcome(self.accessors()[i], self.records()[j]),
            res matches Err(e) ==> rows_failure(self.accessors(), self.records()) == Some(e@),
            res matches Err(e) ==> failure_witnessed(self.accessors(), self.records(), e),
    {
        let ghost accs = self.accessors();
        let ghost rows = self.records();
        let ghost pre = result@;
        proof {
            assert(accs.len() == self.cols@.len());
            assert(rows.take(0) =~= Seq::<T>::empty());
            assert(pre + rows_block(accs, rows.take(0)) =~= pre);
        }
        let mut j: usize = 0;
        while j < self.rows.len()
            invariant
                self.wf(),
                accs == self.accessors(),
                rows == self.records(),
                j <= self.rows.len(),
                forall|k: int| 0 <= k < j ==> row_failure(accs, #[trigger] rows[k]) is None,
                forall|jj: int, kk: int|
                    0 <= jj < j && 0 <= kk < accs.len() ==> #[trigger] has_outcome(
                        accs[kk],
                        rows[jj],
                    ),
                result@ == pre + rows_block(accs, rows.take(j as int)),
            decreases self.rows.len() - j,
        {
            result.append("\n");
            proof {
                reveal_strlit("\n");
                assert("\n"@ =~= seq!['\n']);
            }
            let ghost row_start = result@;
            let ghost r = rows[j as int];
            proof {
                assert(row_cells(accs, r).take(0) =~= Seq::<Seq<char>>::empty());
                assert(row_start + join_sep(row_cells(accs, r).take(0), ',') =~= row_start);
            }
            let mut i: usize = 0;
            while i < self.cols.len()
                invariant
                    self.wf(),
                    accs == self.accessors(),
                    rows == self.records(),
                    j < self.rows.len(),
                    r == rows[j as int],
                    i <= self.cols.len(),
                    forall|k: int| 0 <= k < i ==> cell_of(#[trigger] accs[k], r) is Ok,
                    forall|k: int| 0 <= k < i ==> #[trigger] has_outcome(accs[k], r),
                    forall|k: int| 0 <= k < j ==> row_failure(accs, #[trigger] rows[k]) is None,
                    forall|jj: int, kk: int|
                        0 <= jj < j && 0 <= kk < accs.len() ==> #[trigger] has_outcome(
                            accs[kk],
                            rows[jj],
                        ),
                    result@ == row_start + join_sep(row_cells(accs, r).take(i as int), ','),
                decreases self.cols.len() - i,
            {
                if i > 0 {
                    result.append(",");
                }
                proof {
                    assert(accessor_ok::<T, F>(self.cols@[i as int].accessor));
                    assert(accs[i as int] == self.cols@[i as int].accessor);
                }
                let record = &self.rows[j];
                let out = (self.cols[i].accessor)(record);
                match out {
                    Ok(s) => {
                        result.append(s.as_str());
                        proof {
                            assert(has_outcome(accs[i as int], r)) by {
                                assert(call_ensures(accs[i as int], (record,), Ok(s)));
                            }
                            lemma_cell_of_outcome(accs[i as int], record, Ok(s));
                            assert(cell_of(accs[i as int], r) == Ok::<Seq<char>, Seq<char>>(s@));
                            assert(row_cells(accs, r)[i as int] == s@);
                            lemma_join_sep_push(
                                row_cells(accs, r).take(i as int),
                                ',',
                                row_cells(accs, r)[i as int],
                            );
                            assert(row_cells(accs, r).take(i as int).push(
                                row_cells(accs, r)[i as int],
                            ) =~= row_cells(accs, r).take(i as int + 1));
                            reveal_strlit(",");
                            assert(","@ =~= seq![',']);
                            assert(result@ =~= row_start + join_sep(
                                row_cells(accs, r).take(i as int + 1),
                                ',',
                            ));
                        }
                    },
                    Err(e) => {
                        proof {
                            lemma_cell_of_outcome(accs[i as int], record, Err(e));
                            assert(cell_of(accs[i as int], r) == Err::<Seq<char>, Seq<char>>(e@));
                            lemma_row_failure_skip(accs, r, i as int);
                            assert(accs.skip(i as int).len() > 0);
                            assert(accs.skip(i as int)[0] == accs[i as int]);
                            assert(row_failure(accs, r) == Some(e@));
                            lemma_rows_failure_skip(accs, rows, j as int);
                            assert(rows.skip(j as int).len() > 0);
                            assert(rows.skip(j as int)[0] == rows[j as int]);
                            assert(rows_failure(accs, rows) == Some(e@));
                            assert(failure_witnessed(self.accessors(), self.records(), e)) by {
                                assert(call_ensures(
                                    self.accessors()[i as int],
                                    (&self.records()[j as int],),
                                    Err(e),
                                ));
                            }
                        }
                        return Err(e);
                    },
                }
                i += 1;
            }
            proof {
                assert(row_cells(accs, r).take(self.cols.len() as int) =~= row_cells(accs, r));
                assert(result@ == row_start + row_line(accs, r));
                lemma_row_failure_skip(accs, r, accs.len() as int);
                assert(accs.skip(accs.len() as int) =~= Seq::<F>::empty());
                assert(row_failure(accs, r) is None);
                lemma_rows_block_push(accs, rows.take(j as int), r);
                assert(rows.take(j as int).push(r) =~= rows.take(j as int + 1));
                assert(result@ =~= pre + rows_block(accs, rows.take(j as int + 1)));
                assert(accs.len() == self.cols@.len());
                assert forall|jj: int, kk: int|
                    0 <= jj < j + 1 && 0 <= kk < accs.len() implies #[trigger] has_outcome(
                    accs[kk],
                    rows[jj],
                ) by {
                    if jj == j {
                        assert(has_outcome(accs[kk], r));
                    }
                }
            }
            j += 1;
        }
        proof {
            assert(rows.take(self.rows.len() as int) =~= rows);
            lemma_rows_failure_skip(accs, rows, rows.len() as int);
            assert(rows.skip(rows.len() as int) =~= Seq::<T>::empty());
            assert(rows_failure(accs, rows.skip(rows.len() as int)) is None);
        }
        Ok(())
    }
}

} // verus!
