use vstd::prelude::*;

use crate::batch::{build_batch, columnar, row_fits, row_ok, Batch};
use crate::bytes::split_record;
use crate::errors::ConvError;
use crate::schema::{data_of, fields_of, min_int, schema_spec, types_of, ColumnType, Schema};

verus! {

/// The batch source: the input's data records, the schema inferred from
/// them, and a cursor. It produces a lazy, finite, non-restartable sequence
/// of batches: each pull parses up to `batch_size` records; a pull past the
/// end yields nothing; a record that does not fit the schema fails the pull
/// and exhausts the source, the error naming the record's index.
pub struct CsvSource {
    pub schema: Schema,
    pub delimiter: u8,
    pub records: Vec<Vec<u8>>,
    pub pos: usize,
    pub batch_size: usize,
}

/// The index of the first record at or after `from` that does not fit the
/// schema; the record count when every one fits.
pub open spec fn first_bad_row(types: Seq<ColumnType>, rows: Seq<Seq<Seq<u8>>>, from: int) -> int
    decreases rows.len() - from,
{
    if from < 0 || from >= rows.len() {
        rows.len() as int
    } else if !row_ok(types, rows[from]) {
        from
    } else {
        first_bad_row(types, rows, from + 1)
    }
}

pub proof fn lemma_first_bad_row_at(
    types: Seq<ColumnType>,
    rows: Seq<Seq<Seq<u8>>>,
    from: int,
    k: int,
)
    requires
        0 <= from <= k < rows.len(),
        forall|i: int| from <= i < k ==> row_ok(types, rows[i]),
        !row_ok(types, rows[k]),
    ensures
        first_bad_row(types, rows, from) == k,
    decreases k - from,
{
    if from < k {
        lemma_first_bad_row_at(types, rows, from + 1, k);
    }
}

/// `first_bad_row` points between `from` and the end; when it is a real
/// index, that record does not fit and every one before it (from `from` on)
/// does; when it is the record count, every record from `from` on fits.
pub proof fn lemma_first_bad_row_props(types: Seq<ColumnType>, rows: Seq<Seq<Seq<u8>>>, from: int)
    requires
        0 <= from <= rows.len(),
    ensures
        from <= first_bad_row(types, rows, from) <= rows.len(),
        first_bad_row(types, rows, from) < rows.len() ==> !row_ok(
            types,
            rows[first_bad_row(types, rows, from)],
        ),
        forall|i: int|
            from <= i < first_bad_row(types, rows, from) ==> row_ok(types, #[trigger] rows[i]),
    decreases rows.len() - from,
{
    if from < rows.len() && row_ok(types, rows[from]) {
        lemma_first_bad_row_props(types, rows, from + 1);
    }
}

impl CsvSource {
    /// The source's records, each split into its fields.
    pub open spec fn fields(&self) -> Seq<Seq<Seq<u8>>> {
        fields_of(self.records.deep_view(), self.delimiter)
    }

    pub open spec fn wf(&self) -> bool {
        &&& self.batch_size >= 1
        &&& self.pos <= self.records@.len()
    }

    /// Whether the sequence has ended: no further pull returns rows.
    pub open spec fn exhausted(&self) -> bool {
        self.pos == self.records@.len()
    }

    /// Builds a source over the input records: infers the schema, drops the
    /// header record when one is present, and puts the cursor on the first
    /// data record.
    pub fn new(lines: Vec<Vec<u8>>, has_header: bool, delimiter: u8, batch_size: usize) -> (r:
        Result<CsvSource, ConvError>)
        requires
            batch_size >= 1,
        ensures
            match schema_spec(lines.deep_view(), has_header, delimiter) {
                Ok(sv) => r matches Ok(s) && s.schema@ == sv && s.records.deep_view() == data_of(
                    lines.deep_view(),
                    has_header,
                ) && s.pos == 0 && s.batch_size == batch_size && s.delimiter == delimiter
                    && s.wf(),
                Err(e) => r matches Err(e2) && e2 == e,
            },
    {
        let ghost linesv = lines.deep_view();
        let schema = match Schema::infer(&lines, has_header, delimiter) {
            Ok(s) => s,
            Err(e) => {
                return Err(e);
            },
        };
        let mut records = lines;
        if has_header {
            proof {
                assert(linesv.len() > 0);
            }
            let _ = records.remove(0);
            proof {
                assert(records.deep_view() =~~= linesv.skip(1));
            }
        }
        Ok(CsvSource { schema, delimiter, records, pos: 0, batch_size })
    }

    /// Pulls the next batch. Past the end it returns nothing; otherwise it
    /// parses up to `batch_size` records into one columnar batch, or fails
    /// with the index of the first record that does not fit, exhausting the
    /// source.
    pub fn next_batch(&mut self) -> (r: Result<Option<Batch>, ConvError>)
        requires
            old(self).wf(),
        ensures
            final(self).schema == old(self).schema,
            final(self).delimiter == old(self).delimiter,
            final(self).records == old(self).records,
            final(self).batch_size == old(self).batch_size,
            final(self).wf(),
            ({
                let types = types_of(old(self).schema@);
                let flds = old(self).fields();
                let n = flds.len() as int;
                let p = old(self).pos as int;
                if p == n {
                    r matches Ok(ro) && ro is None && final(self).pos == old(self).pos
                } else {
                    let end = min_int(p + old(self).batch_size as int, n);
                    if forall|k: int| p <= k < end ==> row_ok(types, flds[k]) {
                        r matches Ok(Some(b)) && b@ == columnar(types, flds.subrange(p, end))
                            && final(self).pos == end
                    } else {
                        r matches Err(e) && e == ConvError::RowParseError(
                            first_bad_row(types, flds, p) as usize,
                        ) && final(self).pos == n as usize
                    }
                }
            }),
    {
        let ghost types = types_of(self.schema@);
        let ghost flds = self.fields();
        proof {
            assert(flds.len() == self.records@.len());
            assert(forall|k: int|
                0 <= k < flds.len() ==> flds[k] == crate::bytes::split_bytes(
                    self.records.deep_view()[k],
                    self.delimiter,
                ));
        }
        let n = self.records.len();
        if self.pos >= n {
            return Ok(None);
        }
        let p = self.pos;
        let end = if n - p > self.batch_size {
            p + self.batch_size
        } else {
            n
        };
        let ncols = self.schema.cols.len();
        proof {
            assert(types.len() == ncols);
        }
        let mut rows: Vec<Vec<Vec<u8>>> = Vec::new();
        let mut k: usize = p;
        while k < end
            invariant
                p <= k <= end <= n,
                n == self.records@.len(),
                p == self.pos,
                self.schema == old(self).schema,
                self.delimiter == old(self).delimiter,
                self.records == old(self).records,
                self.batch_size == old(self).batch_size,
                self.pos == old(self).pos,
                self.wf(),
                p < n,
                end == min_int(p + self.batch_size as int, n as int),
                types == types_of(self.schema@),
                ncols == types.len(),
                ncols == self.schema.cols@.len(),
                flds == self.fields(),
                flds.len() == n,
                rows@.len() == k - p,
                forall|i: int| 0 <= i < k - p ==> rows@[i].deep_view() == flds[p + i],
                forall|i: int| p <= i < k ==> row_ok(types, flds[i]),
            decreases end - k,
        {
            let row = split_record(self.records[k].as_slice(), self.delimiter);
            proof {
                assert(self.records@[k as int]@ =~= self.records.deep_view()[k as int]);
                assert(row.deep_view() == flds[k as int]);
            }
            let ok = row_fits(&self.schema, &row);
            if !ok {
                proof {
                    assert(!row_ok(types, flds[k as int]));
                    lemma_first_bad_row_at(types, flds, p as int, k as int);
                }
                self.pos = n;
                return Err(ConvError::RowParseError(k));
            }
            proof {
                assert(row_ok(types, flds[k as int]));
            }
            rows.push(row);
            k = k + 1;
        }
        proof {
            assert(rows.deep_view().len() == end - p);
            assert(forall|i: int|
                0 <= i < end - p ==> rows.deep_view()[i] == rows@[i].deep_view());
            assert(rows.deep_view() =~~= flds.subrange(p as int, end as int));
        }
        let b = build_batch(&self.schema, &rows);
        self.pos = end;
        Ok(Some(b))
    }
}

} // verus!
