pub mod batch;
pub mod bytes;
pub mod config;
pub mod errors;
pub mod format;
pub mod schema;
pub mod sink;
pub mod source;

use vstd::prelude::*;

use crate::batch::{columnar, row_ok, ColV};
use crate::bytes::{lemma_split_bytes_len, split_bytes, split_record};
use crate::config::{ConfigV, RunConfig};
use crate::errors::ConvError;
use crate::format::Filetype;
use crate::schema::{
    data_of, fields_of, int_field_value, min_int, schema_spec, types_of, ColumnType, ColumnV,
};
use crate::sink::{container_bytes_of, container_write_ok, lossy_cols, BatchSink};
use crate::source::{first_bad_row, CsvSource};

verus! {

/// How many records one batch holds.
pub const BATCH_ROWS: usize = 100;

/// The input's records: its bytes split at newlines, the trailing empty
/// record a final newline leaves dropped. A record is the raw line: no
/// quoting rules apply, a carriage return stays part of the record, and an
/// interior empty line is one empty record.
pub open spec fn records_of(data: Seq<u8>) -> Seq<Seq<u8>> {
    let p = split_bytes(data, 10);
    if p.last() == Seq::<u8>::empty() {
        p.drop_last()
    } else {
        p
    }
}

/// Splits the input bytes into records at newlines, dropping the trailing
/// empty record a final newline leaves.
pub fn split_lines(data: &[u8]) -> (r: Vec<Vec<u8>>)
    ensures
        r.deep_view() == records_of(data@),
{
    proof {
        lemma_split_bytes_len(data@, 10);
    }
    let mut v = split_record(data, 10);
    let last_len = v[v.len() - 1].len();
    if last_len == 0 {
        proof {
            assert(v@[v@.len() - 1]@ =~= v.deep_view().last());
            assert(v.deep_view().last() =~= Seq::<u8>::empty());
        }
        let ghost pre = v.deep_view();
        let _ = v.pop();
        proof {
            assert(v.deep_view() =~~= pre.drop_last());
        }
    } else {
        proof {
            assert(v@[v@.len() - 1]@ =~= v.deep_view().last());
            assert(v.deep_view().last() != Seq::<u8>::empty());
        }
    }
    v
}

/// Whether every record fits the schema.
pub open spec fn all_rows_ok(types: Seq<ColumnType>, rows: Seq<Seq<Seq<u8>>>) -> bool {
    forall|k: int| 0 <= k < rows.len() ==> row_ok(types, rows[k])
}

/// The batches a run produces: the split records in order, grouped into
/// batches of `size` records, the last group possibly smaller.
pub open spec fn chunked(types: Seq<ColumnType>, rows: Seq<Seq<Seq<u8>>>, size: int) -> Seq<
    Seq<ColV>,
>
    decreases rows.len(),
{
    if size < 1 || rows.len() == 0 {
        Seq::empty()
    } else if rows.len() <= size {
        seq![columnar(types, rows)]
    } else {
        seq![columnar(types, rows.take(size))] + chunked(types, rows.skip(size), size)
    }
}

/// The container bytes one run owes: the serialised form of the schema (its
/// names as the container records them) and the records grouped into
/// batches.
pub open spec fn output_of(sv: Seq<ColumnV>, rows: Seq<Seq<Seq<u8>>>) -> Seq<u8> {
    container_bytes_of(lossy_cols(sv), chunked(types_of(sv), rows, BATCH_ROWS as int))
}

/// The outcome one run owes for a configuration and the input bytes; every
/// case of the result, success and bytes included, is a function of these
/// two alone.
pub open spec fn convert_spec(cfg: ConfigV, data: Seq<u8>) -> Result<Seq<u8>, ConvError> {
    let lines = records_of(data);
    if !(cfg.fromtype == Filetype::CSV && cfg.totype == Filetype::PARQUET) {
        Err(ConvError::UnsupportedFormat)
    } else {
        match schema_spec(lines, cfg.has_header, cfg.delimiter) {
            Err(e) => Err(e),
            Ok(sv) => {
                let flds = fields_of(data_of(lines, cfg.has_header), cfg.delimiter);
                if !all_rows_ok(types_of(sv), flds) {
                    Err(ConvError::RowParseError(first_bad_row(types_of(sv), flds, 0) as usize))
                } else if container_write_ok(
                    lossy_cols(sv),
                    chunked(types_of(sv), flds, BATCH_ROWS as int),
                ) {
                    Ok(output_of(sv, flds))
                } else {
                    Err(ConvError::WriteError)
                }
            },
        }
    }
}

proof fn lemma_first_bad_advance(types: Seq<ColumnType>, rows: Seq<Seq<Seq<u8>>>, q: int, p: int)
    requires
        0 <= q <= p <= rows.len(),
        forall|i: int| q <= i < p ==> row_ok(types, rows[i]),
    ensures
        first_bad_row(types, rows, q) == first_bad_row(types, rows, p),
    decreases p - q,
{
    if q < p {
        assert(row_ok(types, rows[q]));
        lemma_first_bad_advance(types, rows, q + 1, p);
    }
}

/// Runs one conversion: splits the input bytes into records (raw lines, no
/// quoting rules), infers the schema, pulls batches from the source and
/// submits each to the sink in input order, and returns the output
/// container's bytes. The outcome is exactly `convert_spec` of the
/// configuration and the input: `UnsupportedFormat` unless the configured
/// formats are the supported pair, what inference owes when no schema can
/// be inferred, `RowParseError` naming the first record that does not fit,
/// and the container's bytes exactly when the writer accepts the run.
pub fn convert(config: &RunConfig, data: &[u8]) -> (r: Result<Vec<u8>, ConvError>)
    ensures
        ({
            match r {
                Ok(out) => convert_spec(config@, data@) == Ok::<Seq<u8>, ConvError>(out@),
                Err(e) => convert_spec(config@, data@) == Err::<Seq<u8>, ConvError>(e),
            }
        }),
{
    if !(config.fromtype == Filetype::CSV && config.totype == Filetype::PARQUET) {
        return Err(ConvError::UnsupportedFormat);
    }
    let ghost linesv = records_of(data@);
    let lines = split_lines(data);
    let mut source = match CsvSource::new(lines, config.has_header, config.delimiter, BATCH_ROWS) {
        Ok(s) => s,
        Err(e) => {
            return Err(e);
        },
    };
    let ghost sv = source.schema@;
    let ghost types = types_of(sv);
    let ghost flds = source.fields();
    proof {
        assert(flds == fields_of(data_of(linesv, config.has_header), config.delimiter));
    }
    let schema_copy = source.schema.duplicate();
    let mut sink = BatchSink::new(schema_copy);
    proof {
        assert(flds.skip(0) =~= flds);
        assert(Seq::<Seq<ColV>>::empty() + chunked(types, flds, BATCH_ROWS as int) =~= chunked(
            types,
            flds,
            BATCH_ROWS as int,
        ));
    }
    let mut done = false;
    while !done
        invariant
            config.fromtype == Filetype::CSV && config.totype == Filetype::PARQUET,
            schema_spec(records_of(data@), config.has_header, config.delimiter) == Ok::<
                Seq<ColumnV>,
                ConvError,
            >(sv),
            flds == fields_of(
                data_of(records_of(data@), config.has_header),
                config.delimiter,
            ),
            source.wf(),
            source.batch_size == BATCH_ROWS,
            source.delimiter == config.delimiter,
            source.schema@ == sv,
            types == types_of(sv),
            flds == source.fields(),
            sink.schema@ == sv,
            sink.state == crate::sink::SinkState::Created || sink.state
                == crate::sink::SinkState::Writing,
            forall|k: int| 0 <= k < source.pos ==> row_ok(types, flds[k]),
            sink.contents() + chunked(types, flds.skip(source.pos as int), BATCH_ROWS as int)
                == chunked(types, flds, BATCH_ROWS as int),
            done ==> source.exhausted() && source.pos == flds.len(),
        decreases flds.len() - source.pos + (if done {
            0int
        } else {
            1int
        }),
    {
        let ghost p = source.pos as int;
        let ghost n = flds.len() as int;
        match source.next_batch() {
            Ok(Some(b)) => {
                proof {
                    let end = min_int(p + BATCH_ROWS as int, n);
                    let tail = flds.skip(p);
                    if n - p <= BATCH_ROWS as int {
                        assert(tail.len() == n - p);
                        assert(tail =~~= flds.subrange(p, end));
                        assert(chunked(types, tail, BATCH_ROWS as int) == seq![
                            columnar(types, tail),
                        ]);
                        assert(flds.skip(end) =~= Seq::<Seq<Seq<u8>>>::empty());
                    } else {
                        assert(tail.take(BATCH_ROWS as int) =~~= flds.subrange(p, end));
                        assert(tail.skip(BATCH_ROWS as int) =~~= flds.skip(end));
                    }
                }
                sink.submit(b);
                proof {
                    let end = min_int(p + BATCH_ROWS as int, n);
                    assert(sink.contents() + chunked(types, flds.skip(end), BATCH_ROWS as int)
                        =~= chunked(types, flds, BATCH_ROWS as int));
                }
            },
            Ok(None) => {
                done = true;
            },
            Err(e) => {
                proof {
                    let end = min_int(p + BATCH_ROWS as int, n);
                    assert(exists|k: int| p <= k < end && !row_ok(types, flds[k]));
                    let kbad = choose|k: int| p <= k < end && !row_ok(types, flds[k]);
                    crate::source::lemma_first_bad_row_props(types, flds, p);
                    assert(first_bad_row(types, flds, p) <= kbad);
                    assert(!row_ok(types, flds[first_bad_row(types, flds, p)]));
                    lemma_first_bad_advance(types, flds, 0, p);
                }
                sink.fail();
                return Err(e);
            },
        }
    }
    proof {
        assert(flds.skip(flds.len() as int) =~= Seq::<Seq<Seq<u8>>>::empty());
        assert(sink.contents() + Seq::<Seq<ColV>>::empty() =~= sink.contents());
        assert(sink.contents() == chunked(types, flds, BATCH_ROWS as int));
        assert(all_rows_ok(types, flds));
    }
    match sink.finalize() {
        Ok(out) => Ok(out),
        Err(e) => Err(e),
    }
}

/// One parsed cell of a batch column.
pub enum ValueV {
    Int(i64),
    Text(Seq<u8>),
}

/// How many rows one batch column holds.
pub open spec fn col_len(cv: ColV) -> nat {
    match cv {
        ColV::Ints(s) => s.len(),
        ColV::Texts(s) => s.len(),
    }
}

/// The cell of a batch column at row `r`.
pub open spec fn cell(cv: ColV, r: int) -> ValueV {
    match cv {
        ColV::Ints(s) => ValueV::Int(s[r]),
        ColV::Texts(s) => ValueV::Text(s[r]),
    }
}

/// The typed value of one raw field under a column type.
pub open spec fn field_value(t: ColumnType, f: Seq<u8>) -> ValueV {
    if t == ColumnType::Int {
        ValueV::Int(int_field_value(f) as i64)
    } else {
        ValueV::Text(f)
    }
}

/// How many batches `n` records make in groups of `size`.
pub open spec fn chunk_count(n: int, size: int) -> int
    decreases n,
{
    if size < 1 || n <= 0 {
        0
    } else if n <= size {
        1
    } else {
        1 + chunk_count(n - size, size)
    }
}

/// The batches keep every record, its order and its values: there is one
/// batch per full or partial group of `size` records; in batch `c`, every
/// column holds one cell per record of the group, and the cell of row `r`
/// is exactly the parsed value of record `c * size + r` at that column. So
/// reading the batches back in order yields the records' values unchanged.
pub proof fn lemma_chunks_preserve_rows(types: Seq<ColumnType>, rows: Seq<Seq<Seq<u8>>>, size: int)
    requires
        size >= 1,
    ensures
        chunked(types, rows, size).len() == chunk_count(rows.len() as int, size),
        forall|c: int, j: int|
            0 <= c < chunked(types, rows, size).len() && 0 <= j < types.len() ==> col_len(
                #[trigger] chunked(types, rows, size)[c][j],
            ) == min_int((c + 1) * size, rows.len() as int) - c * size,
        forall|c: int, j: int, r: int|
            0 <= c < chunked(types, rows, size).len() && 0 <= j < types.len() && 0 <= r < col_len(
                chunked(types, rows, size)[c][j],
            ) ==> #[trigger] cell(chunked(types, rows, size)[c][j], r) == field_value(
                types[j],
                rows[c * size + r][j],
            ),
    decreases rows.len(),
{
    let cs = chunked(types, rows, size);
    if rows.len() == 0 {
    } else if rows.len() <= size {
        assert forall|c: int, j: int|
            0 <= c < cs.len() && 0 <= j < types.len() implies col_len(#[trigger] cs[c][j])
            == min_int((c + 1) * size, rows.len() as int) - c * size by {
            assert(c == 0);
            assert(c * size == 0) by (nonlinear_arith)
                requires
                    c == 0,
            ;
            assert((c + 1) * size == size) by (nonlinear_arith)
                requires
                    c == 0,
            ;
        }
        assert forall|c: int, j: int, r: int|
            0 <= c < cs.len() && 0 <= j < types.len() && 0 <= r < col_len(
                cs[c][j],
            ) implies #[trigger] cell(cs[c][j], r) == field_value(
            types[j],
            rows[c * size + r][j],
        ) by {
            assert(c == 0);
            assert(c * size == 0) by (nonlinear_arith)
                requires
                    c == 0,
            ;
        }
    } else {
        let head = rows.take(size);
        let tail = rows.skip(size);
        lemma_chunks_preserve_rows(types, tail, size);
        let cst = chunked(types, tail, size);
        assert(cs == seq![columnar(types, head)] + cst);
        assert(cs.len() == 1 + cst.len());
        assert(chunk_count(rows.len() as int, size) == 1 + chunk_count(tail.len() as int, size));
        assert forall|c: int, j: int|
            0 <= c < cs.len() && 0 <= j < types.len() implies col_len(#[trigger] cs[c][j])
            == min_int((c + 1) * size, rows.len() as int) - c * size by {
            if c == 0 {
                assert(c * size == 0 && (c + 1) * size == size) by (nonlinear_arith)
                    requires
                        c == 0,
                ;
                assert(col_len(cs[0][j]) == head.len());
            } else {
                assert(cs[c] == cst[c - 1]);
                assert(col_len(cst[c - 1][j]) == min_int(((c - 1) + 1) * size, tail.len() as int) - (
                c - 1) * size);
                assert((c - 1) * size == c * size - size && ((c - 1) + 1) * size == c * size)
                    by (nonlinear_arith);
                assert(((c + 1)) * size == c * size + size) by (nonlinear_arith);
            }
        }
        assert forall|c: int, j: int, r: int|
            0 <= c < cs.len() && 0 <= j < types.len() && 0 <= r < col_len(
                cs[c][j],
            ) implies #[trigger] cell(cs[c][j], r) == field_value(
            types[j],
            rows[c * size + r][j],
        ) by {
            if c == 0 {
                assert(c * size == 0) by (nonlinear_arith)
                    requires
                        c == 0,
                ;
                assert(head[r] == rows[r]);
            } else {
                assert(cs[c] == cst[c - 1]);
                assert(cell(cst[c - 1][j], r) == field_value(types[j], tail[(c - 1) * size + r][j]));
                assert((c - 1) * size == c * size - size) by (nonlinear_arith);
                assert(tail[c * size - size + r] == rows[c * size + r]);
            }
        }
    }
}

/// Running the same conversion twice on the same configuration and input
/// gives the same outcome, success and bytes alike: each run's result is
/// `convert_spec` of the two, which `convert`'s contract states of every
/// run, so two runs agree unconditionally.
pub proof fn lemma_conversion_idempotent(
    cfg: ConfigV,
    data: Seq<u8>,
    r1: Result<Seq<u8>, ConvError>,
    r2: Result<Seq<u8>, ConvError>,
)
    requires
        r1 == convert_spec(cfg, data),
        r2 == convert_spec(cfg, data),
    ensures
        r1 == r2,
{
}

/// When a header is present and inference succeeds, the schema has exactly
/// one column per header field.
pub proof fn lemma_schema_matches_header(lines: Seq<Seq<u8>>, d: u8)
    requires
        schema_spec(lines, true, d) is Ok,
    ensures
        lines.len() > 0,
        schema_spec(lines, true, d) matches Ok(sv) && sv.len() == split_bytes(lines[0], d).len(),
{
    assert(lines.len() > 0);
}

} // verus!
