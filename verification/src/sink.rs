use vstd::prelude::*;

use crate::batch::{Batch, ColV, ColumnData};
use crate::errors::ConvError;
use crate::schema::{ColumnType, ColumnV, Schema};

use arrow2::chunk::Chunk;
use arrow2::datatypes::Schema as ArrowSchema;
use arrow2::io::parquet::write::{
    CompressionOptions, Encoding as PqEncoding, FileWriter, RowGroupIterator, Version,
    WriteOptions,
};

verus! {

/// The states of the sink: accepting batches, finished, or failed. Any
/// error while writing moves it to `Failed` and aborts the run.
#[derive(Clone, Copy, PartialEq, Eq, Structural, Debug)]
pub enum SinkState {
    Created,
    Writing,
    Finalized,
    Failed,
}

/// Holds arrow2 field descriptions, one per schema column. Opaque to the
/// verifier; what it holds is named by `arrow_fields_view`.
#[verifier::external_body]
pub struct ArrowFields {
    inner: Vec<arrow2::datatypes::Field>,
}

/// The schema columns an `ArrowFields` describes.
pub uninterp spec fn arrow_fields_view(f: ArrowFields) -> Seq<ColumnV>;

/// The bytes `String::from_utf8_lossy` yields for a byte sequence: its
/// UTF-8 form, every invalid sequence rewritten to the replacement
/// character; a function of the bytes alone.
pub uninterp spec fn utf8_lossy_of(s: Seq<u8>) -> Seq<u8>;

/// The schema as the container records it: each column name as the lossy
/// UTF-8 conversion leaves it, the types unchanged.
pub open spec fn lossy_cols(s: Seq<ColumnV>) -> Seq<ColumnV> {
    s.map_values(|c: ColumnV| ColumnV { name: utf8_lossy_of(c.name), ctype: c.ctype })
}

/// An empty arrow2 field list.
#[verifier::external_body]
fn arrow_fields_new() -> (r: ArrowFields)
    ensures
        arrow_fields_view(r) == Seq::<ColumnV>::empty(),
{
    ArrowFields { inner: Vec::new() }
}

/// Relies on arrow2's `Field::new` and std's `String::from_utf8_lossy`:
/// appends one field description carrying the column's name, as the lossy
/// UTF-8 conversion leaves it, and its data type (64-bit integer, or raw
/// bytes).
#[verifier::external_body]
fn arrow_fields_push(f: &mut ArrowFields, name: &Vec<u8>, ctype: ColumnType)
    ensures
        arrow_fields_view(*final(f)) == arrow_fields_view(*old(f)).push(
            ColumnV { name: utf8_lossy_of(name@), ctype },
        ),
{
    let n = String::from_utf8_lossy(name.as_slice()).into_owned();
    let dt = match ctype {
        ColumnType::Int => arrow2::datatypes::DataType::Int64,
        ColumnType::Text => arrow2::datatypes::DataType::LargeBinary,
    };
    f.inner.push(arrow2::datatypes::Field::new(n, dt, false));
}

/// Holds the arrow2 arrays of one batch, one per column. Opaque to the
/// verifier; what it holds is named by `arrow_batch_view`.
#[verifier::external_body]
pub struct ArrowBatch {
    inner: Vec<Box<dyn arrow2::array::Array>>,
}

/// The batch columns an `ArrowBatch` holds.
pub uninterp spec fn arrow_batch_view(b: ArrowBatch) -> Seq<ColV>;

/// An empty arrow2 array list.
#[verifier::external_body]
fn arrow_batch_new() -> (r: ArrowBatch)
    ensures
        arrow_batch_view(r) == Seq::<ColV>::empty(),
{
    ArrowBatch { inner: Vec::new() }
}

/// Relies on arrow2's `PrimitiveArray::from_vec` and
/// `BinaryArray::from_slice`: appends one column's values as one array,
/// in order and without nulls. The byte array's offsets are 64-bit, so
/// every column that fits in memory fits in the array.
#[verifier::external_body]
fn arrow_batch_push(b: &mut ArrowBatch, col: &ColumnData)
    ensures
        arrow_batch_view(*final(b)) == arrow_batch_view(*old(b)).push(col@),
{
    match col {
        ColumnData::Ints(v) => b.inner.push(
            Box::new(arrow2::array::Int64Array::from_vec(v.clone())),
        ),
        ColumnData::Texts(v) => b.inner.push(
            Box::new(arrow2::array::BinaryArray::<i64>::from_slice(v)),
        ),
    }
}

/// The bytes of the container that arrow2's parquet writer produces for
/// this schema and these batches under this design's fixed settings; they
/// depend on the schema and the batch contents alone.
pub uninterp spec fn container_bytes_of(schema: Seq<ColumnV>, batches: Seq<Seq<ColV>>) -> Seq<u8>;

/// Whether arrow2's parquet writer succeeds on this schema and these
/// batches under this design's fixed settings. The writer targets memory
/// and no time, randomness or outside state reaches the used path, so
/// success, like the bytes, is a function of these two alone.
pub uninterp spec fn container_write_ok(schema: Seq<ColumnV>, batches: Seq<Seq<ColV>>) -> bool;

/// Relies on arrow2's parquet writer (`RowGroupIterator`, `FileWriter`):
/// serialises the fields and the arrays into one in-memory container, one
/// row group per batch, uncompressed, plain encoding, format version 2,
/// statistics on. Any failure of the writer is reported as `WriteError`.
#[verifier::external_body]
fn write_container(fields: ArrowFields, batches: Vec<ArrowBatch>) -> (r: Result<Vec<u8>, ConvError>)
    ensures
        (r is Ok) == container_write_ok(
            arrow_fields_view(fields),
            batches@.map_values(|b: ArrowBatch| arrow_batch_view(b)),
        ),
        r matches Ok(out) ==> out@ == container_bytes_of(
            arrow_fields_view(fields),
            batches@.map_values(|b: ArrowBatch| arrow_batch_view(b)),
        ),
        r matches Err(e) ==> e == ConvError::WriteError,
{
    let schema = ArrowSchema::from(fields.inner);
    let opts = WriteOptions { write_statistics: true, version: Version::V2, compression: CompressionOptions::Uncompressed, data_pagesize_limit: None };
    let enc = schema.fields.iter().map(|_| vec![PqEncoding::Plain]).collect();
    let chunks = batches.into_iter().map(|b| Chunk::try_new(b.inner));
    let res = RowGroupIterator::try_new(chunks, &schema, opts, enc).and_then(|groups| {
        let mut w = FileWriter::try_new(Vec::new(), schema, opts)?;
        for g in groups {
            w.write(g?)?;
        }
        w.end(None)?;
        Ok(w.into_inner())
    });
    res.map_err(|_| ConvError::WriteError)
}

/// The batch sink: consumes the batch sequence in order and serialises it
/// into one output container with the run's schema.
pub struct BatchSink {
    pub state: SinkState,
    pub schema: Schema,
    pub batches: Vec<Batch>,
}

impl BatchSink {
    /// The submitted batches, in submission order.
    pub open spec fn contents(&self) -> Seq<Seq<ColV>> {
        self.batches@.map_values(|b: Batch| b@)
    }

    /// A new sink for one run's schema.
    pub fn new(schema: Schema) -> (r: BatchSink)
        ensures
            r.state == SinkState::Created,
            r.schema@ == schema@,
            r.contents() == Seq::<Seq<ColV>>::empty(),
    {
        let r = BatchSink { state: SinkState::Created, schema, batches: Vec::new() };
        proof {
            assert(r.contents() =~= Seq::<Seq<ColV>>::empty());
        }
        r
    }

    /// Accepts one batch; only a sink that has not finished or failed
    /// accepts, and the batch is kept after everything submitted before it.
    pub fn submit(&mut self, b: Batch)
        requires
            old(self).state == SinkState::Created || old(self).state == SinkState::Writing,
        ensures
            final(self).state == SinkState::Writing,
            final(self).schema == old(self).schema,
            final(self).contents() == old(self).contents().push(b@),
    {
        let ghost bv = b@;
        self.batches.push(b);
        self.state = SinkState::Writing;
        proof {
            assert(self.contents() =~= old(self).contents().push(bv));
        }
    }

    /// Marks the run failed after an upstream error; no bytes come out.
    pub fn fail(&mut self)
        ensures
            final(self).state == SinkState::Failed,
            final(self).schema == old(self).schema,
            final(self).contents() == old(self).contents(),
    {
        self.state = SinkState::Failed;
    }

    /// Serialises everything submitted into the container's bytes. The
    /// writer succeeds exactly when `container_write_ok` holds of the
    /// recorded schema and the submitted batches; then the sink is
    /// finalized and the bytes are exactly `container_bytes_of` of the
    /// two, in submission order. When the writer fails the sink is failed
    /// with `WriteError`.
    pub fn finalize(&mut self) -> (r: Result<Vec<u8>, ConvError>)
        requires
            old(self).state == SinkState::Created || old(self).state == SinkState::Writing,
        ensures
            final(self).schema == old(self).schema,
            final(self).contents() == old(self).contents(),
            (r is Ok) == container_write_ok(lossy_cols(old(self).schema@), old(self).contents()),
            r matches Ok(out) ==> out@ == container_bytes_of(
                lossy_cols(old(self).schema@),
                old(self).contents(),
            ) && final(self).state == SinkState::Finalized,
            r matches Err(e) ==> e == ConvError::WriteError && final(self).state
                == SinkState::Failed,
    {
        let mut fields = arrow_fields_new();
        let mut j: usize = 0;
        while j < self.schema.cols.len()
            invariant
                j <= self.schema.cols@.len(),
                self == old(self),
                arrow_fields_view(fields) == lossy_cols(self.schema@.take(j as int)),
            decreases self.schema.cols@.len() - j,
        {
            proof {
                assert(self.schema@[j as int] == self.schema.cols@[j as int]@);
            }
            arrow_fields_push(&mut fields, &self.schema.cols[j].name, self.schema.cols[j].ctype);
            proof {
                assert(lossy_cols(self.schema@.take(j as int)).push(
                    ColumnV {
                        name: utf8_lossy_of(self.schema@[j as int].name),
                        ctype: self.schema@[j as int].ctype,
                    },
                ) =~= lossy_cols(self.schema@.take(j as int + 1)));
            }
            j = j + 1;
        }
        proof {
            assert(self.schema@.take(self.schema.cols@.len() as int) =~= self.schema@);
        }
        let mut abs: Vec<ArrowBatch> = Vec::new();
        let mut i: usize = 0;
        while i < self.batches.len()
            invariant
                i <= self.batches@.len(),
                self == old(self),
                abs@.len() == i,
                forall|k: int| 0 <= k < i ==> arrow_batch_view(abs@[k]) == self.batches@[k]@,
            decreases self.batches@.len() - i,
        {
            let mut ab = arrow_batch_new();
            let ncols = self.batches[i].columns.len();
            let mut j2: usize = 0;
            while j2 < ncols
                invariant
                    j2 <= ncols,
                    i < self.batches@.len(),
                    self == old(self),
                    ncols == self.batches@[i as int].columns@.len(),
                    arrow_batch_view(ab) == self.batches@[i as int]@.take(j2 as int),
                decreases ncols - j2,
            {
                arrow_batch_push(&mut ab, &self.batches[i].columns[j2]);
                proof {
                    let bv = self.batches@[i as int]@;
                    assert(bv[j2 as int] == self.batches@[i as int].columns@[j2 as int]@);
                    assert(bv.take(j2 as int).push(bv[j2 as int]) =~= bv.take(j2 as int + 1));
                }
                j2 = j2 + 1;
            }
            proof {
                assert(self.batches@[i as int]@.take(ncols as int) =~= self.batches@[i as int]@);
            }
            abs.push(ab);
            i = i + 1;
        }
        proof {
            assert(abs@.map_values(|b: ArrowBatch| arrow_batch_view(b)) =~= self.contents());
        }
        match write_container(fields, abs) {
            Ok(out) => {
                self.state = SinkState::Finalized;
                Ok(out)
            },
            Err(e) => {
                self.state = SinkState::Failed;
                Err(e)
            },
        }
    }
}

} // verus!
