use vstd::prelude::*;

use crate::bytes::clone_bytes;
use crate::schema::{
    int_field_value, is_int_field, parse_int_field, types_of, ColumnType, Schema,
};

verus! {

/// One typed column of a batch: a contiguous array of parsed values.
#[derive(Debug)]
pub enum ColumnData {
    Ints(Vec<i64>),
    Texts(Vec<Vec<u8>>),
}

/// The mathematical value of one batch column.
pub enum ColV {
    Ints(Seq<i64>),
    Texts(Seq<Seq<u8>>),
}

impl View for ColumnData {
    type V = ColV;

    open spec fn view(&self) -> ColV {
        match self {
            ColumnData::Ints(v) => ColV::Ints(v@),
            ColumnData::Texts(v) => ColV::Texts(v.deep_view()),
        }
    }
}

/// A bounded columnar slice of parsed rows: one typed array per schema
/// column, all of the same length.
#[derive(Debug)]
pub struct Batch {
    pub columns: Vec<ColumnData>,
}

impl View for Batch {
    type V = Seq<ColV>;

    open spec fn view(&self) -> Seq<ColV> {
        Seq::new(self.columns@.len(), |i: int| self.columns@[i]@)
    }
}

/// Whether one field parses under a column type: text always does, an
/// integer column asks for an integer literal.
pub open spec fn field_ok(t: ColumnType, f: Seq<u8>) -> bool {
    t == ColumnType::Text || is_int_field(f)
}

/// Whether a split record fits the schema: the right number of fields, each
/// parsing under its column's type.
pub open spec fn row_ok(types: Seq<ColumnType>, fields: Seq<Seq<u8>>) -> bool {
    &&& fields.len() == types.len()
    &&& forall|j: int| 0 <= j < types.len() ==> field_ok(types[j], fields[j])
}

/// The columnar form of the given split records under the schema's types.
pub open spec fn columnar(types: Seq<ColumnType>, rows: Seq<Seq<Seq<u8>>>) -> Seq<ColV> {
    Seq::new(
        types.len(),
        |j: int|
            if types[j] == ColumnType::Int {
                ColV::Ints(Seq::new(rows.len(), |r: int| int_field_value(rows[r][j]) as i64))
            } else {
                ColV::Texts(Seq::new(rows.len(), |r: int| rows[r][j]))
            },
    )
}

/// Whether a split record fits the schema, as `row_ok` says.
pub fn row_fits(schema: &Schema, row: &Vec<Vec<u8>>) -> (r: bool)
    ensures
        r == row_ok(types_of(schema@), row.deep_view()),
{
    let ghost types = types_of(schema@);
    proof {
        assert(row.deep_view().len() == row@.len());
    }
    if row.len() != schema.cols.len() {
        return false;
    }
    let mut j: usize = 0;
    while j < row.len()
        invariant
            j <= row@.len(),
            types == types_of(schema@),
            types.len() == schema.cols@.len(),
            schema.cols@.len() == schema@.len(),
            row@.len() == types.len(),
            row.deep_view().len() == row@.len(),
            forall|jj: int| 0 <= jj < j ==> field_ok(types[jj], row.deep_view()[jj]),
        decreases row@.len() - j,
    {
        proof {
            assert(types[j as int] == schema@[j as int].ctype);
            assert(schema@[j as int] == schema.cols@[j as int]@);
            assert(row@[j as int]@ =~= row.deep_view()[j as int]);
        }
        match schema.cols[j].ctype {
            ColumnType::Int => {
                if parse_int_field(row[j].as_slice()).is_none() {
                    return false;
                }
            },
            ColumnType::Text => {},
        }
        j = j + 1;
    }
    true
}

/// Builds the columnar batch of already validated rows.
pub fn build_batch(schema: &Schema, rows: &Vec<Vec<Vec<u8>>>) -> (r: Batch)
    requires
        forall|k: int|
            0 <= k < rows@.len() ==> row_ok(types_of(schema@), rows@[k].deep_view()),
    ensures
        r@ == columnar(types_of(schema@), rows.deep_view()),
{
    let ghost types = types_of(schema@);
    let ghost rowsv = rows.deep_view();
    proof {
        assert(forall|k: int| 0 <= k < rowsv.len() ==> rowsv[k] == rows@[k].deep_view());
        assert(types.len() == schema@.len());
    }
    let nrows = rows.len();
    let mut columns: Vec<ColumnData> = Vec::new();
    let mut j: usize = 0;
    while j < schema.cols.len()
        invariant
            j <= schema@.len(),
            types == types_of(schema@),
            types.len() == schema@.len(),
            schema@.len() == schema.cols@.len(),
            rowsv == rows.deep_view(),
            nrows == rows@.len(),
            rowsv.len() == rows@.len(),
            forall|k: int|
                0 <= k < rowsv.len() ==> row_ok(types, rowsv[k]) && rowsv[k] == rows@[
                    k
                ].deep_view(),
            columns@.len() == j,
            forall|k: int| 0 <= k < j ==> columns@[k]@ == columnar(types, rowsv)[k],
        decreases schema.cols@.len() - j,
    {
        proof {
            assert(types[j as int] == schema@[j as int].ctype);
            assert(schema@[j as int] == schema.cols@[j as int]@);
        }
        let col: ColumnData = match schema.cols[j].ctype {
            ColumnType::Int => {
                let mut v: Vec<i64> = Vec::new();
                let mut t: usize = 0;
                while t < nrows
                    invariant
                        t <= nrows,
                        nrows == rows@.len(),
                        rowsv == rows.deep_view(),
                        rowsv.len() == rows@.len(),
                        types == types_of(schema@),
                        j < types.len(),
                        types[j as int] == ColumnType::Int,
                        forall|k: int|
                            0 <= k < rowsv.len() ==> row_ok(types, rowsv[k]) && rowsv[k] == rows@[
                                k
                            ].deep_view(),
                        v@.len() == t,
                        forall|k: int|
                            0 <= k < t ==> v@[k] == int_field_value(rowsv[k][j as int]) as i64,
                    decreases nrows - t,
                {
                    proof {
                        assert(row_ok(types, rowsv[t as int]));
                        assert(rowsv[t as int].len() == types.len());
                        assert(rows@[t as int]@.len() == rowsv[t as int].len());
                        assert(field_ok(types[j as int], rowsv[t as int][j as int]));
                        assert(rows@[t as int]@[j as int].deep_view() =~= rows@[t as int]@[
                            j as int
                        ]@);
                        assert(rowsv[t as int][j as int] == rows@[t as int]@[j as int]@);
                    }
                    let x = parse_int_field(rows[t][j].as_slice());
                    let xv = x.unwrap();
                    v.push(xv);
                    t = t + 1;
                }
                ColumnData::Ints(v)
            },
            ColumnType::Text => {
                let mut v: Vec<Vec<u8>> = Vec::new();
                let mut t: usize = 0;
                while t < nrows
                    invariant
                        t <= nrows,
                        nrows == rows@.len(),
                        rowsv == rows.deep_view(),
                        rowsv.len() == rows@.len(),
                        types == types_of(schema@),
                        j < types.len(),
                        types[j as int] == ColumnType::Text,
                        forall|k: int|
                            0 <= k < rowsv.len() ==> row_ok(types, rowsv[k]) && rowsv[k] == rows@[
                                k
                            ].deep_view(),
                        v@.len() == t,
                        forall|k: int| 0 <= k < t ==> v@[k]@ == rowsv[k][j as int],
                    decreases nrows - t,
                {
                    proof {
                        assert(row_ok(types, rowsv[t as int]));
                        assert(rowsv[t as int].len() == types.len());
                        assert(rows@[t as int]@.len() == rowsv[t as int].len());
                        assert(rows@[t as int]@[j as int].deep_view() =~= rows@[t as int]@[
                            j as int
                        ]@);
                        assert(rowsv[t as int][j as int] == rows@[t as int]@[j as int]@);
                    }
                    let f = clone_bytes(&rows[t][j]);
                    v.push(f);
                    t = t + 1;
                }
                ColumnData::Texts(v)
            },
        };
        columns.push(col);
        proof {
            if types[j as int] == ColumnType::Int {
                assert(columns@[j as int]@ matches ColV::Ints(s) && s =~= Seq::new(
                    rowsv.len(),
                    |r: int| int_field_value(rowsv[r][j as int]) as i64,
                ));
            } else {
                assert(columns@[j as int]@ matches ColV::Texts(s) && s =~~= Seq::new(
                    rowsv.len(),
                    |r: int| rowsv[r][j as int],
                ));
            }
            assert(columns@[j as int]@ == columnar(types, rowsv)[j as int]);
        }
        j = j + 1;
    }
    let b = Batch { columns };
    proof {
        assert(b@ =~= columnar(types, rowsv));
    }
    b
}

} // verus!
