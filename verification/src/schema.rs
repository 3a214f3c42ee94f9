use vstd::prelude::*;

use crate::bytes::{clone_bytes, dec_digits, dec_of, split_bytes, split_record};
use crate::errors::ConvError;

verus! {

/// The type a column is inferred to: 64-bit integers, or uninterpreted text.
#[derive(Clone, Copy, PartialEq, Eq, Structural, Debug)]
pub enum ColumnType {
    Int,
    Text,
}

/// One schema column: its name and its inferred type.
#[derive(Debug)]
pub struct Column {
    pub name: Vec<u8>,
    pub ctype: ColumnType,
}

/// The mathematical value of a column.
pub struct ColumnV {
    pub name: Seq<u8>,
    pub ctype: ColumnType,
}

impl View for Column {
    type V = ColumnV;

    open spec fn view(&self) -> ColumnV {
        ColumnV { name: self.name@, ctype: self.ctype }
    }
}

/// An ordered sequence of named, typed columns, fixed once inferred and
/// identical for the input read and the output written.
#[derive(Debug)]
pub struct Schema {
    pub cols: Vec<Column>,
}

impl View for Schema {
    type V = Seq<ColumnV>;

    open spec fn view(&self) -> Seq<ColumnV> {
        Seq::new(self.cols@.len(), |i: int| self.cols@[i]@)
    }
}

pub open spec fn types_of(s: Seq<ColumnV>) -> Seq<ColumnType> {
    s.map_values(|c: ColumnV| c.ctype)
}

pub open spec fn is_digit(b: u8) -> bool {
    48 <= b && b <= 57
}

pub open spec fn all_digits(s: Seq<u8>) -> bool {
    forall|i: int| 0 <= i < s.len() ==> is_digit(s[i])
}

/// Whether a field is an integer literal: an optional leading '-', then one
/// to eighteen decimal digits. Longer digit runs stay text, so that every
/// accepted literal fits in a 64-bit value.
pub open spec fn is_int_field(s: Seq<u8>) -> bool {
    if s.len() > 0 && s[0] == 45 {
        let d = s.skip(1);
        1 <= d.len() <= 18 && all_digits(d)
    } else {
        1 <= s.len() <= 18 && all_digits(s)
    }
}

/// The value of a run of decimal digits, most significant first.
pub open spec fn digits_value(s: Seq<u8>) -> int
    decreases s.len(),
{
    if s.len() == 0 {
        0
    } else {
        digits_value(s.drop_last()) * 10 + (s.last() - 48)
    }
}

/// The integer an integer literal denotes.
pub open spec fn int_field_value(s: Seq<u8>) -> int {
    if s.len() > 0 && s[0] == 45 {
        -digits_value(s.skip(1))
    } else {
        digits_value(s)
    }
}

pub open spec fn pow10(n: nat) -> int
    decreases n,
{
    if n == 0 {
        1
    } else {
        10 * pow10((n - 1) as nat)
    }
}

pub proof fn lemma_pow10_mono(a: nat, b: nat)
    requires
        a <= b,
    ensures
        0 < pow10(a) <= pow10(b),
    decreases b,
{
    if b == 0 {
    } else if a == b {
        lemma_pow10_mono((a - 1) as nat, (b - 1) as nat);
    } else {
        lemma_pow10_mono(a, (b - 1) as nat);
    }
}

pub proof fn lemma_digits_value_bound(s: Seq<u8>)
    requires
        all_digits(s),
    ensures
        0 <= digits_value(s) < pow10(s.len()),
    decreases s.len(),
{
    if s.len() == 0 {
    } else {
        assert(all_digits(s.drop_last())) by {
            assert(forall|i: int|
                0 <= i < s.len() - 1 ==> s.drop_last()[i] == s[i] && is_digit(s[i]));
        }
        lemma_digits_value_bound(s.drop_last());
        assert(is_digit(s.last()));
    }
}

/// Parses an integer literal field; `None` exactly when the field is no
/// integer literal.
pub fn parse_int_field(f: &[u8]) -> (r: Option<i64>)
    ensures
        (r is Some) == is_int_field(f@),
        r matches Some(v) ==> v as int == int_field_value(f@),
{
    let neg = f.len() > 0 && f[0] == 45;
    let start: usize = if neg {
        1
    } else {
        0
    };
    let ndigits = f.len() - start;
    if ndigits < 1 || ndigits > 18 {
        proof {
            if neg {
                assert(f@.skip(1).len() == f@.len() - 1);
            }
        }
        return None;
    }
    let ghost digits = f@.subrange(start as int, f@.len() as int);
    let mut val: i64 = 0;
    let mut i: usize = start;
    while i < f.len()
        invariant
            start <= i <= f@.len(),
            start < f@.len(),
            start == 0 || start == 1,
            1 <= f@.len() - start <= 18,
            start == 1 ==> f@.len() > 0 && f@[0] == 45,
            start == 0 ==> !(f@.len() > 0 && f@[0] == 45),
            all_digits(f@.subrange(start as int, i as int)),
            val == digits_value(f@.subrange(start as int, i as int)),
            0 <= val < pow10((i - start) as nat),
        decreases f@.len() - i,
    {
        let b = f[i];
        if b < 48 || b > 57 {
            proof {
                if start == 1 {
                    assert(!is_int_field(f@)) by {
                        assert(f@.skip(1)[i - 1] == f@[i as int]);
                    }
                } else {
                    assert(!is_int_field(f@)) by {
                        assert(!is_digit(f@[i as int]));
                    }
                }
            }
            return None;
        }
        proof {
            lemma_pow10_mono((i - start) as nat, 17);
            assert(pow10(18) == 1000000000000000000) by {
                reveal_with_fuel(pow10, 19);
            }
            assert(pow10(18) == 10 * pow10(17));
        }
        val = val * 10 + ((b - 48) as i64);
        proof {
            let pre = f@.subrange(start as int, i as int);
            let now = f@.subrange(start as int, i as int + 1);
            assert(now.drop_last() =~= pre);
            assert(now.last() == f@[i as int]);
            assert(all_digits(now)) by {
                assert(forall|k: int| 0 <= k < now.len() ==> now[k] == f@[start + k]);
            }
            lemma_digits_value_bound(now);
        }
        i = i + 1;
    }
    proof {
        assert(f@.subrange(start as int, f@.len() as int) =~= digits);
        if neg {
            assert(f@.skip(1) =~= digits);
            assert(is_int_field(f@));
        } else {
            assert(f@.subrange(0, f@.len() as int) =~= f@);
            assert(is_int_field(f@));
        }
        lemma_pow10_mono(((f@.len() - start) as nat), 18);
        assert(pow10(18) == 1000000000000000000) by {
            reveal_with_fuel(pow10, 19);
        }
    }
    if neg {
        Some(-val)
    } else {
        Some(val)
    }
}

/// The generated name of unnamed column `j`: 'c', then `j` in decimal.
pub open spec fn gen_name(j: nat) -> Seq<u8> {
    seq![99u8] + dec_digits(j)
}

/// Whether the sampled rows type column `j` as integer: some sampled row
/// reaches the column, and every sampled row that reaches it holds an
/// integer literal there.
pub open spec fn col_is_int(sample: Seq<Seq<Seq<u8>>>, j: int) -> bool {
    &&& exists|r: int| 0 <= r < sample.len() && j < sample[r].len()
    &&& forall|r: int| 0 <= r < sample.len() && j < sample[r].len() ==> is_int_field(sample[r][j])
}

pub open spec fn infer_type(sample: Seq<Seq<Seq<u8>>>, j: int) -> ColumnType {
    if col_is_int(sample, j) {
        ColumnType::Int
    } else {
        ColumnType::Text
    }
}

/// How many leading data rows inference samples.
pub const INFER_SAMPLE_ROWS: usize = 100;

pub open spec fn min_int(a: int, b: int) -> int {
    if a <= b {
        a
    } else {
        b
    }
}

/// The data records of the input: every record, the header removed when one
/// is present.
pub open spec fn data_of(lines: Seq<Seq<u8>>, has_header: bool) -> Seq<Seq<u8>> {
    if has_header {
        lines.skip(1)
    } else {
        lines
    }
}

/// Each record split into its fields.
pub open spec fn fields_of(lines: Seq<Seq<u8>>, d: u8) -> Seq<Seq<Seq<u8>>> {
    lines.map_values(|l: Seq<u8>| split_bytes(l, d))
}

/// The bounded prefix of the data rows that inference reads, split.
pub open spec fn sample_of(data: Seq<Seq<u8>>, d: u8) -> Seq<Seq<Seq<u8>>> {
    fields_of(data.take(min_int(INFER_SAMPLE_ROWS as int, data.len() as int)), d)
}

/// The column names: the header's fields when a header is present, else one
/// generated name per field of the first data record.
pub open spec fn names_of(lines: Seq<Seq<u8>>, has_header: bool, d: u8) -> Seq<Seq<u8>> {
    if has_header {
        split_bytes(lines[0], d)
    } else {
        Seq::new(split_bytes(lines[0], d).len(), |j: int| gen_name(j as nat))
    }
}

/// Schema inference over the input records: it fails exactly when there is
/// no data row; otherwise the column count and names come from the header
/// (or from the first data record, with generated names), and each column's
/// type from a bounded sample of the data rows.
pub open spec fn schema_spec(lines: Seq<Seq<u8>>, has_header: bool, d: u8) -> Result<
    Seq<ColumnV>,
    ConvError,
> {
    if lines.len() == 0 || data_of(lines, has_header).len() == 0 {
        Err(ConvError::SchemaInferenceError)
    } else {
        let names = names_of(lines, has_header, d);
        let sample = sample_of(data_of(lines, has_header), d);
        Ok(Seq::new(names.len(), |j: int| ColumnV { name: names[j], ctype: infer_type(sample, j) }))
    }
}

impl Schema {
    /// The number of columns.
    pub fn len(&self) -> (r: usize)
        ensures
            r == self@.len(),
    {
        self.cols.len()
    }

    /// A copy whose columns are the same.
    pub fn duplicate(&self) -> (r: Schema)
        ensures
            r@ == self@,
    {
        let mut cols: Vec<Column> = Vec::new();
        let mut i: usize = 0;
        while i < self.cols.len()
            invariant
                i <= self.cols@.len(),
                cols@.len() == i,
                forall|k: int| 0 <= k < i ==> cols@[k]@ == self.cols@[k]@,
            decreases self.cols@.len() - i,
        {
            let name = clone_bytes(&self.cols[i].name);
            let ctype = self.cols[i].ctype;
            cols.push(Column { name, ctype });
            i = i + 1;
        }
        let r = Schema { cols };
        proof {
            assert(r@ =~= self@);
        }
        r
    }

    /// Infers the schema from the input records, as `schema_spec` says.
    pub fn infer(lines: &Vec<Vec<u8>>, has_header: bool, d: u8) -> (r: Result<Schema, ConvError>)
        ensures
            match schema_spec(lines.deep_view(), has_header, d) {
                Ok(sv) => r matches Ok(s) && s@ == sv,
                Err(e) => r matches Err(e2) && e2 == e,
            },
    {
        let ghost linesv = lines.deep_view();
        let data_start: usize = if has_header {
            1
        } else {
            0
        };
        if lines.len() <= data_start {
            return Err(ConvError::SchemaInferenceError);
        }
        let ghost datav = data_of(linesv, has_header);
        proof {
            assert(datav.len() == linesv.len() - data_start);
            assert(forall|k: int|
                0 <= k < datav.len() ==> datav[k] == linesv[data_start + k]);
        }
        let first = split_record(lines[0].as_slice(), d);
        proof {
            assert(lines@[0].deep_view() == linesv[0]);
            assert(lines@[0]@ =~= lines@[0].deep_view());
            assert(first.deep_view() == split_bytes(linesv[0], d));
        }
        let arity = first.len();
        let ndata = lines.len() - data_start;
        let nsample = if ndata < INFER_SAMPLE_ROWS {
            ndata
        } else {
            INFER_SAMPLE_ROWS
        };
        let ghost samplev = sample_of(datav, d);
        proof {
            assert(samplev.len() == nsample);
            assert(forall|k: int|
                0 <= k < samplev.len() ==> samplev[k] == split_bytes(
                    datav.take(min_int(INFER_SAMPLE_ROWS as int, datav.len() as int))[k],
                    d,
                ));
        }
        let mut sample: Vec<Vec<Vec<u8>>> = Vec::new();
        let mut r: usize = 0;
        while r < nsample
            invariant
                r <= nsample,
                nsample <= lines@.len() - data_start,
                data_start <= 1 < lines@.len() + 1,
                linesv == lines.deep_view(),
                datav == data_of(linesv, has_header),
                samplev == sample_of(datav, d),
                samplev.len() == nsample,
                data_start == if has_header { 1int } else { 0int },
                sample@.len() == r,
                forall|k: int|
                    0 <= k < r ==> sample@[k].deep_view() == samplev[k],
            decreases nsample - r,
        {
            let row = split_record(lines[data_start + r].as_slice(), d);
            proof {
                assert(lines@[data_start + r].deep_view() == linesv[data_start + r]);
                assert(lines@[data_start + r]@ =~= lines@[data_start + r].deep_view());
                assert(datav[r as int] == linesv[data_start + r]);
                assert(samplev[r as int] == split_bytes(datav[r as int], d));
            }
            sample.push(row);
            r = r + 1;
        }
        let mut cols: Vec<Column> = Vec::new();
        let mut j: usize = 0;
        while j < arity
            invariant
                j <= arity,
                arity == first.deep_view().len(),
                first.deep_view() == split_bytes(linesv[0], d),
                linesv == lines.deep_view(),
                datav == data_of(linesv, has_header),
                samplev == sample_of(datav, d),
                sample@.len() == samplev.len(),
                forall|k: int|
                    0 <= k < samplev.len() ==> sample@[k].deep_view() == samplev[k],
                cols@.len() == j,
                forall|k: int|
                    0 <= k < j ==> cols@[k]@ == (ColumnV {
                        name: names_of(linesv, has_header, d)[k],
                        ctype: infer_type(samplev, k),
                    }),
            decreases arity - j,
        {
            let name: Vec<u8> = if has_header {
                proof {
                    assert(first@[j as int]@ =~= first@[j as int].deep_view());
                    assert(first.deep_view()[j as int] == first@[j as int].deep_view());
                }
                clone_bytes(&first[j])
            } else {
                let mut n: Vec<u8> = Vec::new();
                n.push(99);
                let mut ds = dec_of(j);
                n.append(&mut ds);
                proof {
                    assert(n@ =~= gen_name(j as nat));
                }
                n
            };
            let mut seen = false;
            let mut all_int = true;
            let mut t: usize = 0;
            while t < sample.len()
                invariant
                    t <= sample@.len(),
                    sample@.len() == samplev.len(),
                    forall|k: int|
                        0 <= k < samplev.len() ==> sample@[k].deep_view() == samplev[k],
                    seen == exists|k: int| 0 <= k < t && j < samplev[k].len(),
                    all_int == forall|k: int|
                        0 <= k < t && (j as int) < samplev[k].len() ==> is_int_field(
                            samplev[k][j as int],
                        ),
                decreases sample@.len() - t,
            {
                proof {
                    assert(sample@[t as int].deep_view() == samplev[t as int]);
                    assert(sample@[t as int]@.len() == samplev[t as int].len());
                }
                if j < sample[t].len() {
                    proof {
                        assert(sample@[t as int].deep_view()[j as int] == sample@[t as int]@[
                            j as int
                        ].deep_view());
                        assert(sample@[t as int]@[j as int]@ =~= sample@[t as int]@[
                            j as int
                        ].deep_view());
                        assert(samplev[t as int][j as int] == sample@[t as int]@[j as int]@);
                    }
                    seen = true;
                    if parse_int_field(sample[t][j].as_slice()).is_none() {
                        all_int = false;
                    }
                }
                t = t + 1;
            }
            let ctype = if seen && all_int {
                ColumnType::Int
            } else {
                ColumnType::Text
            };
            proof {
                assert(ctype == infer_type(samplev, j as int));
                if has_header {
                    assert(first.deep_view()[j as int] == names_of(linesv, has_header, d)[j as int]);
                }
            }
            cols.push(Column { name, ctype });
            j = j + 1;
        }
        let s = Schema { cols };
        proof {
            let names = names_of(linesv, has_header, d);
            assert(names.len() == arity);
            assert(s@ =~= Seq::new(
                names.len(),
                |k: int| ColumnV { name: names[k], ctype: infer_type(samplev, k) },
            ));
        }
        Ok(s)
    }
}

} // verus!
