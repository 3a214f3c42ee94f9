use vstd::prelude::*;

use crate::bytes::{bytes_eq, lower_bytes, to_lower_byte};
use vstd::string::StringSliceAdditionalSpecFns;

verus! {

/// The file formats a path can name. Only delimited text is accepted as
/// input and only the columnar container is produced as output.
#[allow(non_camel_case_types)]
#[derive(Clone, Copy, PartialEq, Eq, Structural, Debug)]
pub enum Filetype {
    UNKNOWN,
    CSV,
    PARQUET,
}

/// The bytes of the extension "csv".
pub open spec fn csv_ext() -> Seq<u8> {
    seq![99u8, 115u8, 118u8]
}

/// The bytes of the extension "parquet".
pub open spec fn parquet_ext() -> Seq<u8> {
    seq![112u8, 97u8, 114u8, 113u8, 117u8, 101u8, 116u8]
}

/// The filetype an already lower-cased extension names.
pub open spec fn ext_filetype(e: Seq<u8>) -> Filetype {
    if e == csv_ext() {
        Filetype::CSV
    } else if e == parquet_ext() {
        Filetype::PARQUET
    } else {
        Filetype::UNKNOWN
    }
}

/// The filetype a format name names, compared case-insensitively.
pub open spec fn type_of_name(s: Seq<u8>) -> Filetype {
    ext_filetype(lower_bytes(s))
}

/// The position of the last '.' in `s`, if any.
pub open spec fn last_dot(s: Seq<u8>) -> Option<int>
    decreases s.len(),
{
    if s.len() == 0 {
        None
    } else if s[s.len() - 1] == 46 {
        Some(s.len() - 1)
    } else {
        last_dot(s.drop_last())
    }
}

/// The filetype a file name's extension names: the suffix after the last
/// '.', compared case-insensitively; no '.' means no known format.
pub open spec fn filetype_of(s: Seq<u8>) -> Filetype {
    match last_dot(s) {
        None => Filetype::UNKNOWN,
        Some(i) => ext_filetype(lower_bytes(s.skip(i + 1))),
    }
}

proof fn lemma_last_dot_prefix(s: Seq<u8>, j: int)
    requires
        0 <= j <= s.len(),
        forall|k: int| j <= k < s.len() ==> s[k] != 46,
    ensures
        last_dot(s) == last_dot(s.take(j)),
    decreases s.len() - j,
{
    if j == s.len() {
        assert(s.take(j) =~= s);
    } else {
        assert(s[s.len() - 1] != 46);
        assert(s.drop_last() =~= s.take(s.len() - 1));
        lemma_last_dot_prefix(s.take(s.len() - 1), j);
        assert(s.take(s.len() - 1).take(j) =~= s.take(j));
    }
}

/// Classifies an already lower-cased extension.
fn classify_ext(e: &Vec<u8>) -> (r: Filetype)
    ensures
        r == ext_filetype(e@),
{
    let mut csv: Vec<u8> = Vec::new();
    csv.push(99);
    csv.push(115);
    csv.push(118);
    proof {
        assert(csv@ =~= csv_ext());
    }
    if bytes_eq(e.as_slice(), csv.as_slice()) {
        return Filetype::CSV;
    }
    let mut parquet: Vec<u8> = Vec::new();
    parquet.push(112);
    parquet.push(97);
    parquet.push(114);
    parquet.push(113);
    parquet.push(117);
    parquet.push(101);
    parquet.push(116);
    proof {
        assert(parquet@ =~= parquet_ext());
    }
    if bytes_eq(e.as_slice(), parquet.as_slice()) {
        return Filetype::PARQUET;
    }
    Filetype::UNKNOWN
}

/// Lower-cases the bytes of `b` from `from` to its end.
fn lowered_tail(b: &[u8], from: usize) -> (r: Vec<u8>)
    requires
        from <= b@.len(),
    ensures
        r@ == lower_bytes(b@.skip(from as int)),
{
    let mut out: Vec<u8> = Vec::new();
    let mut k: usize = from;
    while k < b.len()
        invariant
            from <= k <= b@.len(),
            out@ == lower_bytes(b@.subrange(from as int, k as int)),
        decreases b@.len() - k,
    {
        out.push(to_lower_byte(b[k]));
        proof {
            assert(out@ =~= lower_bytes(b@.subrange(from as int, k as int + 1)));
        }
        k = k + 1;
    }
    proof {
        assert(b@.subrange(from as int, b@.len() as int) =~= b@.skip(from as int));
    }
    out
}

/// The format a file name's extension picks, over the name's bytes.
pub fn filetype_of_bytes(b: &[u8]) -> (r: Filetype)
    ensures
        r == filetype_of(b@),
{
    let mut j: usize = b.len();
    while j > 0
        invariant
            j <= b@.len(),
            forall|k: int| j <= k < b@.len() ==> b@[k] != 46,
        decreases j,
    {
        if b[j - 1] == 46 {
            proof {
                lemma_last_dot_prefix(b@, j as int);
                assert(b@.take(j as int)[j - 1] == 46);
                assert(last_dot(b@) == Some(j as int - 1));
            }
            let ext = lowered_tail(b, j);
            return classify_ext(&ext);
        }
        j = j - 1;
    }
    proof {
        lemma_last_dot_prefix(b@, 0);
        assert(b@.take(0) =~= Seq::<u8>::empty());
        assert(last_dot(b@) is None);
    }
    Filetype::UNKNOWN
}

/// The format a file name's extension picks: the suffix after the last '.',
/// case-insensitively "csv" or "parquet"; anything else is unknown.
pub fn get_filetype_from_name(filename: &str) -> (r: Filetype)
    ensures
        r == filetype_of(filename.spec_bytes()),
{
    filetype_of_bytes(filename.as_bytes())
}

/// The format a flag's value names: "csv" or "parquet", case-insensitively.
pub fn filetype_from_token(t: &Vec<u8>) -> (r: Filetype)
    ensures
        r == type_of_name(t@),
{
    let e = lowered_tail(t.as_slice(), 0);
    proof {
        assert(t@.skip(0) =~= t@);
    }
    classify_ext(&e)
}

} // verus!
