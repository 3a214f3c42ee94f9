use vstd::prelude::*;

verus! {

/// ASCII lower-casing of one byte: 'A'..'Z' map to 'a'..'z', every other
/// byte stays as it is.
pub open spec fn lower_byte(b: u8) -> u8 {
    if 65 <= b && b <= 90 {
        (b + 32) as u8
    } else {
        b
    }
}

/// ASCII lower-casing of a byte sequence.
pub open spec fn lower_bytes(s: Seq<u8>) -> Seq<u8> {
    s.map_values(|b: u8| lower_byte(b))
}

pub fn to_lower_byte(b: u8) -> (r: u8)
    ensures
        r == lower_byte(b),
{
    if 65 <= b && b <= 90 {
        b + 32
    } else {
        b
    }
}

/// Whether two byte slices hold the same bytes.
pub fn bytes_eq(a: &[u8], b: &[u8]) -> (r: bool)
    ensures
        r <==> a@ == b@,
{
    if a.len() != b.len() {
        return false;
    }
    let mut i: usize = 0;
    while i < a.len()
        invariant
            i <= a@.len(),
            a@.len() == b@.len(),
            forall|k: int| 0 <= k < i ==> a@[k] == b@[k],
        decreases a@.len() - i,
    {
        if a[i] != b[i] {
            return false;
        }
        i = i + 1;
    }
    proof {
        assert(a@ =~= b@);
    }
    true
}

/// The fields of one delimited record: the record's bytes, split at every
/// occurrence of the delimiter. An empty record has one empty field, and a
/// record with k delimiters has k + 1 fields.
pub open spec fn split_bytes(s: Seq<u8>, d: u8) -> Seq<Seq<u8>>
    decreases s.len(),
{
    if s.len() == 0 {
        seq![Seq::<u8>::empty()]
    } else if s[0] == d {
        seq![Seq::<u8>::empty()] + split_bytes(s.skip(1), d)
    } else {
        let rest = split_bytes(s.skip(1), d);
        seq![seq![s[0]] + rest[0]] + rest.skip(1)
    }
}

pub proof fn lemma_split_bytes_len(s: Seq<u8>, d: u8)
    ensures
        split_bytes(s, d).len() >= 1,
    decreases s.len(),
{
    if s.len() == 0 {
    } else if s[0] == d {
    } else {
        lemma_split_bytes_len(s.skip(1), d);
    }
}

/// `split_bytes`, with `pre` already read as the start of the first field.
pub open spec fn split_with_prefix(pre: Seq<u8>, s: Seq<u8>, d: u8) -> Seq<Seq<u8>> {
    let ss = split_bytes(s, d);
    seq![pre + ss[0]] + ss.skip(1)
}

proof fn lemma_split_prefix_empty(s: Seq<u8>, d: u8)
    ensures
        split_with_prefix(Seq::<u8>::empty(), s, d) == split_bytes(s, d),
{
    lemma_split_bytes_len(s, d);
    let ss = split_bytes(s, d);
    assert(Seq::<u8>::empty() + ss[0] =~= ss[0]);
    assert(seq![ss[0]] + ss.skip(1) =~= ss);
}

proof fn lemma_split_prefix_delim(pre: Seq<u8>, s: Seq<u8>, d: u8)
    requires
        s.len() > 0,
        s[0] == d,
    ensures
        split_with_prefix(pre, s, d) == seq![pre] + split_bytes(s.skip(1), d),
{
    lemma_split_bytes_len(s.skip(1), d);
    let rest = split_bytes(s.skip(1), d);
    let ss = split_bytes(s, d);
    assert(ss == seq![Seq::<u8>::empty()] + rest);
    assert(pre + ss[0] =~= pre);
    assert(ss.skip(1) =~= rest);
    assert(split_with_prefix(pre, s, d) =~= seq![pre] + rest);
}

proof fn lemma_split_prefix_step(pre: Seq<u8>, s: Seq<u8>, d: u8)
    requires
        s.len() > 0,
        s[0] != d,
    ensures
        split_with_prefix(pre, s, d) == split_with_prefix(pre.push(s[0]), s.skip(1), d),
{
    lemma_split_bytes_len(s.skip(1), d);
    let rest = split_bytes(s.skip(1), d);
    let ss = split_bytes(s, d);
    assert(ss == seq![seq![s[0]] + rest[0]] + rest.skip(1));
    assert(pre + (seq![s[0]] + rest[0]) =~= pre.push(s[0]) + rest[0]);
    assert(ss.skip(1) =~= rest.skip(1));
    assert(split_with_prefix(pre, s, d) =~= split_with_prefix(pre.push(s[0]), s.skip(1), d));
}

proof fn lemma_split_prefix_end(pre: Seq<u8>, d: u8)
    ensures
        split_with_prefix(pre, Seq::<u8>::empty(), d) == seq![pre],
{
    let ss = split_bytes(Seq::<u8>::empty(), d);
    assert(pre + ss[0] =~= pre);
    assert(split_with_prefix(pre, Seq::<u8>::empty(), d) =~= seq![pre]);
}

/// Splits one record into its fields at every occurrence of the delimiter.
pub fn split_record(line: &[u8], d: u8) -> (r: Vec<Vec<u8>>)
    ensures
        r.deep_view() == split_bytes(line@, d),
{
    let mut fields: Vec<Vec<u8>> = Vec::new();
    let mut cur: Vec<u8> = Vec::new();
    let mut i: usize = 0;
    proof {
        assert(line@.skip(0) =~= line@);
        lemma_split_prefix_empty(line@, d);
        assert(fields.deep_view() =~= Seq::<Seq<u8>>::empty());
    }
    while i < line.len()
        invariant
            i <= line@.len(),
            fields.deep_view() + split_with_prefix(cur@, line@.skip(i as int), d) == split_bytes(
                line@,
                d,
            ),
        decreases line@.len() - i,
    {
        let ghost old_fields = fields.deep_view();
        let ghost old_cur = cur@;
        let ghost tail = line@.skip(i as int);
        proof {
            assert(tail.len() > 0);
            assert(tail[0] == line@[i as int]);
            assert(tail.skip(1) =~= line@.skip(i as int + 1));
        }
        if line[i] == d {
            proof {
                lemma_split_prefix_delim(old_cur, tail, d);
            }
            fields.push(cur);
            cur = Vec::new();
            proof {
                assert(fields.deep_view() =~~= old_fields.push(old_cur));
                lemma_split_prefix_empty(line@.skip(i as int + 1), d);
                assert(old_fields.push(old_cur) + split_bytes(line@.skip(i as int + 1), d)
                    =~= old_fields + (seq![old_cur] + split_bytes(line@.skip(i as int + 1), d)));
            }
        } else {
            let b = line[i];
            cur.push(b);
            proof {
                lemma_split_prefix_step(old_cur, tail, d);
            }
        }
        i = i + 1;
    }
    proof {
        assert(line@.skip(i as int) =~= Seq::<u8>::empty());
        lemma_split_prefix_end(cur@, d);
    }
    let ghost old_fields = fields.deep_view();
    let ghost last = cur@;
    fields.push(cur);
    proof {
        assert(fields.deep_view() =~~= old_fields.push(last));
        assert(old_fields.push(last) =~= old_fields + seq![last]);
    }
    fields
}

/// Copies a byte vector; written out so that the copy's contents are known.
pub fn clone_bytes(v: &Vec<u8>) -> (r: Vec<u8>)
    ensures
        r@ == v@,
{
    let mut r: Vec<u8> = Vec::new();
    let mut i: usize = 0;
    while i < v.len()
        invariant
            i <= v@.len(),
            r@ == v@.take(i as int),
        decreases v@.len() - i,
    {
        r.push(v[i]);
        proof {
            assert(v@.take(i as int).push(v@[i as int]) =~= v@.take(i as int + 1));
        }
        i = i + 1;
    }
    proof {
        assert(v@.take(v@.len() as int) =~= v@);
    }
    r
}

/// The decimal digits of `n`, most significant first.
pub open spec fn dec_digits(n: nat) -> Seq<u8>
    decreases n,
{
    if n < 10 {
        seq![(48 + n) as u8]
    } else {
        dec_digits(n / 10).push((48 + n % 10) as u8)
    }
}

/// Writes `n` in decimal.
pub fn dec_of(n: usize) -> (r: Vec<u8>)
    ensures
        r@ == dec_digits(n as nat),
    decreases n,
{
    if n < 10 {
        let mut v: Vec<u8> = Vec::new();
        v.push(48 + (n as u8));
        proof {
            assert(v@ =~= dec_digits(n as nat));
        }
        v
    } else {
        let mut v = dec_of(n / 10);
        v.push(48 + ((n % 10) as u8));
        v
    }
}

} // verus!
