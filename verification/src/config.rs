use vstd::prelude::*;

use crate::bytes::{bytes_eq, clone_bytes};
use crate::errors::ConvError;
use crate::format::{filetype_from_token, filetype_of, filetype_of_bytes, type_of_name, Filetype};

verus! {

/// The compression applied to the output container. This design fixes it to
/// none; the variant is recorded in the configuration all the same.
#[derive(Clone, Copy, PartialEq, Eq, Structural, Debug)]
pub enum Compression {
    Uncompressed,
}

/// The per-column encoding of the output container; fixed to the plain one.
#[derive(Clone, Copy, PartialEq, Eq, Structural, Debug)]
pub enum Encoding {
    Plain,
}

/// The resolved, immutable parameters of one conversion run.
#[derive(Debug)]
pub struct RunConfig {
    pub from: Vec<u8>,
    pub fromtype: Filetype,
    pub delimiter: u8,
    pub has_header: bool,
    pub to: Vec<u8>,
    pub totype: Filetype,
    pub compression: Compression,
    pub encoding: Encoding,
}

/// The mathematical value of a run configuration.
pub struct ConfigV {
    pub from: Seq<u8>,
    pub fromtype: Filetype,
    pub delimiter: u8,
    pub has_header: bool,
    pub to: Seq<u8>,
    pub totype: Filetype,
    pub compression: Compression,
    pub encoding: Encoding,
}

impl View for RunConfig {
    type V = ConfigV;

    open spec fn view(&self) -> ConfigV {
        ConfigV {
            from: self.from@,
            fromtype: self.fromtype,
            delimiter: self.delimiter,
            has_header: self.has_header,
            to: self.to@,
            totype: self.totype,
            compression: self.compression,
            encoding: self.encoding,
        }
    }
}

/// The bytes of "-f" or "--from".
pub open spec fn tok_from(t: Seq<u8>) -> bool {
    t == seq![45u8, 102u8] || t == seq![45u8, 45u8, 102u8, 114u8, 111u8, 109u8]
}

/// The bytes of "--fromtype".
pub open spec fn tok_fromtype(t: Seq<u8>) -> bool {
    t == seq![45u8, 45u8, 102u8, 114u8, 111u8, 109u8, 116u8, 121u8, 112u8, 101u8]
}

/// The bytes of "-d" or "--delimiter".
pub open spec fn tok_delimiter(t: Seq<u8>) -> bool {
    t == seq![45u8, 100u8] || t == seq![
        45u8,
        45u8,
        100u8,
        101u8,
        108u8,
        105u8,
        109u8,
        105u8,
        116u8,
        101u8,
        114u8,
    ]
}

/// The bytes of "-h" or "--header".
pub open spec fn tok_header(t: Seq<u8>) -> bool {
    t == seq![45u8, 104u8] || t == seq![45u8, 45u8, 104u8, 101u8, 97u8, 100u8, 101u8, 114u8]
}

/// The bytes of "-t" or "--to".
pub open spec fn tok_to(t: Seq<u8>) -> bool {
    t == seq![45u8, 116u8] || t == seq![45u8, 45u8, 116u8, 111u8]
}

/// The bytes of "--totype".
pub open spec fn tok_totype(t: Seq<u8>) -> bool {
    t == seq![45u8, 45u8, 116u8, 111u8, 116u8, 121u8, 112u8, 101u8]
}

/// Whether a token is one of the known flags.
pub open spec fn is_flag_tok(t: Seq<u8>) -> bool {
    tok_from(t) || tok_fromtype(t) || tok_delimiter(t) || tok_header(t) || tok_to(t) || tok_totype(
        t,
    )
}

/// The values the scan has gathered: one slot per valued flag, and whether
/// the header flag has asked for a header.
pub struct ArgAcc {
    pub from: Option<Seq<u8>>,
    pub fromtype: Option<Seq<u8>>,
    pub delim: Option<Seq<u8>>,
    pub header: bool,
    pub to: Option<Seq<u8>>,
    pub totype: Option<Seq<u8>>,
}

pub open spec fn empty_acc() -> ArgAcc {
    ArgAcc { from: None, fromtype: None, delim: None, header: false, to: None, totype: None }
}

/// One pass over the tokens: each recognised flag consumes the token after
/// it as its value, a later occurrence winning over an earlier one. The
/// header flag may also stand bare: at the end, or followed by another
/// flag, it asks for a header by itself. Any other flag without a
/// following value, or a token that is no known flag, stops the scan with
/// no result.
pub open spec fn scan_args(toks: Seq<Seq<u8>>, acc: ArgAcc) -> Option<ArgAcc>
    decreases toks.len(),
{
    if toks.len() == 0 {
        Some(acc)
    } else if tok_header(toks[0]) && (toks.len() == 1 || is_flag_tok(toks[1])) {
        scan_args(toks.skip(1), ArgAcc { header: true, ..acc })
    } else if toks.len() == 1 {
        None
    } else {
        let t = toks[0];
        let v = toks[1];
        let rest = toks.skip(2);
        if tok_from(t) {
            scan_args(rest, ArgAcc { from: Some(v), ..acc })
        } else if tok_fromtype(t) {
            scan_args(rest, ArgAcc { fromtype: Some(v), ..acc })
        } else if tok_delimiter(t) {
            scan_args(rest, ArgAcc { delim: Some(v), ..acc })
        } else if tok_header(t) {
            scan_args(rest, ArgAcc { header: header_truthy(v), ..acc })
        } else if tok_to(t) {
            scan_args(rest, ArgAcc { to: Some(v), ..acc })
        } else if tok_totype(t) {
            scan_args(rest, ArgAcc { totype: Some(v), ..acc })
        } else {
            None
        }
    }
}

/// The header flag's truthy values: "Y" and "y"; anything else means no
/// header, and an absent flag does too.
pub open spec fn header_truthy(h: Seq<u8>) -> bool {
    h == seq![89u8] || h == seq![121u8]
}

/// Turns the gathered flag values into a configuration, or into the error
/// the resolver owes: a missing required path, a delimiter of length other
/// than one, or an explicit format flag that names no known format is
/// `InvalidArgument`; a path whose extension then names no known format is
/// `UnsupportedFormat`.
pub open spec fn validate_args(acc: ArgAcc) -> Result<ConfigV, ConvError> {
    match (acc.from, acc.to) {
        (Some(from), Some(to)) => {
            if (acc.delim matches Some(dv)) && !(acc.delim matches Some(dv) && dv.len() == 1) {
                Err(ConvError::InvalidArgument)
            } else if (acc.fromtype matches Some(s) && type_of_name(s) == Filetype::UNKNOWN) {
                Err(ConvError::InvalidArgument)
            } else if (acc.totype matches Some(s) && type_of_name(s) == Filetype::UNKNOWN) {
                Err(ConvError::InvalidArgument)
            } else {
                let ft = match acc.fromtype {
                    Some(s) => type_of_name(s),
                    None => filetype_of(from),
                };
                let tt = match acc.totype {
                    Some(s) => type_of_name(s),
                    None => filetype_of(to),
                };
                if ft == Filetype::UNKNOWN || tt == Filetype::UNKNOWN {
                    Err(ConvError::UnsupportedFormat)
                } else {
                    Ok(
                        ConfigV {
                            from,
                            fromtype: ft,
                            delimiter: match acc.delim {
                                Some(dv) => dv[0],
                                None => 44u8,
                            },
                            has_header: acc.header,
                            to,
                            totype: tt,
                            compression: Compression::Uncompressed,
                            encoding: Encoding::Plain,
                        },
                    )
                }
            }
        },
        _ => Err(ConvError::InvalidArgument),
    }
}

/// What the argument resolver owes for a token list: the configuration, or
/// `InvalidArgument` when the scan stops, else what validation says.
pub open spec fn resolve_spec(toks: Seq<Seq<u8>>) -> Result<ConfigV, ConvError> {
    match scan_args(toks, empty_acc()) {
        None => Err(ConvError::InvalidArgument),
        Some(acc) => validate_args(acc),
    }
}

fn is_tok_from(t: &Vec<u8>) -> (r: bool)
    ensures
        r == tok_from(t@),
{
    let mut a: Vec<u8> = Vec::new();
    a.push(45);
    a.push(102);
    proof {
        assert(a@ =~= seq![45u8, 102u8]);
    }
    if bytes_eq(t.as_slice(), a.as_slice()) {
        return true;
    }
    let mut b: Vec<u8> = Vec::new();
    b.push(45);
    b.push(45);
    b.push(102);
    b.push(114);
    b.push(111);
    b.push(109);
    proof {
        assert(b@ =~= seq![45u8, 45u8, 102u8, 114u8, 111u8, 109u8]);
    }
    bytes_eq(t.as_slice(), b.as_slice())
}

fn is_tok_fromtype(t: &Vec<u8>) -> (r: bool)
    ensures
        r == tok_fromtype(t@),
{
    let mut a: Vec<u8> = Vec::new();
    a.push(45);
    a.push(45);
    a.push(102);
    a.push(114);
    a.push(111);
    a.push(109);
    a.push(116);
    a.push(121);
    a.push(112);
    a.push(101);
    proof {
        assert(a@ =~= seq![45u8, 45u8, 102u8, 114u8, 111u8, 109u8, 116u8, 121u8, 112u8, 101u8]);
    }
    bytes_eq(t.as_slice(), a.as_slice())
}

fn is_tok_delimiter(t: &Vec<u8>) -> (r: bool)
    ensures
        r == tok_delimiter(t@),
{
    let mut a: Vec<u8> = Vec::new();
    a.push(45);
    a.push(100);
    proof {
        assert(a@ =~= seq![45u8, 100u8]);
    }
    if bytes_eq(t.as_slice(), a.as_slice()) {
        return true;
    }
    let mut b: Vec<u8> = Vec::new();
    b.push(45);
    b.push(45);
    b.push(100);
    b.push(101);
    b.push(108);
    b.push(105);
    b.push(109);
    b.push(105);
    b.push(116);
    b.push(101);
    b.push(114);
    proof {
        assert(b@ =~= seq![
            45u8,
            45u8,
            100u8,
            101u8,
            108u8,
            105u8,
            109u8,
            105u8,
            116u8,
            101u8,
            114u8,
        ]);
    }
    bytes_eq(t.as_slice(), b.as_slice())
}

fn is_tok_header(t: &Vec<u8>) -> (r: bool)
    ensures
        r == tok_header(t@),
{
    let mut a: Vec<u8> = Vec::new();
    a.push(45);
    a.push(104);
    proof {
        assert(a@ =~= seq![45u8, 104u8]);
    }
    if bytes_eq(t.as_slice(), a.as_slice()) {
        return true;
    }
    let mut b: Vec<u8> = Vec::new();
    b.push(45);
    b.push(45);
    b.push(104);
    b.push(101);
    b.push(97);
    b.push(100);
    b.push(101);
    b.push(114);
    proof {
        assert(b@ =~= seq![45u8, 45u8, 104u8, 101u8, 97u8, 100u8, 101u8, 114u8]);
    }
    bytes_eq(t.as_slice(), b.as_slice())
}

fn is_tok_to(t: &Vec<u8>) -> (r: bool)
    ensures
        r == tok_to(t@),
{
    let mut a: Vec<u8> = Vec::new();
    a.push(45);
    a.push(116);
    proof {
        assert(a@ =~= seq![45u8, 116u8]);
    }
    if bytes_eq(t.as_slice(), a.as_slice()) {
        return true;
    }
    let mut b: Vec<u8> = Vec::new();
    b.push(45);
    b.push(45);
    b.push(116);
    b.push(111);
    proof {
        assert(b@ =~= seq![45u8, 45u8, 116u8, 111u8]);
    }
    bytes_eq(t.as_slice(), b.as_slice())
}

fn is_tok_totype(t: &Vec<u8>) -> (r: bool)
    ensures
        r == tok_totype(t@),
{
    let mut a: Vec<u8> = Vec::new();
    a.push(45);
    a.push(45);
    a.push(116);
    a.push(111);
    a.push(116);
    a.push(121);
    a.push(112);
    a.push(101);
    proof {
        assert(a@ =~= seq![45u8, 45u8, 116u8, 111u8, 116u8, 121u8, 112u8, 101u8]);
    }
    bytes_eq(t.as_slice(), a.as_slice())
}

pub open spec fn opt_bytes(o: Option<Vec<u8>>) -> Option<Seq<u8>> {
    match o {
        Some(v) => Some(v@),
        None => None,
    }
}

pub open spec fn acc_of(
    from: Option<Vec<u8>>,
    fromtype: Option<Vec<u8>>,
    delim: Option<Vec<u8>>,
    header: bool,
    to: Option<Vec<u8>>,
    totype: Option<Vec<u8>>,
) -> ArgAcc {
    ArgAcc {
        from: opt_bytes(from),
        fromtype: opt_bytes(fromtype),
        delim: opt_bytes(delim),
        header,
        to: opt_bytes(to),
        totype: opt_bytes(totype),
    }
}

fn is_any_flag(t: &Vec<u8>) -> (r: bool)
    ensures
        r == is_flag_tok(t@),
{
    is_tok_from(t) || is_tok_fromtype(t) || is_tok_delimiter(t) || is_tok_header(t) || is_tok_to(t)
        || is_tok_totype(t)
}

/// Resolves an ordered token list into a run configuration, exactly as
/// `resolve_spec` says. The resolver touches no file: a bad delimiter or a
/// missing flag is reported before any input is read.
pub fn resolve_args(args: &Vec<Vec<u8>>) -> (r: Result<RunConfig, ConvError>)
    ensures
        match resolve_spec(args.deep_view()) {
            Ok(cv) => r matches Ok(c) && c@ == cv,
            Err(e) => r matches Err(e2) && e2 == e,
        },
{
    let ghost toks = args.deep_view();
    let mut from: Option<Vec<u8>> = None;
    let mut fromtype: Option<Vec<u8>> = None;
    let mut delim: Option<Vec<u8>> = None;
    let mut header: bool = false;
    let mut to: Option<Vec<u8>> = None;
    let mut totype: Option<Vec<u8>> = None;
    let mut i: usize = 0;
    proof {
        assert(toks.skip(0) =~= toks);
    }
    while i < args.len()
        invariant
            i <= args@.len(),
            toks == args.deep_view(),
            scan_args(toks, empty_acc()) == scan_args(
                toks.skip(i as int),
                acc_of(from, fromtype, delim, header, to, totype),
            ),
        decreases args@.len() - i,
    {
        let ghost tail = toks.skip(i as int);
        proof {
            assert(tail[0] == toks[i as int]);
            assert(toks[i as int] == args@[i as int].deep_view());
            assert(args@[i as int].deep_view() =~= args@[i as int]@);
        }
        let t = &args[i];
        let t_is_header = is_tok_header(t);
        let bare = t_is_header && (i + 1 >= args.len() || is_any_flag(&args[i + 1]));
        if bare {
            proof {
                if i + 1 < args@.len() {
                    assert(tail[1] == toks[i as int + 1]);
                    assert(toks[i as int + 1] == args@[i as int + 1].deep_view());
                    assert(args@[i as int + 1].deep_view() =~= args@[i as int + 1]@);
                }
                assert(tail.skip(1) =~= toks.skip(i as int + 1));
            }
            header = true;
            i = i + 1;
        } else if i + 1 >= args.len() {
            proof {
                assert(tail.len() == 1);
            }
            return Err(ConvError::InvalidArgument);
        } else {
            proof {
                assert(tail.len() >= 2);
                assert(tail[1] == toks[i as int + 1]);
                assert(toks[i as int + 1] == args@[i as int + 1].deep_view());
                assert(args@[i as int + 1].deep_view() =~= args@[i as int + 1]@);
                assert(tail.skip(2) =~= toks.skip(i as int + 2));
            }
            let v = clone_bytes(&args[i + 1]);
            if is_tok_from(t) {
                from = Some(v);
            } else if is_tok_fromtype(t) {
                fromtype = Some(v);
            } else if is_tok_delimiter(t) {
                delim = Some(v);
            } else if t_is_header {
                header = v.len() == 1 && (v[0] == 89 || v[0] == 121);
                proof {
                    if v@.len() == 1 && (v@[0] == 89 || v@[0] == 121) {
                        if v@[0] == 89 {
                            assert(v@ =~= seq![89u8]);
                        } else {
                            assert(v@ =~= seq![121u8]);
                        }
                    }
                    assert((v@.len() == 1 && (v@[0] == 89 || v@[0] == 121)) == header_truthy(v@));
                }
            } else if is_tok_to(t) {
                to = Some(v);
            } else if is_tok_totype(t) {
                totype = Some(v);
            } else {
                return Err(ConvError::InvalidArgument);
            }
            i = i + 2;
        }
    }
    proof {
        assert(toks.skip(i as int) =~= Seq::<Seq<u8>>::empty());
        assert(scan_args(toks, empty_acc()) == Some(
            acc_of(from, fromtype, delim, header, to, totype),
        ));
    }
    let ghost acc = acc_of(from, fromtype, delim, header, to, totype);
    let from_path = match from {
        Some(f) => f,
        None => {
            return Err(ConvError::InvalidArgument);
        },
    };
    let to_path = match to {
        Some(t) => t,
        None => {
            return Err(ConvError::InvalidArgument);
        },
    };
    let delimiter: u8 = match &delim {
        Some(dv) => {
            if dv.len() != 1 {
                return Err(ConvError::InvalidArgument);
            }
            dv[0]
        },
        None => 44,
    };
    let ft: Filetype = match &fromtype {
        Some(s) => {
            let ft = filetype_from_token(s);
            if ft == Filetype::UNKNOWN {
                return Err(ConvError::InvalidArgument);
            }
            ft
        },
        None => filetype_of_bytes(from_path.as_slice()),
    };
    let tt: Filetype = match &totype {
        Some(s) => {
            let tt = filetype_from_token(s);
            if tt == Filetype::UNKNOWN {
                return Err(ConvError::InvalidArgument);
            }
            tt
        },
        None => filetype_of_bytes(to_path.as_slice()),
    };
    if ft == Filetype::UNKNOWN || tt == Filetype::UNKNOWN {
        return Err(ConvError::UnsupportedFormat);
    }
    Ok(
        RunConfig {
            from: from_path,
            fromtype: ft,
            delimiter,
            has_header: header,
            to: to_path,
            totype: tt,
            compression: Compression::Uncompressed,
            encoding: Encoding::Plain,
        },
    )
}

} // verus!
