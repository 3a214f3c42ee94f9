use fconv::config::{resolve_args, Compression, Encoding};
use fconv::errors::ConvError;
use fconv::format::{get_filetype_from_name, Filetype};

fn toks(words: &[&str]) -> Vec<Vec<u8>> {
    words.iter().map(|w| w.as_bytes().to_vec()).collect()
}

#[test]
fn resolves_defaults() {
    let args = toks(&["-f", "in.csv", "-t", "out.parquet"]);
    let c = resolve_args(&args).unwrap();
    assert_eq!(c.from, b"in.csv".to_vec());
    assert_eq!(c.to, b"out.parquet".to_vec());
    assert_eq!(c.fromtype, Filetype::CSV);
    assert_eq!(c.totype, Filetype::PARQUET);
    assert_eq!(c.delimiter, b',');
    assert!(!c.has_header);
    assert_eq!(c.compression, Compression::Uncompressed);
    assert_eq!(c.encoding, Encoding::Plain);
}

#[test]
fn resolves_long_flags_and_header() {
    let args = toks(&["--from", "x.csv", "--to", "y.parquet", "-d", ";", "-h", "Y"]);
    let c = resolve_args(&args).unwrap();
    assert_eq!(c.delimiter, b';');
    assert!(c.has_header);
}

#[test]
fn bare_header_flag_at_end_or_before_another_flag_means_header() {
    let args = toks(&["-f", "x.csv", "-t", "y.parquet", "-h"]);
    assert!(resolve_args(&args).unwrap().has_header);
    let args = toks(&["-f", "x.csv", "-h", "-t", "y.parquet"]);
    let c = resolve_args(&args).unwrap();
    assert!(c.has_header);
    assert_eq!(c.to, b"y.parquet".to_vec());
}

#[test]
fn header_values_other_than_y_mean_no_header() {
    let args = toks(&["-f", "x.csv", "-t", "y.parquet", "-h", "N"]);
    let c = resolve_args(&args).unwrap();
    assert!(!c.has_header);
    let args = toks(&["-f", "x.csv", "-t", "y.parquet", "-h", "y"]);
    assert!(resolve_args(&args).unwrap().has_header);
}

#[test]
fn delimiter_of_wrong_length_is_invalid_before_any_io() {
    let args = toks(&["-f", "in.csv", "-t", "out.parquet", "-d", ",,"]);
    assert_eq!(resolve_args(&args).unwrap_err(), ConvError::InvalidArgument);
    let args = toks(&["-f", "in.csv", "-t", "out.parquet", "-d", ""]);
    assert_eq!(resolve_args(&args).unwrap_err(), ConvError::InvalidArgument);
}

#[test]
fn missing_required_paths_are_invalid() {
    assert_eq!(
        resolve_args(&toks(&["-t", "out.parquet"])).unwrap_err(),
        ConvError::InvalidArgument
    );
    assert_eq!(
        resolve_args(&toks(&["-f", "in.csv"])).unwrap_err(),
        ConvError::InvalidArgument
    );
}

#[test]
fn flag_without_value_is_invalid() {
    assert_eq!(
        resolve_args(&toks(&["-f", "in.csv", "-t"])).unwrap_err(),
        ConvError::InvalidArgument
    );
    assert_eq!(
        resolve_args(&toks(&["-f", "in.csv", "-d", "-t", "out.parquet"])).unwrap_err(),
        ConvError::InvalidArgument
    );
}

#[test]
fn unknown_flag_is_invalid() {
    assert_eq!(
        resolve_args(&toks(&["-f", "in.csv", "-x", "1", "-t", "o.parquet"])).unwrap_err(),
        ConvError::InvalidArgument
    );
}

#[test]
fn unknown_extension_is_unsupported() {
    assert_eq!(
        resolve_args(&toks(&["-f", "in.txt", "-t", "out.parquet"])).unwrap_err(),
        ConvError::UnsupportedFormat
    );
    assert_eq!(
        resolve_args(&toks(&["-f", "in.csv", "-t", "out"])).unwrap_err(),
        ConvError::UnsupportedFormat
    );
}

#[test]
fn explicit_types_override_extensions() {
    let args = toks(&["-f", "data.bin", "-t", "out.bin", "--fromtype", "csv", "--totype", "PARQUET"]);
    let c = resolve_args(&args).unwrap();
    assert_eq!(c.fromtype, Filetype::CSV);
    assert_eq!(c.totype, Filetype::PARQUET);
    let args = toks(&["-f", "a.csv", "-t", "b.parquet", "--fromtype", "json"]);
    assert_eq!(resolve_args(&args).unwrap_err(), ConvError::InvalidArgument);
}

#[test]
fn later_flag_occurrences_win() {
    let args = toks(&["-f", "a.csv", "-f", "b.csv", "-t", "o.parquet"]);
    let c = resolve_args(&args).unwrap();
    assert_eq!(c.from, b"b.csv".to_vec());
}

#[test]
fn filetype_from_name_uses_last_dot_case_insensitively() {
    assert_eq!(get_filetype_from_name("emp.csv"), Filetype::CSV);
    assert_eq!(get_filetype_from_name("emp.CsV"), Filetype::CSV);
    assert_eq!(get_filetype_from_name("/tmp/emp.parquet"), Filetype::PARQUET);
    assert_eq!(get_filetype_from_name("a.tar.csv"), Filetype::CSV);
    assert_eq!(get_filetype_from_name("noext"), Filetype::UNKNOWN);
    assert_eq!(get_filetype_from_name("emp.txt"), Filetype::UNKNOWN);
    assert_eq!(get_filetype_from_name("trailingdot."), Filetype::UNKNOWN);
}
