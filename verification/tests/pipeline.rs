use fconv::batch::ColumnData;
use fconv::config::{Compression, Encoding, RunConfig};
use fconv::convert;
use fconv::errors::ConvError;
use fconv::format::Filetype;
use fconv::schema::{parse_int_field, ColumnType, Schema};
use fconv::source::CsvSource;
use fconv::split_lines;

fn config(has_header: bool) -> RunConfig {
    RunConfig {
        from: b"in.csv".to_vec(),
        fromtype: Filetype::CSV,
        delimiter: b',',
        has_header,
        to: b"out.parquet".to_vec(),
        totype: Filetype::PARQUET,
        compression: Compression::Uncompressed,
        encoding: Encoding::Plain,
    }
}

fn read_back(bytes: &[u8]) -> (arrow2::datatypes::Schema, Vec<arrow2::chunk::Chunk<Box<dyn arrow2::array::Array>>>) {
    let mut cursor = std::io::Cursor::new(bytes.to_vec());
    let metadata = arrow2::io::parquet::read::read_metadata(&mut cursor).unwrap();
    let schema = arrow2::io::parquet::read::infer_schema(&metadata).unwrap();
    let reader = arrow2::io::parquet::read::FileReader::new(
        cursor,
        metadata.row_groups,
        schema.clone(),
        None,
        None,
        None,
    );
    let chunks = reader.map(|c| c.unwrap()).collect();
    (schema, chunks)
}

#[test]
fn splits_lines_and_records() {
    let v = split_lines(b"a,b\n1,x\n2,y\n");
    assert_eq!(v.len(), 3);
    assert_eq!(v[0], b"a,b".to_vec());
    assert_eq!(v[2], b"2,y".to_vec());
    let v = split_lines(b"");
    assert_eq!(v.len(), 0);
    let v = split_lines(b"one");
    assert_eq!(v.len(), 1);
}

#[test]
fn parses_integer_literals_exactly() {
    assert_eq!(parse_int_field(b"123"), Some(123));
    assert_eq!(parse_int_field(b"-7"), Some(-7));
    assert_eq!(parse_int_field(b"0"), Some(0));
    assert_eq!(parse_int_field(b"999999999999999999"), Some(999999999999999999));
    assert_eq!(parse_int_field(b""), None);
    assert_eq!(parse_int_field(b"-"), None);
    assert_eq!(parse_int_field(b"12a"), None);
    assert_eq!(parse_int_field(b"1.5"), None);
    assert_eq!(parse_int_field(b"9999999999999999999"), None);
}

#[test]
fn infers_schema_from_header_and_sample() {
    let lines = split_lines(b"a,b\n1,x\n2,y\n");
    let s = Schema::infer(&lines, true, b',').unwrap();
    assert_eq!(s.len(), 2);
    assert_eq!(s.cols[0].name, b"a".to_vec());
    assert_eq!(s.cols[0].ctype, ColumnType::Int);
    assert_eq!(s.cols[1].name, b"b".to_vec());
    assert_eq!(s.cols[1].ctype, ColumnType::Text);
}

#[test]
fn schema_column_count_equals_header_field_count() {
    let lines = split_lines(b"x;y;z\n1;2;3\n");
    let s = Schema::infer(&lines, true, b';').unwrap();
    assert_eq!(s.cols.len(), 3);
}

#[test]
fn generated_names_without_header() {
    let lines = split_lines(b"1,x\n2,y\n");
    let s = Schema::infer(&lines, false, b',').unwrap();
    assert_eq!(s.cols[0].name, b"c0".to_vec());
    assert_eq!(s.cols[1].name, b"c1".to_vec());
    assert_eq!(s.cols[0].ctype, ColumnType::Int);
}

#[test]
fn empty_input_fails_schema_inference() {
    let lines = split_lines(b"");
    assert_eq!(
        Schema::infer(&lines, false, b',').unwrap_err(),
        ConvError::SchemaInferenceError
    );
    let header_only = split_lines(b"a,b\n");
    assert_eq!(
        Schema::infer(&header_only, true, b',').unwrap_err(),
        ConvError::SchemaInferenceError
    );
    assert_eq!(
        convert(&config(false), b"").unwrap_err(),
        ConvError::SchemaInferenceError
    );
}

#[test]
fn source_pulls_batches_in_order() {
    let lines = split_lines(b"a,b\n1,x\n2,y\n");
    let mut src = CsvSource::new(lines, true, b',', 1).unwrap();
    let b1 = src.next_batch().unwrap().unwrap();
    match &b1.columns[0] {
        ColumnData::Ints(v) => assert_eq!(v, &vec![1i64]),
        _ => panic!("first column should be integer"),
    }
    match &b1.columns[1] {
        ColumnData::Texts(v) => assert_eq!(v, &vec![b"x".to_vec()]),
        _ => panic!("second column should be text"),
    }
    let b2 = src.next_batch().unwrap().unwrap();
    match &b2.columns[0] {
        ColumnData::Ints(v) => assert_eq!(v, &vec![2i64]),
        _ => panic!("first column should be integer"),
    }
    assert!(src.next_batch().unwrap().is_none());
    assert!(src.next_batch().unwrap().is_none());
}

#[test]
fn malformed_row_fails_pull_with_its_index() {
    let lines = split_lines(b"a,b\n1\n");
    let mut src = CsvSource::new(lines, true, b',', 100).unwrap();
    assert_eq!(src.next_batch().unwrap_err(), ConvError::RowParseError(0));
    assert_eq!(
        convert(&config(true), b"a,b\n1\n").unwrap_err(),
        ConvError::RowParseError(0)
    );
    assert_eq!(
        convert(&config(true), b"a,b\n1,x\n2\n").unwrap_err(),
        ConvError::RowParseError(1)
    );
    // a non-numeric value inside the sampled prefix widens the column to
    // text instead; past the sample it fails the pull
    let mut input = String::from("a\n");
    for i in 0..100 {
        input.push_str(&format!("{}\n", i));
    }
    input.push_str("oops\n");
    assert_eq!(
        convert(&config(true), input.as_bytes()).unwrap_err(),
        ConvError::RowParseError(100)
    );
}

#[test]
fn unsupported_format_pair_is_rejected() {
    let mut c = config(true);
    c.totype = Filetype::CSV;
    assert_eq!(
        convert(&c, b"a,b\n1,x\n").unwrap_err(),
        ConvError::UnsupportedFormat
    );
    let mut c = config(true);
    c.fromtype = Filetype::PARQUET;
    assert_eq!(
        convert(&c, b"a,b\n1,x\n").unwrap_err(),
        ConvError::UnsupportedFormat
    );
}

#[test]
fn converts_and_reads_back_the_same_rows() {
    let out = convert(&config(true), b"a,b\n1,x\n2,y\n").unwrap();
    let (schema, chunks) = read_back(&out);
    assert_eq!(schema.fields.len(), 2);
    assert_eq!(schema.fields[0].name, "a");
    assert_eq!(schema.fields[1].name, "b");
    assert_eq!(schema.fields[0].data_type, arrow2::datatypes::DataType::Int64);
    assert_eq!(schema.fields[1].data_type, arrow2::datatypes::DataType::LargeBinary);
    let total_rows: usize = chunks.iter().map(|c| c.len()).sum();
    assert_eq!(total_rows, 2);
    let mut ints: Vec<i64> = Vec::new();
    let mut texts: Vec<Vec<u8>> = Vec::new();
    for chunk in &chunks {
        let a = chunk.arrays()[0]
            .as_any()
            .downcast_ref::<arrow2::array::Int64Array>()
            .unwrap();
        ints.extend(a.values_iter().copied());
        let b = chunk.arrays()[1]
            .as_any()
            .downcast_ref::<arrow2::array::BinaryArray<i64>>()
            .unwrap();
        texts.extend(b.values_iter().map(|v| v.to_vec()));
    }
    assert_eq!(ints, vec![1, 2]);
    assert_eq!(texts, vec![b"x".to_vec(), b"y".to_vec()]);
}

#[test]
fn round_trip_keeps_row_count_for_more_than_one_batch() {
    let mut input = String::from("n,w\n");
    for i in 0..250 {
        input.push_str(&format!("{},word{}\n", i, i));
    }
    let out = convert(&config(true), input.as_bytes()).unwrap();
    let (_, chunks) = read_back(&out);
    let total_rows: usize = chunks.iter().map(|c| c.len()).sum();
    assert_eq!(total_rows, 250);
    let mut ints: Vec<i64> = Vec::new();
    for chunk in &chunks {
        let a = chunk.arrays()[0]
            .as_any()
            .downcast_ref::<arrow2::array::Int64Array>()
            .unwrap();
        ints.extend(a.values_iter().copied());
    }
    let expected: Vec<i64> = (0..250).collect();
    assert_eq!(ints, expected);
}

#[test]
fn non_utf8_column_name_is_recorded_lossily() {
    let mut input: Vec<u8> = Vec::new();
    input.extend_from_slice(&[0xff, 0xfe]);
    input.extend_from_slice(b",b\n1,x\n");
    let out = convert(&config(true), &input).unwrap();
    let (schema, _) = read_back(&out);
    assert_eq!(schema.fields[0].name, "\u{FFFD}\u{FFFD}");
    assert_eq!(schema.fields[1].name, "b");
}

#[test]
fn same_conversion_twice_gives_identical_bytes() {
    let input = b"a,b\n1,x\n2,y\n3,z\n";
    let out1 = convert(&config(true), input).unwrap();
    let out2 = convert(&config(true), input).unwrap();
    assert_eq!(out1, out2);
}

#[test]
fn column_widens_to_text_when_any_sampled_value_is_not_numeric() {
    let lines = split_lines(b"a\n1\noops\n3\n");
    let s = Schema::infer(&lines, true, b',').unwrap();
    assert_eq!(s.cols[0].ctype, ColumnType::Text);
    let out = convert(&config(true), b"a\n1\noops\n3\n").unwrap();
    let (_, chunks) = read_back(&out);
    let b = chunks[0].arrays()[0]
        .as_any()
        .downcast_ref::<arrow2::array::BinaryArray<i64>>()
        .unwrap();
    let vals: Vec<Vec<u8>> = b.values_iter().map(|v| v.to_vec()).collect();
    assert_eq!(vals, vec![b"1".to_vec(), b"oops".to_vec(), b"3".to_vec()]);
}
