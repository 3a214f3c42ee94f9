use vstd::prelude::*;

verus! {

/// The errors a conversion run can end with. Each stage of the pipeline
/// reports exactly one of these; all are terminal for the run.
#[derive(Clone, Copy, PartialEq, Eq, Structural, Debug)]
pub enum ConvError {
    /// A required flag is missing, a flag has no value, the delimiter is not
    /// a single byte, or an explicit format flag names an unknown format.
    InvalidArgument,
    /// A path's extension names no supported format, or the configured
    /// formats are not the supported input/output pair.
    UnsupportedFormat,
    /// Opening, reading or writing a file failed.
    IoError,
    /// The input has no data rows, so no schema can be inferred.
    SchemaInferenceError,
    /// A data row does not fit the inferred schema; carries the zero-based
    /// index of the offending row, the header excluded.
    RowParseError(usize),
    /// Serialising the output container failed.
    WriteError,
}

} // verus!
