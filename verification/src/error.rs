use vstd::prelude::*;

verus! {

#[verifier::external_type_specification]
#[verifier::external_body]
pub struct ExChronoParseError(chrono::ParseError);

/// Why a telemetry file could not be read.
#[derive(Debug, PartialEq, Eq)]
pub enum CsvError {
    /// The bytes could not be read as text; holds the message.
    Io(String),
    /// The CSV layer refused the data; holds its message.
    Csv(String),
    /// A date-time field, trimmed, and why it is no date-time.
    DateTimeParse(String, chrono::ParseError),
    /// A numeric field, trimmed, and why it is no number.
    NumberParse(String, String),
    /// An event-log line that cannot be read.
    InvalidEventLogLine(String),
    /// A file name that names no known kind of file.
    UnrecognizedFileType(String),
}

/// The model of a `CsvError`: its variant and the text it carries (the
/// date-time error's detail is left out).
pub enum CsvFault {
    Io(Seq<char>),
    Csv(Seq<char>),
    DateTimeParse(Seq<char>),
    NumberParse(Seq<char>, Seq<char>),
    InvalidEventLogLine(Seq<char>),
    UnrecognizedFileType(Seq<char>),
}

impl View for CsvError {
    type V = CsvFault;

    open spec fn view(&self) -> CsvFault {
        match self {
            CsvError::Io(m) => CsvFault::Io(m@),
            CsvError::Csv(m) => CsvFault::Csv(m@),
            CsvError::DateTimeParse(t, _) => CsvFault::DateTimeParse(t@),
            CsvError::NumberParse(t, m) => CsvFault::NumberParse(t@, m@),
            CsvError::InvalidEventLogLine(l) => CsvFault::InvalidEventLogLine(l@),
            CsvError::UnrecognizedFileType(n) => CsvFault::UnrecognizedFileType(n@),
        }
    }
}

} // verus!
