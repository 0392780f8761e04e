//! Ingestion of solar-plant telemetry files (NCU, HSU, TCU and NCU event
//! logs): recognising file kinds by name, parsing the fields of the
//! semicolon-separated files into typed records, and the bookkeeping that the
//! SQLite store needs (where rows go, how existing rows are counted, what the
//! ingestion log records).

pub mod calendar;
pub mod error;
pub mod events;
pub mod ingest;
pub mod laws;
pub mod models;
pub mod numbers;
pub mod protocol;
pub mod reader;
pub mod records;
pub mod schema;
pub mod table;
pub mod text;

pub use error::CsvError;
pub use events::read_event_log_csv;
pub use ingest::TableSummary;
pub use models::{CsvFileType, EventLogRecord, NcuRecord};
pub use reader::{
    parse_bool, parse_bool_lenient, parse_float_text, parse_int, parse_opt_string,
    parse_timestamp,
};
pub use records::{read_ncu_csv, read_sensor_csv, read_tcu_csv, SensorRow, TcuRow};
