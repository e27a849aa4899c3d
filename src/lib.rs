//! Bridging layer between a host scripting runtime and a tabular-database
//! client: a registry of live connections by handle, a collector that turns the
//! protocol's row callbacks into result tables, a codec between wire values and
//! host values or SQL literal text, and the text work of statement execution
//! (parameter substitution, affected-row echo, result shaping).
pub mod calendar;
pub mod connstr;
pub mod errors;
pub mod executor;
pub mod registry;
pub mod row_writer;
pub mod text;
pub mod types;

pub use connstr::{apply_setting, parse_connection_string, ConnectionConfig};
pub use errors::HissError;
pub use executor::{
    execute_batch_text, execute_message, execute_outcome, extract_rowcount, needs_rowcount,
    query_result, rowcount_batch, substitute_many, substitute_params, QueryResult, ROWCOUNT_ALIAS,
};
pub use registry::Registry;
pub use row_writer::{ColumnInfo, CompactValue, MultiSetWriter, PyRowWriter};
pub use types::{compact_value_to_py, decimal_i128_to_string, py_to_sql_literal, HostParam, HostValue};
