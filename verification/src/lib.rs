//! Offline dictionary lookup: validated records, readable rendering of stored
//! definitions, query selection and command-line modes.
pub mod text;
pub mod record;
pub mod readable;
pub mod structured;
pub mod output;
pub mod cli;
pub mod storage;
pub mod query;
pub mod jsonl;
pub mod styling;
