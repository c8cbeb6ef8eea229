//! Ingestion of registry database dumps written in RPSL: a line scanner that
//! cuts a dump into entry blocks, and a parser that turns each block into a
//! typed record or a parse error.

pub mod addr;
pub mod channel;
pub mod class;
pub mod date;
pub mod entry;
pub mod error;
pub mod number;
pub mod parse;
pub mod pipeline;
pub mod progress;
pub mod record;
pub mod scanner;
pub mod schema;
pub mod sink;
pub mod system;
pub mod text;
pub mod worker;
