//! Run a relational query against delimited text files: file-path tokens in
//! the query are rewritten into derived table names, each referenced file is
//! loaded into an in-memory relational store, and result rows come back as
//! comma-joined text lines.

pub mod csv_loader;
pub mod errors;
pub mod sql_engine;
pub mod sql_preproc;
pub mod store;
pub mod text;
