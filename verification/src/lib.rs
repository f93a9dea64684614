//! Field extraction from compressed JSON-lines dumps of scholarly metadata
//! (Crossref and OpenAlex), and the reshaping of the extracted rows into an
//! author/affiliation table.
//!
//! The extraction stage compiles dotted field paths against the schema of a
//! dataset into a pattern trie (`schema`, `fields`, `trie`), walks each
//! record with it (`json`, `processor`), counts what it finds (`counts`,
//! `stats`, `aggregate`) and writes the rows as CSV, into one file or into
//! one file per grouping key (`batch`, `output`, `cache`).
//!
//! The transform stage sorts the rows by work with a chunked merge sort
//! (`blocks`, `table`, `sort`, `merge`), cuts them into groups of one work
//! (`transform`), collects the authors, affiliations and institutions of
//! each group (`index`, `group`) and writes one row per author and
//! affiliation (`reshape`, `normalize`).
//!
//! Reading and writing files, threads and queues are left to the caller:
//! the library works on lines, bytes and rows.

pub mod aggregate;
pub mod batch;
pub mod blocks;
pub mod cache;
pub mod counts;
pub mod crossref;
pub mod crossref_schema;
pub mod fields;
pub mod group;
pub mod index;
pub mod json;
pub mod merge;
pub mod normalize;
pub mod openalex;
pub mod openalex_schema;
pub mod order;
pub mod output;
pub mod pipeline;
pub mod processor;
pub mod reach;
pub mod reshape;
pub mod row;
pub mod schema;
pub mod sort;
pub mod sorting;
pub mod stats;
pub mod table;
pub mod text;
pub mod transform;
pub mod trie;
