//! Storage engine core of a small relational database: a paged buffer pool
//! over a page image, a slotted-page table heap, and a forward-only scan
//! iterator, together with the thin front-end pieces (lexer, parser, rows).

pub mod ast;
pub mod bytes;
pub mod cache;
pub mod command;
pub mod error;
pub mod lexer;
pub mod pager;
pub mod parser;
pub mod replacer;
pub mod row;
pub mod schema;
pub mod table_heap;
pub mod table_iterator;
pub mod table_page;
pub mod text;
pub mod types;
