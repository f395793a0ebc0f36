//! Reader core for the Microsoft Tape Format (MTF) backup container, with a
//! sparse page index over an embedded SQL Server database payload.
//!
//! The input is a byte slice (callers map or read the file themselves). A
//! forward walk yields descriptor blocks (DBLKs) and their attached data
//! streams; the stream tagged `MQDA` carries fixed-size database pages, over
//! which a two-level index answers `(file_id, page_id)` lookups.
#![allow(non_camel_case_types)]

pub mod error;
pub mod cursor;
pub mod checksum;
pub mod datetime;
pub mod strings;
pub mod dblk;
pub mod stream;
pub mod iter;
pub mod pages;
pub mod mdf;
pub mod index_laws;
pub mod index_codec;

pub use error::MtfError;
pub use cursor::ByteCursor;
pub use datetime::DateTime;
pub use strings::{StringType, TapeAddress};
pub use dblk::DBLKType;
pub use stream::{Stream, StreamHeader};
pub use dblk::{CommonBlockHeader, DBLK, DBLKSets, DBLKSpecific, MediaBasedCatalogType, OS, SoftFileMarkBlockSize, CommonBlockAttrs};
pub use iter::{DBLKIterator, DBLKWithStreams, StreamWithData};
pub use pages::PagePointer;
