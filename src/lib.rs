//! A document cabinet whose file names are its index: each name encodes a
//! capture date, an issuing institution, a document name and a page number.

pub mod text;
pub mod codec;
pub mod catalog;
pub mod archive;

pub use archive::{archive_file_name, archive_path, ArchiveError};
pub use catalog::{
    document_of, extension, is_document_name, is_normalized, list_files, read_docs, Document,
    Filter,
};
pub use codec::{
    is_normalized_name, name_extension, parse_date, parse_file_name, parse_page, render, OptDoc,
    RenderError,
};
pub use text::{camelcase_words, to_camelcase};
