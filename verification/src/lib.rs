//! Extraction of typed records from archived community-post documents.
//!
//! The library models a parsed document as a flat, pre-order array of
//! nodes ([`dom::Dom`]), walks its fixed section hierarchy under
//! cardinality contracts, and produces one typed [`records::Post`]
//! record per document, or a contextual error naming the violated
//! contract.

pub mod check;
pub mod content;
pub mod count;
pub mod dom;
pub mod emoji;
pub mod emote;
pub mod extract;
pub mod records;
pub mod text;
