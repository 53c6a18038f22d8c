//! A verified renderer for minimal PDF documents built from pages of
//! monospaced text.
//!
//! The library encodes an abstract document — catalog, page tree, font
//! resource, one page and one content stream per input page — into the exact
//! byte layout of a PDF file, including the cross-reference table and trailer
//! with correct byte offsets. Reading input and writing the finished bytes
//! out are the caller's business; the library is a pure transformation from
//! pages of text lines to the bytes of the document.

pub mod builder;
pub mod doc;
pub mod elem;
pub mod escape;
pub mod num;
pub mod xref;
