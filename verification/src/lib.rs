//! An embeddable three-phase data-processing engine for compressed JSON.
//!
//! Compressed chunks of a JSON array are ingested one by one into an
//! in-memory record buffer; a declarative sort or filter action transforms
//! the whole buffer; the serialized result is then pulled back out in
//! bounded-size chunks.  The gzip primitive is an external collaborator;
//! everything else — the JSON grammar, the transforms, the staging and
//! extraction state machine — is verified.

pub mod bytestr;
pub mod value;
pub mod ser;
pub mod parse;
pub mod sort;
pub mod filter;
pub mod action;
pub mod codec;
pub mod engine;
