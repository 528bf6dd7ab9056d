//! DOCX package reader: turns a WordprocessingML package into a stream of
//! document events.

pub mod assoc;
pub mod content_types;
pub mod discovery;
pub mod document;
pub mod entry_stream;
pub mod events;
pub mod field_codes;
pub mod inflate;
pub mod io;
pub mod laws;
pub mod numbering;
pub mod oox;
pub mod package;
pub mod paths;
pub mod properties;
pub mod rels;
pub mod styles;
pub mod symbol_fonts;
mod symbol_tables;
pub mod text;
pub mod xml;
