//! Extraction of ubiquitous-language glossary entries from documentation
//! comments, and their rendering as a static HTML table.
//!
//! Every executable function carries a contract over a mathematical model:
//! text is a `Seq<char>`, a documented class is a [`RawDoc`], an extracted
//! entry is a [`GlossaryRecord`] and a table row is a [`ReportRow`].

pub mod text;
pub mod tag;
pub mod ubiquitous;
pub mod extract_ubiquitous;
pub mod generate_html;

pub use extract_ubiquitous::{extract_ubiquitous, get_ubiquitous, ExtractUbiquitousParam, RawDoc};
pub use generate_html::{generate_html, report_rows, GenerateHtmlParam, ReportRow};
pub use ubiquitous::{GlossaryRecord, Ubiquitous};
