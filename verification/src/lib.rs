//! Streaming writer for spreadsheet documents in the ZIP-packaged XML format.
//!
//! A [`WorkBook`] owns the archive under construction. Styles are registered
//! with it, sheets are requested from it one at a time, rows are streamed
//! into the sheet that is being written, and `finish` adds the fixed parts of
//! the package and closes the archive.
//!
//! The archive is built in a buffer in memory. Rows are streamed: each row is
//! written into the archive when it is handed over and is not kept. The
//! compressed archive itself is held until `finish` hands the buffer back.
//!
//! The archive is written by the `zip` crate, which is not verified. The
//! contracts of this library say which parts the archive is given, under
//! which names and with which bytes; the module [`archive`] holds what is
//! assumed of the archive writer.

pub mod archive;
pub mod escape;
pub mod number;
pub mod package;
pub mod reference;
pub mod row;
pub mod sheet;
pub mod style;
pub mod text;
pub mod workbook;

pub use archive::{Archive, Phase, WriteError};
pub use row::{CellValue, CellView, Content, Row};
pub use sheet::{Sheet, SheetView, SheetWriter};
pub use style::{CellStyle, Color, StyleDef};
pub use workbook::{BookView, WorkBook};
