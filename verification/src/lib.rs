//! Fixed-Width Ordered Binary (FWOB) files: the rules of the format facade and of its
//! command-line tool, as verified functions over plain values.

pub mod cli;
pub mod deletion;
pub mod editor;
pub mod error;
pub mod formatting;
pub mod key;
pub mod number;
pub mod options;
pub mod organization;
pub mod schema;
pub mod selection;
pub mod text;
pub mod toml;

pub use editor::Editor;
pub use error::Error;
pub use options::{
    detect_format, DeletionPacking, FormatVersion, MutationOptions, OperationOptions,
    ReaderOptions, WriterOpenOptions,
};
pub use organization::Organizer;
pub use selection::{FrameSelection, KeySelector};
