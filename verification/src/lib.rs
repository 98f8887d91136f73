//! Templates with named placeholders, compiled once and rendered many times.
//!
//! A template such as `"{name}, aged {age}"` is compiled against a registry
//! of callbacks into a sequence of pieces. Rendering walks the pieces with a
//! data value: literal text is copied, and each placeholder is replaced by
//! what its callback produces for that value. `{{` and `}}` stand for the
//! literal braces.

pub mod callback;
pub mod error;
pub mod laws;
pub mod piece;
pub mod registry;
pub mod render;
pub mod template;
pub mod text;

pub use callback::{Callback, FormatterCallback};
pub use error::{Error, ErrorView};
pub use piece::{FormatPiece, FormatPieces, Formatter, PieceView};
pub use registry::FormatMap;
pub use render::Render;
pub use template::ToFormatPieces;
pub use text::Text;
