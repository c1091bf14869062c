//! Clipboard interoperability core for a remote-desktop client.
//!
//! - a registry between MIME types and clipboard format ids,
//! - byte-exact codecs for Unicode text, CF_HTML, HDROP file lists,
//!   FILEDESCRIPTORW metadata lists and DIB/BMP bitmaps,
//! - a loop detector that recognises a clipboard change echoed back to its origin.

use vstd::prelude::*;

pub mod bytes_le;
pub mod error;
pub mod utf16;
pub mod descriptor;
pub mod formats;
pub mod cf_html;
pub mod converter;
pub mod hdrop;
pub mod image;
pub mod loop_detector;
pub mod laws;
pub mod html_laws;

pub use converter::FormatConverter;
pub use descriptor::{FileDescriptor, FileDescriptorFlags, FileEntry};
pub use error::{ClipboardError, ClipboardResult};
pub use formats::ClipboardFormat;
pub use loop_detector::{ClipboardSource, LoopDetectionConfig, LoopDetector};

verus! {

/// A clipboard backend that the synchronisation driver talks to.
pub trait ClipboardSink: Send + Sync {

}

} // verus!
