//! Decoding of Presentation Graphics Stream (PGS) subtitles: the segment wire
//! format, the run-length image codec, display-set assembly, and the epoch
//! state machine that turns display sets into timed bitmap subtitles.

pub mod color;
pub mod encode;
pub mod error;
pub mod image;
pub mod segment;
pub mod srt;
pub mod timeline;
pub mod wire;

pub use color::ycbcr_to_rgb;
pub use error::DecodeError;
pub use image::{decode_rle_data, Bitmap};
pub use segment::{
    decode_display_set, decode_display_sets, decode_segment, CompositionObject,
    CompositionObjectCropping, CompositionState, DisplaySet, Header, LastInSequenceFlag,
    PaletteEntry, Segment, Window, END, ODS, PCS, PDS, WDS,
};
pub use timeline::{
    clock_to_duration, subtitles_extract, BitmapSubtitle, Duration, SubtitleDecoder, TimeRange,
};
