//! Track-analysis library of Soundfiller Studio.
//!
//! - `key`: pitch classes, Camelot codes and key names;
//! - `frames`: analysis windows and hop frames over audio samples;
//! - `segmentation`: change-point picking and the segments between them;
//! - `arrangement`: 8-bar blocks, grid rows and arrangement metadata;
//! - `state`: the registry of analysis jobs, with its laws;
//! - `youtube`: YouTube request checks and `yt-dlp` output parsing;
//! - `track_id`: random track identifiers;
//! - `id_map`, `text`: the map and string helpers the above are built on.

pub mod arrangement;
pub mod frames;
pub mod id_map;
pub mod key;
pub mod segmentation;
pub mod state;
pub mod text;
pub mod track_id;
pub mod youtube;
