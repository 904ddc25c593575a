//! Identifiers and URIs of a content catalog: 128-bit item ids with their
//! byte, hex and base-62 forms, 20-byte file ids, and the colon-separated
//! `spotify:` URI grammar.

pub mod error;
pub mod codec;
pub mod file_id;
pub mod item;
pub mod number;
pub mod pct;
pub mod spotify_id;
pub mod text;
pub mod uri;

pub use error::{ErrorView, SpotifyIdError};
pub use spotify_id::SpotifyId;
pub use file_id::FileId;
pub use item::{SpotifyItem, SpotifyItemType, SpotifyLocalItem, SpotifyMetaItem};
pub use uri::{SpotifyUri, UriView};
