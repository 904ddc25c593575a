use vstd::prelude::*;

use crate::spotify_id::SpotifyId;
use crate::text::{chars_of, text_eq};

verus! {

/// The kinds of catalog items. Each kind of item is identified by a `SpotifyId`.
#[derive(Debug, Clone, Copy, PartialEq, Eq, Hash, Structural)]
pub enum SpotifyItemType {
    Album,
    Artist,
    Episode,
    Playlist,
    Show,
    Track,
}

/// The word that names each kind in a URI.
pub open spec fn item_type_word(t: SpotifyItemType) -> Seq<char> {
    match t {
        SpotifyItemType::Album => "album"@,
        SpotifyItemType::Artist => "artist"@,
        SpotifyItemType::Episode => "episode"@,
        SpotifyItemType::Playlist => "playlist"@,
        SpotifyItemType::Show => "show"@,
        SpotifyItemType::Track => "track"@,
    }
}

/// The kind that a word names, if any: an exact, case-sensitive match.
pub open spec fn item_type_of(w: Seq<char>) -> Option<SpotifyItemType> {
    if w == "album"@ {
        Some(SpotifyItemType::Album)
    } else if w == "artist"@ {
        Some(SpotifyItemType::Artist)
    } else if w == "episode"@ {
        Some(SpotifyItemType::Episode)
    } else if w == "playlist"@ {
        Some(SpotifyItemType::Playlist)
    } else if w == "show"@ {
        Some(SpotifyItemType::Show)
    } else if w == "track"@ {
        Some(SpotifyItemType::Track)
    } else {
        None
    }
}

/// Each kind's word names that kind, and no other.
pub proof fn lemma_item_type_word(t: SpotifyItemType)
    ensures
        item_type_of(item_type_word(t)) == Some(t),
{
    reveal_strlit("album");
    reveal_strlit("artist");
    reveal_strlit("episode");
    reveal_strlit("playlist");
    reveal_strlit("show");
    reveal_strlit("track");
    assert("album"@.len() == 5);
    assert("artist"@.len() == 6);
    assert("episode"@.len() == 7);
    assert("playlist"@.len() == 8);
    assert("show"@.len() == 4);
    assert("track"@.len() == 5);
    assert("album"@[0] != "track"@[0]);
}

/// Reads a kind from the characters of a word.
pub(crate) fn item_type_of_chars(w: &Vec<char>) -> (r: Option<SpotifyItemType>)
    ensures
        r == item_type_of(w@),
{
    if text_eq(w, "album") {
        Some(SpotifyItemType::Album)
    } else if text_eq(w, "artist") {
        Some(SpotifyItemType::Artist)
    } else if text_eq(w, "episode") {
        Some(SpotifyItemType::Episode)
    } else if text_eq(w, "playlist") {
        Some(SpotifyItemType::Playlist)
    } else if text_eq(w, "show") {
        Some(SpotifyItemType::Show)
    } else if text_eq(w, "track") {
        Some(SpotifyItemType::Track)
    } else {
        None
    }
}

impl SpotifyItemType {
    /// Reads a kind from its word; any other word is handed back unchanged.
    pub fn try_from(v: &str) -> (r: Result<Self, String>)
        ensures
            r is Ok <==> item_type_of(v@) is Some,
            r matches Ok(t) ==> item_type_of(v@) == Some(t),
            r matches Err(w) ==> w@ == v@,
    {
        let cs = chars_of(v);
        match item_type_of_chars(&cs) {
            Some(t) => Ok(t),
            None => Err(v.to_owned()),
        }
    }

    /// The word that names this kind.
    pub fn as_str(&self) -> (r: &'static str)
        ensures
            r@ == item_type_word(*self),
    {
        match self {
            SpotifyItemType::Album => "album",
            SpotifyItemType::Artist => "artist",
            SpotifyItemType::Episode => "episode",
            SpotifyItemType::Playlist => "playlist",
            SpotifyItemType::Show => "show",
            SpotifyItemType::Track => "track",
        }
    }
}

/// Episodes and tracks can be played on their own; the other kinds are collections.
pub open spec fn is_playable_type(t: SpotifyItemType) -> bool {
    t == SpotifyItemType::Episode || t == SpotifyItemType::Track
}

/// A catalog item: its kind and its id.
#[derive(Debug, Clone, Copy, PartialEq, Eq, Hash)]
pub struct SpotifyItem {
    pub item_type: SpotifyItemType,
    pub id: SpotifyId,
}

impl SpotifyItem {
    pub fn new(item_type: SpotifyItemType, id: SpotifyId) -> (r: Self)
        ensures
            r.item_type == item_type,
            r.id == id,
    {
        SpotifyItem { item_type, id }
    }

    /// Whether the item can be played as a unit: true exactly for episodes and tracks.
    pub fn is_playable(&self) -> (r: bool)
        ensures
            r == is_playable_type(self.item_type),
    {
        match self.item_type {
            SpotifyItemType::Album
            | SpotifyItemType::Artist
            | SpotifyItemType::Playlist
            | SpotifyItemType::Show => false,
            SpotifyItemType::Episode | SpotifyItemType::Track => true,
        }
    }

    pub fn item_type(&self) -> (r: SpotifyItemType)
        ensures
            r == self.item_type,
    {
        self.item_type
    }

    pub fn id(&self) -> (r: SpotifyId)
        ensures
            r == self.id,
    {
        self.id
    }
}

/// A metadata reference. The only kind known is a page number, used to
/// resolve pagination.
#[derive(Debug, Clone, Copy, PartialEq, Eq, Hash)]
pub enum SpotifyMetaItem {
    Page(usize),
}

/// A track from the user's own files, with its basic metadata: it has no catalog id.
#[derive(Debug, Clone, PartialEq, Eq)]
pub struct SpotifyLocalItem {
    pub artist: String,
    pub album_title: String,
    pub track_title: String,
    pub duration_s: u32,
}

impl SpotifyLocalItem {
    pub fn artist(&self) -> (r: &str)
        ensures
            r@ == self.artist@,
    {
        self.artist.as_str()
    }

    pub fn album_title(&self) -> (r: &str)
        ensures
            r@ == self.album_title@,
    {
        self.album_title.as_str()
    }

    pub fn track_title(&self) -> (r: &str)
        ensures
            r@ == self.track_title@,
    {
        self.track_title.as_str()
    }

    pub fn duration_s(&self) -> (r: u32)
        ensures
            r == self.duration_s,
    {
        self.duration_s
    }
}

} // verus!
