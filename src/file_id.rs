use vstd::prelude::*;

use crate::codec::{hex_encode, hex_text};
use crate::error::{ErrorView, SpotifyIdError};

verus! {

/// A 20-byte content-addressed identifier of a binary blob, such as an image
/// or an audio file.
#[derive(Debug, Clone, Copy, PartialEq, Eq, PartialOrd, Ord, Hash)]
pub struct FileId(pub [u8; 20]);

impl FileId {
    /// Takes exactly 20 bytes; any other length is refused.
    pub fn from_raw(src: &[u8]) -> (r: Result<FileId, SpotifyIdError>)
        ensures
            src@.len() == 20 <==> r is Ok,
            r matches Ok(f) ==> f.0@ == src@,
            r matches Err(e) ==> e@ == ErrorView::IdBytes(src@),
    {
        if src.len() != 20 {
            return Err(SpotifyIdError::invalid_id_bytes(src));
        }
        let dst = [src[0], src[1], src[2], src[3], src[4], src[5], src[6], src[7], src[8], src[9],
            src[10], src[11], src[12], src[13], src[14], src[15], src[16], src[17], src[18], src[19]];
        assert(dst@ =~= src@);
        Ok(FileId(dst))
    }

    /// The text of the id: its hex form.
    pub fn to_string(&self) -> (r: String)
        ensures
            r@ == hex_text(self.0@),
    {
        self.into_base16()
    }

    /// The id as 40 lowercase hex digits.
    pub fn into_base16(&self) -> (r: String)
        ensures
            r@ == hex_text(self.0@),
    {
        hex_encode(self.0.as_slice())
    }
}

} // verus!
