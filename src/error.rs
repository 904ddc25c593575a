use vstd::prelude::*;

verus! {

/// Why an identifier or a URI could not be read.
#[derive(Debug, Clone, PartialEq, Eq)]
pub enum SpotifyIdError {
    /// An id string had the wrong length: the expected length and the string.
    InvalidIdSize(usize, String),
    /// A byte buffer had the wrong length for a fixed-width id.
    InvalidIdBytes(Vec<u8>),
    /// The content was malformed: a reason and the string that was read.
    InvalidFormat(String, String),
    /// The URI does not start with the `spotify` scheme.
    InvalidScheme(String),
}

/// The mathematical view of an error. The free-text reason of
/// `InvalidFormat` is not part of it.
pub enum ErrorView {
    IdSize(nat, Seq<char>),
    IdBytes(Seq<u8>),
    Format(Seq<char>),
    Scheme(Seq<char>),
}

impl View for SpotifyIdError {
    type V = ErrorView;

    open spec fn view(&self) -> ErrorView {
        match self {
            SpotifyIdError::InvalidIdSize(k, s) => ErrorView::IdSize(*k as nat, s@),
            SpotifyIdError::InvalidIdBytes(b) => ErrorView::IdBytes(b@),
            SpotifyIdError::InvalidFormat(_, s) => ErrorView::Format(s@),
            SpotifyIdError::InvalidScheme(s) => ErrorView::Scheme(s@),
        }
    }
}

impl SpotifyIdError {
    pub fn invalid_id_size(k: usize, s: &str) -> (r: Self)
        ensures
            r@ == ErrorView::IdSize(k as nat, s@),
    {
        SpotifyIdError::InvalidIdSize(k, s.to_owned())
    }

    pub fn invalid_id_bytes(b: &[u8]) -> (r: Self)
        ensures
            r@ == ErrorView::IdBytes(b@),
    {
        SpotifyIdError::InvalidIdBytes(vstd::slice::slice_to_vec(b))
    }

    pub fn invalid_format_because(reason: &str, s: &str) -> (r: Self)
        ensures
            r@ == ErrorView::Format(s@),
            r matches SpotifyIdError::InvalidFormat(why, _) && why@ == reason@,
    {
        SpotifyIdError::InvalidFormat(reason.to_owned(), s.to_owned())
    }

    pub fn invalid_scheme(s: &str) -> (r: Self)
        ensures
            r@ == ErrorView::Scheme(s@),
    {
        SpotifyIdError::InvalidScheme(s.to_owned())
    }
}

} // verus!
