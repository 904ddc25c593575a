use vstd::prelude::*;

use crate::error::{ErrorView, SpotifyIdError};
use crate::item::{
    SpotifyItem, SpotifyItemType, SpotifyLocalItem, SpotifyMetaItem, item_type_of,
    item_type_of_chars, item_type_word, is_playable_type,
};
use crate::number::{dec_text, parse_dec, parse_decimal, push_decimal};
use crate::pct::{lemma_local_field_round_trip, local_field, local_text, url_decode, url_encode};
use crate::spotify_id::{SpotifyId, base62_text, id_from_b62, id_outcome};
use crate::text::{
    colon_tail, join_colon, join_from, push_char, rest_from, rest_from_parts, split_colon,
    split_colons, string_from, text_eq, views, chars_of, no_colon, lemma_split_at_colon,
    lemma_split_no_colon, lemma_join_split, lemma_split_nonempty, lemma_join_cons,
};
use crate::spotify_id::lemma_base62_round_trip;
use crate::item::lemma_item_type_word;
use crate::number::{is_dec_text, dec_value, lemma_dec_round_trip};

verus! {

/// Any URI of the `spotify` scheme, such as `spotify:track:5sWHDYs0csV6RS48xBl0tH`.
#[derive(Debug, Clone, PartialEq, Eq)]
pub enum SpotifyUri {
    /// A catalog item.
    Item(SpotifyItem),
    /// A catalog item in the scope of a user.
    UserItem(String, SpotifyItem),
    /// Recommendations seeded from a catalog item.
    Station(SpotifyItem),
    /// A metadata reference.
    Meta(SpotifyMetaItem),
    /// A track from the user's own files.
    Local(SpotifyLocalItem),
    /// A URI that is not understood: its second segment, and the rest after
    /// the next colon, if there is such a colon.
    Unknown(String, Option<String>),
}

/// The mathematical view of a URI.
pub enum UriView {
    Item(SpotifyItem),
    UserItem(Seq<char>, SpotifyItem),
    Station(SpotifyItem),
    Meta(SpotifyMetaItem),
    /// Artist, album title, track title and duration in seconds.
    Local(Seq<char>, Seq<char>, Seq<char>, u32),
    Unknown(Seq<char>, Option<Seq<char>>),
}

pub open spec fn opt_view(o: Option<String>) -> Option<Seq<char>> {
    match o {
        Some(s) => Some(s@),
        None => None,
    }
}

impl View for SpotifyUri {
    type V = UriView;

    open spec fn view(&self) -> UriView {
        match self {
            SpotifyUri::Item(it) => UriView::Item(*it),
            SpotifyUri::UserItem(name, it) => UriView::UserItem(name@, *it),
            SpotifyUri::Station(it) => UriView::Station(*it),
            SpotifyUri::Meta(m) => UriView::Meta(*m),
            SpotifyUri::Local(l) => UriView::Local(
                l.artist@,
                l.album_title@,
                l.track_title@,
                l.duration_s,
            ),
            SpotifyUri::Unknown(w, r) => UriView::Unknown(w@, opt_view(*r)),
        }
    }
}

/// The outcome of reading a URI, as a plain value.
pub open spec fn uri_outcome(r: Result<SpotifyUri, SpotifyIdError>) -> Result<UriView, ErrorView> {
    match r {
        Ok(u) => Ok(u@),
        Err(e) => Err(e@),
    }
}

/// What the item-type-and-id part of a URI reads as: a clean item, or a
/// word and a remainder that were not understood.
pub enum ItemParse {
    Clean(SpotifyItem),
    Degraded(Seq<char>, Option<Seq<char>>),
}

/// An error in reading an id, told about the whole URI `src`: a wrong
/// length stays a size error, anything else is a format error.
pub open spec fn id_error_on(e: ErrorView, src: Seq<char>) -> ErrorView {
    match e {
        ErrorView::IdSize(k, _) => ErrorView::IdSize(k, src),
        _ => ErrorView::Format(src),
    }
}

/// Reads the item-type word `typ` and the pieces from the `i`-th on. An
/// unknown word degrades; a known word needs exactly one more piece, a valid
/// base-62 id; more pieces degrade.
pub open spec fn parse_item_parts(src: Seq<char>, ps: Seq<Seq<char>>, typ: Seq<char>, i: int) -> Result<
    ItemParse,
    ErrorView,
> {
    match item_type_of(typ) {
        None => Ok(ItemParse::Degraded(typ, rest_from(ps, i))),
        Some(t) => if i >= ps.len() {
            Err(ErrorView::Format(src))
        } else {
            match id_from_b62(ps[i]) {
                Err(e) => Err(id_error_on(e, src)),
                Ok(v) => if i + 1 < ps.len() {
                    Ok(ItemParse::Degraded(typ, rest_from(ps, i)))
                } else {
                    Ok(ItemParse::Clean(SpotifyItem { item_type: t, id: SpotifyId(v) }))
                },
            }
        },
    }
}

/// Reads `spotify:meta:...`, split into `ps`.
pub open spec fn parse_meta(src: Seq<char>, ps: Seq<Seq<char>>) -> Result<UriView, ErrorView> {
    if ps.len() < 3 {
        Err(ErrorView::Format(src))
    } else if ps[2] == "page"@ {
        if ps.len() < 4 {
            Err(ErrorView::Format(src))
        } else {
            match parse_dec(ps[3], usize::MAX as int) {
                None => Err(ErrorView::Format(src)),
                Some(n) => if ps.len() == 4 {
                    Ok(UriView::Meta(SpotifyMetaItem::Page(n as usize)))
                } else {
                    Ok(
                        UriView::Unknown(
                            "meta"@,
                            Some(
                                "page"@ + seq![':'] + dec_text(n as nat) + seq![':'] + join_colon(
                                    ps.subrange(4, ps.len() as int),
                                ),
                            ),
                        ),
                    )
                },
            }
        }
    } else {
        Ok(UriView::Unknown("meta"@, Some(join_colon(ps.subrange(2, ps.len() as int)))))
    }
}

/// Reads `spotify:local:...`, split into `ps`.
pub open spec fn parse_local(src: Seq<char>, ps: Seq<Seq<char>>) -> Result<UriView, ErrorView> {
    if ps.len() < 6 {
        Err(ErrorView::Format(src))
    } else if ps.len() == 6 {
        match (
            local_text(ps[2]),
            local_text(ps[3]),
            local_text(ps[4]),
            parse_dec(ps[5], u32::MAX as int),
        ) {
            (Some(a), Some(b), Some(c), Some(d)) => Ok(UriView::Local(a, b, c, d as u32)),
            _ => Err(ErrorView::Format(src)),
        }
    } else {
        Ok(UriView::Unknown("local"@, Some(join_colon(ps.subrange(2, ps.len() as int)))))
    }
}

/// What reading the text `src` as a URI gives.
pub open spec fn parse_uri(src: Seq<char>) -> Result<UriView, ErrorView> {
    let ps = split_colon(src);
    if ps[0] != "spotify"@ {
        Err(ErrorView::Scheme(src))
    } else if ps.len() < 2 {
        Err(ErrorView::Format(src))
    } else if ps[1] == "user"@ {
        if ps.len() < 4 {
            Err(ErrorView::Format(src))
        } else {
            match parse_item_parts(src, ps, ps[3], 4) {
                Err(e) => Err(e),
                Ok(ItemParse::Clean(it)) => Ok(UriView::UserItem(ps[2], it)),
                Ok(ItemParse::Degraded(t, r)) => Ok(
                    UriView::Unknown("user"@, Some(ps[2] + seq![':'] + t + colon_tail(r))),
                ),
            }
        }
    } else if ps[1] == "station"@ {
        if ps.len() < 3 {
            Err(ErrorView::Format(src))
        } else {
            match parse_item_parts(src, ps, ps[2], 3) {
                Err(e) => Err(e),
                Ok(ItemParse::Clean(it)) => Ok(UriView::Station(it)),
                Ok(ItemParse::Degraded(t, r)) => Ok(
                    UriView::Unknown("station"@, Some(t + colon_tail(r))),
                ),
            }
        }
    } else if ps[1] == "meta"@ {
        parse_meta(src, ps)
    } else if ps[1] == "local"@ {
        parse_local(src, ps)
    } else {
        match parse_item_parts(src, ps, ps[1], 2) {
            Err(e) => Err(e),
            Ok(ItemParse::Clean(it)) => Ok(UriView::Item(it)),
            Ok(ItemParse::Degraded(t, r)) => Ok(UriView::Unknown(t, r)),
        }
    }
}

/// `type:id` of a catalog item.
pub open spec fn item_text(it: SpotifyItem) -> Seq<char> {
    item_type_word(it.item_type) + seq![':'] + base62_text(it.id.0)
}

/// The text of a URI.
pub open spec fn uri_text(u: UriView) -> Seq<char> {
    "spotify"@ + seq![':'] + match u {
        UriView::Item(it) => item_text(it),
        UriView::UserItem(name, it) => "user"@ + seq![':'] + name + seq![':'] + item_text(it),
        UriView::Station(it) => "station"@ + seq![':'] + item_text(it),
        UriView::Meta(SpotifyMetaItem::Page(n)) => "meta"@ + seq![':'] + "page"@ + seq![':']
            + dec_text(n as nat),
        UriView::Local(a, b, c, d) => "local"@ + seq![':'] + local_field(a) + seq![':']
            + local_field(b) + seq![':'] + local_field(c) + seq![':'] + dec_text(d as nat),
        UriView::Unknown(w, r) => w + colon_tail(r),
    }
}

/// The item that a URI identifies: that of `Item` and `UserItem`. A station
/// is a function of an item, not the item.
pub open spec fn uri_item(u: UriView) -> Option<SpotifyItem> {
    match u {
        UriView::Item(it) => Some(it),
        UriView::UserItem(_, it) => Some(it),
        _ => None,
    }
}

enum ItemParsed {
    Clean(SpotifyItem),
    Degraded(String, Option<String>),
}

spec fn parsed_outcome(r: Result<ItemParsed, SpotifyIdError>) -> Result<ItemParse, ErrorView> {
    match r {
        Ok(ItemParsed::Clean(it)) => Ok(ItemParse::Clean(it)),
        Ok(ItemParsed::Degraded(t, rest)) => Ok(ItemParse::Degraded(t@, opt_view(rest))),
        Err(e) => Err(e@),
    }
}

/// Restates an error in reading an id so that it names the whole URI.
fn id_error_about(e: SpotifyIdError, src: &str) -> (r: SpotifyIdError)
    ensures
        r@ == id_error_on(e@, src@),
{
    match e {
        SpotifyIdError::InvalidIdSize(k, _) => SpotifyIdError::invalid_id_size(k, src),
        SpotifyIdError::InvalidFormat(why, _) => SpotifyIdError::invalid_format_because(
            why.as_str(),
            src,
        ),
        _ => SpotifyIdError::invalid_format_because("invalid id", src),
    }
}

fn missing_part(src: &str) -> (r: SpotifyIdError)
    ensures
        r@ == ErrorView::Format(src@),
{
    SpotifyIdError::invalid_format_because("missing part", src)
}

/// `a`, a colon, `b`, and a colon and the remainder if there is one.
fn joined(a: String, b: &str, rest: Option<String>) -> (r: String)
    ensures
        r@ == a@ + seq![':'] + b@ + colon_tail(opt_view(rest)),
{
    let mut s = a;
    push_char(&mut s, ':');
    s.append(b);
    match rest {
        Some(x) => {
            push_char(&mut s, ':');
            s.append(x.as_str());
        },
        None => {},
    }
    assert(s@ =~= a@ + seq![':'] + b@ + colon_tail(opt_view(rest)));
    s
}

/// A word and a colon and the remainder if there is one.
fn with_tail(a: String, rest: Option<String>) -> (r: String)
    ensures
        r@ == a@ + colon_tail(opt_view(rest)),
{
    let mut s = a;
    match rest {
        Some(x) => {
            push_char(&mut s, ':');
            s.append(x.as_str());
        },
        None => {},
    }
    assert(s@ =~= a@ + colon_tail(opt_view(rest)));
    s
}

impl SpotifyUri {
    /// Reads the item-type word `typ` and the pieces from the `i`-th on.
    fn from_src_typ_parts_inj(src: &str, parts: &Vec<Vec<char>>, typ: &Vec<char>, i: usize) -> (r:
        Result<ItemParsed, SpotifyIdError>)
        ensures
            parsed_outcome(r) == parse_item_parts(src@, views(parts@), typ@, i as int),
    {
        match item_type_of_chars(typ) {
            None => Ok(ItemParsed::Degraded(string_from(typ), rest_from_parts(parts, i))),
            Some(t) => {
                if i >= parts.len() {
                    return Err(missing_part(src));
                }
                let id_str = string_from(&parts[i]);
                let r = SpotifyId::from_base62(id_str.as_str());
                assert(id_outcome(r) == id_from_b62(views(parts@)[i as int]));
                match r {
                    Err(e) => Err(id_error_about(e, src)),
                    Ok(id) => {
                        if i + 1 < parts.len() {
                            Ok(ItemParsed::Degraded(string_from(typ), rest_from_parts(parts, i)))
                        } else {
                            Ok(ItemParsed::Clean(SpotifyItem { item_type: t, id }))
                        }
                    },
                }
            },
        }
    }

    /// Reads `spotify:meta:...`.
    fn meta_from_src_parts(src: &str, parts: &Vec<Vec<char>>) -> (r: Result<Self, SpotifyIdError>)
        ensures
            uri_outcome(r) == parse_meta(src@, views(parts@)),
    {
        let ghost ps = views(parts@);
        if parts.len() < 3 {
            return Err(missing_part(src));
        }
        if text_eq(&parts[2], "page") {
            if parts.len() < 4 {
                return Err(missing_part(src));
            }
            match parse_decimal(&parts[3], usize::MAX as u64) {
                Err(why) => Err(SpotifyIdError::invalid_format_because(why, src)),
                Ok(n) => {
                    if parts.len() == 4 {
                        Ok(SpotifyUri::Meta(SpotifyMetaItem::Page(n as usize)))
                    } else {
                        let mut s = "page".to_owned();
                        push_char(&mut s, ':');
                        push_decimal(&mut s, n);
                        push_char(&mut s, ':');
                        let rest = join_from(parts, 4);
                        s.append(rest.as_str());
                        assert(s@ =~= "page"@ + seq![':'] + dec_text(n as nat) + seq![':']
                            + join_colon(ps.subrange(4, ps.len() as int)));
                        Ok(SpotifyUri::Unknown("meta".to_owned(), Some(s)))
                    }
                },
            }
        } else {
            Ok(SpotifyUri::Unknown("meta".to_owned(), Some(join_from(parts, 2))))
        }
    }

    /// Reads `spotify:local:...`.
    fn local_from_src_parts(src: &str, parts: &Vec<Vec<char>>) -> (r: Result<Self, SpotifyIdError>)
        ensures
            uri_outcome(r) == parse_local(src@, views(parts@)),
    {
        if parts.len() < 6 {
            return Err(missing_part(src));
        }
        if parts.len() > 6 {
            return Ok(SpotifyUri::Unknown("local".to_owned(), Some(join_from(parts, 2))));
        }
        let a = string_from(&parts[2]);
        let b = string_from(&parts[3]);
        let c = string_from(&parts[4]);
        let artist = match url_decode(src, a.as_str()) {
            Ok(t) => t,
            Err(e) => return Err(e),
        };
        let album_title = match url_decode(src, b.as_str()) {
            Ok(t) => t,
            Err(e) => return Err(e),
        };
        let track_title = match url_decode(src, c.as_str()) {
            Ok(t) => t,
            Err(e) => return Err(e),
        };
        let duration_s = match parse_decimal(&parts[5], u32::MAX as u64) {
            Ok(d) => d as u32,
            Err(why) => return Err(SpotifyIdError::invalid_format_because(why, src)),
        };
        Ok(SpotifyUri::Local(SpotifyLocalItem { artist, album_title, track_title, duration_s }))
    }

    /// Reads a URI. Text that does not start with `spotify` is refused;
    /// structure that is not understood is kept in `Unknown`.
    pub fn try_from(src: &str) -> (r: Result<Self, SpotifyIdError>)
        ensures
            uri_outcome(r) == parse_uri(src@),
    {
        let cs = chars_of(src);
        let parts = split_colons(&cs);
        let ghost ps = views(parts@);
        if !text_eq(&parts[0], "spotify") {
            return Err(SpotifyIdError::invalid_scheme(src));
        }
        if parts.len() < 2 {
            return Err(missing_part(src));
        }
        if text_eq(&parts[1], "user") {
            if parts.len() < 4 {
                return Err(missing_part(src));
            }
            let user = string_from(&parts[2]);
            match Self::from_src_typ_parts_inj(src, &parts, &parts[3], 4) {
                Err(e) => Err(e),
                Ok(ItemParsed::Clean(it)) => Ok(SpotifyUri::UserItem(user, it)),
                Ok(ItemParsed::Degraded(t, rest)) => {
                    Ok(SpotifyUri::Unknown("user".to_owned(), Some(joined(user, t.as_str(), rest))))
                },
            }
        } else if text_eq(&parts[1], "station") {
            if parts.len() < 3 {
                return Err(missing_part(src));
            }
            match Self::from_src_typ_parts_inj(src, &parts, &parts[2], 3) {
                Err(e) => Err(e),
                Ok(ItemParsed::Clean(it)) => Ok(SpotifyUri::Station(it)),
                Ok(ItemParsed::Degraded(t, rest)) => {
                    Ok(SpotifyUri::Unknown("station".to_owned(), Some(with_tail(t, rest))))
                },
            }
        } else if text_eq(&parts[1], "meta") {
            Self::meta_from_src_parts(src, &parts)
        } else if text_eq(&parts[1], "local") {
            Self::local_from_src_parts(src, &parts)
        } else {
            match Self::from_src_typ_parts_inj(src, &parts, &parts[1], 2) {
                Err(e) => Err(e),
                Ok(ItemParsed::Clean(it)) => Ok(SpotifyUri::Item(it)),
                Ok(ItemParsed::Degraded(t, rest)) => Ok(SpotifyUri::Unknown(t, rest)),
            }
        }
    }
}

/// Appends `type:id` of a catalog item.
fn push_item(s: &mut String, it: &SpotifyItem)
    ensures
        final(s)@ == old(s)@ + item_text(*it),
{
    s.append(it.item_type.as_str());
    push_char(s, ':');
    let id = it.id.into_base62();
    s.append(id.as_str());
    assert(final(s)@ =~= old(s)@ + item_text(*it));
}

impl SpotifyUri {
    /// The URI of a track.
    pub fn track(id: SpotifyId) -> (r: Self)
        ensures
            r@ == UriView::Item(SpotifyItem { item_type: SpotifyItemType::Track, id }),
    {
        SpotifyUri::Item(SpotifyItem { item_type: SpotifyItemType::Track, id })
    }

    /// The URI of an album.
    pub fn album(id: SpotifyId) -> (r: Self)
        ensures
            r@ == UriView::Item(SpotifyItem { item_type: SpotifyItemType::Album, id }),
    {
        SpotifyUri::Item(SpotifyItem { item_type: SpotifyItemType::Album, id })
    }

    /// The URI of an artist.
    pub fn artist(id: SpotifyId) -> (r: Self)
        ensures
            r@ == UriView::Item(SpotifyItem { item_type: SpotifyItemType::Artist, id }),
    {
        SpotifyUri::Item(SpotifyItem { item_type: SpotifyItemType::Artist, id })
    }

    /// The URI of an episode.
    pub fn episode(id: SpotifyId) -> (r: Self)
        ensures
            r@ == UriView::Item(SpotifyItem { item_type: SpotifyItemType::Episode, id }),
    {
        SpotifyUri::Item(SpotifyItem { item_type: SpotifyItemType::Episode, id })
    }

    /// The URI of a playlist.
    pub fn playlist(id: SpotifyId) -> (r: Self)
        ensures
            r@ == UriView::Item(SpotifyItem { item_type: SpotifyItemType::Playlist, id }),
    {
        SpotifyUri::Item(SpotifyItem { item_type: SpotifyItemType::Playlist, id })
    }

    /// The URI of a show.
    pub fn show(id: SpotifyId) -> (r: Self)
        ensures
            r@ == UriView::Item(SpotifyItem { item_type: SpotifyItemType::Show, id }),
    {
        SpotifyUri::Item(SpotifyItem { item_type: SpotifyItemType::Show, id })
    }

    /// The item that the URI identifies, for `Item` and `UserItem`.
    pub fn item(&self) -> (r: Option<&SpotifyItem>)
        ensures
            r is Some <==> uri_item(self@) is Some,
            r matches Some(it) ==> uri_item(self@) == Some(*it),
    {
        match self {
            SpotifyUri::Item(item) => Some(item),
            SpotifyUri::UserItem(_, item) => Some(item),
            SpotifyUri::Station(_)
            | SpotifyUri::Meta(_)
            | SpotifyUri::Local(_)
            | SpotifyUri::Unknown(_, _) => None,
        }
    }

    /// The id of the item that the URI identifies.
    pub fn id(&self) -> (r: Option<SpotifyId>)
        ensures
            r is Some <==> uri_item(self@) is Some,
            r matches Some(id) ==> uri_item(self@)->Some_0.id == id,
    {
        match self.item() {
            Some(it) => Some(it.id),
            None => None,
        }
    }

    /// The kind of the item that the URI identifies.
    pub fn item_type(&self) -> (r: Option<SpotifyItemType>)
        ensures
            r is Some <==> uri_item(self@) is Some,
            r matches Some(t) ==> uri_item(self@)->Some_0.item_type == t,
    {
        match self.item() {
            Some(it) => Some(it.item_type),
            None => None,
        }
    }

    /// The user that a `UserItem` is scoped to.
    pub fn username(&self) -> (r: Option<&str>)
        ensures
            r is Some <==> self@ is UserItem,
            r matches Some(u) ==> self@->UserItem_0 == u@,
    {
        match self {
            SpotifyUri::UserItem(username, _) => Some(username.as_str()),
            SpotifyUri::Item(_)
            | SpotifyUri::Station(_)
            | SpotifyUri::Meta(_)
            | SpotifyUri::Local(_)
            | SpotifyUri::Unknown(_, _) => None,
        }
    }

    /// Whether the URI can be played as a unit: an `Item`, `UserItem` or
    /// `Station` of an episode or a track.
    pub fn is_playable(&self) -> (r: bool)
        ensures
            r == match self@ {
                UriView::Item(it) => is_playable_type(it.item_type),
                UriView::UserItem(_, it) => is_playable_type(it.item_type),
                UriView::Station(it) => is_playable_type(it.item_type),
                _ => false,
            },
    {
        match self {
            SpotifyUri::Item(item) => item.is_playable(),
            SpotifyUri::UserItem(_, item) => item.is_playable(),
            SpotifyUri::Station(item) => item.is_playable(),
            SpotifyUri::Meta(_)
            | SpotifyUri::Local(_)
            | SpotifyUri::Unknown(_, _) => false,
        }
    }

    /// The text of the URI.
    pub fn to_string(&self) -> (r: String)
        ensures
            r@ == uri_text(self@),
    {
        let mut s = "spotify".to_owned();
        push_char(&mut s, ':');
        let ghost head = s@;
        match self {
            SpotifyUri::Item(item) => {
                return item.to_string();
            },
            SpotifyUri::UserItem(user, item) => {
                s.append("user");
                push_char(&mut s, ':');
                s.append(user.as_str());
                push_char(&mut s, ':');
                push_item(&mut s, item);
            },
            SpotifyUri::Station(item) => {
                s.append("station");
                push_char(&mut s, ':');
                push_item(&mut s, item);
            },
            SpotifyUri::Meta(SpotifyMetaItem::Page(n)) => {
                s.append("meta");
                push_char(&mut s, ':');
                s.append("page");
                push_char(&mut s, ':');
                push_decimal(&mut s, *n as u64);
            },
            SpotifyUri::Local(local) => {
                return local.to_string();
            },
            SpotifyUri::Unknown(word, rest) => {
                s.append(word.as_str());
                match rest {
                    Some(x) => {
                        push_char(&mut s, ':');
                        s.append(x.as_str());
                    },
                    None => {},
                }
            },
        }
        assert(s@ =~= uri_text(self@));
        s
    }
}

/// The words that the grammar gives a meaning to in second place.
pub open spec fn is_reserved_word(w: Seq<char>) -> bool {
    w == "user"@ || w == "station"@ || w == "meta"@ || w == "local"@ || item_type_of(w) is Some
}

/// A URI value whose text reads back to it: a user name holds no colon, and
/// the word of an unknown URI holds no colon and is not a word of the grammar.
pub open spec fn is_well_formed(u: UriView) -> bool {
    match u {
        UriView::UserItem(name, _) => no_colon(name),
        UriView::Unknown(w, _) => no_colon(w) && !is_reserved_word(w),
        _ => true,
    }
}

proof fn lemma_literal_no_colon(s: Seq<char>, n: nat)
    requires
        s.len() == n,
        n <= 8,
        n > 0 ==> s[0] != ':',
        n > 1 ==> s[1] != ':',
        n > 2 ==> s[2] != ':',
        n > 3 ==> s[3] != ':',
        n > 4 ==> s[4] != ':',
        n > 5 ==> s[5] != ':',
        n > 6 ==> s[6] != ':',
        n > 7 ==> s[7] != ':',
    ensures
        no_colon(s),
{
    assert forall|i: int| 0 <= i < s.len() implies #[trigger] s[i] != ':' by {
        if i == 0 {
        } else if i == 1 {
        } else if i == 2 {
        } else if i == 3 {
        } else if i == 4 {
        } else if i == 5 {
        } else if i == 6 {
        } else {
        }
    }
}

/// The fixed words of the grammar hold no colon and differ from each other.
proof fn lemma_words()
    ensures
        no_colon("spotify"@),
        no_colon("user"@),
        no_colon("station"@),
        no_colon("meta"@),
        no_colon("page"@),
        no_colon("local"@),
        "user"@ != "station"@,
        "user"@ != "meta"@,
        "user"@ != "local"@,
        "station"@ != "meta"@,
        "station"@ != "local"@,
        "meta"@ != "local"@,
        forall|t: SpotifyItemType| #![trigger item_type_word(t)] {
            &&& no_colon(item_type_word(t))
            &&& item_type_word(t) != "user"@
            &&& item_type_word(t) != "station"@
            &&& item_type_word(t) != "meta"@
            &&& item_type_word(t) != "local"@
        },
{
    reveal_strlit("spotify");
    reveal_strlit("user");
    reveal_strlit("station");
    reveal_strlit("meta");
    reveal_strlit("page");
    reveal_strlit("local");
    reveal_strlit("album");
    reveal_strlit("artist");
    reveal_strlit("episode");
    reveal_strlit("playlist");
    reveal_strlit("show");
    reveal_strlit("track");
    lemma_literal_no_colon("spotify"@, 7);
    lemma_literal_no_colon("user"@, 4);
    lemma_literal_no_colon("station"@, 7);
    lemma_literal_no_colon("meta"@, 4);
    lemma_literal_no_colon("page"@, 4);
    lemma_literal_no_colon("local"@, 5);
    lemma_literal_no_colon("album"@, 5);
    lemma_literal_no_colon("artist"@, 6);
    lemma_literal_no_colon("episode"@, 7);
    lemma_literal_no_colon("playlist"@, 8);
    lemma_literal_no_colon("show"@, 4);
    lemma_literal_no_colon("track"@, 5);
    assert("user"@[0] != "meta"@[0]);
    assert("user"@[0] != "show"@[0]);
    assert("meta"@[0] != "show"@[0]);
    assert("station"@[0] != "episode"@[0]);
    assert("local"@[0] != "album"@[0]);
    assert("local"@[0] != "track"@[0]);
}

/// An id's base-62 text holds no colon.
proof fn lemma_base62_no_colon(v: u128)
    ensures
        no_colon(base62_text(v)),
        id_from_b62(base62_text(v)) == Ok::<u128, ErrorView>(v),
{
    lemma_base62_round_trip(v);
    let t = base62_text(v);
    assert forall|i: int| 0 <= i < t.len() implies #[trigger] t[i] != ':' by {
        assert(crate::codec::b62_digit(t[i]) >= 0);
    }
}

/// The pieces of `type:id`.
proof fn lemma_split_item(it: SpotifyItem)
    ensures
        split_colon(item_text(it)) == seq![item_type_word(it.item_type), base62_text(it.id.0)],
        item_type_of(item_type_word(it.item_type)) == Some(it.item_type),
        id_from_b62(base62_text(it.id.0)) == Ok::<u128, ErrorView>(it.id.0),
        no_colon(item_type_word(it.item_type)),
{
    lemma_words();
    lemma_item_type_word(it.item_type);
    lemma_base62_no_colon(it.id.0);
    let w = item_type_word(it.item_type);
    let id = base62_text(it.id.0);
    lemma_split_at_colon(w, id);
    lemma_split_no_colon(w);
    lemma_split_no_colon(id);
    assert(seq![w] + seq![id] =~= seq![w, id]);
}

proof fn lemma_round_trip_item(it: SpotifyItem)
    ensures
        parse_uri(uri_text(UriView::Item(it))) == Ok::<UriView, ErrorView>(UriView::Item(it)),
{
    lemma_words();
    let sp = "spotify"@;
    let src = uri_text(UriView::Item(it));
    lemma_split_no_colon(sp);
    lemma_split_item(it);
    let w = item_type_word(it.item_type);
    let id = base62_text(it.id.0);
    assert(src =~= sp + seq![':'] + item_text(it));
    lemma_split_at_colon(sp, item_text(it));
    let ps = split_colon(src);
    assert(ps =~= seq![sp, w, id]);
    assert(parse_item_parts(src, ps, w, 2) == Ok::<ItemParse, ErrorView>(ItemParse::Clean(it)));
}

proof fn lemma_round_trip_user(name: Seq<char>, it: SpotifyItem)
    requires
        no_colon(name),
    ensures
        parse_uri(uri_text(UriView::UserItem(name, it))) == Ok::<UriView, ErrorView>(
            UriView::UserItem(name, it),
        ),
{
    lemma_words();
    let sp = "spotify"@;
    let src = uri_text(UriView::UserItem(name, it));
    lemma_split_no_colon(sp);
    lemma_split_item(it);
    let w = item_type_word(it.item_type);
    let id = base62_text(it.id.0);
    let tail = name + seq![':'] + item_text(it);
    let rest = "user"@ + seq![':'] + tail;
    assert(src =~= sp + seq![':'] + rest);
    lemma_split_at_colon(sp, rest);
    lemma_split_at_colon("user"@, tail);
    lemma_split_at_colon(name, item_text(it));
    lemma_split_no_colon("user"@);
    lemma_split_no_colon(name);
    let ps = split_colon(src);
    assert(ps =~= seq![sp, "user"@, name, w, id]);
    assert(parse_item_parts(src, ps, w, 4) == Ok::<ItemParse, ErrorView>(ItemParse::Clean(it)));
}

proof fn lemma_round_trip_station(it: SpotifyItem)
    ensures
        parse_uri(uri_text(UriView::Station(it))) == Ok::<UriView, ErrorView>(UriView::Station(it)),
{
    lemma_words();
    let sp = "spotify"@;
    let src = uri_text(UriView::Station(it));
    lemma_split_no_colon(sp);
    lemma_split_item(it);
    let w = item_type_word(it.item_type);
    let id = base62_text(it.id.0);
    let rest = "station"@ + seq![':'] + item_text(it);
    assert(src =~= sp + seq![':'] + rest);
    lemma_split_at_colon(sp, rest);
    lemma_split_at_colon("station"@, item_text(it));
    lemma_split_no_colon("station"@);
    let ps = split_colon(src);
    assert(ps =~= seq![sp, "station"@, w, id]);
    assert(parse_item_parts(src, ps, w, 3) == Ok::<ItemParse, ErrorView>(ItemParse::Clean(it)));
}

proof fn lemma_round_trip_meta(n: usize)
    ensures
        parse_uri(uri_text(UriView::Meta(SpotifyMetaItem::Page(n)))) == Ok::<UriView, ErrorView>(
            UriView::Meta(SpotifyMetaItem::Page(n)),
        ),
{
    lemma_words();
    let sp = "spotify"@;
    let src = uri_text(UriView::Meta(SpotifyMetaItem::Page(n)));
    lemma_split_no_colon(sp);
    let d = dec_text(n as nat);
    lemma_dec_round_trip(n as nat, usize::MAX as int);
    let tail = "page"@ + seq![':'] + d;
    let rest = "meta"@ + seq![':'] + tail;
    assert(src =~= sp + seq![':'] + rest);
    lemma_split_at_colon(sp, rest);
    lemma_split_at_colon("meta"@, tail);
    lemma_split_at_colon("page"@, d);
    lemma_split_no_colon("meta"@);
    lemma_split_no_colon("page"@);
    assert(no_colon(d));
    lemma_split_no_colon(d);
    let ps = split_colon(src);
    assert(ps =~= seq![sp, "meta"@, "page"@, d]);
    assert(parse_meta(src, ps) == Ok::<UriView, ErrorView>(UriView::Meta(SpotifyMetaItem::Page(n))));
}

proof fn lemma_round_trip_unknown(w: Seq<char>, r: Option<Seq<char>>)
    requires
        no_colon(w),
        !is_reserved_word(w),
    ensures
        parse_uri(uri_text(UriView::Unknown(w, r))) == Ok::<UriView, ErrorView>(
            UriView::Unknown(w, r),
        ),
{
    lemma_words();
    let sp = "spotify"@;
    let src = uri_text(UriView::Unknown(w, r));
    lemma_split_no_colon(sp);
    lemma_split_no_colon(w);
    match r {
        None => {
            assert(src =~= sp + seq![':'] + w);
            lemma_split_at_colon(sp, w);
            let ps = split_colon(src);
            assert(ps =~= seq![sp, w]);
            assert(rest_from(ps, 2) is None);
            assert(parse_item_parts(src, ps, w, 2) == Ok::<ItemParse, ErrorView>(
                ItemParse::Degraded(w, r),
            ));
        },
        Some(x) => {
            let rest = w + seq![':'] + x;
            assert(src =~= sp + seq![':'] + rest);
            lemma_split_at_colon(sp, rest);
            lemma_split_at_colon(w, x);
            lemma_split_nonempty(x);
            let ps = split_colon(src);
            assert(ps =~= seq![sp, w] + split_colon(x));
            assert(ps.subrange(2, ps.len() as int) =~= split_colon(x));
            lemma_join_split(x);
            assert(rest_from(ps, 2) == Some(x));
            assert(parse_item_parts(src, ps, w, 2) == Ok::<ItemParse, ErrorView>(
                ItemParse::Degraded(w, r),
            ));
        },
    }
}

proof fn lemma_round_trip_local(a: Seq<char>, b: Seq<char>, c: Seq<char>, d: u32)
    ensures
        parse_uri(uri_text(UriView::Local(a, b, c, d))) == Ok::<UriView, ErrorView>(
            UriView::Local(a, b, c, d),
        ),
{
    lemma_words();
    let sp = "spotify"@;
    let src = uri_text(UriView::Local(a, b, c, d));
    lemma_split_no_colon(sp);
    lemma_split_no_colon("local"@);
    let fa = local_field(a);
    let fb = local_field(b);
    let fc = local_field(c);
    let fd = dec_text(d as nat);
    lemma_local_field_round_trip(a);
    lemma_local_field_round_trip(b);
    lemma_local_field_round_trip(c);
    lemma_dec_round_trip(d as nat, u32::MAX as int);
    assert(no_colon(fa));
    assert(no_colon(fb));
    assert(no_colon(fc));
    assert(no_colon(fd));
    lemma_split_no_colon(fa);
    lemma_split_no_colon(fb);
    lemma_split_no_colon(fc);
    lemma_split_no_colon(fd);
    let t3 = fc + seq![':'] + fd;
    let t2 = fb + seq![':'] + t3;
    let t1 = fa + seq![':'] + t2;
    let rest = "local"@ + seq![':'] + t1;
    assert(src =~= sp + seq![':'] + rest);
    lemma_split_at_colon(sp, rest);
    lemma_split_at_colon("local"@, t1);
    lemma_split_at_colon(fa, t2);
    lemma_split_at_colon(fb, t3);
    lemma_split_at_colon(fc, fd);
    let ps = split_colon(src);
    assert(ps =~= seq![sp, "local"@, fa, fb, fc, fd]);
    assert(parse_local(src, ps) == Ok::<UriView, ErrorView>(UriView::Local(a, b, c, d)));
}

/// Formatting a well-formed URI value and reading the text back gives the
/// value again.
pub proof fn lemma_uri_round_trip(u: UriView)
    requires
        is_well_formed(u),
    ensures
        parse_uri(uri_text(u)) == Ok::<UriView, ErrorView>(u),
{
    match u {
        UriView::Item(it) => lemma_round_trip_item(it),
        UriView::UserItem(name, it) => lemma_round_trip_user(name, it),
        UriView::Station(it) => lemma_round_trip_station(it),
        UriView::Meta(SpotifyMetaItem::Page(n)) => lemma_round_trip_meta(n),
        UriView::Unknown(w, r) => lemma_round_trip_unknown(w, r),
        UriView::Local(a, b, c, d) => lemma_round_trip_local(a, b, c, d),
    }
}

/// A known item type and a valid id followed by more segments degrade to
/// `Unknown`, which keeps the id and the segments verbatim.
pub proof fn lemma_extra_segments_degrade(t: SpotifyItemType, id: Seq<char>, extra: Seq<char>)
    requires
        id_from_b62(id) is Ok,
    ensures
        parse_uri("spotify"@ + seq![':'] + item_type_word(t) + seq![':'] + id + seq![':'] + extra)
            == Ok::<UriView, ErrorView>(
            UriView::Unknown(item_type_word(t), Some(id + seq![':'] + extra)),
        ),
{
    lemma_words();
    lemma_item_type_word(t);
    let sp = "spotify"@;
    let w = item_type_word(t);
    let src = sp + seq![':'] + w + seq![':'] + id + seq![':'] + extra;
    assert(no_colon(id)) by {
        assert forall|i: int| 0 <= i < id.len() implies #[trigger] id[i] != ':' by {
            assert(crate::codec::b62_digit(id[i]) >= 0);
        }
    }
    lemma_split_no_colon(sp);
    lemma_split_no_colon(w);
    lemma_split_no_colon(id);
    lemma_split_nonempty(extra);
    let t2 = id + seq![':'] + extra;
    let t1 = w + seq![':'] + t2;
    assert(src =~= sp + seq![':'] + t1);
    lemma_split_at_colon(sp, t1);
    lemma_split_at_colon(w, t2);
    lemma_split_at_colon(id, extra);
    let ps = split_colon(src);
    assert(ps =~= seq![sp, w, id] + split_colon(extra));
    assert(ps.subrange(2, ps.len() as int) =~= seq![id] + split_colon(extra));
    lemma_join_cons(id, split_colon(extra));
    lemma_join_split(extra);
    assert(parse_item_parts(src, ps, w, 2) == Ok::<ItemParse, ErrorView>(
        ItemParse::Degraded(w, Some(t2)),
    ));
}

/// A known item type with an id of the wrong length is a size error that
/// names the whole URI, not a degraded URI.
pub proof fn lemma_bad_id_fails(t: SpotifyItemType, id: Seq<char>)
    requires
        no_colon(id),
        id.len() != 22,
    ensures
        parse_uri("spotify"@ + seq![':'] + item_type_word(t) + seq![':'] + id) == Err::<
            UriView,
            ErrorView,
        >(ErrorView::IdSize(22, "spotify"@ + seq![':'] + item_type_word(t) + seq![':'] + id)),
{
    lemma_words();
    lemma_item_type_word(t);
    let sp = "spotify"@;
    let w = item_type_word(t);
    let src = sp + seq![':'] + w + seq![':'] + id;
    lemma_split_no_colon(sp);
    lemma_split_no_colon(w);
    lemma_split_no_colon(id);
    let t1 = w + seq![':'] + id;
    assert(src =~= sp + seq![':'] + t1);
    lemma_split_at_colon(sp, t1);
    lemma_split_at_colon(w, id);
    let ps = split_colon(src);
    assert(ps =~= seq![sp, w, id]);
    assert(parse_item_parts(src, ps, w, 2) == Err::<ItemParse, ErrorView>(
        ErrorView::IdSize(22, src),
    ));
}

/// A page number that does not read as a number fails the whole URI.
pub proof fn lemma_bad_page_fails(d: Seq<char>)
    requires
        no_colon(d),
        parse_dec(d, usize::MAX as int) is None,
    ensures
        parse_uri("spotify"@ + seq![':'] + "meta"@ + seq![':'] + "page"@ + seq![':'] + d) == Err::<
            UriView,
            ErrorView,
        >(ErrorView::Format("spotify"@ + seq![':'] + "meta"@ + seq![':'] + "page"@ + seq![':'] + d)),
{
    lemma_words();
    let sp = "spotify"@;
    let src = sp + seq![':'] + "meta"@ + seq![':'] + "page"@ + seq![':'] + d;
    lemma_split_no_colon(sp);
    lemma_split_no_colon("meta"@);
    lemma_split_no_colon("page"@);
    lemma_split_no_colon(d);
    let t2 = "page"@ + seq![':'] + d;
    let t1 = "meta"@ + seq![':'] + t2;
    assert(src =~= sp + seq![':'] + t1);
    lemma_split_at_colon(sp, t1);
    lemma_split_at_colon("meta"@, t2);
    lemma_split_at_colon("page"@, d);
    let ps = split_colon(src);
    assert(ps =~= seq![sp, "meta"@, "page"@, d]);
}

/// A page followed by more segments degrades to `Unknown`, with the page
/// number written back in its shortest form.
pub proof fn lemma_page_extra_degrades(n: usize, extra: Seq<char>)
    ensures
        parse_uri(
            "spotify"@ + seq![':'] + "meta"@ + seq![':'] + "page"@ + seq![':'] + dec_text(n as nat)
                + seq![':'] + extra,
        ) == Ok::<UriView, ErrorView>(
            UriView::Unknown(
                "meta"@,
                Some("page"@ + seq![':'] + dec_text(n as nat) + seq![':'] + extra),
            ),
        ),
{
    lemma_words();
    let sp = "spotify"@;
    let d = dec_text(n as nat);
    lemma_dec_round_trip(n as nat, usize::MAX as int);
    let src = sp + seq![':'] + "meta"@ + seq![':'] + "page"@ + seq![':'] + d + seq![':'] + extra;
    lemma_split_no_colon(sp);
    lemma_split_no_colon("meta"@);
    lemma_split_no_colon("page"@);
    assert(no_colon(d));
    lemma_split_no_colon(d);
    lemma_split_nonempty(extra);
    let t3 = d + seq![':'] + extra;
    let t2 = "page"@ + seq![':'] + t3;
    let t1 = "meta"@ + seq![':'] + t2;
    assert(src =~= sp + seq![':'] + t1);
    lemma_split_at_colon(sp, t1);
    lemma_split_at_colon("meta"@, t2);
    lemma_split_at_colon("page"@, t3);
    lemma_split_at_colon(d, extra);
    let ps = split_colon(src);
    assert(ps =~= seq![sp, "meta"@, "page"@, d] + split_colon(extra));
    assert(ps.subrange(4, ps.len() as int) =~= split_colon(extra));
    lemma_join_split(extra);
}

/// A local item whose duration is a number above `u32::MAX` fails the whole
/// URI with a format error.
pub proof fn lemma_local_duration_overflow(a: Seq<char>, b: Seq<char>, c: Seq<char>, d: Seq<char>)
    requires
        no_colon(a),
        no_colon(b),
        no_colon(c),
        is_dec_text(d),
        dec_value(d) > u32::MAX,
    ensures
        ({
            let src = "spotify"@ + seq![':'] + "local"@ + seq![':'] + a + seq![':'] + b + seq![':']
                + c + seq![':'] + d;
            parse_uri(src) == Err::<UriView, ErrorView>(ErrorView::Format(src))
        }),
{
    lemma_words();
    let sp = "spotify"@;
    let src = sp + seq![':'] + "local"@ + seq![':'] + a + seq![':'] + b + seq![':'] + c + seq![':']
        + d;
    assert(no_colon(d)) by {
        assert forall|i: int| 0 <= i < d.len() implies #[trigger] d[i] != ':' by {
            assert(crate::number::dec_digit(d[i]) >= 0);
        }
    }
    if d.len() > 0 {
        assert(crate::number::dec_digit(d[0]) >= 0);
    }
    assert(parse_dec(d, u32::MAX as int) is None);
    lemma_split_no_colon(sp);
    lemma_split_no_colon("local"@);
    lemma_split_no_colon(a);
    lemma_split_no_colon(b);
    lemma_split_no_colon(c);
    lemma_split_no_colon(d);
    let t4 = c + seq![':'] + d;
    let t3 = b + seq![':'] + t4;
    let t2 = a + seq![':'] + t3;
    let t1 = "local"@ + seq![':'] + t2;
    assert(src =~= sp + seq![':'] + t1);
    lemma_split_at_colon(sp, t1);
    lemma_split_at_colon("local"@, t2);
    lemma_split_at_colon(a, t3);
    lemma_split_at_colon(b, t4);
    lemma_split_at_colon(c, d);
    let ps = split_colon(src);
    assert(ps =~= seq![sp, "local"@, a, b, c, d]);
}

/// An unknown word with no colon after it has no remainder; each colon
/// after it starts a remainder, empty or not.
pub proof fn lemma_trailing_colons(w: Seq<char>)
    requires
        no_colon(w),
        !is_reserved_word(w),
    ensures
        parse_uri("spotify"@ + seq![':'] + w) == Ok::<UriView, ErrorView>(UriView::Unknown(w, None)),
        parse_uri("spotify"@ + seq![':'] + w + seq![':']) == Ok::<UriView, ErrorView>(
            UriView::Unknown(w, Some(Seq::empty())),
        ),
        parse_uri("spotify"@ + seq![':'] + w + seq![':', ':']) == Ok::<UriView, ErrorView>(
            UriView::Unknown(w, Some(seq![':'])),
        ),
{
    lemma_round_trip_unknown(w, None);
    lemma_round_trip_unknown(w, Some(Seq::empty()));
    lemma_round_trip_unknown(w, Some(seq![':']));
    assert(uri_text(UriView::Unknown(w, None)) =~= "spotify"@ + seq![':'] + w);
    assert(uri_text(UriView::Unknown(w, Some(Seq::empty()))) =~= "spotify"@ + seq![':'] + w
        + seq![':']);
    assert(uri_text(UriView::Unknown(w, Some(seq![':']))) =~= "spotify"@ + seq![':'] + w + seq![
        ':',
        ':',
    ]);
}

impl SpotifyItem {
    /// The URI text of the item: `spotify:type:id`.
    pub fn to_string(&self) -> (r: String)
        ensures
            r@ == uri_text(UriView::Item(*self)),
    {
        let mut s = "spotify".to_owned();
        push_char(&mut s, ':');
        push_item(&mut s, self);
        assert(s@ =~= uri_text(UriView::Item(*self)));
        s
    }
}

impl SpotifyMetaItem {
    /// The URI text of the metadata reference.
    pub fn to_string(&self) -> (r: String)
        ensures
            r@ == uri_text(UriView::Meta(*self)),
    {
        SpotifyUri::Meta(*self).to_string()
    }
}

impl SpotifyLocalItem {
    /// The URI text of the local item, with its text fields encoded.
    pub fn to_string(&self) -> (r: String)
        ensures
            r@ == uri_text(
                UriView::Local(self.artist@, self.album_title@, self.track_title@, self.duration_s),
            ),
    {
        let mut s = "spotify".to_owned();
        push_char(&mut s, ':');
        s.append("local");
        push_char(&mut s, ':');
        s.append(url_encode(self.artist.as_str()).as_str());
        push_char(&mut s, ':');
        s.append(url_encode(self.album_title.as_str()).as_str());
        push_char(&mut s, ':');
        s.append(url_encode(self.track_title.as_str()).as_str());
        push_char(&mut s, ':');
        push_decimal(&mut s, self.duration_s as u64);
        assert(s@ =~= uri_text(
            UriView::Local(self.artist@, self.album_title@, self.track_title@, self.duration_s),
        ));
        s
    }
}

/// A local item whose fields decode and whose duration is a number no
/// larger than `u32::MAX` reads as that local item.
pub proof fn lemma_local_duration_fits(a: Seq<char>, b: Seq<char>, c: Seq<char>, d: Seq<char>)
    requires
        no_colon(a),
        no_colon(b),
        no_colon(c),
        local_text(a) is Some,
        local_text(b) is Some,
        local_text(c) is Some,
        d.len() > 0,
        is_dec_text(d),
        dec_value(d) <= u32::MAX,
    ensures
        parse_uri(
            "spotify"@ + seq![':'] + "local"@ + seq![':'] + a + seq![':'] + b + seq![':'] + c
                + seq![':'] + d,
        ) == Ok::<UriView, ErrorView>(
            UriView::Local(
                local_text(a)->Some_0,
                local_text(b)->Some_0,
                local_text(c)->Some_0,
                dec_value(d) as u32,
            ),
        ),
{
    lemma_words();
    let sp = "spotify"@;
    let src = sp + seq![':'] + "local"@ + seq![':'] + a + seq![':'] + b + seq![':'] + c + seq![':']
        + d;
    assert(no_colon(d)) by {
        assert forall|i: int| 0 <= i < d.len() implies #[trigger] d[i] != ':' by {
            assert(crate::number::dec_digit(d[i]) >= 0);
        }
    }
    assert(crate::number::dec_digit(d[0]) >= 0);
    assert(parse_dec(d, u32::MAX as int) == Some(dec_value(d)));
    lemma_split_no_colon(sp);
    lemma_split_no_colon("local"@);
    lemma_split_no_colon(a);
    lemma_split_no_colon(b);
    lemma_split_no_colon(c);
    lemma_split_no_colon(d);
    let t4 = c + seq![':'] + d;
    let t3 = b + seq![':'] + t4;
    let t2 = a + seq![':'] + t3;
    let t1 = "local"@ + seq![':'] + t2;
    assert(src =~= sp + seq![':'] + t1);
    lemma_split_at_colon(sp, t1);
    lemma_split_at_colon("local"@, t2);
    lemma_split_at_colon(a, t3);
    lemma_split_at_colon(b, t4);
    lemma_split_at_colon(c, d);
    let ps = split_colon(src);
    assert(ps =~= seq![sp, "local"@, a, b, c, d]);
}

} // verus!
