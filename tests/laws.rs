use spotify_id::{
    FileId, SpotifyId, SpotifyIdError, SpotifyItem, SpotifyItemType, SpotifyLocalItem,
    SpotifyMetaItem, SpotifyUri,
};

fn all_types() -> Vec<SpotifyItemType> {
    vec![
        SpotifyItemType::Album,
        SpotifyItemType::Artist,
        SpotifyItemType::Episode,
        SpotifyItemType::Playlist,
        SpotifyItemType::Show,
        SpotifyItemType::Track,
    ]
}

#[test]
fn base62_round_trip_values() {
    for v in [0u128, 1, 61, 62, 1337, u64::MAX as u128, u128::MAX - 1, u128::MAX] {
        let s = SpotifyId(v).into_base62();
        assert_eq!(s.len(), 22);
        assert_eq!(SpotifyId::from_base62(&s).unwrap().0, v);
    }
}

#[test]
fn base62_is_zero_padded() {
    assert_eq!(SpotifyId(0).into_base62(), "0000000000000000000000");
    assert_eq!(SpotifyId(1337).into_base62(), "00000000000000000000lz");
    assert_eq!(SpotifyId(u128::MAX).into_base62(), "7N42dgm5tFLK9N8MT7fHC7");
}

#[test]
fn base16_round_trip_values() {
    for v in [0u128, 1, 255, 256, u64::MAX as u128, u128::MAX] {
        let s = SpotifyId(v).into_base16();
        assert_eq!(s.len(), 32);
        assert_eq!(SpotifyId::from_base16(&s).unwrap().0, v);
    }
    assert_eq!(SpotifyId(1).into_base16(), "00000000000000000000000000000001");
}

#[test]
fn base16_errors() {
    assert_eq!(
        SpotifyId::from_base16("abc").unwrap_err(),
        SpotifyIdError::InvalidIdSize(32, "abc".to_string())
    );
    let upper = "B39FE8081E1F4C54BE38E8D6F9F12BB9";
    assert!(matches!(
        SpotifyId::from_base16(upper),
        Err(SpotifyIdError::InvalidFormat(_, s)) if s == upper
    ));
}

#[test]
fn base62_length_boundaries() {
    let short = "4GNcXTGWmnZ3ySrqvol3o";
    let long = "4GNcXTGWmnZ3ySrqvol3o45";
    assert_eq!(
        SpotifyId::from_base62(short).unwrap_err(),
        SpotifyIdError::InvalidIdSize(22, short.to_string())
    );
    assert_eq!(
        SpotifyId::from_base62(long).unwrap_err(),
        SpotifyIdError::InvalidIdSize(22, long.to_string())
    );
    let bad = "4GNcXTGWmnZ3ySrqvol3o%";
    assert!(matches!(
        SpotifyId::from_base62(bad),
        Err(SpotifyIdError::InvalidFormat(_, s)) if s == bad
    ));
}

#[test]
fn base62_overflow_is_format_error() {
    let too_big = "zzzzzzzzzzzzzzzzzzzzzz";
    assert!(matches!(
        SpotifyId::from_base62(too_big),
        Err(SpotifyIdError::InvalidFormat(_, _))
    ));
}

#[test]
fn buf_round_trip() {
    let id = SpotifyId(0x0102030405060708090a0b0c0d0e0f10);
    let buf = id.into_buf();
    assert_eq!(buf, [1, 2, 3, 4, 5, 6, 7, 8, 9, 10, 11, 12, 13, 14, 15, 16]);
    assert_eq!(SpotifyId::from_buf(&buf).unwrap(), id);
    assert_eq!(
        SpotifyId::from_buf(&[1, 2]).unwrap_err(),
        SpotifyIdError::InvalidIdBytes(vec![1, 2])
    );
}

#[test]
fn file_id_hex() {
    let bytes: Vec<u8> = (0u8..20).collect();
    let f = FileId::from_raw(&bytes).unwrap();
    assert_eq!(f.into_base16(), "000102030405060708090a0b0c0d0e0f10111213");
    assert_eq!(
        FileId::from_raw(&bytes[..19]).unwrap_err(),
        SpotifyIdError::InvalidIdBytes(bytes[..19].to_vec())
    );
}

#[test]
fn item_type_words() {
    for t in all_types() {
        assert_eq!(SpotifyItemType::try_from(t.as_str()), Ok(t));
    }
    assert_eq!(SpotifyItemType::try_from("Album"), Err("Album".to_string()));
    assert_eq!(SpotifyItemType::try_from("unicorn"), Err("unicorn".to_string()));
}

#[test]
fn uri_round_trip_values() {
    let id = SpotifyId::from_base62("37i9dQZF1DWSw8liJZcPOI").unwrap();
    let mut uris = vec![
        SpotifyUri::Meta(SpotifyMetaItem::Page(0)),
        SpotifyUri::Meta(SpotifyMetaItem::Page(usize::MAX)),
        SpotifyUri::Unknown("unicorn".to_string(), None),
        SpotifyUri::Unknown("unicorn".to_string(), Some("".to_string())),
        SpotifyUri::Unknown("unicorn".to_string(), Some("a::b".to_string())),
        SpotifyUri::Local(SpotifyLocalItem {
            artist: "A + B: 100%".to_string(),
            album_title: "Ärger".to_string(),
            track_title: "".to_string(),
            duration_s: u32::MAX,
        }),
    ];
    for t in all_types() {
        let item = SpotifyItem::new(t, id);
        uris.push(SpotifyUri::Item(item));
        uris.push(SpotifyUri::UserItem("name".to_string(), item));
        uris.push(SpotifyUri::Station(item));
    }
    for u in uris {
        assert_eq!(SpotifyUri::try_from(&u.to_string()).unwrap(), u);
    }
}

#[test]
fn local_text_is_normalized() {
    let local = SpotifyUri::Local(SpotifyLocalItem {
        artist: "A + B: 100%".to_string(),
        album_title: "x".to_string(),
        track_title: "y".to_string(),
        duration_s: 7,
    });
    assert_eq!(local.to_string(), "spotify:local:A+%2B+B%3A+100%25:x:y:7");
}

#[test]
fn local_bad_utf8_fails() {
    let r = SpotifyUri::try_from("spotify:local:%FF:b:c:1");
    assert!(matches!(r, Err(SpotifyIdError::InvalidFormat(_, s)) if s == "spotify:local:%FF:b:c:1"));
}

#[test]
fn scheme_rejection() {
    assert_eq!(
        SpotifyUri::try_from("spotifyx:track").unwrap_err(),
        SpotifyIdError::InvalidScheme("spotifyx:track".to_string())
    );
    assert_eq!(
        SpotifyUri::try_from("").unwrap_err(),
        SpotifyIdError::InvalidScheme("".to_string())
    );
}

#[test]
fn degrade_versus_hard_fail() {
    assert_eq!(
        SpotifyUri::try_from("spotify:album:4GNcXTGWmnZ3ySrqvol3o4:extra").unwrap(),
        SpotifyUri::Unknown("album".to_string(), Some("4GNcXTGWmnZ3ySrqvol3o4:extra".to_string()))
    );
    assert_eq!(
        SpotifyUri::try_from("spotify:album:4GNcXTGWmnZ3ySrqvol3o").unwrap_err(),
        SpotifyIdError::InvalidIdSize(22, "spotify:album:4GNcXTGWmnZ3ySrqvol3o".to_string())
    );
    let bad_char = "spotify:album:4GNcXTGWmnZ3ySrqvol3o%";
    assert!(matches!(
        SpotifyUri::try_from(bad_char),
        Err(SpotifyIdError::InvalidFormat(_, s)) if s == bad_char
    ));
    assert!(matches!(
        SpotifyUri::try_from("spotify:meta:page:"),
        Err(SpotifyIdError::InvalidFormat(_, _))
    ));
    assert_eq!(
        SpotifyUri::try_from("spotify:meta:page:2:more").unwrap(),
        SpotifyUri::Unknown("meta".to_string(), Some("page:2:more".to_string()))
    );
    assert_eq!(
        SpotifyUri::try_from("spotify:meta:page:+02:x").unwrap(),
        SpotifyUri::Unknown("meta".to_string(), Some("page:2:x".to_string()))
    );
}

#[test]
fn missing_part_reason() {
    assert_eq!(
        SpotifyUri::try_from("spotify").unwrap_err(),
        SpotifyIdError::InvalidFormat("missing part".to_string(), "spotify".to_string())
    );
}

#[test]
fn local_duration_overflow() {
    let src = "spotify:local:a:b:c:4294967296";
    assert!(matches!(
        SpotifyUri::try_from(src),
        Err(SpotifyIdError::InvalidFormat(_, s)) if s == src
    ));
    let max = SpotifyUri::try_from("spotify:local:a:b:c:4294967295").unwrap();
    assert!(matches!(max, SpotifyUri::Local(l) if l.duration_s() == u32::MAX));
}

#[test]
fn playability() {
    let id = SpotifyId(7);
    for t in all_types() {
        let item = SpotifyItem::new(t, id);
        let expected = t == SpotifyItemType::Track || t == SpotifyItemType::Episode;
        assert_eq!(item.is_playable(), expected);
        assert_eq!(SpotifyUri::Item(item).is_playable(), expected);
        assert_eq!(SpotifyUri::UserItem("u".to_string(), item).is_playable(), expected);
        assert_eq!(SpotifyUri::Station(item).is_playable(), expected);
    }
    assert!(!SpotifyUri::Meta(SpotifyMetaItem::Page(1)).is_playable());
}

#[test]
fn trailing_colon_distinction() {
    assert_eq!(
        SpotifyUri::try_from("spotify:unicorn").unwrap(),
        SpotifyUri::Unknown("unicorn".to_string(), None)
    );
    assert_eq!(
        SpotifyUri::try_from("spotify:unicorn:").unwrap(),
        SpotifyUri::Unknown("unicorn".to_string(), Some("".to_string()))
    );
    assert_eq!(
        SpotifyUri::try_from("spotify:unicorn::").unwrap(),
        SpotifyUri::Unknown("unicorn".to_string(), Some(":".to_string()))
    );
}

#[test]
fn accessors() {
    let id = SpotifyId(42);
    let u = SpotifyUri::track(id);
    assert_eq!(u.item(), Some(&SpotifyItem::new(SpotifyItemType::Track, id)));
    assert_eq!(u.username(), None);
    assert_eq!(SpotifyUri::album(id).item_type(), Some(SpotifyItemType::Album));
    assert_eq!(SpotifyUri::artist(id).item_type(), Some(SpotifyItemType::Artist));
    assert_eq!(SpotifyUri::episode(id).item_type(), Some(SpotifyItemType::Episode));
    assert_eq!(SpotifyUri::playlist(id).item_type(), Some(SpotifyItemType::Playlist));
    assert_eq!(SpotifyUri::show(id).item_type(), Some(SpotifyItemType::Show));
    let station = SpotifyUri::Station(SpotifyItem::new(SpotifyItemType::Track, id));
    assert_eq!(station.item(), None);
    assert_eq!(station.id(), None);
    let local = SpotifyLocalItem {
        artist: "a".to_string(),
        album_title: "b".to_string(),
        track_title: "c".to_string(),
        duration_s: 3,
    };
    assert_eq!(
        (local.artist(), local.album_title(), local.track_title(), local.duration_s()),
        ("a", "b", "c", 3)
    );
}
