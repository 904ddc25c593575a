use spotify_id::{
    SpotifyId, SpotifyIdError, SpotifyItem, SpotifyItemType, SpotifyLocalItem, SpotifyMetaItem,
    SpotifyUri,
};

struct ItemConversionCase {
    id: u128,
    kind: SpotifyItemType,
    uri: &'static str,
    base16: &'static str,
    base62: &'static str,
    raw: &'static [u8],
}

fn item_conv_valid() -> Vec<ItemConversionCase> {
    vec![
        ItemConversionCase {
            id: 238762092608182713602505436543891614649,
            kind: SpotifyItemType::Track,
            uri: "spotify:track:5sWHDYs0csV6RS48xBl0tH",
            base16: "b39fe8081e1f4c54be38e8d6f9f12bb9",
            base62: "5sWHDYs0csV6RS48xBl0tH",
            raw: &[
                179, 159, 232, 8, 30, 31, 76, 84, 190, 56, 232, 214, 249, 241, 43, 185,
            ],
        },
        ItemConversionCase {
            id: 204841891221366092811751085145916697048,
            kind: SpotifyItemType::Track,
            uri: "spotify:track:4GNcXTGWmnZ3ySrqvol3o4",
            base16: "9a1b1cfbc6f244569ae0356c77bbe9d8",
            base62: "4GNcXTGWmnZ3ySrqvol3o4",
            raw: &[
                154, 27, 28, 251, 198, 242, 68, 86, 154, 224, 53, 108, 119, 187, 233, 216,
            ],
        },
        ItemConversionCase {
            id: 204841891221366092811751085145916697048,
            kind: SpotifyItemType::Episode,
            uri: "spotify:episode:4GNcXTGWmnZ3ySrqvol3o4",
            base16: "9a1b1cfbc6f244569ae0356c77bbe9d8",
            base62: "4GNcXTGWmnZ3ySrqvol3o4",
            raw: &[
                154, 27, 28, 251, 198, 242, 68, 86, 154, 224, 53, 108, 119, 187, 233, 216,
            ],
        },
        ItemConversionCase {
            id: 204841891221366092811751085145916697048,
            kind: SpotifyItemType::Show,
            uri: "spotify:show:4GNcXTGWmnZ3ySrqvol3o4",
            base16: "9a1b1cfbc6f244569ae0356c77bbe9d8",
            base62: "4GNcXTGWmnZ3ySrqvol3o4",
            raw: &[
                154, 27, 28, 251, 198, 242, 68, 86, 154, 224, 53, 108, 119, 187, 233, 216,
            ],
        },
        ItemConversionCase {
            id: 204841891221366092811751085145916697048,
            kind: SpotifyItemType::Playlist,
            uri: "spotify:playlist:4GNcXTGWmnZ3ySrqvol3o4",
            base16: "9a1b1cfbc6f244569ae0356c77bbe9d8",
            base62: "4GNcXTGWmnZ3ySrqvol3o4",
            raw: &[
                154, 27, 28, 251, 198, 242, 68, 86, 154, 224, 53, 108, 119, 187, 233, 216,
            ],
        },
        ItemConversionCase {
            id: 204841891221366092811751085145916697048,
            kind: SpotifyItemType::Artist,
            uri: "spotify:artist:4GNcXTGWmnZ3ySrqvol3o4",
            base16: "9a1b1cfbc6f244569ae0356c77bbe9d8",
            base62: "4GNcXTGWmnZ3ySrqvol3o4",
            raw: &[
                154, 27, 28, 251, 198, 242, 68, 86, 154, 224, 53, 108, 119, 187, 233, 216,
            ],
        },
        ItemConversionCase {
            id: 204841891221366092811751085145916697048,
            kind: SpotifyItemType::Album,
            uri: "spotify:album:4GNcXTGWmnZ3ySrqvol3o4",
            base16: "9a1b1cfbc6f244569ae0356c77bbe9d8",
            base62: "4GNcXTGWmnZ3ySrqvol3o4",
            raw: &[
                154, 27, 28, 251, 198, 242, 68, 86, 154, 224, 53, 108, 119, 187, 233, 216,
            ],
        },
    ]
}

#[test]
fn from_base62() {
    for c in &item_conv_valid() {
        assert_eq!(SpotifyId::from_base62(c.base62).unwrap().0, c.id);
    }
}

#[test]
fn into_base62() {
    for c in &item_conv_valid() {
        let item = SpotifyItem {
            id: SpotifyId(c.id),
            item_type: c.kind,
        };

        assert_eq!(item.id.into_base62(), c.base62);
    }
}

#[test]
fn from_base16() {
    for c in &item_conv_valid() {
        assert_eq!(SpotifyId::from_base16(c.base16).unwrap().0, c.id);
    }
}

#[test]
fn into_base16() {
    for c in &item_conv_valid() {
        let item = SpotifyItem {
            id: SpotifyId(c.id),
            item_type: c.kind,
        };

        assert_eq!(item.id.into_base16(), c.base16);
    }
}

#[test]
fn from_uri() {
    for c in &item_conv_valid() {
        let actual = SpotifyUri::try_from(c.uri).unwrap();

        assert_eq!(actual.id().map(|x| x.0), Some(c.id));
        assert_eq!(actual.item_type(), Some(c.kind));
    }
}

#[test]
fn from_uri_id_short() {
    assert!(SpotifyUri::try_from("spotify:album:4GNcXTGWmnZ3ySrqvol3o").is_err())
}

#[test]
fn from_uri_id_long() {
    assert!(SpotifyUri::try_from("spotify:album:4GNcXTGWmnZ3ySrqvol3o45").is_err())
}

#[test]
fn from_uri_id_bad_char() {
    assert!(SpotifyUri::try_from("spotify:album:4GNcXTGWmnZ3ySrqvol3o%").is_err())
}

#[test]
fn from_local_uri() {
    let uri = SpotifyUri::try_from("spotify:local:abc:ghi:xyz:123").unwrap();

    if let SpotifyUri::Local(SpotifyLocalItem {
        artist,
        album_title,
        track_title,
        duration_s,
    }) = uri
    {
        assert_eq!(artist, "abc");
        assert_eq!(album_title, "ghi");
        assert_eq!(track_title, "xyz");
        assert_eq!(duration_s, 123);
    } else {
        panic!("should parse as local URI");
    }
}

#[test]
fn from_local_uri_short() {
    assert!(SpotifyUri::try_from("spotify:local").is_err());
    assert!(SpotifyUri::try_from("spotify:local:artist").is_err());
    assert!(SpotifyUri::try_from("spotify:local:artist:album").is_err());
    assert!(SpotifyUri::try_from("spotify:local:artist:album:track").is_err());
}

#[test]
fn from_local_uri_long() {
    assert_eq!(
        SpotifyUri::try_from("spotify:local:artist:album:track:123:").unwrap(),
        SpotifyUri::Unknown(
            "local".to_string(),
            Some("artist:album:track:123:".to_string())
        )
    );
    assert_eq!(
        SpotifyUri::try_from("spotify:local:artist:album:track:123:a:b:c").unwrap(),
        SpotifyUri::Unknown(
            "local".to_string(),
            Some("artist:album:track:123:a:b:c".to_string())
        )
    )
}

#[test]
fn from_local_uri_bad_duration() {
    assert!(SpotifyUri::try_from("spotify:local:artist:album:track:").is_err());
    assert!(SpotifyUri::try_from("spotify:local:artist:album:track:a").is_err());
    assert!(SpotifyUri::try_from("spotify:local:artist:album:track:1.").is_err());
    assert!(SpotifyUri::try_from(
        "spotify:local:artist:album:track:99999999999999999999999999999999999999999999999"
    )
    .is_err());
}

#[test]
fn from_local_uri_pct() {
    let uri_unnorm = "spotify:local:Artist+Name:Album%3a%20Subtitle:Track#:120";
    let uri_norm = "spotify:local:Artist+Name:Album%3A+Subtitle:Track#:120";
    let local = SpotifyLocalItem {
        artist: "Artist Name".to_string(),
        album_title: "Album: Subtitle".to_string(),
        track_title: "Track#".to_string(),
        duration_s: 120,
    };
    assert_eq!(
        SpotifyUri::try_from(uri_unnorm).unwrap(),
        SpotifyUri::Local(local.clone())
    );
    assert_eq!(SpotifyUri::Local(local).to_string(), uri_norm)
}

#[test]
fn from_user_uri() {
    let actual =
        SpotifyUri::try_from("spotify:user:name:playlist:37i9dQZF1DWSw8liJZcPOI").unwrap();

    assert_eq!(
        actual.id().map(|x| x.0),
        Some(136159921382084734723401526672209703396)
    );
    assert_eq!(actual.item_type(), Some(SpotifyItemType::Playlist));
    assert_eq!(actual.username(), Some("name"));
}

#[test]
fn from_user_uri_short() {
    assert!(SpotifyUri::try_from("spotify:user").is_err());
    assert!(SpotifyUri::try_from("spotify:user:name").is_err());
    assert!(SpotifyUri::try_from("spotify:user:name:track").is_err());
}

#[test]
fn from_user_uri_long() {
    assert_eq!(
        SpotifyUri::try_from("spotify:user:name:track:37i9dQZF1DWSw8liJZcPOI:more").unwrap(),
        SpotifyUri::Unknown(
            "user".to_string(),
            Some("name:track:37i9dQZF1DWSw8liJZcPOI:more".to_string())
        )
    )
}

#[test]
fn from_user_uri_unknown() {
    assert_eq!(
        SpotifyUri::try_from("spotify:user:name:unicorn").unwrap(),
        SpotifyUri::Unknown("user".to_string(), Some("name:unicorn".to_string()),)
    );
    assert_eq!(
        SpotifyUri::try_from("spotify:user:name:unicorn:").unwrap(),
        SpotifyUri::Unknown("user".to_string(), Some("name:unicorn:".to_string()),)
    );
    assert_eq!(
        SpotifyUri::try_from("spotify:user:name:unicorn::").unwrap(),
        SpotifyUri::Unknown("user".to_string(), Some("name:unicorn::".to_string()),)
    )
}

#[test]
fn from_station_uri() {
    let uri = SpotifyUri::try_from("spotify:station:track:37i9dQZF1DWSw8liJZcPOI").unwrap();

    assert_eq!(
        uri,
        SpotifyUri::Station(SpotifyItem {
            item_type: SpotifyItemType::Track,
            id: SpotifyId::from_base62("37i9dQZF1DWSw8liJZcPOI").unwrap()
        })
    )
}

#[test]
fn from_station_uri_short() {
    assert!(SpotifyUri::try_from("spotify:station").is_err());
    assert!(SpotifyUri::try_from("spotify:station:track").is_err());
}

#[test]
fn from_station_uri_long() {
    assert_eq!(
        SpotifyUri::try_from("spotify:station:track:37i9dQZF1DWSw8liJZcPOI:more").unwrap(),
        SpotifyUri::Unknown(
            "station".to_string(),
            Some("track:37i9dQZF1DWSw8liJZcPOI:more".to_string())
        )
    )
}

#[test]
fn from_station_uri_unknown() {
    assert_eq!(
        SpotifyUri::try_from("spotify:station:typ").unwrap(),
        SpotifyUri::Unknown("station".to_string(), Some("typ".to_string()))
    );
    assert_eq!(
        SpotifyUri::try_from("spotify:station:typ:a").unwrap(),
        SpotifyUri::Unknown("station".to_string(), Some("typ:a".to_string()))
    );
    assert_eq!(
        SpotifyUri::try_from("spotify:station:typ:a:b").unwrap(),
        SpotifyUri::Unknown("station".to_string(), Some("typ:a:b".to_string()))
    )
}

#[test]
fn from_meta_uri() {
    let uri = SpotifyUri::try_from("spotify:meta:page:2").unwrap();

    assert_eq!(uri, SpotifyUri::Meta(SpotifyMetaItem::Page(2)))
}

#[test]
fn from_meta_uri_short() {
    assert!(SpotifyUri::try_from("spotify:meta").is_err());
    assert!(SpotifyUri::try_from("spotify:meta:page").is_err());
}

#[test]
fn from_meta_uri_long() {
    assert_eq!(
        SpotifyUri::try_from("spotify:meta:page:2:").unwrap(),
        SpotifyUri::Unknown("meta".to_string(), Some("page:2:".to_string()))
    );
    assert_eq!(
        SpotifyUri::try_from("spotify:meta:page:2:more").unwrap(),
        SpotifyUri::Unknown("meta".to_string(), Some("page:2:more".to_string()))
    );
}

#[test]
fn from_meta_uri_unknown() {
    assert_eq!(
        SpotifyUri::try_from("spotify:meta:idea").unwrap(),
        SpotifyUri::Unknown("meta".to_string(), Some("idea".to_string()))
    );
    assert_eq!(
        SpotifyUri::try_from("spotify:meta:idea:1").unwrap(),
        SpotifyUri::Unknown("meta".to_string(), Some("idea:1".to_string()))
    );
    assert_eq!(
        SpotifyUri::try_from("spotify:meta:idea:1:2").unwrap(),
        SpotifyUri::Unknown("meta".to_string(), Some("idea:1:2".to_string()))
    );
}

#[test]
fn from_meta_uri_bad_page() {
    assert!(SpotifyUri::try_from("spotify:meta:page:").is_err());
    assert!(SpotifyUri::try_from("spotify:meta:page:a").is_err());
    assert!(SpotifyUri::try_from("spotify:meta:page:1.").is_err());
    assert!(SpotifyUri::try_from("spotify:meta:page:99999999999999999999999999999").is_err());
}

#[test]
fn from_unknown() {
    assert_eq!(
        SpotifyUri::try_from("spotify:unicorn").unwrap(),
        SpotifyUri::Unknown("unicorn".to_string(), None)
    );
    assert_eq!(
        SpotifyUri::try_from("spotify:unicorn:").unwrap(),
        SpotifyUri::Unknown("unicorn".to_string(), Some("".to_string()))
    );
    assert_eq!(
        SpotifyUri::try_from("spotify:unicorn::").unwrap(),
        SpotifyUri::Unknown("unicorn".to_string(), Some(":".to_string()))
    );
}

#[test]
fn from_bad_scheme() {
    let url = "http://example.net/";
    assert_eq!(
        SpotifyUri::try_from(url).unwrap_err(),
        SpotifyIdError::InvalidScheme(url.to_string())
    )
}

#[test]
fn from_buf() {
    for c in &item_conv_valid() {
        assert_eq!(SpotifyId::from_buf(c.raw).unwrap().0, c.id);
    }
}

#[test]
fn from_buf_invalid() {
    assert!(SpotifyId::from_buf(&[]).is_err());
    assert!(SpotifyId::from_buf(&[0, 1, 2, 3, 4, 5, 6, 7, 8, 9, 10, 11, 12, 13, 14]).is_err());
    assert!(
        SpotifyId::from_buf(&[0, 1, 2, 3, 4, 5, 6, 7, 8, 9, 10, 11, 12, 13, 14, 15, 16]).is_err()
    );
}

#[test]
fn to_uri() {
    for c in &item_conv_valid() {
        let item = SpotifyItem {
            id: SpotifyId(c.id),
            item_type: c.kind,
        };

        assert_eq!(SpotifyUri::Item(item).to_string(), c.uri);
    }
}

#[test]
fn to_user_uri() {
    assert_eq!(
        SpotifyUri::UserItem(
            "name".to_string(),
            SpotifyItem {
                item_type: SpotifyItemType::Track,
                id: SpotifyId::from_base62("37i9dQZF1DWSw8liJZcPOI").unwrap(),
            }
        )
        .to_string(),
        "spotify:user:name:track:37i9dQZF1DWSw8liJZcPOI".to_string()
    )
}

#[test]
fn to_local_uri() {
    assert_eq!(
        SpotifyUri::Local(SpotifyLocalItem {
            artist: "artist".to_string(),
            album_title: "album".to_string(),
            track_title: "track".to_string(),
            duration_s: 120,
        })
        .to_string(),
        "spotify:local:artist:album:track:120".to_string()
    )
}

#[test]
fn to_meta_uri() {
    assert_eq!(
        SpotifyUri::Meta(SpotifyMetaItem::Page(2)).to_string(),
        "spotify:meta:page:2".to_string()
    )
}

#[test]
fn to_station_uri() {
    assert_eq!(
        SpotifyUri::Station(SpotifyItem {
            item_type: SpotifyItemType::Track,
            id: SpotifyId::from_base62("37i9dQZF1DWSw8liJZcPOI").unwrap(),
        })
        .to_string(),
        "spotify:station:track:37i9dQZF1DWSw8liJZcPOI".to_string()
    )
}

#[test]
fn to_unknown_uri() {
    assert_eq!(
        SpotifyUri::Unknown("unicorn".to_string(), Some("more:::".to_string())).to_string(),
        "spotify:unicorn:more:::".to_string()
    )
}
