use bippi::musicbrainz::{format_artist_credit, MbArtistCredit};
use bippi::playlist::normalize_playlist_url;
use bippi::query::{
    build_musicbrainz_search_query, build_single_search_query, looks_like_playlist, looks_like_url,
};
use bippi::sanitize::{
    escape_musicbrainz_query, sanitize_filename, split_artist_album, split_artist_song,
};

#[test]
fn test_split_artist_album() {
    assert_eq!(
        split_artist_album("Metallica - Master of Puppets"),
        Some(("Metallica".to_string(), "Master of Puppets".to_string()))
    );
    assert_eq!(
        split_artist_album("Foo Fighters - The Colour and the Shape"),
        Some(("Foo Fighters".to_string(), "The Colour and the Shape".to_string()))
    );
    assert_eq!(split_artist_album("NoDelimiterHere"), None);
    assert_eq!(split_artist_album("- OnlyAlbum"), None);
    assert_eq!(split_artist_album("OnlyArtist -"), None);
}

#[test]
fn test_split_artist_song() {
    assert_eq!(
        split_artist_song("Metallica - Nothing Else Matters"),
        Some(("Metallica".to_string(), "Nothing Else Matters".to_string()))
    );
    assert_eq!(
        split_artist_song("Foo Fighters - Everlong"),
        Some(("Foo Fighters".to_string(), "Everlong".to_string()))
    );
    assert_eq!(split_artist_song("JustASongTitle"), None);
}

#[test]
fn test_looks_like_url() {
    assert!(looks_like_url("https://www.youtube.com/watch?v=123"));
    assert!(looks_like_url("http://example.com"));
    assert!(looks_like_url("ytsearch:something"));
    assert!(looks_like_url("www.youtube.com"));
    assert!(!looks_like_url("just a search query"));
    assert!(!looks_like_url("Metallica - Nothing Else Matters"));
}

#[test]
fn test_looks_like_playlist() {
    assert!(looks_like_playlist("https://www.youtube.com/playlist?list=PLxxx"));
    assert!(looks_like_playlist("https://www.youtube.com/watch?v=123&list=PLyyy"));
    assert!(!looks_like_playlist("https://www.youtube.com/watch?v=123"));
}

#[test]
fn test_sanitize_filename() {
    assert_eq!(sanitize_filename("Normal Title"), "Normal Title");
    assert_eq!(sanitize_filename("Title/With\\Slashes"), "Title_With_Slashes");
    assert_eq!(sanitize_filename("Title:With*Special?Chars"), "Title_With_Special_Chars");
    assert_eq!(sanitize_filename("  Trimmed  "), "Trimmed");
    assert_eq!(sanitize_filename("...dots..."), "dots");
    assert_eq!(sanitize_filename(""), "track");
}

#[test]
fn test_build_single_search_query() {
    let query = build_single_search_query("Metallica - Nothing Else Matters");
    assert!(query.starts_with("ytsearch1:"));
    assert!(query.contains("Metallica"));
    assert!(query.contains("Nothing Else Matters"));
    assert!(query.contains("audio"));
    assert!(query.contains("-\"music video\""));

    let query2 = build_single_search_query("some audio track");
    assert!(!query2.contains("audio audio"));
}

#[test]
fn test_escape_musicbrainz_query() {
    assert_eq!(escape_musicbrainz_query("Normal Text"), "Normal Text");
    assert_eq!(escape_musicbrainz_query("Text \"with\" quotes"), "Text \\\"with\\\" quotes");
}

#[test]
fn test_build_musicbrainz_search_query() {
    let query = build_musicbrainz_search_query("Metallica - Master of Puppets");
    assert!(query.contains("release:\"Master of Puppets\""));
    assert!(query.contains("artist:\"Metallica\""));

    let query2 = build_musicbrainz_search_query("just a query");
    assert_eq!(query2, "just a query");
}

#[test]
fn test_normalize_playlist_url() {
    assert_eq!(
        normalize_playlist_url("https://youtube.com/playlist?list=123", None),
        "https://youtube.com/playlist?list=123"
    );
    assert_eq!(
        normalize_playlist_url("/playlist?list=123", None),
        "https://www.youtube.com/playlist?list=123"
    );
    assert_eq!(
        normalize_playlist_url("playlist?list=123", None),
        "https://www.youtube.com/playlist?list=123"
    );
    assert_eq!(
        normalize_playlist_url("PL123", Some("PL123")),
        "https://www.youtube.com/playlist?list=PL123"
    );
}

#[test]
fn test_format_artist_credit() {
    let credits = vec![
        MbArtistCredit {
            name: Some("Artist One".to_string()),
            joinphrase: Some(" & ".to_string()),
            artist: None,
        },
        MbArtistCredit {
            name: Some("Artist Two".to_string()),
            joinphrase: None,
            artist: None,
        },
    ];
    assert_eq!(format_artist_credit(&credits), "Artist One & Artist Two");

    let empty: Vec<MbArtistCredit> = vec![];
    assert_eq!(format_artist_credit(&empty), "");
}
