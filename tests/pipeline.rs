use bippi::aliases::{handle_alias, AliasCommand, AliasEntry, AliasTable};
use bippi::error::AppError;
use bippi::jobs::{build_metadata_args, downloader_args, track_output_template, track_search_query, DownloadJob};
use bippi::musicbrainz::{
    convert_release_detail, first_release_id, format_artist_credit, release_detail_url,
    release_search_url, MbArtist, MbArtistCredit, MbMedium, MbRecording, MbReleaseDetail,
    MbReleaseSearchEntry, MbReleaseSearchResponse, MbTrack, MusicBrainzAlbum, MusicBrainzTrack,
};
use bippi::playlist::{
    find_album_playlist, normalize_playlist_url, playlist_search_term, playlist_url_from_entry,
    resolve_album_query, PlaylistEntry,
};
use bippi::query::{build_musicbrainz_search_query, build_single_search_query, looks_like_url, should_apply_album_metadata};
use bippi::resolve::{
    handle_download, next_after_job, DownloadAction, DownloadEvent, DownloadMode, DownloadRequest,
    RunStep,
};
use bippi::sanitize::{quote_metadata_value, sanitize_filename, split_artist_album};

fn s(v: &str) -> String {
    v.to_string()
}

fn track(title: Option<&str>, number: Option<&str>, position: Option<u32>) -> MbTrack {
    MbTrack { position, number: number.map(s), title: title.map(s), recording: None }
}

fn entry(kind: Option<&str>, ie: Option<&str>, url: Option<&str>, pid: Option<&str>, id: Option<&str>) -> PlaylistEntry {
    PlaylistEntry {
        entry_type: kind.map(s),
        ie_key: ie.map(s),
        url: url.map(s),
        playlist_id: pid.map(s),
        id: id.map(s),
    }
}

fn request(target: &str, mode: DownloadMode) -> DownloadRequest {
    DownloadRequest { target: s(target), destination: s("/music"), format: s("mp3"), mode }
}

fn only_job(action: DownloadAction) -> DownloadJob {
    match action {
        DownloadAction::Run(mut jobs) => {
            assert_eq!(jobs.len(), 1);
            jobs.remove(0)
        }
        _ => panic!("expected a run"),
    }
}

#[test]
fn sanitize_examples_and_idempotence() {
    assert_eq!(sanitize_filename("Title:With*Special?Chars"), "Title_With_Special_Chars");
    assert_eq!(sanitize_filename("...dots..."), "dots");
    assert_eq!(sanitize_filename(""), "track");
    assert_eq!(sanitize_filename("a\u{7}b<c>|d\"e"), "a_b_c__d_e");
    assert_eq!(sanitize_filename(" . x . "), "x");
    assert_eq!(sanitize_filename(". . ."), "track");
    for input in ["  a/b  ", ". x .", "...", "ok name", "\u{85}tab\t", "x:y"] {
        let once = sanitize_filename(input);
        assert_eq!(sanitize_filename(&once), once);
        assert!(!once.is_empty());
        assert!(!once.chars().any(|c| "/\\?*\"<>|:".contains(c) || c.is_control()));
    }
}

#[test]
fn quote_metadata_value_escapes_backslash_then_quote() {
    assert_eq!(quote_metadata_value("plain"), "\"plain\"");
    assert_eq!(quote_metadata_value("a\\b\"c"), "\"a\\\\b\\\"c\"");
}

#[test]
fn split_falls_back_to_dashes() {
    assert_eq!(
        split_artist_album("Artist \u{2013} Album"),
        Some((s("Artist"), s("Album")))
    );
    assert_eq!(split_artist_album("- A \u{2013} B"), Some((s("- A"), s("B"))));
    assert_eq!(split_artist_album("A \u{2014} B"), Some((s("A"), s("B"))));
    assert_eq!(split_artist_album("A - B - C"), Some((s("A"), s("B - C"))));
    assert_eq!(split_artist_album("-"), None);
}

#[test]
fn looks_like_url_trims_and_ignores_case() {
    assert!(looks_like_url("  HTTPS://Example.com "));
    assert!(looks_like_url("WWW.example.com"));
    assert!(looks_like_url("ytsearch5:x"));
    assert!(looks_like_url("ftp://host"));
    assert!(!looks_like_url("radio edit"));
}

#[test]
fn album_metadata_only_for_playlists_in_playlist_mode() {
    assert!(should_apply_album_metadata(true, "https://x/playlist?LIST=1"));
    assert!(!should_apply_album_metadata(false, "https://x/playlist?list=1"));
    assert!(!should_apply_album_metadata(true, "ytsearch1:x"));
}

#[test]
fn single_search_exact_values() {
    assert_eq!(
        build_single_search_query("Metallica - Nothing Else Matters"),
        "ytsearch1:Metallica Nothing Else Matters audio -\"music video\""
    );
    assert_eq!(
        build_single_search_query("  some AUDIO track "),
        "ytsearch1:some AUDIO track -\"music video\""
    );
    assert_eq!(build_single_search_query(""), "ytsearch1:audio -\"music video\"");
    let q = build_single_search_query("some audio track");
    assert!(q.starts_with("ytsearch1:"));
    assert!(q.ends_with("-\"music video\""));
    assert!(!q.contains("audio audio"));
}

#[test]
fn metadata_query_exact_values() {
    assert_eq!(
        build_musicbrainz_search_query("Metallica - Master of Puppets"),
        "release:\"Master of Puppets\" AND artist:\"Metallica\""
    );
    assert_eq!(
        build_musicbrainz_search_query("A\"B - C"),
        "release:\"C\" AND artist:\"A\\\"B\""
    );
    assert_eq!(build_musicbrainz_search_query("just a query"), "just a query");
}

#[test]
fn service_addresses() {
    assert_eq!(
        release_search_url("Metallica - Master of Puppets"),
        "https://musicbrainz.org/ws/2/release/?query=release%3A%22Master%20of%20Puppets%22%20AND%20artist%3A%22Metallica%22&fmt=json&limit=1"
    );
    assert_eq!(
        release_search_url("caf\u{e9}~x"),
        "https://musicbrainz.org/ws/2/release/?query=caf%C3%A9~x&fmt=json&limit=1"
    );
    assert_eq!(
        release_detail_url("abc-123"),
        "https://musicbrainz.org/ws/2/release/abc-123?inc=recordings+artist-credits&fmt=json"
    );
    let none = MbReleaseSearchResponse { releases: vec![] };
    assert_eq!(first_release_id(&none), None);
    let two = MbReleaseSearchResponse {
        releases: vec![MbReleaseSearchEntry { id: s("first") }, MbReleaseSearchEntry { id: s("second") }],
    };
    assert_eq!(first_release_id(&two), Some(s("first")));
}

#[test]
fn playlist_entries() {
    assert_eq!(
        playlist_url_from_entry(&entry(None, None, Some("https://x/watch?v=1&list=L"), None, None)),
        Some(s("https://x/watch?v=1&list=L"))
    );
    assert_eq!(
        playlist_url_from_entry(&entry(Some("playlist"), None, Some("/playlist?list=1"), None, None)),
        Some(s("https://www.youtube.com/playlist?list=1"))
    );
    assert_eq!(
        playlist_url_from_entry(&entry(None, Some("YoutubeTab"), Some("xyz"), Some("OLfoo"), Some("other"))),
        Some(s("https://www.youtube.com/playlist?list=OLfoo"))
    );
    assert_eq!(
        playlist_url_from_entry(&entry(None, Some("YoutubeMix"), Some("watch?v=1"), None, None)),
        Some(s("https://www.youtube.com/watch?v=1"))
    );
    assert_eq!(
        playlist_url_from_entry(&entry(None, None, None, None, Some("PL123"))),
        Some(s("https://www.youtube.com/playlist?list=PL123"))
    );
    assert_eq!(
        playlist_url_from_entry(&entry(Some("url"), None, Some("https://x/watch?v=1"), None, Some("abc"))),
        None
    );
    assert_eq!(normalize_playlist_url("odd", None), "https://www.youtube.com/playlist?list=odd");
    assert_eq!(normalize_playlist_url("/watch?v=9", Some("PL1")), "https://www.youtube.com/watch?v=9");
}

#[test]
fn discovery_takes_the_first_usable_entry() {
    let entries = vec![
        entry(Some("url"), None, Some("https://x/watch?v=1"), None, Some("v1")),
        entry(None, None, None, None, Some("RDmix")),
        entry(None, None, None, None, Some("PL2")),
    ];
    assert_eq!(find_album_playlist(&entries), Some(s("https://www.youtube.com/playlist?list=RDmix")));
    assert_eq!(find_album_playlist(&vec![]), None);
    assert_eq!(playlist_search_term("Album X"), "ytsearch10:Album X album");
    assert_eq!(resolve_album_query("q", Some(s("https://p"))), "https://p");
    assert_eq!(resolve_album_query("q", None), "ytsearch1:q audio -\"music video\"");
}

#[test]
fn artist_credit_falls_back_to_nested_names() {
    let credits = vec![
        MbArtistCredit { name: None, joinphrase: None, artist: Some(MbArtist { name: Some(s("A")) }) },
        MbArtistCredit { name: None, joinphrase: Some(s(" feat. ")), artist: Some(MbArtist { name: Some(s("B")) }) },
    ];
    assert_eq!(format_artist_credit(&credits), "AB feat. ");
    let nameless = vec![
        MbArtistCredit { name: Some(s("")), joinphrase: None, artist: Some(MbArtist { name: Some(s("X")) }) },
        MbArtistCredit { name: None, joinphrase: None, artist: Some(MbArtist { name: None }) },
        MbArtistCredit { name: Some(s("")), joinphrase: None, artist: Some(MbArtist { name: Some(s("Y")) }) },
    ];
    assert_eq!(format_artist_credit(&nameless), "X & Y");
}

fn two_disc_detail() -> MbReleaseDetail {
    MbReleaseDetail {
        title: Some(s("Album")),
        date: Some(s("1986-03-03")),
        artist_credit: vec![MbArtistCredit { name: Some(s("Band")), joinphrase: None, artist: None }],
        media: vec![
            MbMedium { position: None, tracks: vec![track(Some("One"), None, Some(1)), track(None, Some("+7"), None)] },
            MbMedium { position: Some(9), tracks: vec![] },
            MbMedium {
                position: None,
                tracks: vec![
                    MbTrack { position: None, number: Some(s("x")), title: None, recording: Some(MbRecording { title: Some(s("Rec")) }) },
                ],
            },
        ],
    }
}

#[test]
fn conversion_numbers_tracks_across_discs() {
    let album = match convert_release_detail(two_disc_detail()) {
        Ok(a) => a,
        Err(_) => panic!("expected an album"),
    };
    assert_eq!(album.title, "Album");
    assert_eq!(album.artist, "Band");
    assert_eq!(album.release_date, Some(s("1986-03-03")));
    assert_eq!(album.total_discs, 2);
    let got: Vec<(String, u32, u32, usize)> = album
        .tracks
        .iter()
        .map(|t| (t.title.clone(), t.disc, t.position, t.overall_index))
        .collect();
    assert_eq!(
        got,
        vec![
            (s("One"), 1, 1, 1),
            (s("Track 2"), 1, 7, 2),
            (s("Rec"), 3, 1, 3),
        ]
    );
}

#[test]
fn conversion_defaults_and_empty_release() {
    let detail = MbReleaseDetail {
        title: None,
        date: None,
        artist_credit: vec![],
        media: vec![MbMedium { position: Some(1), tracks: vec![track(None, None, None)] }],
    };
    let album = match convert_release_detail(detail) {
        Ok(a) => a,
        Err(_) => panic!("expected an album"),
    };
    assert_eq!(album.title, "Unknown Release");
    assert_eq!(album.artist, "Unknown Artist");
    assert_eq!(album.total_discs, 1);
    assert_eq!(album.tracks[0].title, "Track 1");

    let empty = MbReleaseDetail {
        title: Some(s("Nothing")),
        date: None,
        artist_credit: vec![],
        media: vec![MbMedium { position: Some(1), tracks: vec![] }],
    };
    match convert_release_detail(empty) {
        Err(AppError::Message(m)) => assert_eq!(m, "MusicBrainz release does not contain any tracks"),
        _ => panic!("an album without tracks must fail"),
    }
}

fn small_album(total_discs: u32, date: Option<&str>) -> MusicBrainzAlbum {
    MusicBrainzAlbum {
        title: s("Master \"of\" Puppets"),
        artist: s("Metallica"),
        release_date: date.map(s),
        total_discs,
        tracks: vec![
            MusicBrainzTrack { title: s("Battery"), disc: 1, position: 1, overall_index: 1 },
            MusicBrainzTrack { title: s("A/B"), disc: 2, position: 3, overall_index: 2 },
        ],
    }
}

#[test]
fn track_paths_and_tags() {
    let album = small_album(1, None);
    assert_eq!(
        track_output_template("/music", &album.tracks[1], 1),
        "/music/02 - A_B.%(ext)s"
    );
    assert_eq!(
        track_output_template("/music/", &album.tracks[1], 2),
        "/music/02-03 - A_B.%(ext)s"
    );
    assert_eq!(
        build_metadata_args(&album, &album.tracks[0], 2),
        "ffmpeg:-metadata artist=\"Metallica\" -metadata album=\"Master \\\"of\\\" Puppets\" -metadata album_artist=\"Metallica\" -metadata title=\"Battery\" -metadata track=\"01/2\""
    );
    let multi = small_album(2, Some("1986"));
    assert_eq!(
        build_metadata_args(&multi, &multi.tracks[1], 12),
        "ffmpeg:-metadata artist=\"Metallica\" -metadata album=\"Master \\\"of\\\" Puppets\" -metadata album_artist=\"Metallica\" -metadata title=\"A/B\" -metadata track=\"02/12\" -metadata disc=\"2\" -metadata date=\"1986\""
    );
    assert_eq!(
        track_search_query(&album, &album.tracks[0]),
        "ytsearch1:Metallica Battery Master \"of\" Puppets audio -\"music video\""
    );
}

#[test]
fn downloader_argument_order() {
    let job = DownloadJob {
        target: s("https://x/playlist?list=1"),
        output_template: s("/m/%(title)s.%(ext)s"),
        is_playlist: true,
        tag_from_playlist: true,
        postprocessor_args: Some(s("ffmpeg:-metadata a=\"b\"")),
        format: s("flac"),
    };
    assert_eq!(
        downloader_args(&job),
        vec![
            "--ignore-errors", "--continue", "-x", "--audio-format", "flac", "--output",
            "/m/%(title)s.%(ext)s", "--embed-metadata", "--yes-playlist", "--parse-metadata",
            "%(playlist_title|)s:%(meta_album)s", "--parse-metadata",
            "%(playlist_index)02d:%(meta_track_number)s", "--postprocessor-args",
            "ffmpeg:-metadata a=\"b\"", "https://x/playlist?list=1",
        ]
    );
}

#[test]
fn alias_album_flag_overrides_single_mode() {
    let mut table = AliasTable::new();
    table.insert(s("focus"), AliasEntry { url: s("https://example/list?list=X"), album: true });
    let job = only_job(handle_download(&request(" focus ", DownloadMode::Single), &table, DownloadEvent::Start));
    assert_eq!(job.target, "https://example/list?list=X");
    assert!(job.is_playlist);
    assert!(job.tag_from_playlist);
    assert_eq!(job.output_template, "/music/%(title)s.%(ext)s");
    let args = downloader_args(&job);
    assert!(args.contains(&s("--yes-playlist")));
    assert!(args.contains(&s("--parse-metadata")));
}

#[test]
fn download_steps() {
    let table = AliasTable::new();
    match handle_download(&request("  Band - Album ", DownloadMode::Album), &table, DownloadEvent::Start) {
        DownloadAction::LookupMetadata(q) => assert_eq!(q, "Band - Album"),
        _ => panic!("expected a metadata lookup"),
    }
    match handle_download(&request("Band - Album", DownloadMode::Album), &table, DownloadEvent::MetadataNotFound) {
        DownloadAction::DiscoverPlaylist(t) => assert_eq!(t, "ytsearch10:Band - Album album"),
        _ => panic!("expected playlist discovery"),
    }
    let job = only_job(handle_download(&request("Band - Song", DownloadMode::Single), &table, DownloadEvent::Start));
    assert_eq!(job.target, "ytsearch1:Band Song audio -\"music video\"");
    assert!(!job.is_playlist && !job.tag_from_playlist);
    let job = only_job(handle_download(&request("https://x/watch?v=1", DownloadMode::Album), &table, DownloadEvent::Start));
    assert_eq!(job.target, "https://x/watch?v=1");
    assert!(job.is_playlist && !job.tag_from_playlist);
    let job = only_job(handle_download(
        &request("q", DownloadMode::Album),
        &table,
        DownloadEvent::PlaylistFound(s("https://www.youtube.com/playlist?list=PL1")),
    ));
    assert!(job.is_playlist && job.tag_from_playlist);
    let job = only_job(handle_download(&request("q", DownloadMode::Album), &table, DownloadEvent::PlaylistNotFound));
    assert_eq!(job.target, "ytsearch1:q audio -\"music video\"");
    assert!(job.is_playlist && !job.tag_from_playlist);
    match handle_download(&request("q", DownloadMode::Album), &table, DownloadEvent::MetadataFound(small_album(1, None))) {
        DownloadAction::Run(jobs) => {
            assert_eq!(jobs.len(), 2);
            assert_eq!(jobs[0].output_template, "/music/01 - Battery.%(ext)s");
            assert_eq!(jobs[1].output_template, "/music/02 - A_B.%(ext)s");
            assert!(!jobs[0].is_playlist);
            assert_eq!(jobs[1].target, "ytsearch1:Metallica A/B Master \"of\" Puppets audio -\"music video\"");
            assert!(jobs[1].postprocessor_args.as_deref().unwrap().contains("track=\"02/2\""));
        }
        _ => panic!("expected track jobs"),
    }
}

#[test]
fn alias_commands() {
    let mut table = AliasTable::new();
    let out = handle_alias(AliasCommand::List, &mut table).ok().unwrap();
    assert!(!out.changed);
    assert_eq!(out.lines, vec![s("no aliases defined yet")]);
    let out = handle_alias(AliasCommand::Add { name: s("a"), url: s("u1"), album: false }, &mut table).ok().unwrap();
    assert!(out.changed);
    assert_eq!(out.lines, vec![s("created alias 'a'")]);
    let out = handle_alias(AliasCommand::Add { name: s("a"), url: s("u2"), album: true }, &mut table).ok().unwrap();
    assert_eq!(out.lines, vec![s("updated alias 'a'")]);
    handle_alias(AliasCommand::Add { name: s("b"), url: s("u3"), album: false }, &mut table).ok().unwrap();
    let out = handle_alias(AliasCommand::List, &mut table).ok().unwrap();
    assert_eq!(out.lines, vec![s("a -> u2 (album)"), s("b -> u3")]);
    assert_eq!(table.get("a").unwrap().url, "u2");
    let out = handle_alias(AliasCommand::Remove { name: s("a") }, &mut table).ok().unwrap();
    assert_eq!(out.lines, vec![s("removed alias 'a'")]);
    assert!(table.get("a").is_none());
    match handle_alias(AliasCommand::Remove { name: s("a") }, &mut table) {
        Err(AppError::Message(m)) => assert_eq!(m, "alias 'a' not found"),
        _ => panic!("removing a missing alias must fail"),
    }
    assert_eq!(table.len(), 1);
}

#[test]
fn run_stops_at_the_first_failed_job() {
    assert!(matches!(next_after_job(3, 0, true), RunStep::Job(1)));
    assert!(matches!(next_after_job(3, 1, false), RunStep::Abort));
    assert!(matches!(next_after_job(3, 2, true), RunStep::Done));
    assert!(matches!(next_after_job(1, 0, true), RunStep::Done));
    assert!(matches!(next_after_job(1, 0, false), RunStep::Abort));
}

#[test]
fn aliases_list_in_name_order() {
    let mut table = AliasTable::new();
    for (name, url) in [("zeta", "u1"), ("alpha", "u2"), ("Mid", "u3"), ("alph", "u4")] {
        handle_alias(AliasCommand::Add { name: s(name), url: s(url), album: false }, &mut table).ok().unwrap();
    }
    let out = handle_alias(AliasCommand::List, &mut table).ok().unwrap();
    assert_eq!(out.lines, vec![s("Mid -> u3"), s("alph -> u4"), s("alpha -> u2"), s("zeta -> u1")]);
    handle_alias(AliasCommand::Remove { name: s("alph") }, &mut table).ok().unwrap();
    let out = handle_alias(AliasCommand::List, &mut table).ok().unwrap();
    assert_eq!(out.lines, vec![s("Mid -> u3"), s("alpha -> u2"), s("zeta -> u1")]);
}

#[test]
fn track_numbers_parse_like_u32() {
    let detail = MbReleaseDetail {
        title: None,
        date: None,
        artist_credit: vec![],
        media: vec![MbMedium {
            position: None,
            tracks: vec![
                track(Some("a"), Some("4294967295"), None),
                track(Some("b"), Some("4294967296"), None),
                track(Some("c"), Some("+"), None),
                track(Some("d"), Some("-3"), None),
                track(Some("e"), Some("007"), None),
                track(Some("f"), Some(""), None),
            ],
        }],
    };
    let album = match convert_release_detail(detail) {
        Ok(a) => a,
        Err(_) => panic!("expected an album"),
    };
    let positions: Vec<u32> = album.tracks.iter().map(|t| t.position).collect();
    assert_eq!(positions, vec![4294967295, 2, 3, 4, 7, 6]);
}
