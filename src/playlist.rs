//! Picking a playlist address out of a flat search listing.

use vstd::prelude::*;
use crate::musicbrainz::opt_view;
use crate::query::{build_single_search_query, single_search};
use crate::text::{
    chars_of, contains, contains_exec, push_str, starts_with, starts_with_exec, str_eq, string_of,
};

verus! {

/// One entry of a flat search listing, with the fields that tell what it is.
pub struct PlaylistEntry {
    /// The entry's declared type (`_type`).
    pub entry_type: Option<String>,
    /// The extractor that produced the entry (`ie_key`).
    pub ie_key: Option<String>,
    pub url: Option<String>,
    pub playlist_id: Option<String>,
    pub id: Option<String>,
}

pub open spec fn site_origin() -> Seq<char> {
    "https://www.youtube.com"@
}

pub open spec fn playlist_base() -> Seq<char> {
    "https://www.youtube.com/playlist?list="@
}

/// An entry's address made absolute: absolute addresses are kept, site paths get the site's
/// origin, and anything else is taken as a list identifier (the fallback id when given).
pub open spec fn normalized(url: Seq<char>, fallback_id: Option<Seq<char>>) -> Seq<char> {
    if contains(url, "://"@) {
        url
    } else if starts_with(url, "/playlist?"@) || starts_with(url, "/watch?"@) {
        site_origin() + url
    } else if starts_with(url, "playlist?"@) || starts_with(url, "watch?"@) {
        site_origin() + "/"@ + url
    } else {
        match fallback_id {
            Some(id) => playlist_base() + id,
            None => playlist_base() + url,
        }
    }
}

/// The playlist id of an entry, else its id.
pub open spec fn fallback_id_of(e: PlaylistEntry) -> Option<Seq<char>> {
    match e.playlist_id {
        Some(p) => Some(p@),
        None => opt_view(e.id),
    }
}

/// Whether the entry declares itself a playlist, or comes from a channel-tab, playlist or
/// mix extractor.
pub open spec fn is_playlist_kind(e: PlaylistEntry) -> bool {
    opt_view(e.entry_type) == Some("playlist"@) || opt_view(e.ie_key) == Some("YoutubeTab"@)
        || opt_view(e.ie_key) == Some("YoutubePlaylist"@) || opt_view(e.ie_key) == Some(
        "YoutubeMix"@,
    )
}

pub open spec fn is_list_id(id: Seq<char>) -> bool {
    starts_with(id, "PL"@) || starts_with(id, "OL"@) || starts_with(id, "RD"@)
}

/// The playlist address that an entry yields, if any.
pub open spec fn entry_playlist_url(e: PlaylistEntry) -> Option<Seq<char>> {
    let from_url = match e.url {
        Some(u) => if contains(u@, "://"@) && contains(u@, "list="@) {
            Some(u@)
        } else if is_playlist_kind(e) {
            Some(normalized(u@, fallback_id_of(e)))
        } else {
            None
        },
        None => None,
    };
    match from_url {
        Some(x) => Some(x),
        None => match fallback_id_of(e) {
            Some(id) => if is_list_id(id) {
                Some(playlist_base() + id)
            } else {
                None
            },
            None => None,
        },
    }
}

/// The address yielded by the first entry that yields one.
pub open spec fn first_playlist_url(entries: Seq<PlaylistEntry>) -> Option<Seq<char>>
    decreases entries.len(),
{
    if entries.len() == 0 {
        None
    } else {
        match entry_playlist_url(entries[0]) {
            Some(u) => Some(u),
            None => first_playlist_url(entries.drop_first()),
        }
    }
}

/// What the downloader is asked to list when looking for an album's playlist.
pub open spec fn playlist_search(query: Seq<char>) -> Seq<char> {
    "ytsearch10:"@ + query + " album"@
}

/// Makes an entry's address absolute, as `normalized` describes.
pub fn normalize_playlist_url(url: &str, fallback_id: Option<&str>) -> (r: String)
    ensures
        r@ == normalized(
            url@,
            match fallback_id {
                Some(id) => Some(id@),
                None => None,
            },
        ),
{
    let u = chars_of(url);
    if contains_exec(&u, &chars_of("://")) {
        String::from_str(url)
    } else if starts_with_exec(&u, &chars_of("/playlist?")) || starts_with_exec(
        &u,
        &chars_of("/watch?"),
    ) {
        let mut out = chars_of("https://www.youtube.com");
        push_str(&mut out, url);
        string_of(&out)
    } else if starts_with_exec(&u, &chars_of("playlist?")) || starts_with_exec(
        &u,
        &chars_of("watch?"),
    ) {
        let mut out = chars_of("https://www.youtube.com/");
        push_str(&mut out, url);
        proof {
            reveal_strlit("https://www.youtube.com/");
            reveal_strlit("https://www.youtube.com");
            reveal_strlit("/");
            assert("https://www.youtube.com/"@ =~= site_origin() + "/"@);
        }
        string_of(&out)
    } else {
        let mut out = chars_of("https://www.youtube.com/playlist?list=");
        match fallback_id {
            Some(id) => push_str(&mut out, id),
            None => push_str(&mut out, url),
        }
        string_of(&out)
    }
}

fn opt_str_is(o: &Option<String>, lit: &str) -> (r: bool)
    ensures
        r == (opt_view(*o) == Some(lit@)),
{
    match o {
        Some(s) => str_eq(s.as_str(), lit),
        None => false,
    }
}

/// The playlist address that `entry` yields, as `entry_playlist_url` describes.
pub fn playlist_url_from_entry(entry: &PlaylistEntry) -> (r: Option<String>)
    ensures
        match r {
            Some(u) => entry_playlist_url(*entry) == Some(u@),
            None => entry_playlist_url(*entry) is None,
        },
{
    let fallback: Option<&str> = match &entry.playlist_id {
        Some(p) => Some(p.as_str()),
        None => match &entry.id {
            Some(i) => Some(i.as_str()),
            None => None,
        },
    };
    let ghost fb = fallback_id_of(*entry);
    assert(match fallback {
        Some(id) => fb == Some(id@),
        None => fb is None,
    });
    if let Some(url) = &entry.url {
        let u = chars_of(url.as_str());
        if contains_exec(&u, &chars_of("://")) && contains_exec(&u, &chars_of("list=")) {
            return Some(url.clone());
        }
        if opt_str_is(&entry.entry_type, "playlist") || opt_str_is(&entry.ie_key, "YoutubeTab")
            || opt_str_is(&entry.ie_key, "YoutubePlaylist") || opt_str_is(
            &entry.ie_key,
            "YoutubeMix",
        ) {
            return Some(normalize_playlist_url(url.as_str(), fallback));
        }
    }
    if let Some(id) = fallback {
        let v = chars_of(id);
        if starts_with_exec(&v, &chars_of("PL")) || starts_with_exec(&v, &chars_of("OL"))
            || starts_with_exec(&v, &chars_of("RD")) {
            let mut out = chars_of("https://www.youtube.com/playlist?list=");
            push_str(&mut out, id);
            return Some(string_of(&out));
        }
    }
    None
}

/// The address yielded by the first entry of a search listing that yields one.
pub fn find_album_playlist(entries: &Vec<PlaylistEntry>) -> (r: Option<String>)
    ensures
        match r {
            Some(u) => first_playlist_url(entries@) == Some(u@),
            None => first_playlist_url(entries@) is None,
        },
{
    let mut i: usize = 0;
    assert(entries@.subrange(0, entries@.len() as int) =~= entries@);
    while i < entries.len()
        invariant
            i <= entries@.len(),
            first_playlist_url(entries@) == first_playlist_url(
                entries@.subrange(i as int, entries@.len() as int),
            ),
        decreases entries@.len() - i,
    {
        let ghost rest = entries@.subrange(i as int, entries@.len() as int);
        assert(rest[0] == entries@[i as int]);
        assert(rest.drop_first() =~= entries@.subrange(i + 1, entries@.len() as int));
        if let Some(u) = playlist_url_from_entry(&entries[i]) {
            return Some(u);
        }
        i += 1;
    }
    None
}

/// The listing request that looks for an album's playlist.
pub fn playlist_search_term(query: &str) -> (r: String)
    ensures
        r@ == playlist_search(query@),
{
    let mut out = chars_of("ytsearch10:");
    push_str(&mut out, query);
    push_str(&mut out, " album");
    string_of(&out)
}

/// The target for an album query that has no metadata match: the playlist that discovery
/// found, else the single best search result.
pub fn resolve_album_query(query: &str, found: Option<String>) -> (r: String)
    ensures
        match found {
            Some(u) => r@ == u@,
            None => r@ == single_search(query@),
        },
{
    match found {
        Some(u) => u,
        None => build_single_search_query(query),
    }
}

/// An address that is already absolute is kept as it is, whatever the fallback id.
pub proof fn lemma_absolute_url_kept(url: Seq<char>, fallback_id: Option<Seq<char>>)
    requires
        contains(url, "://"@),
    ensures
        normalized(url, fallback_id) == url,
{
}

} // verus!
