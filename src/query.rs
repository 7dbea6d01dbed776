//! Search directives and metadata-service queries built from free text.

use vstd::prelude::*;
use crate::sanitize::{escape_chars, escaped, split_on_dash, split_on_dash_chars};
use crate::text::{
    ascii_lower, chars_of, contains, contains_exec, ends_with, is_edge, lemma_trim_front_suffix,
    lower_chars, push_chars, push_str, starts_with, starts_with_exec, string_of, trim, trim_back,
    trim_chars, trim_front,
};

verus! {

/// Whether `s` names something the downloader can fetch directly: a URL, a bare `www.`
/// host, or a search directive.
pub open spec fn looks_like_url_spec(s: Seq<char>) -> bool {
    let l = ascii_lower(trim(s));
    starts_with(l, "http://"@) || starts_with(l, "https://"@) || starts_with(l, "ytsearch:"@)
        || starts_with(l, "ytsearch"@) || starts_with(l, "www."@) || contains(l, "://"@)
}

/// Whether `s` refers to a list of items rather than one item.
pub open spec fn looks_like_playlist_spec(s: Seq<char>) -> bool {
    contains(ascii_lower(s), "list="@)
}

/// The text searched for a single track: `artist song` when the query splits on a dash,
/// else the trimmed query.
pub open spec fn search_text(query: Seq<char>) -> Seq<char> {
    let t = trim(query);
    match split_on_dash(t) {
        Some((a, b)) => a + seq![' '] + b,
        None => t,
    }
}

pub open spec fn single_prefix() -> Seq<char> {
    "ytsearch1:"@
}

pub open spec fn video_exclusion() -> Seq<char> {
    "-\"music video\""@
}

/// The search text, ` audio` unless it already names audio, and the music-video exclusion.
pub open spec fn search_terms(query: Seq<char>) -> Seq<char> {
    let sq = search_text(query);
    let with_audio = if contains(ascii_lower(sq), "audio"@) {
        sq
    } else {
        sq + " audio"@
    };
    with_audio + seq![' '] + video_exclusion()
}

/// The directive that asks the downloader for the single best search match.
pub open spec fn single_search(query: Seq<char>) -> Seq<char> {
    single_prefix() + trim(search_terms(query))
}

/// The metadata-service query: a structured release/artist query when the text splits on a
/// dash, else the text itself.
pub open spec fn metadata_query(raw: Seq<char>) -> Seq<char> {
    match split_on_dash(raw) {
        Some((artist, album)) => "release:\""@ + escaped(album, false) + "\" AND artist:\""@
            + escaped(artist, false) + "\""@,
        None => raw,
    }
}

/// Whether `input` is a URL or a search directive rather than free text.
pub fn looks_like_url(input: &str) -> (r: bool)
    ensures
        r == looks_like_url_spec(input@),
{
    let v = chars_of(input);
    let l = lower_chars(&trim_chars(&v, false));
    starts_with_exec(&l, &chars_of("http://")) || starts_with_exec(&l, &chars_of("https://"))
        || starts_with_exec(&l, &chars_of("ytsearch:")) || starts_with_exec(
        &l,
        &chars_of("ytsearch"),
    ) || starts_with_exec(&l, &chars_of("www.")) || contains_exec(&l, &chars_of("://"))
}

/// Whether `value` carries a list identifier.
pub fn looks_like_playlist(value: &str) -> (r: bool)
    ensures
        r == looks_like_playlist_spec(value@),
{
    let l = lower_chars(&chars_of(value));
    contains_exec(&l, &chars_of("list="))
}

/// Whether the downloader should tag tracks from the playlist's title and index.
pub fn should_apply_album_metadata(download_album: bool, resolved_target: &str) -> (r: bool)
    ensures
        r == (download_album && looks_like_playlist_spec(resolved_target@)),
{
    download_album && looks_like_playlist(resolved_target)
}

/// The single-result search directive for `query`.
pub fn build_single_search_query(query: &str) -> (r: String)
    ensures
        r@ == single_search(query@),
{
    let v = chars_of(query);
    let trimmed = trim_chars(&v, false);
    let sq = match split_on_dash_chars(&trimmed) {
        Some((a, b)) => {
            let mut s = a;
            s.push(' ');
            push_chars(&mut s, &b);
            s
        },
        None => trimmed,
    };
    assert(sq@ =~= search_text(query@));
    let mut terms = sq.clone();
    if !contains_exec(&lower_chars(&sq), &chars_of("audio")) {
        push_str(&mut terms, " audio");
    }
    terms.push(' ');
    push_str(&mut terms, "-\"music video\"");
    assert(terms@ =~= search_terms(query@));
    let mut out = chars_of("ytsearch1:");
    push_chars(&mut out, &trim_chars(&terms, false));
    string_of(&out)
}

/// The metadata-service search query for `raw`.
pub fn build_musicbrainz_search_query(raw: &str) -> (r: String)
    ensures
        r@ == metadata_query(raw@),
{
    let v = chars_of(raw);
    match split_on_dash_chars(&v) {
        Some((artist, album)) => {
            let mut out: Vec<char> = Vec::new();
            push_str(&mut out, "release:\"");
            push_chars(&mut out, &escape_chars(&album, false));
            push_str(&mut out, "\" AND artist:\"");
            push_chars(&mut out, &escape_chars(&artist, false));
            push_str(&mut out, "\"");
            string_of(&out)
        },
        None => String::from_str(raw),
    }
}

/// A single-result search directive starts with the single-result prefix and ends with the
/// music-video exclusion; when the search text already names audio, in any letter case,
/// nothing stands between the text and the exclusion but a space.
pub proof fn lemma_single_search_shape(query: Seq<char>)
    ensures
        starts_with(single_search(query), single_prefix()),
        ends_with(single_search(query), video_exclusion()),
        contains(ascii_lower(search_text(query)), "audio"@) ==> single_search(query)
            == single_prefix() + trim(search_text(query) + seq![' '] + video_exclusion()),
{
    reveal_strlit("-\"music video\"");
    let terms = search_terms(query);
    let ex = video_exclusion();
    let p = terms.len() - ex.len();
    assert(terms.subrange(p, terms.len() as int) =~= ex);
    assert(terms[p] == '-');
    assert(terms.last() == '"');
    lemma_trim_front_suffix(terms, false);
    let tf = trim_front(terms, false);
    let k = terms.len() - tf.len();
    if k > p {
        assert(is_edge(terms[p], false));
    }
    assert(tf.last() == '"');
    assert(trim_back(tf, false) == tf);
    let r = single_search(query);
    let pre = single_prefix();
    assert(r.subrange(0, pre.len() as int) =~= pre);
    assert(r.subrange(r.len() - ex.len(), r.len() as int) =~= terms.subrange(p, terms.len() as int));
}

} // verus!
