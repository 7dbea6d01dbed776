//! The metadata service's release data and its conversion into an album.

use vstd::prelude::*;
use vstd::utf8::encode_utf8;
use crate::error::AppError;
use crate::query::{build_musicbrainz_search_query, metadata_query};
use crate::text::{
    chars_of, decimal, parse_u32, parsed_u32, push_decimal, push_str, push_string,
    string_of,
};

verus! {

/// An artist as the metadata service names it.
pub struct MbArtist {
    pub name: Option<String>,
}

/// One credited artist of a release, with the phrase that joins it to the next.
pub struct MbArtistCredit {
    pub name: Option<String>,
    pub joinphrase: Option<String>,
    pub artist: Option<MbArtist>,
}

/// The recording behind a track.
pub struct MbRecording {
    pub title: Option<String>,
}

/// A track of a medium.
pub struct MbTrack {
    pub position: Option<u32>,
    pub number: Option<String>,
    pub title: Option<String>,
    pub recording: Option<MbRecording>,
}

/// A disc or other medium of a release.
pub struct MbMedium {
    pub position: Option<u32>,
    pub tracks: Vec<MbTrack>,
}

/// The detail record of a release.
pub struct MbReleaseDetail {
    pub title: Option<String>,
    pub date: Option<String>,
    pub artist_credit: Vec<MbArtistCredit>,
    pub media: Vec<MbMedium>,
}

/// One candidate of a release search.
pub struct MbReleaseSearchEntry {
    pub id: String,
}

/// The answer to a release search.
pub struct MbReleaseSearchResponse {
    pub releases: Vec<MbReleaseSearchEntry>,
}

/// A track of a resolved album.
pub struct MusicBrainzTrack {
    pub title: String,
    pub disc: u32,
    pub position: u32,
    pub overall_index: usize,
}

/// An album resolved from the metadata service.
pub struct MusicBrainzAlbum {
    pub title: String,
    pub artist: String,
    pub release_date: Option<String>,
    pub total_discs: u32,
    pub tracks: Vec<MusicBrainzTrack>,
}

/// A track as contracts see it.
pub struct TrackModel {
    pub title: Seq<char>,
    pub disc: u32,
    pub position: u32,
    pub overall_index: int,
}

/// An album as contracts see it.
pub struct AlbumModel {
    pub title: Seq<char>,
    pub artist: Seq<char>,
    pub release_date: Option<Seq<char>>,
    pub total_discs: u32,
    pub tracks: Seq<TrackModel>,
}

impl View for MusicBrainzTrack {
    type V = TrackModel;

    open spec fn view(&self) -> TrackModel {
        TrackModel {
            title: self.title@,
            disc: self.disc,
            position: self.position,
            overall_index: self.overall_index as int,
        }
    }
}

pub open spec fn opt_view(o: Option<String>) -> Option<Seq<char>> {
    match o {
        Some(s) => Some(s@),
        None => None,
    }
}

impl View for MusicBrainzAlbum {
    type V = AlbumModel;

    open spec fn view(&self) -> AlbumModel {
        AlbumModel {
            title: self.title@,
            artist: self.artist@,
            release_date: opt_view(self.release_date),
            total_discs: self.total_discs,
            tracks: self.tracks@.map_values(|t: MusicBrainzTrack| t@),
        }
    }
}

impl MusicBrainzAlbum {
    /// At least one track and one disc, the tracks numbered `1..=N` in order.
    pub open spec fn wf(&self) -> bool {
        &&& self.tracks@.len() > 0
        &&& self.total_discs >= 1
        &&& forall|i: int|
            0 <= i < self.tracks@.len() ==> (#[trigger] self.tracks@[i]).overall_index == i + 1
    }
}

pub open spec fn or_empty(o: Option<Seq<char>>) -> Seq<char> {
    match o {
        Some(s) => s,
        None => Seq::empty(),
    }
}

/// The name of the nested artist of a credit.
pub open spec fn nested_artist_name(c: MbArtistCredit) -> Option<Seq<char>> {
    match c.artist {
        Some(a) => opt_view(a.name),
        None => None,
    }
}

/// The credit's own name, else its nested artist's name.
pub open spec fn credit_name(c: MbArtistCredit) -> Option<Seq<char>> {
    match c.name {
        Some(n) => Some(n@),
        None => nested_artist_name(c),
    }
}

/// Each credit's name followed by its join phrase, in order.
pub open spec fn composed_credit(cs: Seq<MbArtistCredit>) -> Seq<char>
    decreases cs.len(),
{
    if cs.len() == 0 {
        Seq::empty()
    } else {
        composed_credit(cs.drop_last()) + or_empty(credit_name(cs.last())) + or_empty(
            opt_view(cs.last().joinphrase),
        )
    }
}

/// The nested artists' names that are present, in order.
pub open spec fn nested_names(cs: Seq<MbArtistCredit>) -> Seq<Seq<char>>
    decreases cs.len(),
{
    if cs.len() == 0 {
        Seq::empty()
    } else {
        match nested_artist_name(cs.last()) {
            Some(n) => nested_names(cs.drop_last()).push(n),
            None => nested_names(cs.drop_last()),
        }
    }
}

/// `names` with `sep` between each two.
pub open spec fn joined(names: Seq<Seq<char>>, sep: Seq<char>) -> Seq<char>
    decreases names.len(),
{
    if names.len() == 0 {
        Seq::empty()
    } else if names.len() == 1 {
        names[0]
    } else {
        joined(names.drop_last(), sep) + sep + names.last()
    }
}

/// The artist text of a credit list: the composed credits, else the nested artists' names
/// joined with ` & `.
pub open spec fn artist_credit_text(cs: Seq<MbArtistCredit>) -> Seq<char> {
    let c = composed_credit(cs);
    if c.len() == 0 {
        joined(nested_names(cs), " & "@)
    } else {
        c
    }
}

pub open spec fn track_label(n: nat) -> Seq<char> {
    "Track "@ + decimal(n)
}

/// Title of the `j`-th track of a medium (counted from 0).
pub open spec fn track_title(t: MbTrack, j: int) -> Seq<char> {
    match t.title {
        Some(s) => s@,
        None => match t.recording {
            Some(r) => match r.title {
                Some(s) => s@,
                None => track_label((j + 1) as nat),
            },
            None => track_label((j + 1) as nat),
        },
    }
}

/// Position of the `j`-th track of a medium (counted from 0).
pub open spec fn track_position(t: MbTrack, j: int) -> u32 {
    match t.position {
        Some(p) => p,
        None => match t.number {
            Some(n) => match parsed_u32(n@) {
                Some(x) => x,
                None => (j + 1) as u32,
            },
            None => (j + 1) as u32,
        },
    }
}

/// Disc number of the `k`-th medium (counted from 0).
pub open spec fn disc_number(m: MbMedium, k: int) -> u32 {
    match m.position {
        Some(p) => p,
        None => (k + 1) as u32,
    }
}

pub open spec fn track_model(m: MbMedium, k: int, j: int, offset: int) -> TrackModel {
    TrackModel {
        title: track_title(m.tracks@[j], j),
        disc: disc_number(m, k),
        position: track_position(m.tracks@[j], j),
        overall_index: offset + j + 1,
    }
}

/// The tracks of the `k`-th medium, after `offset` tracks of earlier media.
pub open spec fn medium_tracks(m: MbMedium, k: int, offset: int) -> Seq<TrackModel> {
    Seq::new(m.tracks@.len(), |j: int| track_model(m, k, j, offset))
}

/// All tracks of the media, disc by disc, each numbered across the whole release.
pub open spec fn release_tracks(media: Seq<MbMedium>) -> Seq<TrackModel>
    decreases media.len(),
{
    if media.len() == 0 {
        Seq::empty()
    } else {
        let pre = release_tracks(media.drop_last());
        pre + medium_tracks(media.last(), media.len() - 1, pre.len() as int)
    }
}

/// How many media hold at least one track.
pub open spec fn discs_with_tracks(media: Seq<MbMedium>) -> nat
    decreases media.len(),
{
    if media.len() == 0 {
        0
    } else {
        discs_with_tracks(media.drop_last()) + if media.last().tracks@.len() > 0 {
            1nat
        } else {
            0nat
        }
    }
}

/// The album that a release detail converts into.
pub open spec fn album_of(d: MbReleaseDetail) -> AlbumModel {
    let a = artist_credit_text(d.artist_credit@);
    AlbumModel {
        title: match d.title {
            Some(t) => t@,
            None => "Unknown Release"@,
        },
        artist: if a.len() == 0 {
            "Unknown Artist"@
        } else {
            a
        },
        release_date: opt_view(d.date),
        total_discs: if discs_with_tracks(d.media@) == 0 {
            1
        } else {
            discs_with_tracks(d.media@) as u32
        },
        tracks: release_tracks(d.media@),
    }
}

pub open spec fn no_tracks_message() -> Seq<char> {
    "MusicBrainz release does not contain any tracks"@
}

proof fn lemma_discs_bound(media: Seq<MbMedium>)
    ensures
        discs_with_tracks(media) <= media.len(),
    decreases media.len(),
{
    if media.len() > 0 {
        lemma_discs_bound(media.drop_last());
    }
}

proof fn lemma_tracks_prefix(media: Seq<MbMedium>, k: int)
    requires
        0 <= k <= media.len(),
    ensures
        release_tracks(media.subrange(0, k)).len() <= release_tracks(media).len(),
    decreases media.len() - k,
{
    if k < media.len() {
        lemma_tracks_prefix(media, k + 1);
        assert(media.subrange(0, k + 1).drop_last() =~= media.subrange(0, k));
    } else {
        assert(media.subrange(0, k) =~= media);
    }
}

/// The tracks of a release are numbered `1..=N` with no gap or repeat, in the order in which
/// they stand on the media.
pub proof fn lemma_release_track_numbering(media: Seq<MbMedium>)
    ensures
        forall|i: int|
            0 <= i < release_tracks(media).len() ==> (#[trigger] release_tracks(media)[i]).overall_index
                == i + 1,
    decreases media.len(),
{
    if media.len() > 0 {
        lemma_release_track_numbering(media.drop_last());
        let pre = release_tracks(media.drop_last());
        let all = release_tracks(media);
        assert forall|i: int| 0 <= i < all.len() implies (#[trigger] all[i]).overall_index == i + 1 by {
            if i >= pre.len() {
                assert(all[i] == medium_tracks(media.last(), media.len() - 1, pre.len() as int)[i
                    - pre.len()]);
            } else {
                assert(all[i] == pre[i]);
            }
        }
    }
}

/// A byte that percent-encoding keeps: an ASCII letter or digit, or one of `-._~`.
pub open spec fn is_unreserved(b: u8) -> bool {
    (48 <= b && b <= 57) || (65 <= b && b <= 90) || (97 <= b && b <= 122) || b == 45 || b == 46
        || b == 95 || b == 126
}

pub open spec fn hex_upper(d: u8) -> char {
    if d < 10 {
        ((48 + d) as u8) as char
    } else {
        ((55 + d) as u8) as char
    }
}

pub open spec fn encode_byte(b: u8) -> Seq<char> {
    if is_unreserved(b) {
        seq![b as char]
    } else {
        seq!['%', hex_upper(b / 16), hex_upper(b % 16)]
    }
}

/// `bytes` percent-encoded: each byte kept or written as `%` and two upper-case hex digits.
pub open spec fn percent_encoded(bytes: Seq<u8>) -> Seq<char>
    decreases bytes.len(),
{
    if bytes.len() == 0 {
        Seq::empty()
    } else {
        percent_encoded(bytes.drop_last()) + encode_byte(bytes.last())
    }
}

/// Relies on `urlencoding::encode`: every byte of the UTF-8 form of `s` but ASCII letters,
/// digits and `-._~` becomes `%` and two upper-case hex digits; the others are kept.
#[verifier::external_body]
fn url_encode(s: &str) -> (r: String)
    ensures
        r@ == percent_encoded(encode_utf8(s@)),
{
    urlencoding::encode(s).into_owned()
}

pub open spec fn service_base() -> Seq<char> {
    "https://musicbrainz.org/ws/2"@
}

/// The release-search address for a free-text album query.
pub open spec fn search_url(query: Seq<char>) -> Seq<char> {
    service_base() + "/release/?query="@ + percent_encoded(encode_utf8(metadata_query(query)))
        + "&fmt=json&limit=1"@
}

/// The release-detail address, with recordings and artist credits.
pub open spec fn detail_url(id: Seq<char>) -> Seq<char> {
    service_base() + "/release/"@ + id + "?inc=recordings+artist-credits&fmt=json"@
}

/// The address that asks the metadata service for the best release match of `query`.
pub fn release_search_url(query: &str) -> (r: String)
    ensures
        r@ == search_url(query@),
{
    let q = build_musicbrainz_search_query(query);
    let encoded = url_encode(q.as_str());
    let mut out = chars_of("https://musicbrainz.org/ws/2");
    push_str(&mut out, "/release/?query=");
    push_string(&mut out, &encoded);
    push_str(&mut out, "&fmt=json&limit=1");
    string_of(&out)
}

/// The address of the detail record of release `id`.
pub fn release_detail_url(id: &str) -> (r: String)
    ensures
        r@ == detail_url(id@),
{
    let mut out = chars_of("https://musicbrainz.org/ws/2");
    push_str(&mut out, "/release/");
    push_str(&mut out, id);
    push_str(&mut out, "?inc=recordings+artist-credits&fmt=json");
    string_of(&out)
}

/// The identifier of the first release of a search answer, if there is one.
pub fn first_release_id(response: &MbReleaseSearchResponse) -> (r: Option<String>)
    ensures
        response.releases@.len() == 0 ==> r is None,
        response.releases@.len() > 0 ==> r is Some && r->0@ == response.releases@[0].id@,
{
    if response.releases.len() == 0 {
        None
    } else {
        Some(response.releases[0].id.clone())
    }
}

/// The artist text of a credit list: each credit's name (else its nested artist's name)
/// followed by its join phrase; if that is empty, the nested artists' names joined with ` & `.
pub fn format_artist_credit(credits: &Vec<MbArtistCredit>) -> (r: String)
    ensures
        r@ == artist_credit_text(credits@),
{
    let mut composed: Vec<char> = Vec::new();
    let mut i: usize = 0;
    while i < credits.len()
        invariant
            i <= credits@.len(),
            composed@ == composed_credit(credits@.subrange(0, i as int)),
        decreases credits@.len() - i,
    {
        let credit = &credits[i];
        match &credit.name {
            Some(n) => push_string(&mut composed, n),
            None => match &credit.artist {
                Some(a) => match &a.name {
                    Some(n) => push_string(&mut composed, n),
                    None => {},
                },
                None => {},
            },
        }
        match &credit.joinphrase {
            Some(j) => push_string(&mut composed, j),
            None => {},
        }
        i += 1;
        assert(credits@.subrange(0, i as int).drop_last() =~= credits@.subrange(0, i - 1));
    }
    assert(credits@.subrange(0, credits@.len() as int) =~= credits@);
    if composed.len() > 0 {
        return string_of(&composed);
    }
    let mut out: Vec<char> = Vec::new();
    let mut first = true;
    let mut i: usize = 0;
    while i < credits.len()
        invariant
            i <= credits@.len(),
            out@ == joined(nested_names(credits@.subrange(0, i as int)), " & "@),
            first == (nested_names(credits@.subrange(0, i as int)).len() == 0),
        decreases credits@.len() - i,
    {
        let ghost pre = nested_names(credits@.subrange(0, i as int));
        assert(credits@.subrange(0, i + 1).drop_last() =~= credits@.subrange(0, i as int));
        match &credits[i].artist {
            Some(a) => match &a.name {
                Some(n) => {
                    if !first {
                        push_str(&mut out, " & ");
                    }
                    push_string(&mut out, n);
                    first = false;
                    assert(pre.push(n@).drop_last() =~= pre);
                },
                None => {},
            },
            None => {},
        }
        i += 1;
    }
    string_of(&out)
}

fn convert_track(t: &MbTrack, j: usize, disc: u32, offset: usize) -> (r: MusicBrainzTrack)
    requires
        offset + j + 1 <= usize::MAX,
    ensures
        r@ == (TrackModel {
            title: track_title(*t, j as int),
            disc: disc,
            position: match t.position {
                Some(p) => p,
                None => match t.number {
                    Some(n) => match parsed_u32(n@) {
                        Some(x) => x,
                        None => (j + 1) as u32,
                    },
                    None => (j + 1) as u32,
                },
            },
            overall_index: offset + j + 1,
        }),
{
    let label_n: u64 = j as u64 + 1;
    let title = match &t.title {
        Some(s) => s.clone(),
        None => match &t.recording {
            Some(rec) => match &rec.title {
                Some(s) => s.clone(),
                None => {
                    let mut v = chars_of("Track ");
                    push_decimal(&mut v, label_n);
                    string_of(&v)
                },
            },
            None => {
                let mut v = chars_of("Track ");
                push_decimal(&mut v, label_n);
                string_of(&v)
            },
        },
    };
    let fallback: u32 = (j + 1) as u32;
    let position = match t.position {
        Some(p) => p,
        None => match &t.number {
            Some(n) => match parse_u32(n.as_str()) {
                Some(x) => x,
                None => fallback,
            },
            None => fallback,
        },
    };
    MusicBrainzTrack { title, disc, position, overall_index: offset + j + 1 }
}

/// How many tracks the media hold, all together.
pub open spec fn track_count(media: Seq<MbMedium>) -> nat
    decreases media.len(),
{
    if media.len() == 0 {
        0
    } else {
        track_count(media.drop_last()) + media.last().tracks@.len()
    }
}

/// A release yields one track per track of its media, so it yields none exactly when every
/// medium is empty.
pub proof fn lemma_release_track_count(media: Seq<MbMedium>)
    ensures
        release_tracks(media).len() == track_count(media),
        release_tracks(media).len() == 0 <==> forall|j: int|
            0 <= j < media.len() ==> (#[trigger] media[j]).tracks@.len() == 0,
    decreases media.len(),
{
    if media.len() > 0 {
        let pre = media.drop_last();
        lemma_release_track_count(pre);
        if release_tracks(media).len() == 0 {
            assert forall|j: int| 0 <= j < media.len() implies (#[trigger] media[j]).tracks@.len() == 0 by {
                if j < media.len() - 1 {
                    assert(media[j] == pre[j]);
                }
            }
        }
        if forall|j: int| 0 <= j < media.len() ==> (#[trigger] media[j]).tracks@.len() == 0 {
            assert forall|j: int| 0 <= j < pre.len() implies (#[trigger] pre[j]).tracks@.len() == 0 by {
                assert(media[j] == pre[j]);
            }
            assert(media[media.len() - 1].tracks@.len() == 0);
        }
    }
}

/// Converts a release detail into an album; a release without any track is an error.
pub fn convert_release_detail(detail: MbReleaseDetail) -> (r: Result<MusicBrainzAlbum, AppError>)
    requires
        detail.media@.len() < u32::MAX,
        release_tracks(detail.media@).len() < usize::MAX,
    ensures
        r is Err <==> forall|j: int|
            0 <= j < detail.media@.len() ==> (#[trigger] detail.media@[j]).tracks@.len() == 0,
        r is Ok ==> r->Ok_0.tracks@.len() == track_count(detail.media@),
        match r {
            Ok(album) => album@ == album_of(detail) && album.wf(),
            Err(e) => release_tracks(detail.media@).len() == 0 && e is Message && e->Message_0@
                == no_tracks_message(),
        },
{
    let album_title = match &detail.title {
        Some(t) => t.clone(),
        None => String::from_str("Unknown Release"),
    };
    let formatted = format_artist_credit(&detail.artist_credit);
    let artist = if formatted.as_str().unicode_len() == 0 {
        String::from_str("Unknown Artist")
    } else {
        formatted
    };
    let ghost media = detail.media@;
    let mut tracks: Vec<MusicBrainzTrack> = Vec::new();
    let mut discs: u32 = 0;
    let mut k: usize = 0;
    while k < detail.media.len()
        invariant
            media == detail.media@,
            media.len() < u32::MAX,
            release_tracks(media).len() < usize::MAX,
            k <= media.len(),
            tracks@.map_values(|t: MusicBrainzTrack| t@) == release_tracks(media.subrange(0, k as int)),
            discs == discs_with_tracks(media.subrange(0, k as int)),
        decreases media.len() - k,
    {
        let ghost sub = media.subrange(0, k as int);
        let ghost next = media.subrange(0, k + 1);
        assert(next.drop_last() =~= sub);
        let medium = &detail.media[k];
        proof {
            lemma_discs_bound(sub);
            lemma_tracks_prefix(media, k + 1);
        }
        if medium.tracks.len() > 0 {
            discs = discs + 1;
        }
        let disc = match medium.position {
            Some(p) => p,
            None => (k + 1) as u32,
        };
        let offset = tracks.len();
        let ghost base = tracks@.map_values(|t: MusicBrainzTrack| t@);
        assert(next.last() == media[k as int]);
        assert(base.len() == tracks@.len());
        assert(release_tracks(next).len() == release_tracks(sub).len() + medium.tracks@.len());
        let mut j: usize = 0;
        while j < medium.tracks.len()
            invariant
                media == detail.media@,
                k < media.len(),
                *medium == media[k as int],
                disc == disc_number(*medium, k as int),
                offset == base.len(),
                offset + medium.tracks@.len() < usize::MAX,
                j <= medium.tracks@.len(),
                tracks@.map_values(|t: MusicBrainzTrack| t@) == base + medium_tracks(
                    *medium,
                    k as int,
                    offset as int,
                ).subrange(0, j as int),
            decreases medium.tracks@.len() - j,
        {
            let t = convert_track(&medium.tracks[j], j, disc, offset);
            let ghost prev = tracks@;
            let ghost tm = t@;
            assert(tm == track_model(*medium, k as int, j as int, offset as int));
            tracks.push(t);
            assert(tracks@.map_values(|t: MusicBrainzTrack| t@) =~= prev.map_values(
                |t: MusicBrainzTrack| t@,
            ).push(tm));
            assert(medium_tracks(*medium, k as int, offset as int).subrange(0, j + 1) =~= medium_tracks(
                *medium,
                k as int,
                offset as int,
            ).subrange(0, j as int).push(tm));
            j += 1;
            assert(tracks@.map_values(|t: MusicBrainzTrack| t@) =~= base + medium_tracks(
                *medium,
                k as int,
                offset as int,
            ).subrange(0, j as int));
        }
        assert(medium_tracks(*medium, k as int, offset as int).subrange(0, j as int) =~= medium_tracks(*medium, k as int, offset as int));
        k += 1;
    }
    assert(media.subrange(0, media.len() as int) =~= media);
    if tracks.len() == 0 {
        proof {
            lemma_release_track_count(media);
        }
        let m = String::from_str("MusicBrainz release does not contain any tracks");
        return Err(AppError::Message(m));
    }
    proof {
        lemma_release_track_numbering(media);
        lemma_release_track_count(media);
    }
    let total_discs: u32 = if discs == 0 { 1 } else { discs };
    let release_date = match &detail.date {
        Some(d) => Some(d.clone()),
        None => None,
    };
    let album = MusicBrainzAlbum { title: album_title, artist, release_date, total_discs, tracks };
    assert forall|i: int| 0 <= i < album.tracks@.len() implies (#[trigger] album.tracks@[i]).overall_index == i + 1 by {
        assert(album.tracks@.map_values(|t: MusicBrainzTrack| t@)[i] == album.tracks@[i]@);
    }
    assert(album@ =~= album_of(detail));
    Ok(album)
}

} // verus!
