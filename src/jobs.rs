//! Downloader invocations: per-track paths and tags, and the argument lists.

use vstd::prelude::*;
use crate::musicbrainz::{AlbumModel, MusicBrainzAlbum, MusicBrainzTrack, TrackModel};
use crate::query::{build_single_search_query, single_search};
use crate::sanitize::{
    is_forbidden, lemma_sanitize_filename, quote_chars, quoted, sanitize_filename, sanitized,
};
use crate::text::{
    chars_of, decimal, pad2, push_chars, push_decimal, push_pad2, push_str, push_string,
    starts_with, string_of,
};

verus! {

/// One run of the downloader.
pub struct DownloadJob {
    /// The search directive or address handed to the downloader.
    pub target: String,
    /// Where the audio goes, with the downloader's placeholders.
    pub output_template: String,
    /// Whether a playlist address is followed to all of its items.
    pub is_playlist: bool,
    /// Whether album and track-number tags are taken from the playlist.
    pub tag_from_playlist: bool,
    /// Tag arguments for the post-processing step.
    pub postprocessor_args: Option<String>,
    /// The audio format to convert to.
    pub format: String,
}

/// A downloader job as contracts see it.
pub struct JobModel {
    pub target: Seq<char>,
    pub output_template: Seq<char>,
    pub is_playlist: bool,
    pub tag_from_playlist: bool,
    pub postprocessor_args: Option<Seq<char>>,
    pub format: Seq<char>,
}

impl View for DownloadJob {
    type V = JobModel;

    open spec fn view(&self) -> JobModel {
        JobModel {
            target: self.target@,
            output_template: self.output_template@,
            is_playlist: self.is_playlist,
            tag_from_playlist: self.tag_from_playlist,
            postprocessor_args: match self.postprocessor_args {
                Some(s) => Some(s@),
                None => None,
            },
            format: self.format@,
        }
    }
}

pub open spec fn strings_view(v: Seq<String>) -> Seq<Seq<char>> {
    v.map_values(|s: String| s@)
}

/// The downloader's command-line arguments for a job.
pub open spec fn job_args(j: JobModel) -> Seq<Seq<char>> {
    seq![
        "--ignore-errors"@,
        "--continue"@,
        "-x"@,
        "--audio-format"@,
        j.format,
        "--output"@,
        j.output_template,
        "--embed-metadata"@,
        if j.is_playlist {
            "--yes-playlist"@
        } else {
            "--no-playlist"@
        },
    ] + (if j.tag_from_playlist {
        seq![
            "--parse-metadata"@,
            "%(playlist_title|)s:%(meta_album)s"@,
            "--parse-metadata"@,
            "%(playlist_index)02d:%(meta_track_number)s"@,
        ]
    } else {
        Seq::empty()
    }) + (match j.postprocessor_args {
        Some(m) => seq!["--postprocessor-args"@, m],
        None => Seq::empty(),
    }) + seq![j.target]
}

/// The file-name prefix of a track: `disc-position` on a multi-disc album, else its number.
pub open spec fn track_prefix(t: TrackModel, total_discs: u32) -> Seq<char> {
    if total_discs > 1 {
        pad2(t.disc as nat) + "-"@ + pad2(t.position as nat)
    } else {
        pad2(t.overall_index as nat)
    }
}

/// The file name of a track, with the downloader's extension placeholder.
pub open spec fn track_file_name(t: TrackModel, total_discs: u32) -> Seq<char> {
    track_prefix(t, total_discs) + " - "@ + sanitized(t.title) + ".%(ext)s"@
}

/// One `-metadata key="value"` argument.
pub open spec fn tag(key: Seq<char>, value: Seq<char>) -> Seq<char> {
    "-metadata "@ + key + "="@ + quoted(value)
}

/// The tag arguments of a track: artist, album, album artist, title, track `NN/total`,
/// the disc on a multi-disc album, and the release date when known.
pub open spec fn metadata_args(a: AlbumModel, t: TrackModel, total_tracks: nat) -> Seq<char> {
    "ffmpeg:"@ + tag("artist"@, a.artist) + " "@ + tag("album"@, a.title) + " "@ + tag(
        "album_artist"@,
        a.artist,
    ) + " "@ + tag("title"@, t.title) + " "@ + tag(
        "track"@,
        pad2(t.overall_index as nat) + "/"@ + decimal(total_tracks),
    ) + (if a.total_discs > 1 {
        " "@ + tag("disc"@, decimal(t.disc as nat))
    } else {
        Seq::empty()
    }) + (match a.release_date {
        Some(d) => " "@ + tag("date"@, d),
        None => Seq::empty(),
    })
}

/// The search directive that looks for one track of an album.
pub open spec fn track_search(a: AlbumModel, t: TrackModel) -> Seq<char> {
    single_search(a.artist + " "@ + t.title + " "@ + a.title)
}

/// A name that `Path::join` appends as a relative component.
pub open spec fn is_plain_name(name: Seq<char>) -> bool {
    &&& name.len() > 0
    &&& (('0' <= name[0] && name[0] <= '9') || name[0] == '%')
    &&& all_safe(name)
}

pub open spec fn all_safe(s: Seq<char>) -> bool {
    forall|i: int| 0 <= i < s.len() ==> #[trigger] s[i] != '/' && s[i] != '\\' && s[i] != ':'
}

proof fn lemma_concat_safe(a: Seq<char>, b: Seq<char>)
    requires
        all_safe(a),
        all_safe(b),
    ensures
        all_safe(a + b),
{
    assert forall|i: int| 0 <= i < (a + b).len() implies #[trigger] (a + b)[i] != '/' && (a
        + b)[i] != '\\' && (a + b)[i] != ':' by {
        if i < a.len() {
            assert((a + b)[i] == a[i]);
        } else {
            assert((a + b)[i] == b[i - a.len()]);
        }
    }
}

proof fn lemma_decimal_digits(n: nat)
    ensures
        forall|i: int| 0 <= i < decimal(n).len() ==> '0' <= #[trigger] decimal(n)[i] && decimal(n)[i] <= '9',
        decimal(n).len() > 0,
    decreases n,
{
    if n >= 10 {
        lemma_decimal_digits(n / 10);
        let d = decimal(n);
        let pre = decimal(n / 10);
        assert forall|i: int| 0 <= i < d.len() implies '0' <= #[trigger] d[i] && d[i] <= '9' by {
            if i < pre.len() {
                assert(d[i] == pre[i]);
            }
        }
    }
}

proof fn lemma_pad2_shape(n: nat)
    ensures
        all_safe(pad2(n)),
        pad2(n).len() > 0,
        '0' <= pad2(n)[0] && pad2(n)[0] <= '9',
{
    lemma_decimal_digits(n);
    let p = pad2(n);
    if n < 10 {
        assert(p[0] == '0');
        assert forall|i: int| 0 <= i < p.len() implies #[trigger] p[i] != '/' && p[i] != '\\' && p[i] != ':' by {
            if i > 0 {
                assert(p[i] == decimal(n)[i - 1]);
            }
        }
    }
}

proof fn lemma_file_name_plain(t: TrackModel, total_discs: u32)
    ensures
        is_plain_name(track_file_name(t, total_discs)),
{
    reveal_strlit("-");
    reveal_strlit(" - ");
    reveal_strlit(".%(ext)s");
    let prefix = track_prefix(t, total_discs);
    if total_discs > 1 {
        lemma_pad2_shape(t.disc as nat);
        lemma_pad2_shape(t.position as nat);
        lemma_concat_safe(pad2(t.disc as nat), "-"@);
        lemma_concat_safe(pad2(t.disc as nat) + "-"@, pad2(t.position as nat));
        assert(prefix[0] == pad2(t.disc as nat)[0]);
    } else {
        lemma_pad2_shape(t.overall_index as nat);
    }
    lemma_sanitize_filename(t.title);
    let title = sanitized(t.title);
    assert(all_safe(title)) by {
        assert forall|i: int| 0 <= i < title.len() implies #[trigger] title[i] != '/' && title[i] != '\\' && title[i] != ':' by {
            assert(!is_forbidden(title[i]));
        }
    }
    lemma_concat_safe(prefix, " - "@);
    lemma_concat_safe(prefix + " - "@, title);
    lemma_concat_safe(prefix + " - "@ + title, ".%(ext)s"@);
    let name = track_file_name(t, total_discs);
    assert(name[0] == prefix[0]);
}

/// A directory with a Windows verbatim prefix (`\\?\`), which `Path::join` normalizes.
pub open spec fn is_verbatim(dir: Seq<char>) -> bool {
    starts_with(dir, "\\\\?\\"@)
}

/// Relies on `Path::join`: a relative name of one component ends the result; unless the
/// directory has a verbatim prefix, the directory is kept as it is and at most one path
/// separator (`/` or `\`) is put between the two.
#[verifier::external_body]
fn join_path(dir: &str, name: &str) -> (r: String)
    requires
        is_plain_name(name@),
    ensures
        r@.len() >= name@.len(),
        r@.subrange(r@.len() - name@.len(), r@.len() as int) == name@,
        !is_verbatim(dir@) ==> joined_under(r@, dir@, name@),
{
    std::path::Path::new(dir).join(name).to_string_lossy().into_owned()
}

fn push_arg(args: &mut Vec<String>, s: String)
    ensures
        strings_view(final(args)@) == strings_view(old(args)@).push(s@),
{
    let ghost prev = args@;
    args.push(s);
    assert(strings_view(args@) =~= strings_view(prev).push(s@));
}

/// The downloader's command-line arguments for `job`.
pub fn downloader_args(job: &DownloadJob) -> (r: Vec<String>)
    ensures
        strings_view(r@) == job_args(job@),
{
    let mut args: Vec<String> = Vec::new();
    push_arg(&mut args, String::from_str("--ignore-errors"));
    push_arg(&mut args, String::from_str("--continue"));
    push_arg(&mut args, String::from_str("-x"));
    push_arg(&mut args, String::from_str("--audio-format"));
    push_arg(&mut args, job.format.clone());
    push_arg(&mut args, String::from_str("--output"));
    push_arg(&mut args, job.output_template.clone());
    push_arg(&mut args, String::from_str("--embed-metadata"));
    if job.is_playlist {
        push_arg(&mut args, String::from_str("--yes-playlist"));
    } else {
        push_arg(&mut args, String::from_str("--no-playlist"));
    }
    if job.tag_from_playlist {
        push_arg(&mut args, String::from_str("--parse-metadata"));
        push_arg(&mut args, String::from_str("%(playlist_title|)s:%(meta_album)s"));
        push_arg(&mut args, String::from_str("--parse-metadata"));
        push_arg(&mut args, String::from_str("%(playlist_index)02d:%(meta_track_number)s"));
    }
    match &job.postprocessor_args {
        Some(m) => {
            push_arg(&mut args, String::from_str("--postprocessor-args"));
            push_arg(&mut args, m.clone());
        },
        None => {},
    }
    push_arg(&mut args, job.target.clone());
    assert(strings_view(args@) =~= job_args(job@));
    args
}

/// `t` is `dir`, then at most one path separator, then `name`.
pub open spec fn joined_under(t: Seq<char>, dir: Seq<char>, name: Seq<char>) -> bool {
    &&& dir.len() + name.len() <= t.len() <= dir.len() + 1 + name.len()
    &&& t.subrange(0, dir.len() as int) == dir
    &&& t.len() == dir.len() + 1 + name.len() ==> (t[dir.len() as int] == '/' || t[dir.len() as int] == '\\')
}

/// `t` is `name` put under the directory `dir`: it ends with `name`, and unless `dir` has a
/// verbatim prefix it is `dir`, at most one separator, and `name`.
pub open spec fn under(t: Seq<char>, dir: Seq<char>, name: Seq<char>) -> bool {
    &&& t.len() >= name.len()
    &&& t.subrange(t.len() - name.len(), t.len() as int) == name
    &&& !is_verbatim(dir) ==> joined_under(t, dir, name)
}

/// Where a download named after its title goes: `%(title)s.%(ext)s` under `destination`.
pub fn title_output_template(destination: &str) -> (r: String)
    ensures
        under(r@, destination@, "%(title)s.%(ext)s"@),
{
    proof {
        reveal_strlit("%(title)s.%(ext)s");
    }
    join_path(destination, "%(title)s.%(ext)s")
}

/// Where a track of an album goes: `<prefix> - <title>.%(ext)s` under `destination`.
pub fn track_output_template(destination: &str, track: &MusicBrainzTrack, total_discs: u32) -> (r: String)
    ensures
        under(r@, destination@, track_file_name(track@, total_discs)),
{
    let mut name: Vec<char> = Vec::new();
    if total_discs > 1 {
        push_pad2(&mut name, track.disc as u64);
        push_str(&mut name, "-");
        push_pad2(&mut name, track.position as u64);
    } else {
        push_pad2(&mut name, track.overall_index as u64);
    }
    push_str(&mut name, " - ");
    let safe = sanitize_filename(track.title.as_str());
    push_string(&mut name, &safe);
    push_str(&mut name, ".%(ext)s");
    let file_name = string_of(&name);
    assert(file_name@ =~= track_file_name(track@, total_discs));
    proof {
        lemma_file_name_plain(track@, total_discs);
    }
    join_path(destination, file_name.as_str())
}

fn push_tag(out: &mut Vec<char>, key: &str, value: &Vec<char>)
    ensures
        final(out)@ == old(out)@ + tag(key@, value@),
{
    push_str(out, "-metadata ");
    push_str(out, key);
    push_str(out, "=");
    push_chars(out, &quote_chars(value));
    assert(out@ =~= old(out)@ + tag(key@, value@));
}

/// The post-processing tag arguments of `track`, as `metadata_args` describes.
pub fn build_metadata_args(album: &MusicBrainzAlbum, track: &MusicBrainzTrack, total_tracks: usize) -> (r: String)
    ensures
        r@ == metadata_args(album@, track@, total_tracks as nat),
{
    let artist = chars_of(album.artist.as_str());
    let mut out = chars_of("ffmpeg:");
    push_tag(&mut out, "artist", &artist);
    push_str(&mut out, " ");
    push_tag(&mut out, "album", &chars_of(album.title.as_str()));
    push_str(&mut out, " ");
    push_tag(&mut out, "album_artist", &artist);
    push_str(&mut out, " ");
    push_tag(&mut out, "title", &chars_of(track.title.as_str()));
    push_str(&mut out, " ");
    let mut number: Vec<char> = Vec::new();
    push_pad2(&mut number, track.overall_index as u64);
    push_str(&mut number, "/");
    push_decimal(&mut number, total_tracks as u64);
    push_tag(&mut out, "track", &number);
    if album.total_discs > 1 {
        push_str(&mut out, " ");
        let mut disc: Vec<char> = Vec::new();
        push_decimal(&mut disc, track.disc as u64);
        push_tag(&mut out, "disc", &disc);
    }
    match &album.release_date {
        Some(d) => {
            push_str(&mut out, " ");
            push_tag(&mut out, "date", &chars_of(d.as_str()));
        },
        None => {},
    }
    assert(out@ =~= metadata_args(album@, track@, total_tracks as nat));
    string_of(&out)
}

/// The search directive that looks for `track` of `album`.
pub fn track_search_query(album: &MusicBrainzAlbum, track: &MusicBrainzTrack) -> (r: String)
    ensures
        r@ == track_search(album@, track@),
{
    let mut terms = chars_of(album.artist.as_str());
    push_str(&mut terms, " ");
    push_string(&mut terms, &track.title);
    push_str(&mut terms, " ");
    push_string(&mut terms, &album.title);
    let s = string_of(&terms);
    assert(s@ =~= album@.artist + " "@ + track@.title + " "@ + album@.title);
    build_single_search_query(s.as_str())
}

} // verus!
