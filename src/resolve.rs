//! Deciding, step by step, what a download request turns into.

use vstd::prelude::*;
use crate::aliases::AliasTable;
use crate::jobs::{
    build_metadata_args, metadata_args, title_output_template, track_file_name,
    track_output_template, track_search, track_search_query, under, DownloadJob, JobModel,
};
use crate::musicbrainz::{AlbumModel, MusicBrainzAlbum};
use crate::playlist::{playlist_search, playlist_search_term};
use crate::query::{
    build_single_search_query, looks_like_playlist, looks_like_playlist_spec, looks_like_url,
    looks_like_url_spec, single_search,
};
use crate::text::{chars_of, string_of, trim, trim_chars};

verus! {

/// Whether one track or a whole album is wanted.
pub enum DownloadMode {
    Single,
    Album,
}

/// A download as the user asked for it.
pub struct DownloadRequest {
    /// A URL, an alias name or free text.
    pub target: String,
    /// The directory the audio goes to.
    pub destination: String,
    /// The audio format to convert to.
    pub format: String,
    pub mode: DownloadMode,
}

/// What came of the last action, handed back to the next step.
pub enum DownloadEvent {
    /// Nothing has been done yet.
    Start,
    /// The metadata service resolved the album.
    MetadataFound(MusicBrainzAlbum),
    /// The metadata service had no matching release.
    MetadataNotFound,
    /// Playlist discovery found this address.
    PlaylistFound(String),
    /// Playlist discovery found nothing.
    PlaylistNotFound,
}

/// What to do next.
pub enum DownloadAction {
    /// Ask the metadata service for the album named by this query.
    LookupMetadata(String),
    /// Ask the downloader to list search results for this term and look for a playlist.
    DiscoverPlaylist(String),
    /// Run these downloader jobs one after another, stopping at the first that fails.
    Run(Vec<DownloadJob>),
}

/// What to do once a job of a run has ended.
pub enum RunStep {
    /// Run the job at this index next.
    Job(usize),
    /// Every job succeeded.
    Done,
    /// The job failed: the run stops here and the later jobs are not run.
    Abort,
}

/// The request's target without surrounding whitespace.
pub open spec fn query_of(req: DownloadRequest) -> Seq<char> {
    trim(req.target@)
}

/// Whether an album request goes to the metadata service first: no alias, no URL.
pub open spec fn metadata_first(req: DownloadRequest, aliases: AliasTable) -> bool {
    req.mode is Album && aliases.lookup(query_of(req)) is None && !looks_like_url_spec(
        query_of(req),
    )
}

/// A job that fetches `target` into the destination under its own title.
pub open spec fn direct_job(j: JobModel, req: DownloadRequest, target: Seq<char>, playlist: bool) -> bool {
    &&& j.target == target
    &&& under(j.output_template, req.destination@, "%(title)s.%(ext)s"@)
    &&& j.is_playlist == playlist
    &&& j.tag_from_playlist == (playlist && looks_like_playlist_spec(target))
    &&& j.postprocessor_args is None
    &&& j.format == req.format@
}

/// The job that fetches the `i`-th track of album `a`.
pub open spec fn track_job(j: JobModel, req: DownloadRequest, a: AlbumModel, i: int) -> bool {
    let t = a.tracks[i];
    &&& j.target == track_search(a, t)
    &&& under(j.output_template, req.destination@, track_file_name(t, a.total_discs))
    &&& !j.is_playlist
    &&& !j.tag_from_playlist
    &&& j.postprocessor_args == Some(metadata_args(a, t, a.tracks.len()))
    &&& j.format == req.format@
}

/// `a` runs the single job that fetches `target`.
pub open spec fn runs_one(a: DownloadAction, req: DownloadRequest, target: Seq<char>, playlist: bool) -> bool {
    &&& a is Run
    &&& a->Run_0@.len() == 1
    &&& direct_job(a->Run_0@[0]@, req, target, playlist)
}

/// `a` runs one job per track of `album`, in order.
pub open spec fn runs_tracks(a: DownloadAction, req: DownloadRequest, album: AlbumModel) -> bool {
    &&& a is Run
    &&& a->Run_0@.len() == album.tracks.len()
    &&& forall|i: int| 0 <= i < album.tracks.len() ==> track_job(#[trigger] a->Run_0@[i]@, req, album, i)
}

/// The step after the metadata service is skipped or finds nothing: an alias, else a URL,
/// else a single search, else (for an album) playlist discovery.
pub open spec fn resolved(a: DownloadAction, req: DownloadRequest, aliases: AliasTable) -> bool {
    let q = query_of(req);
    match aliases.lookup(q) {
        Some(e) => runs_one(a, req, e.url, e.album || req.mode is Album),
        None => if looks_like_url_spec(q) {
            runs_one(a, req, q, req.mode is Album)
        } else if req.mode is Single {
            runs_one(a, req, single_search(q), false)
        } else {
            a is DiscoverPlaylist && a->DiscoverPlaylist_0@ == playlist_search(q)
        },
    }
}

/// What `handle_download` owes for each event.
pub open spec fn download_step(
    req: DownloadRequest,
    aliases: AliasTable,
    event: DownloadEvent,
    a: DownloadAction,
) -> bool {
    match event {
        DownloadEvent::Start => if metadata_first(req, aliases) {
            a is LookupMetadata && a->LookupMetadata_0@ == query_of(req)
        } else {
            resolved(a, req, aliases)
        },
        DownloadEvent::MetadataNotFound => resolved(a, req, aliases),
        DownloadEvent::MetadataFound(album) => runs_tracks(a, req, album@),
        DownloadEvent::PlaylistFound(u) => runs_one(a, req, u@, req.mode is Album),
        DownloadEvent::PlaylistNotFound => runs_one(
            a,
            req,
            single_search(query_of(req)),
            req.mode is Album,
        ),
    }
}

fn is_album(mode: &DownloadMode) -> (r: bool)
    ensures
        r == (*mode is Album),
{
    match mode {
        DownloadMode::Album => true,
        DownloadMode::Single => false,
    }
}

fn run_one(req: &DownloadRequest, target: String, playlist: bool) -> (r: DownloadAction)
    ensures
        runs_one(r, *req, target@, playlist),
{
    let tag = playlist && looks_like_playlist(target.as_str());
    let job = DownloadJob {
        target,
        output_template: title_output_template(req.destination.as_str()),
        is_playlist: playlist,
        tag_from_playlist: tag,
        postprocessor_args: None,
        format: req.format.clone(),
    };
    let mut jobs: Vec<DownloadJob> = Vec::new();
    jobs.push(job);
    DownloadAction::Run(jobs)
}

fn album_jobs(req: &DownloadRequest, album: &MusicBrainzAlbum) -> (r: DownloadAction)
    requires
        album.wf(),
    ensures
        runs_tracks(r, *req, album@),
{
    let total = album.tracks.len();
    let mut jobs: Vec<DownloadJob> = Vec::new();
    let mut i: usize = 0;
    while i < total
        invariant
            total == album.tracks@.len(),
            album@.tracks.len() == total,
            i <= total,
            jobs@.len() == i,
            forall|k: int| 0 <= k < i ==> track_job(#[trigger] jobs@[k]@, *req, album@, k),
        decreases total - i,
    {
        let track = &album.tracks[i];
        assert(album@.tracks[i as int] == track@);
        let job = DownloadJob {
            target: track_search_query(album, track),
            output_template: track_output_template(
                req.destination.as_str(),
                track,
                album.total_discs,
            ),
            is_playlist: false,
            tag_from_playlist: false,
            postprocessor_args: Some(build_metadata_args(album, track, total)),
            format: req.format.clone(),
        };
        jobs.push(job);
        i += 1;
    }
    DownloadAction::Run(jobs)
}

fn resolve_step(req: &DownloadRequest, aliases: &AliasTable, query: &str) -> (r: DownloadAction)
    requires
        aliases.wf(),
        query@ == query_of(*req),
    ensures
        resolved(r, *req, *aliases),
{
    let album_mode = is_album(&req.mode);
    match aliases.get(query) {
        Some(entry) => run_one(req, entry.url.clone(), entry.album || album_mode),
        None => {
            if looks_like_url(query) {
                run_one(req, String::from_str(query), album_mode)
            } else if !album_mode {
                run_one(req, build_single_search_query(query), false)
            } else {
                DownloadAction::DiscoverPlaylist(playlist_search_term(query))
            }
        },
    }
}

/// The step after job `index` of a run of `total` jobs has ended: a failure stops the run,
/// a success moves on to the next job, or ends the run after the last one.
pub fn next_after_job(total: usize, index: usize, succeeded: bool) -> (r: RunStep)
    requires
        index < total,
    ensures
        !succeeded ==> r is Abort,
        succeeded && index + 1 < total ==> r == RunStep::Job((index + 1) as usize),
        succeeded && index + 1 == total ==> r is Done,
{
    if !succeeded {
        RunStep::Abort
    } else if index + 1 < total {
        RunStep::Job(index + 1)
    } else {
        RunStep::Done
    }
}

/// The next action of a download, given what the last one gave.
///
/// An album request with no alias and no URL first goes to the metadata service; each of
/// its tracks then becomes one job. If the service finds nothing, or the request is not
/// such an album request, an alias decides the address (its album flag turning playlist
/// mode on), else a URL is fetched as it is, else a single track is searched for, else
/// a playlist is looked for, and failing that the single best search result is taken.
pub fn handle_download(req: &DownloadRequest, aliases: &AliasTable, event: DownloadEvent) -> (r: DownloadAction)
    requires
        aliases.wf(),
        event matches DownloadEvent::MetadataFound(album) ==> album.wf(),
    ensures
        download_step(*req, *aliases, event, r),
{
    let query_chars = trim_chars(&chars_of(req.target.as_str()), false);
    let query = string_of(&query_chars);
    let album_mode = is_album(&req.mode);
    match event {
        DownloadEvent::Start => {
            if album_mode && aliases.get(query.as_str()).is_none() && !looks_like_url(
                query.as_str(),
            ) {
                DownloadAction::LookupMetadata(query)
            } else {
                resolve_step(req, aliases, query.as_str())
            }
        },
        DownloadEvent::MetadataNotFound => resolve_step(req, aliases, query.as_str()),
        DownloadEvent::MetadataFound(album) => album_jobs(req, &album),
        DownloadEvent::PlaylistFound(u) => run_one(req, u, album_mode),
        DownloadEvent::PlaylistNotFound => run_one(
            req,
            build_single_search_query(query.as_str()),
            album_mode,
        ),
    }
}

/// A target that names an alias marked as an album is fetched in playlist mode, from the
/// alias's address, whichever mode was asked for.
pub proof fn lemma_alias_album_overrides_mode(
    req: DownloadRequest,
    aliases: AliasTable,
    a: DownloadAction,
)
    requires
        aliases.lookup(query_of(req)) matches Some(e) && e.album,
        download_step(req, aliases, DownloadEvent::Start, a),
    ensures
        a is Run,
        a->Run_0@.len() == 1,
        a->Run_0@[0].is_playlist,
        a->Run_0@[0]@.target == aliases.lookup(query_of(req))->0.url,
{
}

} // verus!
