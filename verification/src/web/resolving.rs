//! Looking up what is behind a URL.
//!
//! First a quick scan tells a playlist from a single video. Then each item of a playlist is
//! looked up on its own; an item whose look-up fails is described by what the scan said.
use vstd::prelude::*;

use crate::command;
use crate::command::{ArgView, CommandArg};
use crate::json;
use crate::json::{Json, JsonView};
use crate::paths::{FsPath, FsPathView};
use crate::tasks::requests;
use crate::tasks::requests::{EntryView, MediaView, ResolvedMedia, ResolvedPlaylistEntry};
use crate::tasks::resolve;
use crate::text;
use crate::web::errors::{ApiError, ApiErrorView};

verus! {

// ---------------------------------------------------------------------------
// Before the scan
// ---------------------------------------------------------------------------

/// Why a URL cannot be looked up; `None` where it can.
pub open spec fn lookup_fault(url: Seq<char>, yt_dlp: Option<FsPathView>) -> Option<ApiErrorView> {
    if text::blank(url) {
        Some(ApiErrorView::bad_request("URL cannot be empty"@))
    } else if yt_dlp is None {
        Some(ApiErrorView::bad_request("yt-dlp is not configured"@))
    } else {
        None
    }
}

/// The program that looks the URL up, or why it cannot be looked up.
pub fn lookup_program<'a>(url: &str, yt_dlp: &'a Option<FsPath>) -> (r: Result<&'a FsPath, ApiError>)
    ensures
        match lookup_fault(
            url@,
            match *yt_dlp {
                Some(p) => Some(p@),
                None => None,
            },
        ) {
            Some(error) => r is Err && r->Err_0@ == error,
            None => r is Ok && *yt_dlp is Some && r->Ok_0@ == yt_dlp->0@,
        },
{
    if text::is_blank(url) {
        return Err(ApiError::bad_request("URL cannot be empty".to_owned()));
    }
    match yt_dlp {
        Some(program) => Ok(program),
        None => Err(ApiError::bad_request("yt-dlp is not configured".to_owned())),
    }
}

/// The arguments of a look-up that takes the items of a playlist as they are listed, or of one
/// that takes the URL as a single video.
pub open spec fn lookup_args(url: Seq<char>, flat: bool) -> Seq<ArgView> {
    let first: Seq<ArgView> = if flat {
        seq![ArgView::Text("--flat-playlist"@)]
    } else {
        Seq::empty()
    };
    first + seq![
        ArgView::Text("--dump-single-json"@),
        ArgView::Text("--skip-download"@),
        ArgView::Text("--no-warnings"@),
        ArgView::Text(url),
    ]
}

/// The arguments of a look-up.
pub fn lookup_arguments(url: &str, flat: bool) -> (r: Vec<CommandArg>)
    ensures
        command::args_view(r@) == lookup_args(url@, flat),
{
    let mut args: Vec<CommandArg> = Vec::new();
    assert(command::args_view(args@) =~= Seq::<ArgView>::empty());
    if flat {
        command::push_text(&mut args, "--flat-playlist");
    }
    command::push_text(&mut args, "--dump-single-json");
    command::push_text(&mut args, "--skip-download");
    command::push_text(&mut args, "--no-warnings");
    command::push_text(&mut args, url);
    assert(command::args_view(args@) =~= lookup_args(url@, flat));
    args
}

// ---------------------------------------------------------------------------
// After the scan
// ---------------------------------------------------------------------------

/// What the scan came to: the document, or the error that the client is told.
pub open spec fn scan_result(
    success: bool,
    document: Result<JsonView, Seq<char>>,
    stderr: Seq<char>,
) -> Result<JsonView, ApiErrorView> {
    if success {
        match document {
            Ok(value) => Ok(value),
            Err(message) => Err(ApiErrorView::internal(message)),
        }
    } else if text::trimmed(stderr).len() == 0 {
        Err(ApiErrorView::bad_request("yt-dlp resolve failed"@))
    } else {
        Err(ApiErrorView::bad_request(text::trimmed(stderr)))
    }
}

/// What the scan came to, given what its output is as a document.
pub fn judge_scan(success: bool, document: Result<Json, String>, stderr: &str) -> (r: Result<
    Json,
    ApiError,
>)
    ensures
        match scan_result(
            success,
            match document {
                Ok(value) => Ok(value@),
                Err(message) => Err(message@),
            },
            stderr@,
        ) {
            Ok(value) => r is Ok && r->Ok_0@ == value,
            Err(error) => r is Err && r->Err_0@ == error,
        },
{
    if success {
        match document {
            Ok(value) => Ok(value),
            Err(message) => Err(ApiError::internal(message)),
        }
    } else {
        let message = text::trim(stderr);
        if message.as_str().is_empty() {
            Err(ApiError::bad_request("yt-dlp resolve failed".to_owned()))
        } else {
            Err(ApiError::bad_request(message))
        }
    }
}

/// What the scan came to, given what it put out.
pub fn read_scan(success: bool, stdout: &[u8], stderr: &str) -> (r: Result<Json, ApiError>)
    ensures
        match scan_result(success, json::json_document(stdout@), stderr@) {
            Ok(value) => r is Ok && r->Ok_0@ == value,
            Err(error) => r is Err && r->Err_0@ == error,
        },
{
    judge_scan(success, json::read_document(stdout), stderr)
}

/// The items that the scan listed.
pub open spec fn listed(value: JsonView) -> Seq<JsonView> {
    match json::items_in(json::member(value, "entries"@)) {
        Some(items) => items,
        None => Seq::empty(),
    }
}

/// The address that an item of the scan is looked up at.
pub open spec fn flat_address(playlist_url: Seq<char>, flat: JsonView) -> Seq<char> {
    resolve::entry_address(
        json::text_in(json::either(flat, "webpage_url"@, "url"@)),
        json::text_in(json::either(flat, "ie_key"@, "extractor"@)),
        json::text_in(json::member(flat, "id"@)),
        playlist_url,
    )
}

/// The address that an item of the scan is looked up at.
pub fn entry_url_from_flat(playlist_url: &str, flat: &Json) -> (r: String)
    ensures
        r@ == flat_address(playlist_url@, flat@),
{
    let extractor = json::as_text(flat.get_either("ie_key", "extractor"));
    let video_id = json::as_text(flat.get("id"));
    resolve::choose_entry_address(
        json::as_text(flat.get_either("webpage_url", "url")),
        text::borrow_opt(&extractor),
        text::borrow_opt(&video_id),
        playlist_url,
    )
}

/// What the scan said of an item, for one whose look-up failed.
pub open spec fn fallback_entry(flat: JsonView, fallback_url: Seq<char>) -> EntryView {
    let stated = json::text_in(json::either(flat, "webpage_url"@, "url"@));
    EntryView {
        source_url: if stated is Some && resolve::web_address(stated->0) {
            stated->0
        } else {
            fallback_url
        },
        title: resolve::text_or(json::text_in(json::member(flat, "title"@)), "Untitled"@),
        extractor: json::text_in(json::either(flat, "ie_key"@, "extractor"@)),
        video_id: json::text_in(json::member(flat, "id"@)),
        uploader: json::text_in(json::either(flat, "uploader"@, "channel"@)),
        duration_seconds: json::number_in(json::member(flat, "duration"@)),
        thumbnail_url: json::text_in(json::member(flat, "thumbnail"@)),
        estimated_size_bytes: json::number_in(
            json::either(flat, "filesize_approx"@, "filesize"@),
        ),
        playlist_index: json::number_in(
            json::either(flat, "playlist_index"@, "playlist_autonumber"@),
        ),
    }
}

/// What the scan said of an item, for one whose look-up failed.
pub fn flat_entry_fallback(flat: &Json, fallback_url: &str) -> (r: ResolvedPlaylistEntry)
    ensures
        r@ == fallback_entry(flat@, fallback_url@),
{
    let source_url = match json::as_text(flat.get_either("webpage_url", "url")) {
        Some(url) => if resolve::is_web_address(url.as_str()) {
            url
        } else {
            fallback_url.to_owned()
        },
        None => fallback_url.to_owned(),
    };
    let title = match json::as_text(flat.get("title")) {
        Some(title) => title,
        None => "Untitled".to_owned(),
    };
    ResolvedPlaylistEntry {
        source_url,
        title,
        extractor: json::as_text(flat.get_either("ie_key", "extractor")),
        video_id: json::as_text(flat.get("id")),
        uploader: json::as_text(flat.get_either("uploader", "channel")),
        duration_seconds: json::as_number(flat.get("duration")),
        thumbnail_url: json::as_text(flat.get("thumbnail")),
        estimated_size_bytes: json::as_number(flat.get_either("filesize_approx", "filesize")),
        playlist_index: json::as_number(
            flat.get_either("playlist_index", "playlist_autonumber"),
        ),
    }
}

/// What is known of an item after its look-up: what that said, or what the scan said where the
/// look-up failed or said nothing of an item.
pub open spec fn looked_up(
    playlist_url: Seq<char>,
    flat: JsonView,
    found: Option<JsonView>,
) -> EntryView {
    let fallback = fallback_entry(flat, flat_address(playlist_url, flat));
    match found {
        Some(value) => match resolve::entry_in(playlist_url, value) {
            Some(entry) => entry,
            None => fallback,
        },
        None => fallback,
    }
}

/// What is known of an item after its look-up, given the document that it came to.
pub fn settle_entry(playlist_url: &str, flat: &Json, found: Option<Json>) -> (r:
    ResolvedPlaylistEntry)
    ensures
        r@ == looked_up(
            playlist_url@,
            flat@,
            match found {
                Some(value) => Some(value@),
                None => None,
            },
        ),
{
    if let Some(value) = found {
        if let Some(entry) = resolve::resolve_playlist_entry(playlist_url, &value) {
            return entry;
        }
    }
    let address = entry_url_from_flat(playlist_url, flat);
    flat_entry_fallback(flat, address.as_str())
}

/// The document that a look-up of an item came to; `None` where it failed.
pub open spec fn lookup_document(
    success: bool,
    document: Result<JsonView, Seq<char>>,
) -> Option<JsonView> {
    match document {
        Ok(value) if success => Some(value),
        _ => None,
    }
}

/// What is known of an item after its look-up, given what that put out. A look-up that could not
/// be run is one without success.
pub fn read_entry(playlist_url: &str, flat: &Json, success: bool, stdout: &[u8]) -> (r:
    ResolvedPlaylistEntry)
    ensures
        r@ == looked_up(
            playlist_url@,
            flat@,
            lookup_document(success, json::json_document(stdout@)),
        ),
{
    let found = match json::read_document(stdout) {
        Ok(value) => if success {
            Some(value)
        } else {
            None
        },
        Err(_) => None,
    };
    settle_entry(playlist_url, flat, found)
}

/// What is known of a playlist: what the scan said, with the items as they were looked up.
pub open spec fn with_entries(
    url: Seq<char>,
    value: JsonView,
    entries: Seq<EntryView>,
) -> MediaView {
    MediaView { entries, ..resolve::media_in(url, value) }
}

/// What is known of a playlist: what the scan said, with the items as they were looked up.
pub fn assemble_playlist(url: &str, value: &Json, entries: Vec<ResolvedPlaylistEntry>) -> (r:
    ResolvedMedia)
    ensures
        r@ == with_entries(url@, value@, requests::entries_view(entries@)),
{
    let mut media = resolve::resolve_from_json(url, value);
    media.entries = entries;
    media
}

/// What comes after the scan.
pub enum ResolvePlan<'a> {
    /// A single video: it is known already.
    Single(ResolvedMedia),
    /// A playlist: these items are to be looked up.
    Playlist(Vec<&'a Json>),
}

/// What each borrowed value says.
pub open spec fn borrowed_view(values: Seq<&Json>) -> Seq<JsonView> {
    Seq::new(values.len(), |i: int| values[i]@)
}

/// What comes after the scan.
pub fn plan_resolve<'a>(url: &str, value: &'a Json) -> (r: ResolvePlan<'a>)
    ensures
        resolve::speaks_of_playlist(value@) <==> r is Playlist,
        match r {
            ResolvePlan::Single(media) => media@ == resolve::media_in(url@, value@),
            ResolvePlan::Playlist(items) => borrowed_view(items@) == listed(value@),
        },
{
    if !resolve::is_playlist(value) {
        return ResolvePlan::Single(resolve::resolve_from_json(url, value));
    }
    let mut items: Vec<&'a Json> = Vec::new();
    if let Some(list) = json::as_items(value.get("entries")) {
        let mut i: usize = 0;
        while i < list.len()
            invariant
                i <= list.len(),
                items.len() == i,
                forall|j: int| 0 <= j < i ==> (#[trigger] items@[j])@ == list@[j]@,
            decreases list.len() - i,
        {
            items.push(&list[i]);
            i = i + 1;
        }
        assert(borrowed_view(items@) =~= json::values_view(list@));
    } else {
        assert(borrowed_view(items@) =~= listed(value@));
    }
    ResolvePlan::Playlist(items)
}

/// An item is never lost: whatever its look-up came to, there is an entry for it, and its
/// address is a web address wherever that of the playlist is.
pub proof fn every_item_has_an_address(
    playlist_url: Seq<char>,
    flat: JsonView,
    found: Option<JsonView>,
)
    requires
        resolve::web_address(playlist_url),
    ensures
        resolve::web_address(looked_up(playlist_url, flat, found).source_url),
{
    reveal_strlit("https://www.youtube.com/watch?v=");
    reveal_strlit("https://");
    assert forall|id: Seq<char>| resolve::web_address(#[trigger] resolve::watch_address(id)) by {
        assert(resolve::watch_address(id).subrange(0, "https://"@.len() as int) =~= "https://"@);
    }
}

}
