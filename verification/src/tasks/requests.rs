//! What callers ask for and what they are answered.
use vstd::prelude::*;

use crate::tasks::record::{TaskState, TaskView};
use crate::text;

verus! {

/// A request to look up a URL.
pub struct ResolveRequest {
    pub url: String,
    pub download_mode: String,
    pub quality: String,
    pub container: String,
    pub target_subdir: String,
}

/// One item of a playlist.
pub struct ResolvedPlaylistEntry {
    pub source_url: String,
    pub title: String,
    pub extractor: Option<String>,
    pub video_id: Option<String>,
    pub uploader: Option<String>,
    pub duration_seconds: Option<u64>,
    pub thumbnail_url: Option<String>,
    pub estimated_size_bytes: Option<u64>,
    pub playlist_index: Option<u64>,
}

/// What a [`ResolvedPlaylistEntry`] says.
#[verifier::ext_equal]
pub struct EntryView {
    pub source_url: Seq<char>,
    pub title: Seq<char>,
    pub extractor: Option<Seq<char>>,
    pub video_id: Option<Seq<char>>,
    pub uploader: Option<Seq<char>>,
    pub duration_seconds: Option<u64>,
    pub thumbnail_url: Option<Seq<char>>,
    pub estimated_size_bytes: Option<u64>,
    pub playlist_index: Option<u64>,
}

impl View for ResolvedPlaylistEntry {
    type V = EntryView;

    open spec fn view(&self) -> EntryView {
        EntryView {
            source_url: self.source_url@,
            title: self.title@,
            extractor: text::text_opt(self.extractor),
            video_id: text::text_opt(self.video_id),
            uploader: text::text_opt(self.uploader),
            duration_seconds: self.duration_seconds,
            thumbnail_url: text::text_opt(self.thumbnail_url),
            estimated_size_bytes: self.estimated_size_bytes,
            playlist_index: self.playlist_index,
        }
    }
}

impl Clone for ResolvedPlaylistEntry {
    fn clone(&self) -> (r: Self)
        ensures
            r@ == self@,
    {
        ResolvedPlaylistEntry {
            source_url: self.source_url.clone(),
            title: self.title.clone(),
            extractor: text::clone_opt(&self.extractor),
            video_id: text::clone_opt(&self.video_id),
            uploader: text::clone_opt(&self.uploader),
            duration_seconds: self.duration_seconds,
            thumbnail_url: text::clone_opt(&self.thumbnail_url),
            estimated_size_bytes: self.estimated_size_bytes,
            playlist_index: self.playlist_index,
        }
    }
}

/// What each item says.
pub open spec fn entries_view(list: Seq<ResolvedPlaylistEntry>) -> Seq<EntryView> {
    Seq::new(list.len(), |i: int| list[i]@)
}

/// The same items again.
pub fn clone_entries(list: &Vec<ResolvedPlaylistEntry>) -> (r: Vec<ResolvedPlaylistEntry>)
    ensures
        entries_view(r@) == entries_view(list@),
{
    let mut r: Vec<ResolvedPlaylistEntry> = Vec::new();
    let mut i: usize = 0;
    while i < list.len()
        invariant
            i <= list.len(),
            r.len() == i,
            forall|j: int| 0 <= j < i ==> (#[trigger] r@[j])@ == list@[j]@,
        decreases list.len() - i,
    {
        r.push(list[i].clone());
        i = i + 1;
    }
    assert(entries_view(r@) =~= entries_view(list@));
    r
}

/// A language that subtitles can be had in.
pub struct SubtitleOption {
    pub language_code: String,
    pub is_auto: bool,
}

/// What a [`SubtitleOption`] says.
#[verifier::ext_equal]
pub struct SubtitleView {
    pub language_code: Seq<char>,
    pub is_auto: bool,
}

impl View for SubtitleOption {
    type V = SubtitleView;

    open spec fn view(&self) -> SubtitleView {
        SubtitleView {
            language_code: self.language_code@,
            is_auto: self.is_auto,
        }
    }
}

impl Clone for SubtitleOption {
    fn clone(&self) -> (r: Self)
        ensures
            r@ == self@,
    {
        SubtitleOption {
            language_code: self.language_code.clone(),
            is_auto: self.is_auto,
        }
    }
}

/// What each option says.
pub open spec fn subtitles_view(list: Seq<SubtitleOption>) -> Seq<SubtitleView> {
    Seq::new(list.len(), |i: int| list[i]@)
}

/// The same options again.
pub fn clone_subtitles(list: &Vec<SubtitleOption>) -> (r: Vec<SubtitleOption>)
    ensures
        subtitles_view(r@) == subtitles_view(list@),
{
    let mut r: Vec<SubtitleOption> = Vec::new();
    let mut i: usize = 0;
    while i < list.len()
        invariant
            i <= list.len(),
            r.len() == i,
            forall|j: int| 0 <= j < i ==> (#[trigger] r@[j])@ == list@[j]@,
        decreases list.len() - i,
    {
        r.push(list[i].clone());
        i = i + 1;
    }
    assert(subtitles_view(r@) =~= subtitles_view(list@));
    r
}

/// What is known of the media behind a URL.
pub struct ResolvedMedia {
    pub source_url: String,
    pub title: String,
    pub extractor: Option<String>,
    pub video_id: Option<String>,
    pub uploader: Option<String>,
    pub duration_seconds: Option<u64>,
    pub thumbnail_url: Option<String>,
    pub estimated_size_bytes: Option<u64>,
    pub is_playlist: bool,
    pub playlist_title: Option<String>,
    pub playlist_count: Option<u64>,
    pub entries: Vec<ResolvedPlaylistEntry>,
    pub available_qualities: Vec<String>,
    pub available_subtitles: Vec<SubtitleOption>,
}

/// What a [`ResolvedMedia`] says.
#[verifier::ext_equal]
pub struct MediaView {
    pub source_url: Seq<char>,
    pub title: Seq<char>,
    pub extractor: Option<Seq<char>>,
    pub video_id: Option<Seq<char>>,
    pub uploader: Option<Seq<char>>,
    pub duration_seconds: Option<u64>,
    pub thumbnail_url: Option<Seq<char>>,
    pub estimated_size_bytes: Option<u64>,
    pub is_playlist: bool,
    pub playlist_title: Option<Seq<char>>,
    pub playlist_count: Option<u64>,
    pub entries: Seq<EntryView>,
    pub available_qualities: Seq<Seq<char>>,
    pub available_subtitles: Seq<SubtitleView>,
}

impl View for ResolvedMedia {
    type V = MediaView;

    open spec fn view(&self) -> MediaView {
        MediaView {
            source_url: self.source_url@,
            title: self.title@,
            extractor: text::text_opt(self.extractor),
            video_id: text::text_opt(self.video_id),
            uploader: text::text_opt(self.uploader),
            duration_seconds: self.duration_seconds,
            thumbnail_url: text::text_opt(self.thumbnail_url),
            estimated_size_bytes: self.estimated_size_bytes,
            is_playlist: self.is_playlist,
            playlist_title: text::text_opt(self.playlist_title),
            playlist_count: self.playlist_count,
            entries: entries_view(self.entries@),
            available_qualities: text::texts(self.available_qualities@),
            available_subtitles: subtitles_view(self.available_subtitles@),
        }
    }
}

impl Clone for ResolvedMedia {
    fn clone(&self) -> (r: Self)
        ensures
            r@ == self@,
    {
        ResolvedMedia {
            source_url: self.source_url.clone(),
            title: self.title.clone(),
            extractor: text::clone_opt(&self.extractor),
            video_id: text::clone_opt(&self.video_id),
            uploader: text::clone_opt(&self.uploader),
            duration_seconds: self.duration_seconds,
            thumbnail_url: text::clone_opt(&self.thumbnail_url),
            estimated_size_bytes: self.estimated_size_bytes,
            is_playlist: self.is_playlist,
            playlist_title: text::clone_opt(&self.playlist_title),
            playlist_count: self.playlist_count,
            entries: clone_entries(&self.entries),
            available_qualities: text::clone_texts(&self.available_qualities),
            available_subtitles: clone_subtitles(&self.available_subtitles),
        }
    }
}

/// Something that the same video was found in.
pub struct DuplicateMatch {
    pub source: String,
    pub path: Option<String>,
    pub task_id: Option<String>,
    pub state: Option<TaskState>,
}

/// What a [`DuplicateMatch`] says.
#[verifier::ext_equal]
pub struct MatchView {
    pub source: Seq<char>,
    pub path: Option<Seq<char>>,
    pub task_id: Option<Seq<char>>,
    pub state: Option<TaskState>,
}

impl View for DuplicateMatch {
    type V = MatchView;

    open spec fn view(&self) -> MatchView {
        MatchView {
            source: self.source@,
            path: text::text_opt(self.path),
            task_id: text::text_opt(self.task_id),
            state: self.state,
        }
    }
}

impl Clone for DuplicateMatch {
    fn clone(&self) -> (r: Self)
        ensures
            r@ == self@,
    {
        DuplicateMatch {
            source: self.source.clone(),
            path: text::clone_opt(&self.path),
            task_id: text::clone_opt(&self.task_id),
            state: self.state,
        }
    }
}

/// What each match says.
pub open spec fn matches_view(list: Seq<DuplicateMatch>) -> Seq<MatchView> {
    Seq::new(list.len(), |i: int| list[i]@)
}

/// Whether a video is there already.
pub struct DuplicateCheck {
    pub status: String,
    pub matches: Vec<DuplicateMatch>,
    pub default_action: String,
    pub allowed_actions: Vec<String>,
}

/// What a [`DuplicateCheck`] says.
#[verifier::ext_equal]
pub struct DuplicateView {
    pub status: Seq<char>,
    pub matches: Seq<MatchView>,
    pub default_action: Seq<char>,
    pub allowed_actions: Seq<Seq<char>>,
}

impl View for DuplicateCheck {
    type V = DuplicateView;

    open spec fn view(&self) -> DuplicateView {
        DuplicateView {
            status: self.status@,
            matches: matches_view(self.matches@),
            default_action: self.default_action@,
            allowed_actions: text::texts(self.allowed_actions@),
        }
    }
}

/// The answer to a [`ResolveRequest`].
pub struct ResolveResponse {
    pub resolved: ResolvedMedia,
    pub duplicate_check: DuplicateCheck,
}

/// A request to download one video.
pub struct CreateTaskRequest {
    pub source_url: String,
    pub target_subdir: String,
    pub download_mode: String,
    pub quality: String,
    pub container: String,
    pub subtitle_languages: Vec<String>,
    pub cookie_file_name: Option<String>,
    pub raw_args: Vec<String>,
    pub raw_format_code: Option<String>,
    pub resolved: ResolvedMedia,
}

/// What is ordered, be it one video or a playlist.
#[verifier::ext_equal]
pub struct OrderView {
    pub source_url: Seq<char>,
    pub target_subdir: Seq<char>,
    pub download_mode: Seq<char>,
    pub quality: Seq<char>,
    pub container: Seq<char>,
    pub subtitle_languages: Seq<Seq<char>>,
    pub cookie_file_name: Option<Seq<char>>,
    pub raw_args: Seq<Seq<char>>,
    pub raw_format_code: Option<Seq<char>>,
    pub resolved: MediaView,
}

impl View for CreateTaskRequest {
    type V = OrderView;

    open spec fn view(&self) -> OrderView {
        OrderView {
            source_url: self.source_url@,
            target_subdir: self.target_subdir@,
            download_mode: self.download_mode@,
            quality: self.quality@,
            container: self.container@,
            subtitle_languages: text::texts(self.subtitle_languages@),
            cookie_file_name: text::text_opt(self.cookie_file_name),
            raw_args: text::texts(self.raw_args@),
            raw_format_code: text::text_opt(self.raw_format_code),
            resolved: self.resolved@,
        }
    }
}

/// A request to download the items of a playlist.
pub struct CreatePlaylistTasksRequest {
    pub source_url: String,
    pub target_subdir: String,
    pub download_mode: String,
    pub quality: String,
    pub container: String,
    pub subtitle_languages: Vec<String>,
    pub cookie_file_name: Option<String>,
    pub raw_args: Vec<String>,
    pub raw_format_code: Option<String>,
    pub resolved: ResolvedMedia,
}

impl View for CreatePlaylistTasksRequest {
    type V = OrderView;

    open spec fn view(&self) -> OrderView {
        OrderView {
            source_url: self.source_url@,
            target_subdir: self.target_subdir@,
            download_mode: self.download_mode@,
            quality: self.quality@,
            container: self.container@,
            subtitle_languages: text::texts(self.subtitle_languages@),
            cookie_file_name: text::text_opt(self.cookie_file_name),
            raw_args: text::texts(self.raw_args@),
            raw_format_code: text::text_opt(self.raw_format_code),
            resolved: self.resolved@,
        }
    }
}

/// The tasks that a [`CreatePlaylistTasksRequest`] made: the parent, then its items.
pub struct BatchCreateTasksResponse {
    pub tasks: Vec<TaskView>,
    pub parent_task_id: Option<String>,
    pub created_count: usize,
}

/// All tasks.
pub struct TaskListResponse {
    pub tasks: Vec<TaskView>,
}

}
