//! Events that clients are told of.
use vstd::prelude::*;

use crate::clock;
use crate::settings::AppSettings;
use crate::tasks::record::{TaskKind, TaskView};
use crate::text;
use crate::tools::ToolRegistry;

verus! {

/// What an event is about.
pub enum EventData {
    /// A task, as it is now.
    Task(TaskView),
    /// A line that the download of a task put out.
    Log { task_id: String, line: String },
    /// The id of a task that is gone.
    Removed(String),
    /// A playlist, as it is now.
    Playlist(TaskView),
    /// The settings, as they are now.
    Settings(AppSettings),
    /// Why the library changed, and where.
    Library { reason: String, paths: Vec<String> },
    /// The tools, as they were found.
    Tools(ToolRegistry),
    /// The address at which the application is reached.
    Ready(String),
}

/// An event that clients are told of.
pub struct ServerEvent {
    pub event: String,
    pub timestamp: String,
    pub data: EventData,
}

impl ServerEvent {
    /// It tells that the task has changed.
    pub open spec fn updates(self, view: TaskView) -> bool {
        &&& self.event@ == "task.updated"@
        &&& clock::timestamp(self.timestamp@)
        &&& self.data matches EventData::Task(shown) && shown.same_as(view)
    }

    /// It tells that the download of the task has put out the line.
    pub open spec fn logs(self, id: Seq<char>, line: Seq<char>) -> bool {
        &&& self.event@ == "task.log"@
        &&& clock::timestamp(self.timestamp@)
        &&& self.data matches EventData::Log { task_id, line: logged } && task_id@ == id
            && logged@ == line
    }

    /// It tells that the playlist has changed with its items.
    pub open spec fn updates_playlist(self, view: TaskView) -> bool {
        &&& self.event@ == "playlist.updated"@
        &&& clock::timestamp(self.timestamp@)
        &&& self.data matches EventData::Playlist(shown) && shown.same_as(view)
    }

    /// An event of this name, just now.
    pub fn new(event: &str, data: EventData) -> (r: Self)
        ensures
            r.event@ == event@,
            clock::timestamp(r.timestamp@),
            r.data == data,
    {
        ServerEvent { event: event.to_owned(), timestamp: clock::now_rfc3339(), data }
    }

    /// A task has changed.
    pub fn task_updated(view: &TaskView) -> (r: Self)
        ensures
            r.updates(*view),
    {
        ServerEvent::new("task.updated", EventData::Task(view.clone()))
    }

    /// The download of a task has put out a line.
    pub fn task_log(task_id: &str, line: &str) -> (r: Self)
        ensures
            r.logs(task_id@, line@),
    {
        ServerEvent::new(
            "task.log",
            EventData::Log { task_id: task_id.to_owned(), line: line.to_owned() },
        )
    }

    /// A task is gone.
    pub fn task_removed(task_id: &str) -> (r: Self)
        ensures
            r.event@ == "task.removed"@,
            clock::timestamp(r.timestamp@),
            r.data matches EventData::Removed(id) && id@ == task_id@,
    {
        ServerEvent::new("task.removed", EventData::Removed(task_id.to_owned()))
    }

    /// A playlist has changed with its items.
    pub fn playlist_updated(view: &TaskView) -> (r: Self)
        ensures
            r.updates_playlist(*view),
    {
        ServerEvent::new("playlist.updated", EventData::Playlist(view.clone()))
    }

    /// The settings have changed.
    pub fn settings_changed(settings: &AppSettings) -> (r: Self)
        ensures
            r.event@ == "settings.changed"@,
            clock::timestamp(r.timestamp@),
            r.data matches EventData::Settings(shown) && shown@ == settings@,
    {
        ServerEvent::new("settings.changed", EventData::Settings(settings.clone()))
    }

    /// The library has changed.
    pub fn library_changed(reason: &str, paths: &Vec<String>) -> (r: Self)
        ensures
            r.event@ == "library.changed"@,
            clock::timestamp(r.timestamp@),
            r.data matches EventData::Library { reason: why, paths: places } && why@ == reason@
                && text::texts(places@) == text::texts(paths@),
    {
        ServerEvent::new(
            "library.changed",
            EventData::Library { reason: reason.to_owned(), paths: text::clone_texts(paths) },
        )
    }

    /// The tools have been looked for.
    pub fn tool_status(tools: &ToolRegistry) -> (r: Self)
        ensures
            r.event@ == "tool.status"@,
            clock::timestamp(r.timestamp@),
            r.data matches EventData::Tools(shown) && shown.yt_dlp@ == tools.yt_dlp@
                && shown.ffmpeg@ == tools.ffmpeg@ && shown.ffprobe@ == tools.ffprobe@,
    {
        ServerEvent::new("tool.status", EventData::Tools(tools.clone()))
    }

    /// The application can be reached.
    pub fn app_ready(base_url: &str) -> (r: Self)
        ensures
            r.event@ == "app.ready"@,
            clock::timestamp(r.timestamp@),
            r.data matches EventData::Ready(url) && url@ == base_url@,
    {
        ServerEvent::new("app.ready", EventData::Ready(base_url.to_owned()))
    }
}

/// What clients are told when a task has changed: the task, as it is now, and of a playlist that
/// it has changed with its items.
pub fn change_events(view: &TaskView) -> (r: Vec<ServerEvent>)
    ensures
        r@.len() == (if view.task_kind == TaskKind::PlaylistParent {
            2int
        } else {
            1int
        }),
        r@[0].updates(*view),
        view.task_kind == TaskKind::PlaylistParent ==> r@[1].updates_playlist(*view),
{
    let mut events: Vec<ServerEvent> = Vec::new();
    events.push(ServerEvent::task_updated(view));
    if view.task_kind == TaskKind::PlaylistParent {
        events.push(ServerEvent::playlist_updated(view));
    }
    events
}

/// What clients are told when the download of a task has put out a line: the line, and the task,
/// as it is now.
pub fn line_events(view: &TaskView, line: &str) -> (r: Vec<ServerEvent>)
    ensures
        r@.len() == 2,
        r@[0].logs(view.id@, line@),
        r@[1].updates(*view),
{
    let mut events: Vec<ServerEvent> = Vec::new();
    events.push(ServerEvent::task_log(view.id.as_str(), line));
    events.push(ServerEvent::task_updated(view));
    events
}

}
