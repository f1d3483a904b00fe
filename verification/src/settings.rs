//! The user's settings.
use vstd::prelude::*;

use crate::paths;
use crate::paths::{FsPath, FsPathView};
use crate::text;

verus! {

/// The most downloads that may run at once.
pub const MAX_CONCURRENT_DOWNLOADS_LIMIT: u8 = 8;

/// The most playlist entries that may be resolved at once.
pub const MAX_RESOLVE_CONCURRENCY: u8 = 16;

/// Where to find tools that do not stand beside the bridge.
pub struct ToolOverrides {
    pub yt_dlp_path: Option<String>,
    pub ffmpeg_path: Option<String>,
    pub ffprobe_path: Option<String>,
}

/// What [`ToolOverrides`] say.
#[verifier::ext_equal]
pub struct ToolOverridesView {
    pub yt_dlp_path: Option<Seq<char>>,
    pub ffmpeg_path: Option<Seq<char>>,
    pub ffprobe_path: Option<Seq<char>>,
}

impl View for ToolOverrides {
    type V = ToolOverridesView;

    open spec fn view(&self) -> ToolOverridesView {
        ToolOverridesView {
            yt_dlp_path: text::text_opt(self.yt_dlp_path),
            ffmpeg_path: text::text_opt(self.ffmpeg_path),
            ffprobe_path: text::text_opt(self.ffprobe_path),
        }
    }
}

impl Clone for ToolOverrides {
    fn clone(&self) -> (r: Self)
        ensures
            r@ == self@,
    {
        ToolOverrides {
            yt_dlp_path: text::clone_opt(&self.yt_dlp_path),
            ffmpeg_path: text::clone_opt(&self.ffmpeg_path),
            ffprobe_path: text::clone_opt(&self.ffprobe_path),
        }
    }
}

/// The user's settings.
pub struct AppSettings {
    pub download_root: String,
    pub max_concurrent_downloads: u8,
    pub open_browser_on_first_launch: bool,
    pub open_browser_on_later_launch: bool,
    pub incomplete_task_recovery: String,
    pub default_target_subdir: String,
    pub show_advanced_by_default: bool,
    pub default_download_mode: String,
    pub default_container: String,
    pub default_quality: String,
    pub default_subtitle_languages: Vec<String>,
    pub default_cookie_file_name: Option<String>,
    pub default_raw_args: Vec<String>,
    pub default_raw_format_code: Option<String>,
    pub tool_overrides: ToolOverrides,
    pub playlist_resolve_concurrency: u8,
    pub playlist_resolve_interval_ms: u64,
}

/// What [`AppSettings`] say.
#[verifier::ext_equal]
pub struct AppSettingsView {
    pub download_root: Seq<char>,
    pub max_concurrent_downloads: u8,
    pub open_browser_on_first_launch: bool,
    pub open_browser_on_later_launch: bool,
    pub incomplete_task_recovery: Seq<char>,
    pub default_target_subdir: Seq<char>,
    pub show_advanced_by_default: bool,
    pub default_download_mode: Seq<char>,
    pub default_container: Seq<char>,
    pub default_quality: Seq<char>,
    pub default_subtitle_languages: Seq<Seq<char>>,
    pub default_cookie_file_name: Option<Seq<char>>,
    pub default_raw_args: Seq<Seq<char>>,
    pub default_raw_format_code: Option<Seq<char>>,
    pub tool_overrides: ToolOverridesView,
    pub playlist_resolve_concurrency: u8,
    pub playlist_resolve_interval_ms: u64,
}

impl View for AppSettings {
    type V = AppSettingsView;

    open spec fn view(&self) -> AppSettingsView {
        AppSettingsView {
            download_root: self.download_root@,
            max_concurrent_downloads: self.max_concurrent_downloads,
            open_browser_on_first_launch: self.open_browser_on_first_launch,
            open_browser_on_later_launch: self.open_browser_on_later_launch,
            incomplete_task_recovery: self.incomplete_task_recovery@,
            default_target_subdir: self.default_target_subdir@,
            show_advanced_by_default: self.show_advanced_by_default,
            default_download_mode: self.default_download_mode@,
            default_container: self.default_container@,
            default_quality: self.default_quality@,
            default_subtitle_languages: text::texts(self.default_subtitle_languages@),
            default_cookie_file_name: text::text_opt(self.default_cookie_file_name),
            default_raw_args: text::texts(self.default_raw_args@),
            default_raw_format_code: text::text_opt(self.default_raw_format_code),
            tool_overrides: self.tool_overrides@,
            playlist_resolve_concurrency: self.playlist_resolve_concurrency,
            playlist_resolve_interval_ms: self.playlist_resolve_interval_ms,
        }
    }
}

impl Clone for AppSettings {
    fn clone(&self) -> (r: Self)
        ensures
            r@ == self@,
    {
        AppSettings {
            download_root: self.download_root.clone(),
            max_concurrent_downloads: self.max_concurrent_downloads,
            open_browser_on_first_launch: self.open_browser_on_first_launch,
            open_browser_on_later_launch: self.open_browser_on_later_launch,
            incomplete_task_recovery: self.incomplete_task_recovery.clone(),
            default_target_subdir: self.default_target_subdir.clone(),
            show_advanced_by_default: self.show_advanced_by_default,
            default_download_mode: self.default_download_mode.clone(),
            default_container: self.default_container.clone(),
            default_quality: self.default_quality.clone(),
            default_subtitle_languages: text::clone_texts(&self.default_subtitle_languages),
            default_cookie_file_name: text::clone_opt(&self.default_cookie_file_name),
            default_raw_args: text::clone_texts(&self.default_raw_args),
            default_raw_format_code: text::clone_opt(&self.default_raw_format_code),
            tool_overrides: self.tool_overrides.clone(),
            playlist_resolve_concurrency: self.playlist_resolve_concurrency,
            playlist_resolve_interval_ms: self.playlist_resolve_interval_ms,
        }
    }
}

/// Why settings are refused.
#[derive(Debug, Clone, Copy, PartialEq, Eq)]
pub enum SettingsError {
    EmptyDownloadRoot,
    NoDownloads,
    TooManyDownloads,
    EmptyDownloadMode,
    EmptyContainer,
    EmptyQuality,
    EmptySubtitleLanguage,
    EmptyRawArg,
    NoResolveConcurrency,
    TooMuchResolveConcurrency,
}

impl SettingsError {
    /// The text of the error.
    pub open spec fn text(self) -> Seq<char> {
        match self {
            SettingsError::EmptyDownloadRoot => "download root cannot be empty"@,
            SettingsError::NoDownloads => "max concurrent downloads must be at least 1"@,
            SettingsError::TooManyDownloads => "max concurrent downloads cannot exceed "@
                + text::decimal(MAX_CONCURRENT_DOWNLOADS_LIMIT as nat),
            SettingsError::EmptyDownloadMode => "default download mode cannot be empty"@,
            SettingsError::EmptyContainer => "default container cannot be empty"@,
            SettingsError::EmptyQuality => "default quality cannot be empty"@,
            SettingsError::EmptySubtitleLanguage =>
                "default subtitle languages cannot contain empty values"@,
            SettingsError::EmptyRawArg => "default raw args cannot contain empty values"@,
            SettingsError::NoResolveConcurrency =>
                "playlist resolve concurrency must be at least 1"@,
            SettingsError::TooMuchResolveConcurrency =>
                "playlist resolve concurrency cannot exceed 16"@,
        }
    }

    /// The text of the error.
    pub fn message(&self) -> (r: String)
        ensures
            r@ == self.text(),
    {
        match self {
            SettingsError::EmptyDownloadRoot => "download root cannot be empty".to_owned(),
            SettingsError::NoDownloads => "max concurrent downloads must be at least 1".to_owned(),
            SettingsError::TooManyDownloads => text::joined(
                "max concurrent downloads cannot exceed ",
                text::to_decimal(MAX_CONCURRENT_DOWNLOADS_LIMIT as u64).as_str(),
            ),
            SettingsError::EmptyDownloadMode => "default download mode cannot be empty".to_owned(),
            SettingsError::EmptyContainer => "default container cannot be empty".to_owned(),
            SettingsError::EmptyQuality => "default quality cannot be empty".to_owned(),
            SettingsError::EmptySubtitleLanguage =>
                "default subtitle languages cannot contain empty values".to_owned(),
            SettingsError::EmptyRawArg =>
                "default raw args cannot contain empty values".to_owned(),
            SettingsError::NoResolveConcurrency =>
                "playlist resolve concurrency must be at least 1".to_owned(),
            SettingsError::TooMuchResolveConcurrency =>
                "playlist resolve concurrency cannot exceed 16".to_owned(),
        }
    }
}

/// Some string of the list is nothing but white space.
pub open spec fn some_blank(list: Seq<Seq<char>>) -> bool {
    exists|i: int| 0 <= i < list.len() && text::blank(#[trigger] list[i])
}

/// Whether some string of the list is nothing but white space.
pub fn has_blank(list: &Vec<String>) -> (r: bool)
    ensures
        r == some_blank(text::texts(list@)),
{
    let mut i: usize = 0;
    while i < list.len()
        invariant
            i <= list.len(),
            forall|j: int| 0 <= j < i ==> !text::blank(#[trigger] text::texts(list@)[j]),
        decreases list.len() - i,
    {
        if text::is_blank(list[i].as_str()) {
            assert(text::blank(text::texts(list@)[i as int]));
            return true;
        }
        i = i + 1;
    }
    false
}

impl AppSettingsView {
    /// The first thing that is wrong with the settings.
    pub open spec fn fault(self) -> Option<SettingsError> {
        if self.download_root.len() == 0 {
            Some(SettingsError::EmptyDownloadRoot)
        } else if self.max_concurrent_downloads == 0 {
            Some(SettingsError::NoDownloads)
        } else if self.max_concurrent_downloads > MAX_CONCURRENT_DOWNLOADS_LIMIT {
            Some(SettingsError::TooManyDownloads)
        } else if text::blank(self.default_download_mode) {
            Some(SettingsError::EmptyDownloadMode)
        } else if text::blank(self.default_container) {
            Some(SettingsError::EmptyContainer)
        } else if text::blank(self.default_quality) {
            Some(SettingsError::EmptyQuality)
        } else if some_blank(self.default_subtitle_languages) {
            Some(SettingsError::EmptySubtitleLanguage)
        } else if some_blank(self.default_raw_args) {
            Some(SettingsError::EmptyRawArg)
        } else if self.playlist_resolve_concurrency == 0 {
            Some(SettingsError::NoResolveConcurrency)
        } else if self.playlist_resolve_concurrency > MAX_RESOLVE_CONCURRENCY {
            Some(SettingsError::TooMuchResolveConcurrency)
        } else {
            None
        }
    }

    /// The settings of a fresh installation.
    pub open spec fn defaults(download_root: Seq<char>) -> AppSettingsView {
        AppSettingsView {
            download_root,
            max_concurrent_downloads: 3,
            open_browser_on_first_launch: true,
            open_browser_on_later_launch: true,
            incomplete_task_recovery: "manual"@,
            default_target_subdir: Seq::empty(),
            show_advanced_by_default: false,
            default_download_mode: "video"@,
            default_container: "mp4"@,
            default_quality: "1080p"@,
            default_subtitle_languages: Seq::empty(),
            default_cookie_file_name: None,
            default_raw_args: Seq::empty(),
            default_raw_format_code: None,
            tool_overrides: ToolOverridesView {
                yt_dlp_path: None,
                ffmpeg_path: None,
                ffprobe_path: None,
            },
            playlist_resolve_concurrency: 3,
            playlist_resolve_interval_ms: 300,
        }
    }
}

impl AppSettings {
    /// The settings of a fresh installation that downloads to `download_root`.
    pub fn with_defaults(download_root: String) -> (r: Self)
        ensures
            r@ == AppSettingsView::defaults(download_root@),
    {
        let r = AppSettings {
            download_root,
            max_concurrent_downloads: 3,
            open_browser_on_first_launch: true,
            open_browser_on_later_launch: true,
            incomplete_task_recovery: "manual".to_owned(),
            default_target_subdir: String::new(),
            show_advanced_by_default: false,
            default_download_mode: "video".to_owned(),
            default_container: "mp4".to_owned(),
            default_quality: "1080p".to_owned(),
            default_subtitle_languages: Vec::new(),
            default_cookie_file_name: None,
            default_raw_args: Vec::new(),
            default_raw_format_code: None,
            tool_overrides: ToolOverrides {
                yt_dlp_path: None,
                ffmpeg_path: None,
                ffprobe_path: None,
            },
            playlist_resolve_concurrency: 3,
            playlist_resolve_interval_ms: 300,
        };
        assert(r@ =~= AppSettingsView::defaults(download_root@));
        r
    }

    /// Refuses settings that make no sense, by the first thing that is wrong with them.
    pub fn validate(&self) -> (r: Result<(), SettingsError>)
        ensures
            match r {
                Ok(_) => self@.fault() is None,
                Err(error) => self@.fault() == Some(error),
            },
    {
        if self.download_root.as_str().is_empty() {
            return Err(SettingsError::EmptyDownloadRoot);
        }
        if self.max_concurrent_downloads == 0 {
            return Err(SettingsError::NoDownloads);
        }
        if self.max_concurrent_downloads > MAX_CONCURRENT_DOWNLOADS_LIMIT {
            return Err(SettingsError::TooManyDownloads);
        }
        if text::is_blank(self.default_download_mode.as_str()) {
            return Err(SettingsError::EmptyDownloadMode);
        }
        if text::is_blank(self.default_container.as_str()) {
            return Err(SettingsError::EmptyContainer);
        }
        if text::is_blank(self.default_quality.as_str()) {
            return Err(SettingsError::EmptyQuality);
        }
        if has_blank(&self.default_subtitle_languages) {
            return Err(SettingsError::EmptySubtitleLanguage);
        }
        if has_blank(&self.default_raw_args) {
            return Err(SettingsError::EmptyRawArg);
        }
        if self.playlist_resolve_concurrency == 0 {
            return Err(SettingsError::NoResolveConcurrency);
        }
        if self.playlist_resolve_concurrency > MAX_RESOLVE_CONCURRENCY {
            return Err(SettingsError::TooMuchResolveConcurrency);
        }
        Ok(())
    }
}

/// The settings of a fresh installation pass their own validation, wherever it downloads to.
pub proof fn defaults_are_valid(download_root: Seq<char>)
    requires
        download_root.len() > 0,
    ensures
        AppSettingsView::defaults(download_root).fault() is None,
{
    reveal_strlit("video");
    reveal_strlit("mp4");
    reveal_strlit("1080p");
}

/// What the settings file holds.
pub open spec fn stored_view(stored: Option<AppSettings>) -> Option<AppSettingsView> {
    match stored {
        Some(settings) => Some(settings@),
        None => None,
    }
}

/// The settings to start with, and whether this is the first launch, or what is wrong with them:
/// those of the settings file or, where there is none, the defaults.
pub open spec fn loaded(stored: Option<AppSettingsView>, default_root: Seq<char>) -> Result<
    (AppSettingsView, bool),
    SettingsError,
> {
    let wanted = match stored {
        Some(settings) => settings,
        None => AppSettingsView::defaults(default_root),
    };
    match wanted.fault() {
        Some(error) => Err(error),
        None => Ok((wanted, stored is None)),
    }
}

/// The file that the settings are kept in.
pub struct SettingsStore {
    path: FsPath,
}

impl View for SettingsStore {
    type V = FsPathView;

    closed spec fn view(&self) -> FsPathView {
        self.path@
    }
}

impl SettingsStore {
    /// Settings kept in the file at `path`.
    pub fn new(path: FsPath) -> (r: Self)
        ensures
            r@ == path@,
    {
        SettingsStore { path }
    }

    /// The settings to start with, and whether this is the first launch. `stored` is what the
    /// settings file holds, if it is there; on the first launch the settings are the defaults, and
    /// the caller saves them.
    pub fn load_or_create_default(
        &self,
        stored: Option<AppSettings>,
        default_root: String,
    ) -> (r: Result<(AppSettings, bool), SettingsError>)
        ensures
            match loaded(stored_view(stored), default_root@) {
                Ok((settings, first_launch)) => r is Ok && r->Ok_0.0@ == settings && r->Ok_0.1
                    == first_launch,
                Err(error) => r is Err && r->Err_0 == error,
            },
    {
        match stored {
            Some(settings) => {
                match settings.validate() {
                    Ok(_) => Ok((settings, false)),
                    Err(error) => Err(error),
                }
            },
            None => {
                let settings = AppSettings::with_defaults(default_root);
                match settings.validate() {
                    Ok(_) => Ok((settings, true)),
                    Err(error) => Err(error),
                }
            },
        }
    }

    /// The file to write `settings` to, unless they are refused.
    pub fn save(&self, settings: &AppSettings) -> (r: Result<FsPath, SettingsError>)
        ensures
            match r {
                Ok(path) => settings@.fault() is None && path@ == self@,
                Err(error) => settings@.fault() == Some(error),
            },
    {
        match settings.validate() {
            Ok(_) => Ok(self.path.clone()),
            Err(error) => Err(error),
        }
    }
}

/// The first launch begins with the defaults. Whatever settings a launch begins with can be saved,
/// and once they are saved the next launch begins with the same, and is not the first.
pub proof fn settings_are_loaded_again(
    stored: Option<AppSettingsView>,
    root: Seq<char>,
    later_root: Seq<char>,
)
    ensures
        root.len() > 0 ==> loaded(None, root) == Ok::<(AppSettingsView, bool), SettingsError>(
            (AppSettingsView::defaults(root), true),
        ),
        loaded(stored, root) matches Ok((settings, _)) ==> settings.fault() is None && loaded(
            Some(settings),
            later_root,
        ) == Ok::<(AppSettingsView, bool), SettingsError>((settings, false)),
{
    if root.len() > 0 {
        defaults_are_valid(root);
    }
}

/// Where downloads go on a fresh installation: the download directory of the system, or else
/// `Downloads` in the home directory, or else the directory that the bridge runs in.
pub open spec fn default_root(
    download_dir: Option<Seq<char>>,
    home_dir: Option<Seq<char>>,
) -> FsPathView {
    match (download_dir, home_dir) {
        (Some(dir), _) => paths::at(dir),
        (None, Some(home)) => paths::at(home).join("Downloads"@),
        (None, None) => paths::at("."@),
    }
}

/// Where downloads go on a fresh installation.
pub fn default_download_root(download_dir: Option<String>, home_dir: Option<String>) -> (r: FsPath)
    ensures
        r@ == default_root(text::text_opt(download_dir), text::text_opt(home_dir)),
{
    match download_dir {
        Some(dir) => FsPath::new(dir.as_str()),
        None => match home_dir {
            Some(home) => FsPath::new(home.as_str()).join("Downloads"),
            None => FsPath::new("."),
        },
    }
}

}
