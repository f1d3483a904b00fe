//! The start of the application.
use vstd::prelude::*;

use crate::clock;
use crate::paths::FsPath;
use crate::settings::{AppSettings, AppSettingsView};
use crate::text;

verus! {

/// How and when the application was started.
pub struct StartupInfo {
    pub started_at: String,
    pub base_url: String,
    pub is_first_launch: bool,
    pub executable_dir: FsPath,
}

/// The address at which the application is reached in a browser.
pub open spec fn url_of(address: Seq<char>) -> Seq<char> {
    "http://"@ + address
}

impl StartupInfo {
    /// A start just now.
    pub fn new(address: &str, is_first_launch: bool, executable_dir: FsPath) -> (r: Self)
        ensures
            clock::timestamp(r.started_at@),
            r.base_url@ == url_of(address@),
            r.is_first_launch == is_first_launch,
            r.executable_dir@ == executable_dir@,
    {
        StartupInfo {
            started_at: clock::now_rfc3339(),
            base_url: text::joined("http://", address),
            is_first_launch,
            executable_dir,
        }
    }
}

/// The browser is opened at this start.
pub open spec fn opens_browser(settings: AppSettingsView, is_first_launch: bool) -> bool {
    if is_first_launch {
        settings.open_browser_on_first_launch
    } else {
        settings.open_browser_on_later_launch
    }
}

/// Whether the browser is opened at this start.
pub fn should_open_browser(settings: &AppSettings, is_first_launch: bool) -> (r: bool)
    ensures
        r == opens_browser(settings@, is_first_launch),
{
    if is_first_launch {
        settings.open_browser_on_first_launch
    } else {
        settings.open_browser_on_later_launch
    }
}

}
