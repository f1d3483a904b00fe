//! The tools that the bridge runs.
use vstd::prelude::*;

use crate::paths;
use crate::paths::{FsPath, FsPathView};
use crate::settings::ToolOverrides;
use crate::text;

verus! {

/// What is known of a tool.
pub struct ToolStatus {
    pub name: String,
    pub available: bool,
    pub source: String,
    pub path: Option<FsPath>,
    pub version: Option<String>,
}

/// What a [`ToolStatus`] says.
#[verifier::ext_equal]
pub struct ToolStatusView {
    pub name: Seq<char>,
    pub available: bool,
    pub source: Seq<char>,
    pub path: Option<FsPathView>,
    pub version: Option<Seq<char>>,
}

impl View for ToolStatus {
    type V = ToolStatusView;

    open spec fn view(&self) -> ToolStatusView {
        ToolStatusView {
            name: self.name@,
            available: self.available,
            source: self.source@,
            path: match self.path {
                Some(path) => Some(path@),
                None => None,
            },
            version: text::text_opt(self.version),
        }
    }
}

impl Clone for ToolStatus {
    fn clone(&self) -> (r: Self)
        ensures
            r@ == self@,
    {
        let path = match &self.path {
            Some(path) => Some(path.clone()),
            None => None,
        };
        ToolStatus {
            name: self.name.clone(),
            available: self.available,
            source: self.source.clone(),
            path,
            version: text::clone_opt(&self.version),
        }
    }
}

/// What is known of each tool.
pub struct ToolRegistry {
    pub yt_dlp: ToolStatus,
    pub ffmpeg: ToolStatus,
    pub ffprobe: ToolStatus,
}

impl Clone for ToolRegistry {
    fn clone(&self) -> (r: Self)
        ensures
            r.yt_dlp@ == self.yt_dlp@,
            r.ffmpeg@ == self.ffmpeg@,
            r.ffprobe@ == self.ffprobe@,
    {
        ToolRegistry {
            yt_dlp: self.yt_dlp.clone(),
            ffmpeg: self.ffmpeg.clone(),
            ffprobe: self.ffprobe.clone(),
        }
    }
}

/// What a tool printed when it was asked for its version.
pub struct VersionOutput {
    pub stdout: String,
    pub stderr: String,
}

/// What was found on disk for a tool: whether the override and the file beside the bridge are
/// there, and what the one that [`locate_tool`] picks of them printed, if it could be run.
pub struct ToolFindings {
    pub override_exists: bool,
    pub sidecar_exists: bool,
    pub version_output: Option<VersionOutput>,
}

/// Where a tool was found.
#[derive(Clone, Copy, Debug, PartialEq, Eq)]
pub enum ToolSource {
    Override,
    Sidecar,
    Missing,
}

impl ToolSource {
    /// The name of the source.
    pub open spec fn text(self) -> Seq<char> {
        match self {
            ToolSource::Override => "override"@,
            ToolSource::Sidecar => "sidecar"@,
            ToolSource::Missing => "missing"@,
        }
    }

    /// The name of the source.
    pub fn label(&self) -> (r: String)
        ensures
            r@ == self.text(),
    {
        match self {
            ToolSource::Override => "override".to_owned(),
            ToolSource::Sidecar => "sidecar".to_owned(),
            ToolSource::Missing => "missing".to_owned(),
        }
    }
}

/// The file name of the tool `name`.
pub open spec fn binary_name(name: Seq<char>, windows: bool) -> Seq<char> {
    if windows {
        name + ".exe"@
    } else {
        name
    }
}

/// The file name of the tool `name`.
pub fn tool_binary_name(name: &str, windows: bool) -> (r: String)
    ensures
        r@ == binary_name(name@, windows),
{
    if windows {
        text::joined(name, ".exe")
    } else {
        name.to_owned()
    }
}

/// The override counts where it is set and there; else the file beside the bridge, where it is
/// there.
pub open spec fn found_at(
    override_set: bool,
    override_exists: bool,
    sidecar_exists: bool,
) -> ToolSource {
    if override_set && override_exists {
        ToolSource::Override
    } else if sidecar_exists {
        ToolSource::Sidecar
    } else {
        ToolSource::Missing
    }
}

/// Where the tool `name` lies, given where it was found.
pub open spec fn place_of(
    source: ToolSource,
    name: Seq<char>,
    override_path: Option<Seq<char>>,
    executable_dir: FsPathView,
    windows: bool,
) -> Option<FsPathView> {
    match source {
        ToolSource::Override => Some(paths::at(override_path->0)),
        ToolSource::Sidecar => Some(executable_dir.join(binary_name(name, windows))),
        ToolSource::Missing => None,
    }
}

/// Where the tool `name` was found, and the file that is run.
pub fn locate_tool(
    name: &str,
    override_path: &Option<String>,
    executable_dir: &FsPath,
    override_exists: bool,
    sidecar_exists: bool,
    windows: bool,
) -> (r: (ToolSource, Option<FsPath>))
    ensures
        r.0 == found_at(override_path is Some, override_exists, sidecar_exists),
        place_of(r.0, name@, text::text_opt(*override_path), executable_dir@, windows) == (
        match r.1 {
            Some(path) => Some(path@),
            None => None,
        }),
{
    if override_exists {
        if let Some(path) = override_path {
            return (ToolSource::Override, Some(FsPath::new(path.as_str())));
        }
    }
    if sidecar_exists {
        let file = tool_binary_name(name, windows);
        return (ToolSource::Sidecar, Some(executable_dir.join(file.as_str())));
    }
    (ToolSource::Missing, None)
}

/// The first line that is more than white space, without the white space around it.
pub open spec fn first_line(lines: Seq<Seq<char>>) -> Option<Seq<char>>
    decreases lines.len(),
{
    if lines.len() == 0 {
        None
    } else if !text::blank(lines[0]) {
        Some(text::trimmed(lines[0]))
    } else {
        first_line(lines.skip(1))
    }
}

/// The version that a tool printed: the first line with something on it, of its output or else of
/// its error output.
pub open spec fn version_line(stdout: Seq<char>, stderr: Seq<char>) -> Option<Seq<char>> {
    first_line(text::split_on(stdout, '\n') + text::split_on(stderr, '\n'))
}

/// The first line that is more than white space.
fn pick_line(lines: &Vec<String>) -> (r: Option<String>)
    ensures
        text::text_opt(r) == first_line(text::texts(lines@)),
{
    let ghost all = text::texts(lines@);
    let mut i: usize = 0;
    assert(all.skip(0) =~= all);
    while i < lines.len()
        invariant
            i <= lines.len(),
            all == text::texts(lines@),
            first_line(all) == first_line(all.skip(i as int)),
        decreases lines.len() - i,
    {
        let line = text::trim(lines[i].as_str());
        assert(all.skip(i as int)[0] == lines@[i as int]@);
        if !line.as_str().is_empty() {
            return Some(line);
        }
        assert(all.skip(i as int).skip(1) =~= all.skip(i + 1));
        i = i + 1;
    }
    None
}

/// The version that a tool printed.
pub fn read_version(output: &VersionOutput) -> (r: Option<String>)
    ensures
        text::text_opt(r) == version_line(output.stdout@, output.stderr@),
{
    let mut lines = text::split_text(output.stdout.as_str(), '\n');
    let ghost first = lines@;
    let mut more = text::split_text(output.stderr.as_str(), '\n');
    let ghost second = more@;
    lines.append(&mut more);
    assert(text::texts(lines@) =~= text::texts(first) + text::texts(second));
    pick_line(&lines)
}

/// What is known of the tool `name`.
pub open spec fn status_of(
    name: Seq<char>,
    override_path: Option<Seq<char>>,
    executable_dir: FsPathView,
    findings: ToolFindings,
    windows: bool,
) -> ToolStatusView {
    let source = found_at(
        override_path is Some,
        findings.override_exists,
        findings.sidecar_exists,
    );
    ToolStatusView {
        name,
        available: source != ToolSource::Missing,
        source: source.text(),
        path: place_of(source, name, override_path, executable_dir, windows),
        version: if source == ToolSource::Missing {
            None
        } else {
            match findings.version_output {
                Some(output) => version_line(output.stdout@, output.stderr@),
                None => None,
            }
        },
    }
}

/// What is known of the tool `name`.
pub fn discover_tool(
    name: &str,
    override_path: &Option<String>,
    executable_dir: &FsPath,
    findings: &ToolFindings,
    windows: bool,
) -> (r: ToolStatus)
    ensures
        r@ == status_of(
            name@,
            text::text_opt(*override_path),
            executable_dir@,
            *findings,
            windows,
        ),
{
    let (source, path) = locate_tool(
        name,
        override_path,
        executable_dir,
        findings.override_exists,
        findings.sidecar_exists,
        windows,
    );
    let available = path.is_some();
    let version = match (&path, &findings.version_output) {
        (Some(_), Some(output)) => read_version(output),
        _ => None,
    };
    ToolStatus { name: name.to_owned(), available, source: source.label(), path, version }
}

impl ToolRegistry {
    /// What is known of each tool, from what was found on disk.
    pub fn discover(
        executable_dir: &FsPath,
        overrides: &ToolOverrides,
        yt_dlp: &ToolFindings,
        ffmpeg: &ToolFindings,
        ffprobe: &ToolFindings,
        windows: bool,
    ) -> (r: Self)
        ensures
            r.yt_dlp@ == status_of(
                "yt-dlp"@,
                overrides@.yt_dlp_path,
                executable_dir@,
                *yt_dlp,
                windows,
            ),
            r.ffmpeg@ == status_of(
                "ffmpeg"@,
                overrides@.ffmpeg_path,
                executable_dir@,
                *ffmpeg,
                windows,
            ),
            r.ffprobe@ == status_of(
                "ffprobe"@,
                overrides@.ffprobe_path,
                executable_dir@,
                *ffprobe,
                windows,
            ),
    {
        ToolRegistry {
            yt_dlp: discover_tool(
                "yt-dlp",
                &overrides.yt_dlp_path,
                executable_dir,
                yt_dlp,
                windows,
            ),
            ffmpeg: discover_tool(
                "ffmpeg",
                &overrides.ffmpeg_path,
                executable_dir,
                ffmpeg,
                windows,
            ),
            ffprobe: discover_tool(
                "ffprobe",
                &overrides.ffprobe_path,
                executable_dir,
                ffprobe,
                windows,
            ),
        }
    }
}

/// An override that is there is taken over the file beside the bridge, and no tool is looked for
/// anywhere else: a tool is available only as the override or beside the bridge.
pub proof fn tools_come_from_two_places(
    name: Seq<char>,
    override_path: Option<Seq<char>>,
    executable_dir: FsPathView,
    findings: ToolFindings,
    windows: bool,
)
    ensures
        ({
            let status = status_of(name, override_path, executable_dir, findings, windows);
            &&& override_path is Some && findings.override_exists ==> status.path == Some(
                paths::at(override_path->0),
            )
            &&& status.available <==> status.path is Some
            &&& status.path matches Some(path) ==> path == paths::at(override_path->0) || path
                == executable_dir.join(binary_name(name, windows))
        }),
{
}

}
