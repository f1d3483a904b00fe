//! Cookies for sites that want a login.
use vstd::prelude::*;

use crate::command;
use crate::command::{ArgView, CommandArg};
use crate::paths::{FsPath, FsPathView};
use crate::text;

verus! {

/// A cookie file that the user hands in.
pub struct ImportCookiesRequest {
    pub file_name: String,
    pub content: String,
}

/// The name under which a cookie file is kept.
pub struct ImportCookiesResponse {
    pub cookie_file_name: String,
}

/// Why cookies are refused.
#[derive(Debug, Clone, Copy, PartialEq, Eq)]
pub enum CookieError {
    EmptyName,
    InvalidName,
    EmptyContent,
    ProfileWithoutBrowser,
}

impl CookieError {
    /// The text of the error.
    pub open spec fn text(self) -> Seq<char> {
        match self {
            CookieError::EmptyName => "cookie file name cannot be empty"@,
            CookieError::InvalidName => "cookie file name is invalid"@,
            CookieError::EmptyContent => "cookie file content cannot be empty"@,
            CookieError::ProfileWithoutBrowser =>
                "cookie browser profile requires a cookie browser"@,
        }
    }

    /// The text of the error.
    pub fn message(&self) -> (r: String)
        ensures
            r@ == self.text(),
    {
        match self {
            CookieError::EmptyName => "cookie file name cannot be empty".to_owned(),
            CookieError::InvalidName => "cookie file name is invalid".to_owned(),
            CookieError::EmptyContent => "cookie file content cannot be empty".to_owned(),
            CookieError::ProfileWithoutBrowser =>
                "cookie browser profile requires a cookie browser".to_owned(),
        }
    }
}

/// A character that a cookie file name may hold.
pub open spec fn safe(c: char) -> bool {
    '0' <= c <= '9' || 'A' <= c <= 'Z' || 'a' <= c <= 'z' || c == '.' || c == '_' || c == '-'
}

/// `s` with every character that a cookie file name may not hold turned into an underscore.
pub open spec fn cleaned(s: Seq<char>) -> Seq<char> {
    Seq::new(
        s.len(),
        |i: int|
            if safe(s[i]) {
                s[i]
            } else {
                '_'
            },
    )
}

/// The name under which a cookie file called `value` is kept.
pub open spec fn kept_name(value: Seq<char>) -> Seq<char> {
    let name = cleaned(text::trimmed(value));
    if text::ends(text::lowered(name), ".txt"@) {
        name
    } else {
        name + ".txt"@
    }
}

/// What is wrong with a cookie file name.
pub open spec fn name_fault(value: Seq<char>) -> Option<CookieError> {
    if text::blank(value) {
        Some(CookieError::EmptyName)
    } else if kept_name(value) == ".txt"@ {
        Some(CookieError::InvalidName)
    } else {
        None
    }
}

fn clean(s: &str) -> (r: String)
    ensures
        r@ == cleaned(s@),
{
    let v = text::chars_of(s);
    let mut out = String::new();
    let mut i: usize = 0;
    while i < v.len()
        invariant
            i <= v.len(),
            v@ == s@,
            out@ == cleaned(s@).take(i as int),
        decreases v.len() - i,
    {
        let c = v[i];
        if ('0' <= c && c <= '9') || ('A' <= c && c <= 'Z') || ('a' <= c && c <= 'z') || c == '.'
            || c == '_' || c == '-' {
            out.push(c);
        } else {
            out.push('_');
        }
        i = i + 1;
        assert(out@ =~= cleaned(s@).take(i as int));
    }
    assert(cleaned(s@).take(i as int) =~= cleaned(s@));
    out
}

/// The name under which a cookie file called `value` is kept.
pub fn sanitize_cookie_file_name(value: &str) -> (r: Result<String, CookieError>)
    ensures
        match r {
            Ok(name) => name_fault(value@) is None && name@ == kept_name(value@),
            Err(error) => name_fault(value@) == Some(error),
        },
{
    let trimmed = text::trim(value);
    if trimmed.as_str().is_empty() {
        return Err(CookieError::EmptyName);
    }
    let mut name = clean(trimmed.as_str());
    if !text::ends_with(text::to_lower(name.as_str()).as_str(), ".txt") {
        name.append(".txt");
    }
    if text::same(name.as_str(), ".txt") {
        return Err(CookieError::InvalidName);
    }
    Ok(name)
}

/// The place of a cookie file.
pub open spec fn cookie_place(runtime_dir: FsPathView, name: Seq<char>) -> FsPathView {
    runtime_dir.join("cookies"@).join(name)
}

/// The place of the cookie file called `cookie_file_name`.
pub fn cookie_file_path(runtime_dir: &FsPath, cookie_file_name: &str) -> (r: FsPath)
    ensures
        r@ == cookie_place(runtime_dir@, cookie_file_name@),
{
    runtime_dir.join("cookies").join(cookie_file_name)
}

/// What is wrong with a cookie file that the user hands in.
pub open spec fn import_fault(name: Seq<char>, content: Seq<char>) -> Option<CookieError> {
    match name_fault(name) {
        Some(error) => Some(error),
        None => if text::blank(content) {
            Some(CookieError::EmptyContent)
        } else {
            None
        },
    }
}

/// The name under which a cookie file is kept, and the place to write its content to.
pub fn import_cookies(runtime_dir: &FsPath, request: &ImportCookiesRequest) -> (r: Result<
    (ImportCookiesResponse, FsPath),
    CookieError,
>)
    ensures
        match r {
            Ok((response, path)) => {
                &&& import_fault(request.file_name@, request.content@) is None
                &&& response.cookie_file_name@ == kept_name(request.file_name@)
                &&& path@ == cookie_place(runtime_dir@, kept_name(request.file_name@))
            },
            Err(error) => import_fault(request.file_name@, request.content@) == Some(error),
        },
{
    match sanitize_cookie_file_name(request.file_name.as_str()) {
        Err(error) => Err(error),
        Ok(name) => {
            if text::is_blank(request.content.as_str()) {
                return Err(CookieError::EmptyContent);
            }
            let path = cookie_file_path(runtime_dir, name.as_str());
            Ok((ImportCookiesResponse { cookie_file_name: name }, path))
        },
    }
}

/// A setting without the white space around it; `None` where nothing is left.
pub open spec fn stated(value: Option<Seq<char>>) -> Option<Seq<char>> {
    match value {
        Some(s) => if text::blank(s) {
            None
        } else {
            Some(text::trimmed(s))
        },
        None => None,
    }
}

/// A setting without the white space around it; `None` where nothing is left.
pub fn normalized_cookie_value(value: Option<&str>) -> (r: Option<String>)
    ensures
        text::text_opt(r) == stated(text::str_opt(value)),
{
    match value {
        Some(s) => {
            let trimmed = text::trim(s);
            if trimmed.as_str().is_empty() {
                None
            } else {
                Some(trimmed)
            }
        },
        None => None,
    }
}

/// The browser, and where it is set its profile, to read cookies from.
pub open spec fn browser_source(
    browser: Option<Seq<char>>,
    profile: Option<Seq<char>>,
) -> Option<Seq<char>> {
    match stated(browser) {
        None => None,
        Some(name) => Some(
            match stated(profile) {
                Some(p) => text::lowered(name) + ":"@ + p,
                None => text::lowered(name),
            },
        ),
    }
}

/// The browser, and where it is set its profile, to read cookies from.
pub fn browser_cookie_spec(
    cookie_browser: Option<&str>,
    cookie_browser_profile: Option<&str>,
) -> (r: Option<String>)
    ensures
        text::text_opt(r) == browser_source(
            text::str_opt(cookie_browser),
            text::str_opt(cookie_browser_profile),
        ),
{
    match normalized_cookie_value(cookie_browser) {
        None => None,
        Some(name) => {
            let mut spec_text = text::to_lower(name.as_str());
            match normalized_cookie_value(cookie_browser_profile) {
                Some(profile) => {
                    spec_text.append(":");
                    spec_text.append(profile.as_str());
                    Some(spec_text)
                },
                None => Some(spec_text),
            }
        },
    }
}

/// The arguments that name the cookies to use: those of a browser, or else those of a file.
pub open spec fn cookie_args(
    runtime_dir: FsPathView,
    file_name: Option<Seq<char>>,
    browser: Option<Seq<char>>,
    profile: Option<Seq<char>>,
) -> Seq<ArgView> {
    match browser_source(browser, profile) {
        Some(source) => seq![ArgView::Text("--cookies-from-browser"@), ArgView::Text(source)],
        None => match stated(file_name) {
            Some(name) => seq![
                ArgView::Text("--cookies"@),
                ArgView::Path(cookie_place(runtime_dir, name)),
            ],
            None => Seq::empty(),
        },
    }
}

/// Adds the arguments that name the cookies to use.
pub fn apply_cookie_arguments(
    args: &mut Vec<CommandArg>,
    runtime_dir: &FsPath,
    cookie_file_name: Option<&str>,
    cookie_browser: Option<&str>,
    cookie_browser_profile: Option<&str>,
)
    ensures
        command::args_view(final(args)@) == command::args_view(old(args)@) + cookie_args(
            runtime_dir@,
            text::str_opt(cookie_file_name),
            text::str_opt(cookie_browser),
            text::str_opt(cookie_browser_profile),
        ),
{
    let ghost before = command::args_view(args@);
    if let Some(source) = browser_cookie_spec(cookie_browser, cookie_browser_profile) {
        command::push_text(args, "--cookies-from-browser");
        command::push_text(args, source.as_str());
        assert(command::args_view(args@) =~= before + seq![
            ArgView::Text("--cookies-from-browser"@),
            ArgView::Text(source@),
        ]);
        return ;
    }
    if let Some(name) = normalized_cookie_value(cookie_file_name) {
        command::push_text(args, "--cookies");
        let path = cookie_file_path(runtime_dir, name.as_str());
        command::push_path(args, &path);
        assert(command::args_view(args@) =~= before + seq![
            ArgView::Text("--cookies"@),
            ArgView::Path(path@),
        ]);
        return ;
    }
    assert(before + Seq::<ArgView>::empty() =~= before);
}

/// What is wrong with a choice of cookies.
pub open spec fn preference_fault(
    file_name: Option<Seq<char>>,
    browser: Option<Seq<char>>,
    profile: Option<Seq<char>>,
) -> Option<CookieError> {
    let named = match stated(file_name) {
        Some(name) => name_fault(name),
        None => None,
    };
    match named {
        Some(error) => Some(error),
        None => if stated(browser) is None && stated(profile) is Some {
            Some(CookieError::ProfileWithoutBrowser)
        } else {
            None
        },
    }
}

/// Refuses a choice of cookies that makes no sense.
pub fn validate_cookie_preferences(
    cookie_file_name: Option<&str>,
    cookie_browser: Option<&str>,
    cookie_browser_profile: Option<&str>,
) -> (r: Result<(), CookieError>)
    ensures
        ({
            let fault = preference_fault(
                text::str_opt(cookie_file_name),
                text::str_opt(cookie_browser),
                text::str_opt(cookie_browser_profile),
            );
            match r {
                Ok(_) => fault is None,
                Err(error) => fault == Some(error),
            }
        }),
{
    if let Some(name) = normalized_cookie_value(cookie_file_name) {
        if let Err(error) = sanitize_cookie_file_name(name.as_str()) {
            return Err(error);
        }
    }
    if normalized_cookie_value(cookie_browser).is_none() && normalized_cookie_value(
        cookie_browser_profile,
    ).is_some() {
        return Err(CookieError::ProfileWithoutBrowser);
    }
    Ok(())
}

/// The message says that the cookie database of a browser could not be read.
pub open spec fn database_blocked(message: Seq<char>) -> bool {
    let m = text::lowered(message);
    text::occurs(m, "could not copy chrome cookie database"@) || (text::occurs(
        m,
        "permission denied"@,
    ) && text::occurs(m, "network\\cookies"@))
}

/// What to tell the user where the cookie database of a browser could not be read.
pub open spec fn database_advice() -> Seq<char> {
    "Windows blocked access to the Chromium cookie database. Easiest fixes: fully close Chrome/Edge/Brave and retry; or switch cookie source to Firefox; or fall back to a manually exported cookies.txt file."@
}

/// Advice on an error message of yt-dlp that is about cookies.
pub fn explain_cookie_error(message: &str) -> (r: Option<String>)
    ensures
        text::text_opt(r) == (if database_blocked(message@) {
            Some(database_advice())
        } else {
            None
        }),
{
    let m = text::to_lower(message);
    if text::contains(m.as_str(), "could not copy chrome cookie database") || (text::contains(
        m.as_str(),
        "permission denied",
    ) && text::contains(m.as_str(), "network\\cookies")) {
        return Some(
            "Windows blocked access to the Chromium cookie database. Easiest fixes: fully close Chrome/Edge/Brave and retry; or switch cookie source to Firefox; or fall back to a manually exported cookies.txt file.".to_owned(),
        );
    }
    None
}

/// A kept cookie file lies in the cookie directory itself: its name holds no path separator, is
/// neither empty nor a directory of its own, and ends as a text file does.
pub proof fn kept_names_stay_in_the_directory(value: Seq<char>)
    requires
        name_fault(value) is None,
    ensures
        forall|i: int| 0 <= i < kept_name(value).len() ==> safe(#[trigger] kept_name(value)[i]),
        kept_name(value).len() >= 4,
        text::ends(text::lowered(kept_name(value)), ".txt"@),
{
    reveal_strlit(".txt");
    let name = cleaned(text::trimmed(value));
    let k = kept_name(value);
    if !text::ends(text::lowered(name), ".txt"@) {
        assert(text::lowered(k).subrange(k.len() - 4, k.len() as int) =~= ".txt"@);
    }
}

/// Keeping a kept name changes nothing.
pub proof fn keeping_is_idempotent(value: Seq<char>)
    requires
        name_fault(value) is None,
    ensures
        kept_name(kept_name(value)) == kept_name(value),
{
    kept_names_stay_in_the_directory(value);
    let k = kept_name(value);
    assert(text::trimmed_front(k) == k) by {
        assert(safe(k[0]));
    }
    assert(text::trimmed_back(k) == k) by {
        assert(safe(k[k.len() - 1]));
    }
    assert(cleaned(k) =~= k);
}

}
