//! The parts of the macOS front end that compute: its configuration defaults,
//! the pasteboard type names, the login-item status codes and the image
//! resizing modes. The Objective-C calls themselves stay with the caller.

use vstd::prelude::*;
use crate::text::{push_signed_decimal, signed_decimal};

verus! {

pub open spec fn strip_file_scheme(url: Seq<char>) -> Option<Seq<char>> {
    if url.len() >= 7 && url.take(7) == "file://"@ {
        Some(url.skip(7))
    } else {
        None
    }
}

/// The home directory, from the `file://` URL that the file manager reports
/// for it; `None` when the URL is not a `file://` URL.
pub fn get_home_directory(home_dir_url: &str) -> (r: Option<String>)
    ensures
        match r {
            Some(dir) => strip_file_scheme(home_dir_url@) == Some(dir@),
            None => strip_file_scheme(home_dir_url@) is None,
        },
{
    let prefix = "file://";
    proof {
        reveal_strlit("file://");
    }
    let n = home_dir_url.unicode_len();
    let p = prefix.unicode_len();
    if n < p {
        return None;
    }
    let mut i: usize = 0;
    while i < p
        invariant
            i <= p == prefix@.len() <= n == home_dir_url@.len(),
            p == 7,
            prefix@ == "file://"@,
            forall|j: int| 0 <= j < i ==> home_dir_url@[j] == prefix@[j],
        decreases p - i,
    {
        if home_dir_url.get_char(i) != prefix.get_char(i) {
            assert(home_dir_url@.take(p as int)[i as int] != prefix@[i as int]);
            return None;
        }
        i = i + 1;
    }
    assert(home_dir_url@.take(p as int) =~= prefix@);
    let rest = home_dir_url.substring_char(p, n);
    assert(rest@ =~= home_dir_url@.skip(p as int));
    Some(String::from_str(rest))
}

fn config_default_poll_interval_ms() -> (r: u64)
    ensures
        r == 500,
{
    500
}

fn config_default_log_level() -> (r: String)
    ensures
        r@ == "INFO"@,
{
    String::from_str("INFO")
}

fn config_default_log_file() -> (r: Option<String>)
    ensures
        r is None,
{
    None
}

/// The macOS settings: how often the pasteboard is polled, besides the shared
/// ones.
pub struct Config {
    pub config_path: String,
    pub log_level: String,
    pub log_file: Option<String>,
    pub poll_interval_ms: u64,
}

impl Config {
    pub open spec fn is_default(&self) -> bool {
        &&& self.config_path@ == Seq::<char>::empty()
        &&& self.log_level@ == "INFO"@
        &&& self.log_file is None
        &&& self.poll_interval_ms == 500
    }
}

impl Default for Config {
    fn default() -> (r: Config)
        ensures
            r.is_default(),
    {
        Config {
            config_path: String::new(),
            log_level: config_default_log_level(),
            log_file: config_default_log_file(),
            poll_interval_ms: config_default_poll_interval_ms(),
        }
    }
}

pub enum NSPasteboardType {
    Url,
    CollaborationMetadata,
    Color,
    FileContents,
    FileURL,
    FindPanelSearchOptions,
    Font,
    Html,
    MultipleTextSelection,
    Pdf,
    Png,
    Rtf,
    Rtfd,
    Ruler,
    Sound,
    String,
    TabularText,
    TextFinderOptions,
    Tiff,
}

/// The pasteboard types that have a uniform type identifier here.
pub open spec fn has_type_name(pbt: NSPasteboardType) -> bool {
    !(pbt is CollaborationMetadata) && !(pbt is FileContents)
}

pub open spec fn pasteboard_type_name(pbt: NSPasteboardType) -> Seq<char> {
    match pbt {
        NSPasteboardType::Url => "public.url"@,
        NSPasteboardType::Color => "com.apple.cocoa.pasteboard.color"@,
        NSPasteboardType::FileURL => "public.file-url"@,
        NSPasteboardType::FindPanelSearchOptions => "com.apple.cocoa.pasteboard.find-panel-search-options"@,
        NSPasteboardType::Font => "com.apple.cocoa.pasteboard.character-formatting"@,
        NSPasteboardType::Html => "public.html"@,
        NSPasteboardType::MultipleTextSelection => "com.apple.cocoa.pasteboard.multiple-text-selection"@,
        NSPasteboardType::Pdf => "com.adobe.pdf"@,
        NSPasteboardType::Png => "public.png"@,
        NSPasteboardType::Rtf => "public.rtf"@,
        NSPasteboardType::Rtfd => "com.apple.flat-rtfd"@,
        NSPasteboardType::Ruler => "com.apple.cocoa.pasteboard.paragraph-formatting"@,
        NSPasteboardType::Sound => "com.apple.cocoa.pasteboard.sound"@,
        NSPasteboardType::String => "public.utf8-plain-text"@,
        NSPasteboardType::TabularText => "public.utf8-tab-separated-values-text"@,
        NSPasteboardType::TextFinderOptions => "com.apple.cocoa.pasteboard.find-panel-search-options"@,
        NSPasteboardType::Tiff => "public.tiff"@,
        _ => Seq::<char>::empty(),
    }
}

/// The uniform type identifier of a pasteboard type.
pub fn pasteboard_type_to_string(pbt: &NSPasteboardType) -> (r: String)
    requires
        has_type_name(*pbt),
    ensures
        r@ == pasteboard_type_name(*pbt),
{
    let name = match pbt {
        NSPasteboardType::Url => "public.url",
        NSPasteboardType::Color => "com.apple.cocoa.pasteboard.color",
        NSPasteboardType::FileURL => "public.file-url",
        NSPasteboardType::FindPanelSearchOptions => "com.apple.cocoa.pasteboard.find-panel-search-options",
        NSPasteboardType::Font => "com.apple.cocoa.pasteboard.character-formatting",
        NSPasteboardType::Html => "public.html",
        NSPasteboardType::MultipleTextSelection => "com.apple.cocoa.pasteboard.multiple-text-selection",
        NSPasteboardType::Pdf => "com.adobe.pdf",
        NSPasteboardType::Png => "public.png",
        NSPasteboardType::Rtf => "public.rtf",
        NSPasteboardType::Rtfd => "com.apple.flat-rtfd",
        NSPasteboardType::Ruler => "com.apple.cocoa.pasteboard.paragraph-formatting",
        NSPasteboardType::Sound => "com.apple.cocoa.pasteboard.sound",
        NSPasteboardType::String => "public.utf8-plain-text",
        NSPasteboardType::TabularText => "public.utf8-tab-separated-values-text",
        NSPasteboardType::TextFinderOptions => "com.apple.cocoa.pasteboard.find-panel-search-options",
        NSPasteboardType::Tiff => "public.tiff",
        NSPasteboardType::CollaborationMetadata => "",
        NSPasteboardType::FileContents => "",
    };
    String::from_str(name)
}

/// The registration state of the app as a login item.
#[derive(Clone, Copy, Debug, PartialEq, Eq)]
pub enum SMAppServiceStatus {
    NotRegistered,
    Enabled,
    RequiresApproval,
    ErrorAndNotFound,
}

impl SMAppServiceStatus {
    /// The status code that the service management framework reports.
    pub open spec fn code(self) -> int {
        match self {
            SMAppServiceStatus::NotRegistered => 0,
            SMAppServiceStatus::Enabled => 1,
            SMAppServiceStatus::RequiresApproval => 2,
            SMAppServiceStatus::ErrorAndNotFound => 3,
        }
    }

    pub fn raw_value(&self) -> (r: isize)
        ensures
            r as int == self.code(),
    {
        match self {
            SMAppServiceStatus::NotRegistered => 0,
            SMAppServiceStatus::Enabled => 1,
            SMAppServiceStatus::RequiresApproval => 2,
            SMAppServiceStatus::ErrorAndNotFound => 3,
        }
    }

    /// Reads a status code; codes other than 0 to 3 are refused.
    pub fn try_from(value: isize) -> (r: Result<SMAppServiceStatus, String>)
        ensures
            match r {
                Ok(status) => status.code() == value as int,
                Err(msg) => (value < 0 || value > 3) && msg@ == "Expected value between 0-3, but got "@
                    + signed_decimal(value as int),
            },
    {
        match value {
            0 => Ok(SMAppServiceStatus::NotRegistered),
            1 => Ok(SMAppServiceStatus::Enabled),
            2 => Ok(SMAppServiceStatus::RequiresApproval),
            3 => Ok(SMAppServiceStatus::ErrorAndNotFound),
            _ => {
                let mut msg = String::from_str("Expected value between 0-3, but got ");
                push_signed_decimal(&mut msg, value);
                Err(msg)
            },
        }
    }
}

/// What toggling the login item does.
#[derive(Clone, Copy, Debug, PartialEq, Eq)]
pub enum LoginItemAction {
    Unregister,
    Register,
    /// The user has to approve the login item in System Settings.
    OpenSystemSettings,
    /// The status could not be read: flag an error.
    ReportError,
}

pub open spec fn login_item_action_for(status: Result<SMAppServiceStatus, String>) -> LoginItemAction {
    match status {
        Ok(SMAppServiceStatus::Enabled) => LoginItemAction::Unregister,
        Ok(SMAppServiceStatus::NotRegistered) => LoginItemAction::Register,
        Ok(SMAppServiceStatus::ErrorAndNotFound) => LoginItemAction::Register,
        Ok(SMAppServiceStatus::RequiresApproval) => LoginItemAction::OpenSystemSettings,
        Err(_) => LoginItemAction::ReportError,
    }
}

/// What toggling the login item does, given its current status: an enabled
/// item is unregistered, a missing one registered.
pub fn login_item_action(status: &Result<SMAppServiceStatus, String>) -> (r: LoginItemAction)
    ensures
        r == login_item_action_for(*status),
{
    match status {
        Ok(SMAppServiceStatus::Enabled) => LoginItemAction::Unregister,
        Ok(SMAppServiceStatus::NotRegistered) => LoginItemAction::Register,
        Ok(SMAppServiceStatus::ErrorAndNotFound) => LoginItemAction::Register,
        Ok(SMAppServiceStatus::RequiresApproval) => LoginItemAction::OpenSystemSettings,
        Err(_) => LoginItemAction::ReportError,
    }
}

/// The badge shown on the login-item menu entry.
pub fn login_item_badge(status: &Result<SMAppServiceStatus, String>) -> (r: &'static str)
    ensures
        r@ == if *status is Ok && status->Ok_0 == SMAppServiceStatus::Enabled {
            "Enabled"@
        } else {
            "Disabled"@
        },
{
    match status {
        Ok(SMAppServiceStatus::Enabled) => "Enabled",
        _ => "Disabled",
    }
}

/// How an image fills a larger area.
#[derive(Clone, Copy, Debug, PartialEq, Eq)]
pub enum NSImageResizingMode {
    Tile,
    Stretch,
}

impl NSImageResizingMode {
    /// The value AppKit uses for the mode.
    pub fn raw_value(&self) -> (r: i64)
        ensures
            r == match self {
                NSImageResizingMode::Tile => 0i64,
                NSImageResizingMode::Stretch => 1i64,
            },
    {
        match self {
            NSImageResizingMode::Tile => 0,
            NSImageResizingMode::Stretch => 1,
        }
    }
}

} // verus!
