//! The settings file: its defaults and where it lives. Reading and writing it
//! is left to the caller.

use vstd::prelude::*;
use crate::macos::Config as MacOSConfig;
use crate::text::{push_char, push_str};

verus! {

fn config_default_log_level() -> (r: String)
    ensures
        r@ == "INFO"@,
{
    String::from_str("INFO")
}

fn config_default_log_file() -> (r: Option<String>)
    ensures
        r is None,
{
    None
}

pub struct Config {
    /// Where the settings were read from; never written to the file.
    pub config_path: String,
    pub log_level: String,
    pub log_file: Option<String>,
    pub macos: MacOSConfig,
}

impl Config {
    pub open spec fn is_default(&self) -> bool {
        &&& self.config_path@ == Seq::<char>::empty()
        &&& self.log_level@ == "INFO"@
        &&& self.log_file is None
        &&& self.macos.is_default()
    }
}

impl Default for Config {
    fn default() -> (r: Config)
        ensures
            r.is_default(),
    {
        Config {
            config_path: String::new(),
            log_level: config_default_log_level(),
            log_file: config_default_log_file(),
            macos: MacOSConfig::default(),
        }
    }
}

/// `home` followed by `parts`, each after a separator; no separator is added
/// after a home directory that already ends in one.
pub open spec fn joined_path(home: Seq<char>, sep: char) -> Seq<char> {
    let base = if home.len() > 0 && home.last() == sep {
        home.drop_last()
    } else {
        home
    };
    base + seq![sep] + ".config"@ + seq![sep] + "clipboard_cleanse"@ + seq![sep] + "config.toml"@
}

/// The settings file: `.config/clipboard_cleanse/config.toml` under the home
/// directory, with `separator` between the parts.
pub fn get_config_file_path(home_dir: &str, separator: char) -> (r: String)
    ensures
        r@ == joined_path(home_dir@, separator),
{
    let n = home_dir.unicode_len();
    let base = if n > 0 && home_dir.get_char(n - 1) == separator {
        home_dir.substring_char(0, n - 1)
    } else {
        home_dir.substring_char(0, n)
    };
    assert(home_dir@.subrange(0, n as int) =~= home_dir@);
    assert(n > 0 ==> home_dir@.subrange(0, n - 1) =~= home_dir@.drop_last());
    let mut r = String::from_str(base);
    push_char(&mut r, separator);
    push_str(&mut r, ".config");
    push_char(&mut r, separator);
    push_str(&mut r, "clipboard_cleanse");
    push_char(&mut r, separator);
    push_str(&mut r, "config.toml");
    r
}

} // verus!
