//! Application settings and the sensitive-content filter.

use vstd::prelude::*;
use crate::paths::{config_dir, join_path, path_under};
use crate::text::{chars_of, contains_chars, contains_str};

verus! {

/// Application-wide settings.
#[derive(Debug)]
pub struct Settings {
    /// Maximum clipboard entries to retain.
    pub max_history: usize,
    /// How often to poll the clipboard (milliseconds).
    pub poll_interval_ms: u64,
    /// Entries larger than this byte count are ignored.
    pub max_entry_size: usize,
    /// Substrings that trigger the "sensitive content" filter.
    pub ignored_patterns: Vec<String>,
    /// GitHub repository slug used for the version check.
    pub github_repo: String,
    /// Version string recorded with the settings.
    pub version: String,
}

/// The version this library was built as.
pub open spec fn package_version() -> Seq<char> {
    "0.1.0"@
}

/// The version this library was built as.
pub fn default_version() -> (s: String)
    ensures
        s@ == package_version(),
{
    String::from_str("0.1.0")
}

/// The patterns that the default settings treat as sensitive.
pub open spec fn default_patterns() -> Seq<Seq<char>> {
    seq![
        "password"@,
        "passwd"@,
        "token"@,
        "secret"@,
        "api_key"@,
        "apikey"@,
        "private_key"@,
    ]
}

/// The Unicode lower-case form of a string, as `str::to_lowercase` gives it.
pub uninterp spec fn lowercase(s: Seq<char>) -> Seq<char>;

/// `str::to_lowercase`: its result is the lower-case form that the name
/// `lowercase` stands for; nothing more is stated of that form.
#[verifier::external_body]
pub(crate) fn to_lowercase(s: &str) -> (r: String)
    ensures
        r@ == lowercase(s@),
{
    s.to_lowercase()
}

/// Some pattern occurs in `text`.
pub open spec fn matches_any(text: Seq<char>, patterns: Seq<String>) -> bool {
    exists|i: int| 0 <= i < patterns.len() && contains_str(text, #[trigger] patterns[i]@)
}

/// Whether one of `patterns` occurs in `text` (compared as given, without
/// changing case).
pub fn contains_any(text: &str, patterns: &Vec<String>) -> (b: bool)
    ensures
        b == matches_any(text@, patterns@),
{
    let hay = chars_of(text);
    let n = patterns.len();
    let mut i: usize = 0;
    while i < n
        invariant
            n == patterns@.len(),
            hay@ == text@,
            i <= n,
            forall|k: int| 0 <= k < i ==> !contains_str(text@, #[trigger] patterns@[k]@),
        decreases n - i,
    {
        let needle = chars_of(patterns[i].as_str());
        if contains_chars(&hay, &needle) {
            return true;
        }
        i += 1;
    }
    false
}

/// The path of the settings file under the configuration directory
/// `config_dir` (`/tmp` when there is none).
pub open spec fn settings_path_in(config_dir: Option<Seq<char>>) -> Seq<char> {
    path_under(config_dir, seq!["clipdeck"@, "settings.json"@])
}

impl Settings {
    /// Returns `true` if the text looks like sensitive content: one of the
    /// ignored patterns occurs in its lower-case form.
    pub fn is_sensitive(&self, content: &str) -> (b: bool)
        ensures
            b == matches_any(lowercase(content@), self.ignored_patterns@),
    {
        let lower = to_lowercase(content);
        contains_any(lower.as_str(), &self.ignored_patterns)
    }

    /// Path to the settings file, `<config dir>/clipdeck/settings.json`.
    pub fn config_path_in(config_dir: Option<&str>) -> (p: String)
        ensures
            p@ == settings_path_in(match config_dir {
                Some(d) => Some(d@),
                None => None,
            }),
    {
        join_path(config_dir, "clipdeck", "settings.json")
    }

    /// Path to the settings file under the user's configuration directory.
    pub fn config_path() -> (p: String)
        ensures
            exists|d: Option<Seq<char>>| #[trigger] settings_path_in(d) == p@,
    {
        let dir = config_dir();
        match dir {
            Some(d) => Self::config_path_in(Some(d.as_str())),
            None => Self::config_path_in(None),
        }
    }
}

impl Default for Settings {
    fn default() -> (s: Settings)
        ensures
            s.max_history == 50,
            s.poll_interval_ms == 500,
            s.max_entry_size == 1024 * 1024,
            s.ignored_patterns@.len() == default_patterns().len(),
            forall|i: int| 0 <= i < s.ignored_patterns@.len() ==> #[trigger] s.ignored_patterns@[i]@ == default_patterns()[i],
            s.github_repo@ == "yourusername/clipdeck"@,
            s.version@ == package_version(),
    {
        let patterns = vec![
            String::from_str("password"),
            String::from_str("passwd"),
            String::from_str("token"),
            String::from_str("secret"),
            String::from_str("api_key"),
            String::from_str("apikey"),
            String::from_str("private_key"),
        ];
        Settings {
            max_history: 50,
            poll_interval_ms: 500,
            max_entry_size: 1024 * 1024,
            ignored_patterns: patterns,
            github_repo: String::from_str("yourusername/clipdeck"),
            version: default_version(),
        }
    }
}

} // verus!
