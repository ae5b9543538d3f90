//! Where to listen and which directory to serve, read from the text of a
//! configuration file.

use vstd::prelude::*;

verus! {

/// The pattern that a configuration file has to hold. Its group `addr` is
/// the address to listen on, its optional group `home` the document root.
pub const CONFIG_PATTERN: &'static str =
    "config\\s+rust-simple-http-server\\s+'main'\n\\s+list\\s+listen_http\\s'(?<addr>\\d+\\.\\d+\\.\\d+.\\d:\\d+)'\n(?:\\s+option\\shome\\s'(?<home>.+?)')?";

/// The address to listen on where the configuration names none.
pub const DEFAULT_LISTEN: &'static str = "0.0.0.0:8000";

/// The document root where the configuration names none.
pub const DEFAULT_HOME: &'static str = "/var/www";

/// What a search for a pattern found.
#[derive(Debug, PartialEq, Eq)]
pub enum Search {
    /// The pattern is no regular expression.
    BadPattern,
    /// The pattern matches nowhere in the text.
    NoMatch,
    /// The text of two named groups in the first match; `None` for a group
    /// that took no part in the match.
    Groups(Option<String>, Option<String>),
}

/// What a search for a pattern found, as a mathematical value.
pub enum SearchView {
    BadPattern,
    NoMatch,
    Groups(Option<Seq<char>>, Option<Seq<char>>),
}

/// The characters of an optional string.
pub open spec fn chars_of(text: Option<String>) -> Option<Seq<char>> {
    match text {
        Some(text) => Some(text@),
        None => None,
    }
}

impl View for Search {
    type V = SearchView;

    open spec fn view(&self) -> SearchView {
        match self {
            Search::BadPattern => SearchView::BadPattern,
            Search::NoMatch => SearchView::NoMatch,
            Search::Groups(first, second) => SearchView::Groups(chars_of(*first), chars_of(*second)),
        }
    }
}

/// What the regular expression `pattern` finds in `text` for its groups
/// named `first` and `second`: that the pattern is no regular expression,
/// that it matches nowhere, or the text of the two groups in its first
/// match. The value is that of the `regex` crate; nothing is stated of it
/// here.
pub uninterp spec fn regex_search(
    pattern: Seq<char>,
    text: Seq<char>,
    first: Seq<char>,
    second: Seq<char>,
) -> SearchView;

/// Not proved: compiles `pattern` with `regex::Regex::new`, searches `text`
/// with `regex::Regex::captures`, and reads the two groups with
/// `regex::Captures::name` and `regex::Match::as_str`. The contract claims
/// only that the outcome is a function of the four strings, the one that
/// `regex_search` names.
#[verifier::external_body]
fn search(pattern: &str, text: &str, first: &str, second: &str) -> (found: Search)
    ensures
        found@ == regex_search(pattern@, text@, first@, second@),
{
    match regex::Regex::new(pattern) {
        Err(_) => Search::BadPattern,
        Ok(re) => match re.captures(text) {
            None => Search::NoMatch,
            Some(caps) => Search::Groups(
                caps.name(first).map(|m| m.as_str().to_string()),
                caps.name(second).map(|m| m.as_str().to_string()),
            ),
        },
    }
}

/// Where to listen and which directory to serve.
#[derive(Debug, PartialEq, Eq)]
pub struct Config {
    pub listen: String,
    pub home: String,
}

/// A configuration as a mathematical value.
pub struct ConfigView {
    pub listen: Seq<char>,
    pub home: Seq<char>,
}

impl View for Config {
    type V = ConfigView;

    open spec fn view(&self) -> ConfigView {
        ConfigView { listen: self.listen@, home: self.home@ }
    }
}

/// The configuration used where none is given.
pub open spec fn defaults() -> ConfigView {
    ConfigView { listen: DEFAULT_LISTEN@, home: DEFAULT_HOME@ }
}

/// The configuration that follows from a search of the configuration text:
/// the address found, with the document root found or, where none or an
/// empty one was found, the default one; the defaults where no address was
/// found.
pub open spec fn config_from(found: SearchView) -> ConfigView {
    match found {
        SearchView::Groups(Some(listen), Some(home)) => ConfigView {
            listen,
            home: if home.len() == 0 {
                DEFAULT_HOME@
            } else {
                home
            },
        },
        SearchView::Groups(Some(listen), None) => ConfigView { listen, home: DEFAULT_HOME@ },
        _ => defaults(),
    }
}

/// The configuration used where none is given.
pub fn default_config() -> (config: Config)
    ensures
        config@ == defaults(),
{
    Config { listen: DEFAULT_LISTEN.to_owned(), home: DEFAULT_HOME.to_owned() }
}

/// The configuration that follows from a search of the configuration text.
pub fn resolve(found: Search) -> (config: Config)
    ensures
        config@ == config_from(found@),
{
    match found {
        Search::Groups(Some(listen), Some(home)) => {
            if home.as_str().is_empty() {
                Config { listen, home: DEFAULT_HOME.to_owned() }
            } else {
                Config { listen, home }
            }
        },
        Search::Groups(Some(listen), None) => Config { listen, home: DEFAULT_HOME.to_owned() },
        _ => default_config(),
    }
}

/// The configuration that the text of a configuration file gives.
pub fn parse_config(contents: &str) -> (config: Config)
    ensures
        config@ == config_from(regex_search(CONFIG_PATTERN@, contents@, "addr"@, "home"@)),
{
    resolve(search(CONFIG_PATTERN, contents, "addr", "home"))
}

/// The configuration for the text of the configuration file, or the
/// defaults where there is no such file.
pub fn load_config(contents: Option<&str>) -> (config: Config)
    ensures
        config@ == match contents {
            Some(text) => config_from(regex_search(CONFIG_PATTERN@, text@, "addr"@, "home"@)),
            None => defaults(),
        },
{
    match contents {
        Some(text) => parse_config(text),
        None => default_config(),
    }
}

} // verus!
