//! Settings and the locations of the configuration directories.

use vstd::prelude::*;
use crate::text::push_str;

verus! {

/// The name of the configuration directory, in the home directory and in
/// projects.
pub const CONFIG_DIR_NAME: &'static str = ".piso";

/// The application settings.
#[derive(Debug, Clone)]
pub struct Config {
    pub model: Option<String>,
    pub provider: Option<String>,
    pub thinking: Option<String>,
    pub max_tokens: u32,
    pub session_dir: Option<String>,
}

impl Default for Config {
    /// No model, provider, thinking level or session directory, and an
    /// output limit of 16384 tokens.
    fn default() -> (c: Self)
        ensures
            c.model is None,
            c.provider is None,
            c.thinking is None,
            c.max_tokens == 16384,
            c.session_dir is None,
    {
        Config { model: None, provider: None, thinking: None, max_tokens: 16384, session_dir: None }
    }
}

impl Config {
    /// Applies the overrides of one settings file: each given value
    /// replaces the current one, the others stay.
    pub fn merge_overrides(&mut self, model: Option<String>, provider: Option<String>, thinking: Option<String>)
        ensures
            final(self).model == (if model is Some { model } else { old(self).model }),
            final(self).provider == (if provider is Some { provider } else { old(self).provider }),
            final(self).thinking == (if thinking is Some { thinking } else { old(self).thinking }),
            final(self).max_tokens == old(self).max_tokens,
            final(self).session_dir == old(self).session_dir,
    {
        if model.is_some() {
            self.model = model;
        }
        if provider.is_some() {
            self.provider = provider;
        }
        if thinking.is_some() {
            self.thinking = thinking;
        }
    }
}

/// `name` appended to the path `base` as `PathBuf::join` does for a
/// relative name: with a `/` between them unless `base` is empty or ends
/// with one.
pub open spec fn path_join(base: Seq<char>, name: Seq<char>) -> Seq<char> {
    if base.len() == 0 || base.last() == '/' {
        base + name
    } else {
        base + seq!['/'] + name
    }
}

/// Appends the relative path `name` to `base`.
pub fn join_path(base: &str, name: &str) -> (r: String)
    ensures
        r@ == path_join(base@, name@),
{
    let cs = crate::text::to_chars(base);
    let mut r = base.to_owned();
    if cs.len() > 0 && cs[cs.len() - 1] != '/' {
        crate::text::push_char(&mut r, '/');
    }
    push_str(&mut r, name);
    r
}

/// The user's home directory (`dirs::home_dir`), as text; it depends on
/// the environment, so nothing is promised of it.
#[verifier::external_body]
fn home_dir() -> Option<String> {
    dirs::home_dir().map(|h| h.to_string_lossy().into_owned())
}

/// The optional text of an optional string.
pub open spec fn opt_path(o: Option<String>) -> Option<Seq<char>> {
    match o {
        Some(s) => Some(s@),
        None => None,
    }
}

/// The configuration directory inside a home directory.
pub open spec fn config_dir_of(home: Option<Seq<char>>) -> Option<Seq<char>> {
    match home {
        Some(h) => Some(path_join(h, CONFIG_DIR_NAME@)),
        None => None,
    }
}

/// The configuration directory `.piso` inside the given home directory.
pub fn config_dir_in(home: Option<&str>) -> (r: Option<String>)
    ensures
        opt_path(r) == config_dir_of(match home {
            Some(h) => Some(h@),
            None => None,
        }),
{
    match home {
        Some(h) => Some(join_path(h, CONFIG_DIR_NAME)),
        None => None,
    }
}

/// The global configuration directory `~/.piso`, when the home directory
/// is known.
pub fn config_dir() -> (r: Option<String>)
    ensures
        exists|home: Option<Seq<char>>| opt_path(r) == config_dir_of(home),
{
    let home = home_dir();
    match &home {
        Some(h) => config_dir_in(Some(h.as_str())),
        None => config_dir_in(None),
    }
}

/// A subdirectory of the configuration directory.
pub open spec fn config_subdir(config_dir: Option<Seq<char>>, name: Seq<char>) -> Option<Seq<char>> {
    match config_dir {
        Some(d) => Some(path_join(d, name)),
        None => None,
    }
}

/// The sessions directory: the configured one, else `sessions` in the
/// given configuration directory.
pub fn session_dir_in(config: &Config, config_dir: Option<&str>) -> (r: Option<String>)
    ensures
        opt_path(r) == (match config.session_dir {
            Some(d) => Some(d@),
            None => config_subdir(
                match config_dir {
                    Some(c) => Some(c@),
                    None => None,
                },
                "sessions"@,
            ),
        }),
{
    match &config.session_dir {
        Some(d) => Some(d.clone()),
        None => match config_dir {
            Some(c) => Some(join_path(c, "sessions")),
            None => None,
        },
    }
}

/// The sessions directory: the configured one, else `~/.piso/sessions`.
pub fn session_dir(config: &Config) -> (r: Option<String>)
    ensures
        config.session_dir matches Some(d) ==> opt_path(r) == Some(d@),
        config.session_dir is None ==> exists|home: Option<Seq<char>>|
            opt_path(r) == config_subdir(config_dir_of(home), "sessions"@),
{
    let dir = config_dir();
    match &dir {
        Some(c) => session_dir_in(config, Some(c.as_str())),
        None => session_dir_in(config, None),
    }
}

/// The global skills directory `~/.piso/skills`.
pub fn skills_dir() -> (r: Option<String>)
    ensures
        exists|home: Option<Seq<char>>| opt_path(r) == config_subdir(config_dir_of(home), "skills"@),
{
    let dir = config_dir();
    match &dir {
        Some(c) => Some(join_path(c.as_str(), "skills")),
        None => None,
    }
}

/// The skills directory of a project: `<project>/.piso/skills`.
pub fn project_skills_dir(project_dir: &str) -> (r: String)
    ensures
        r@ == path_join(path_join(project_dir@, CONFIG_DIR_NAME@), "skills"@),
{
    let d = join_path(project_dir, CONFIG_DIR_NAME);
    join_path(d.as_str(), "skills")
}

} // verus!
