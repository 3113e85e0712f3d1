use vstd::prelude::*;

use crate::text::chars_of;

verus! {

/// Top-level guild configuration, loaded from `~/.guild/config.toml`.
#[derive(Debug, Clone)]
pub struct GuildConfig {
    pub user: UserConfig,
}

/// The apprentice the configuration belongs to.
#[derive(Debug, Clone)]
pub struct UserConfig {
    pub name: String,
    pub handle: String,
}

/// `base` joined with the relative or absolute path `rel`, as `Path::join` does
/// it on Unix: an absolute `rel` replaces `base`; otherwise `rel` is appended,
/// with a `/` between them unless `base` is empty or already ends with one.
pub open spec fn joined(base: Seq<char>, rel: Seq<char>) -> Seq<char> {
    if rel.len() > 0 && rel[0] == '/' {
        rel
    } else if base.len() == 0 || base.last() == '/' {
        base + rel
    } else {
        base + seq!['/'] + rel
    }
}

/// The optional string `o` as an optional sequence of characters.
pub open spec fn opt_chars(o: Option<&str>) -> Option<Seq<char>> {
    match o {
        Some(s) => Some(s@),
        None => None,
    }
}

/// The home directory: `home` where it is known, the current directory otherwise.
pub open spec fn home_or_current(home: Option<Seq<char>>) -> Seq<char> {
    match home {
        Some(h) => h,
        None => seq!['.'],
    }
}

/// The guild directory under the home directory `home`.
pub open spec fn guild_dir_of(home: Option<Seq<char>>) -> Seq<char> {
    joined(home_or_current(home), ".guild"@)
}

/// `base` joined with `rel` (see `joined`).
pub fn join_path(base: &str, rel: &str) -> (r: String)
    ensures
        r@ == joined(base@, rel@),
{
    let base_chars = chars_of(base);
    let rel_chars = chars_of(rel);
    if rel_chars.len() > 0 && rel_chars[0] == '/' {
        return String::from_str(rel);
    }
    let mut r = String::from_str(base);
    if !(base_chars.len() == 0 || base_chars[base_chars.len() - 1] == '/') {
        r.append("/");
        proof {
            reveal_strlit("/");
        }
    }
    r.append(rel);
    r
}

/// The home directory given as `HOME`, or the current directory where it is unset.
fn dirs_or_home(home: Option<&str>) -> (r: String)
    ensures
        r@ == home_or_current(opt_chars(home)),
{
    match home {
        Some(h) => String::from_str(h),
        None => {
            proof {
                reveal_strlit(".");
            }
            String::from_str(".")
        },
    }
}

impl GuildConfig {
    /// The default guild directory, `~/.guild/`, for the home directory `home`
    /// (the value of `HOME`, if set).
    pub fn guild_dir(home: Option<&str>) -> (r: String)
        ensures
            r@ == guild_dir_of(opt_chars(home)),
    {
        let h = dirs_or_home(home);
        join_path(h.as_str(), ".guild")
    }

    /// The default config file path, `~/.guild/config.toml`.
    pub fn default_path(home: Option<&str>) -> (r: String)
        ensures
            r@ == joined(guild_dir_of(opt_chars(home)), "config.toml"@),
    {
        let dir = Self::guild_dir(home);
        join_path(dir.as_str(), "config.toml")
    }
}

} // verus!
