//! The directories of lazydeck, resolved from the XDG base directory variables.
//!
//! A variable is taken only when its value is an absolute path (an empty value counts as
//! unset); otherwise the standard location under `$HOME` is used, and without a `$HOME` a
//! directory in the system's temporary directory. Paths are Unix paths held as text.

use vstd::prelude::*;
use vstd::string::*;
use crate::keymap::{split_path, split_segments};
use crate::text::{chars_eq, to_chars};

verus! {

broadcast use vstd::seq_lib::group_seq_properties;

/// The environment the directories are resolved from, read afresh for every resolution.
pub struct DirEnv {
    /// `$HOME`.
    pub home: Option<String>,
    /// The system's temporary directory.
    pub temp_dir: String,
    pub xdg_config_home: Option<String>,
    pub xdg_data_home: Option<String>,
    pub xdg_state_home: Option<String>,
    pub xdg_cache_home: Option<String>,
}

/// A Unix path is absolute when it starts at the root.
pub open spec fn is_absolute(p: Seq<char>) -> bool {
    p.len() > 0 && p[0] == '/'
}

/// `base` joined with `p` (as `Path::join`): an absolute `p` replaces `base`, otherwise a
/// separator is put between them unless `base` is empty or already ends in one.
pub open spec fn join(base: Seq<char>, p: Seq<char>) -> Seq<char> {
    if is_absolute(p) {
        p
    } else if base.len() == 0 || base.last() == '/' {
        base + p
    } else {
        base + seq!['/'] + p
    }
}

/// The optional string as characters.
pub open spec fn opt_view(s: Option<String>) -> Option<Seq<char>> {
    match s {
        Some(x) => Some(x@),
        None => None,
    }
}

/// `$HOME` when it is set and not empty.
pub open spec fn home_of(home: Option<Seq<char>>) -> Option<Seq<char>> {
    match home {
        Some(h) => if h.len() > 0 {
            Some(h)
        } else {
            None
        },
        None => None,
    }
}

/// A base directory: the variable's value when it is absolute, else `fallback` under the
/// home directory, else nothing.
pub open spec fn base_dir(env_value: Option<Seq<char>>, home: Option<Seq<char>>, fallback: Seq<char>) -> Option<Seq<char>> {
    match env_value {
        Some(v) if is_absolute(v) => Some(v),
        _ => match home {
            Some(h) => Some(join(h, fallback)),
            None => None,
        },
    }
}

/// The lazydeck directory under a base directory, or under `temp_fallback` in the temporary
/// directory when there is no base directory.
pub open spec fn app_dir_spec(
    env_value: Option<Seq<char>>,
    env: DirEnv,
    fallback: Seq<char>,
    temp_fallback: Seq<char>,
) -> Seq<char> {
    let base = match base_dir(env_value, home_of(opt_view(env.home)), fallback) {
        Some(b) => b,
        None => join(env.temp_dir@, temp_fallback),
    };
    join(base, "lazydeck"@)
}

/// `base` joined with `p`.
pub fn join_path(base: &str, p: &str) -> (r: String)
    ensures
        r@ == join(base@, p@),
{
    let pn = p.unicode_len();
    if pn > 0 && p.get_char(0) == '/' {
        return String::from_str(p);
    }
    let bn = base.unicode_len();
    let mut r = String::from_str(base);
    if bn > 0 && base.get_char(bn - 1) != '/' {
        proof {
            reveal_strlit("/");
        }
        r.append("/");
    }
    r.append(p);
    r
}

/// `s` when it is set and not empty.
fn non_empty(s: &Option<String>) -> (r: Option<&String>)
    ensures
        match r {
            Some(x) => home_of(opt_view(*s)) == Some(x@),
            None => home_of(opt_view(*s)) is None,
        },
{
    match s {
        Some(x) => if x.as_str().is_empty() {
            None
        } else {
            Some(x)
        },
        None => None,
    }
}

/// Resolves a base directory (see `base_dir`).
pub fn resolve_base_dir(env_value: Option<&str>, home: Option<&str>, fallback: &str) -> (r: Option<String>)
    ensures
        r matches Some(x) ==> base_dir(
            match env_value {
                Some(v) => Some(v@),
                None => None,
            },
            match home {
                Some(h) => Some(h@),
                None => None,
            },
            fallback@,
        ) == Some(x@),
        r is None ==> base_dir(
            match env_value {
                Some(v) => Some(v@),
                None => None,
            },
            match home {
                Some(h) => Some(h@),
                None => None,
            },
            fallback@,
        ) is None,
{
    match env_value {
        Some(v) => {
            if v.unicode_len() > 0 && v.get_char(0) == '/' {
                return Some(String::from_str(v));
            }
        },
        None => {},
    }
    match home {
        Some(h) => Some(join_path(h, fallback)),
        None => None,
    }
}

fn app_dir(env_value: &Option<String>, env: &DirEnv, fallback: &str, temp_fallback: &str) -> (r: String)
    ensures
        r@ == app_dir_spec(opt_view(*env_value), *env, fallback@, temp_fallback@),
{
    let value = match env_value {
        Some(v) => Some(v.as_str()),
        None => None,
    };
    let home = match non_empty(&env.home) {
        Some(h) => Some(h.as_str()),
        None => None,
    };
    let base = match resolve_base_dir(value, home, fallback) {
        Some(b) => b,
        None => join_path(env.temp_dir.as_str(), temp_fallback),
    };
    proof {
        reveal_strlit("lazydeck");
    }
    join_path(base.as_str(), "lazydeck")
}

/// `$XDG_CONFIG_HOME/lazydeck`, by default `~/.config/lazydeck`.
pub open spec fn config_dir_spec(env: DirEnv) -> Seq<char> {
    app_dir_spec(opt_view(env.xdg_config_home), env, ".config"@, "lazydeck-config"@)
}

/// `$XDG_DATA_HOME/lazydeck`, by default `~/.local/share/lazydeck`.
pub open spec fn data_dir_spec(env: DirEnv) -> Seq<char> {
    app_dir_spec(opt_view(env.xdg_data_home), env, ".local/share"@, "lazydeck-data"@)
}

/// `$XDG_STATE_HOME/lazydeck`, by default `~/.local/state/lazydeck`.
pub open spec fn state_dir_spec(env: DirEnv) -> Seq<char> {
    app_dir_spec(opt_view(env.xdg_state_home), env, ".local/state"@, "lazydeck-state"@)
}

/// `$XDG_CACHE_HOME/lazydeck`, by default `~/.cache/lazydeck`.
pub open spec fn cache_dir_spec(env: DirEnv) -> Seq<char> {
    app_dir_spec(opt_view(env.xdg_cache_home), env, ".cache"@, "lazydeck-cache"@)
}

/// The configuration directory.
pub fn config_dir(env: &DirEnv) -> (r: String)
    ensures
        r@ == config_dir_spec(*env),
{
    app_dir(&env.xdg_config_home, env, ".config", "lazydeck-config")
}

/// The data directory.
pub fn data_dir(env: &DirEnv) -> (r: String)
    ensures
        r@ == data_dir_spec(*env),
{
    app_dir(&env.xdg_data_home, env, ".local/share", "lazydeck-data")
}

/// The state directory.
pub fn state_dir(env: &DirEnv) -> (r: String)
    ensures
        r@ == state_dir_spec(*env),
{
    app_dir(&env.xdg_state_home, env, ".local/state", "lazydeck-state")
}

/// The cache directory.
pub fn cache_dir(env: &DirEnv) -> (r: String)
    ensures
        r@ == cache_dir_spec(*env),
{
    app_dir(&env.xdg_cache_home, env, ".cache", "lazydeck-cache")
}

/// `s` holds exactly the text `lit`.
pub fn str_is(s: &str, lit: &str) -> (b: bool)
    ensures
        b == (s@ == lit@),
{
    let a = to_chars(s);
    let l = to_chars(lit);
    chars_eq(a.as_slice(), l.as_slice())
}

/// The lazydeck directory of a kind: `config`, `data`, `state` or `cache`.
pub fn stdpath(kind: &str, env: &DirEnv) -> (r: Option<String>)
    ensures
        opt_view(r) == if kind@ == "config"@ {
            Some(config_dir_spec(*env))
        } else if kind@ == "data"@ {
            Some(data_dir_spec(*env))
        } else if kind@ == "state"@ {
            Some(state_dir_spec(*env))
        } else if kind@ == "cache"@ {
            Some(cache_dir_spec(*env))
        } else {
            None
        },
{
    if str_is(kind, "config") {
        Some(config_dir(env))
    } else if str_is(kind, "data") {
        Some(data_dir(env))
    } else if str_is(kind, "state") {
        Some(state_dir(env))
    } else if str_is(kind, "cache") {
        Some(cache_dir(env))
    } else {
        None
    }
}

/// The default configuration file, `<config_dir>/init.lua`.
pub fn config_file(env: &DirEnv) -> (r: String)
    ensures
        r@ == join(config_dir_spec(*env), "init.lua"@),
{
    let d = config_dir(env);
    join_path(d.as_str(), "init.lua")
}

/// The log file of the application, `<state_dir>/lazydeck.log`.
pub fn rust_log_file(env: &DirEnv) -> (r: String)
    ensures
        r@ == join(state_dir_spec(*env), "lazydeck.log"@),
{
    let d = state_dir(env);
    join_path(d.as_str(), "lazydeck.log")
}

/// The log file of the Lua plugins, `<state_dir>/lua.log`.
pub fn lua_log_file(env: &DirEnv) -> (r: String)
    ensures
        r@ == join(state_dir_spec(*env), "lua.log"@),
{
    let d = state_dir(env);
    join_path(d.as_str(), "lua.log")
}

/// The last path component that is not `.` (as `Path::components` normalises it away).
pub open spec fn last_named(segs: Seq<Seq<char>>) -> Option<Seq<char>>
    decreases segs.len(),
{
    if segs.len() == 0 {
        None
    } else if segs.last() == seq!['.'] {
        last_named(segs.drop_last())
    } else {
        Some(segs.last())
    }
}

/// The final component of a path when it names a file or directory (`Path::file_name`).
pub open spec fn file_name(p: Seq<char>) -> Option<Seq<char>> {
    match last_named(split_segments(p)) {
        Some(n) => if n == seq!['.', '.'] {
            None
        } else {
            Some(n)
        },
        None => None,
    }
}

/// Position of the last `.` in `s`.
pub open spec fn last_dot(s: Seq<char>) -> Option<int>
    decreases s.len(),
{
    if s.len() == 0 {
        None
    } else if s.last() == '.' {
        Some(s.len() - 1)
    } else {
        last_dot(s.drop_last())
    }
}

/// The extension of a path (`Path::extension`): what follows the last `.` of its file name,
/// unless that `.` starts the name.
pub open spec fn extension(p: Seq<char>) -> Option<Seq<char>> {
    match file_name(p) {
        Some(n) => match last_dot(n) {
            Some(k) => if k == 0 {
                None
            } else {
                Some(n.skip(k + 1))
            },
            None => None,
        },
        None => None,
    }
}

proof fn lemma_last_dot_bound(s: Seq<char>)
    ensures
        last_dot(s) matches Some(k) ==> 0 <= k < s.len() && s[k] == '.',
    decreases s.len(),
{
    if s.len() > 0 && s.last() != '.' {
        lemma_last_dot_bound(s.drop_last());
    }
}

/// The file name of `path`, if any.
fn path_file_name(path: &str) -> (r: Option<Vec<char>>)
    ensures
        match r {
            Some(n) => file_name(path@) == Some(n@),
            None => file_name(path@) is None,
        },
{
    let segs = split_path(path);
    let ghost all = split_segments(path@);
    let mut i = segs.len();
    proof {
        reveal_strlit(".");
        assert(all.take(i as int) =~= all);
    }
    while i > 0 && str_is(segs[i - 1].as_str(), ".")
        invariant
            i <= segs@.len(),
            crate::keymap::strings_view(segs@) == all,
            last_named(all) == last_named(all.take(i as int)),
            "."@ == seq!['.'],
        decreases i,
    {
        proof {
            let t = all.take(i as int);
            assert(t.drop_last() =~= all.take(i - 1));
            assert(t.last() == seq!['.']);
        }
        i -= 1;
    }
    if i == 0 {
        proof {
            assert(all.take(0) =~= Seq::<Seq<char>>::empty());
        }
        return None;
    }
    proof {
        reveal_strlit("..");
        let t = all.take(i as int);
        assert(t.last() == segs@[i - 1]@);
        assert(last_named(all) == Some(segs@[i - 1]@));
    }
    let dots = str_is(segs[i - 1].as_str(), "..");
    proof {
        reveal_strlit("..");
        assert(".."@ =~= seq!['.', '.']);
    }
    if dots {
        return None;
    }
    Some(to_chars(segs[i - 1].as_str()))
}

/// The extension of a file name, if any.
fn name_extension(name: &Vec<char>) -> (r: Option<String>)
    ensures
        opt_view(r) == match last_dot(name@) {
            Some(k) => if k == 0 {
                None
            } else {
                Some(name@.skip(k + 1))
            },
            None => None,
        },
{
    let mut k = name.len();
    proof {
        assert(name@.take(k as int) =~= name@);
    }
    while k > 0 && name[k - 1] != '.'
        invariant
            k <= name@.len(),
            last_dot(name@) == last_dot(name@.take(k as int)),
        decreases k,
    {
        proof {
            assert(name@.take(k as int).drop_last() =~= name@.take(k - 1));
        }
        k -= 1;
    }
    if k == 0 {
        proof {
            assert(name@.take(0) =~= Seq::<char>::empty());
        }
        return None;
    }
    proof {
        assert(name@.take(k as int).last() == '.');
        assert(last_dot(name@) == Some(k - 1));
    }
    if k == 1 {
        return None;
    }
    let ext = crate::text::sub_chars(name, k, name.len());
    Some(crate::text::from_chars(ext.as_slice()))
}

/// The extension of `path`, if any.
pub fn path_extension(path: &str) -> (r: Option<String>)
    ensures
        opt_view(r) == extension(path@),
{
    match path_file_name(path) {
        Some(n) => name_extension(&n),
        None => None,
    }
}

/// The configuration file that a `--config` path names: a `.lua` file itself, else
/// `init.lua` in the directory.
pub fn resolve_config_path(path: &str) -> (r: String)
    ensures
        extension(path@) == Some("lua"@) ==> r@ == path@,
        extension(path@) != Some("lua"@) ==> r@ == join(path@, "init.lua"@),
{
    let is_lua = match path_extension(path) {
        Some(ext) => str_is(ext.as_str(), "lua"),
        None => false,
    };
    if is_lua {
        String::from_str(path)
    } else {
        join_path(path, "init.lua")
    }
}

/// Where the plugin cache keeps its files: `.cache/lazydeck/cache` under the home directory,
/// or `lazydeck_cache` in the temporary directory when there is no home.
pub fn plugin_cache_dir(home: Option<&str>, temp_dir: &str) -> (r: String)
    ensures
        r@ == match home {
            Some(h) => join(h@, ".cache/lazydeck/cache"@),
            None => join(temp_dir@, "lazydeck_cache"@),
        },
{
    match home {
        Some(h) => join_path(h, ".cache/lazydeck/cache"),
        None => join_path(temp_dir, "lazydeck_cache"),
    }
}

/// Where plugin secrets are kept: `.config/lazydeck/secrets` under the home directory, or
/// `/tmp/lazydeck_secrets` when there is no home.
pub fn secrets_dir(home: Option<&str>) -> (r: String)
    ensures
        r@ == match home {
            Some(h) => join(h@, ".config/lazydeck/secrets"@),
            None => "/tmp/lazydeck_secrets"@,
        },
{
    match home {
        Some(h) => join_path(h, ".config/lazydeck/secrets"),
        None => String::from_str("/tmp/lazydeck_secrets"),
    }
}

/// The file that plugin log messages go to: `.local/state/lazydeck/lua.log` under the home
/// directory, or `/tmp/lazydeck.log` when there is no home.
pub fn plugin_log_path(home: Option<&str>) -> (r: String)
    ensures
        r@ == match home {
            Some(h) => join(h@, ".local/state/lazydeck/lua.log"@),
            None => "/tmp/lazydeck.log"@,
        },
{
    match home {
        Some(h) => join_path(h, ".local/state/lazydeck/lua.log"),
        None => String::from_str("/tmp/lazydeck.log"),
    }
}

} // verus!
