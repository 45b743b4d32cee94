//! Running external programs for plugins: which editor to start, the names of temporary
//! files, and how a command that failed to start is reported.

use vstd::prelude::*;
use crate::cache::hex_digit;
use crate::command::{shell_split, split_words};
use crate::keymap::strings_view;
use crate::paths::{extension, opt_view, path_extension};
use crate::text::{from_chars, sub_chars, to_chars, trim, trim_chars};
use crate::time::{decimal, decimal_string};

verus! {

broadcast use vstd::seq_lib::group_seq_properties;

/// An editor command that cannot be run.
#[derive(Debug, PartialEq, Eq)]
pub enum EditorError {
    /// `$VISUAL`/`$EDITOR` does not split into words.
    Parse,
    /// The command has no word.
    Empty,
}

impl EditorError {
    /// The error message.
    pub fn message(&self) -> (m: &'static str)
        ensures
            self is Parse ==> m@ == "Failed to parse $VISUAL/$EDITOR"@,
            self is Empty ==> m@ == "Empty editor command"@,
    {
        match self {
            EditorError::Parse => "Failed to parse $VISUAL/$EDITOR",
            EditorError::Empty => "Empty editor command",
        }
    }
}

/// A variable's value when it holds more than blanks.
pub open spec fn non_blank(v: Option<Seq<char>>) -> Option<Seq<char>> {
    match v {
        Some(s) => if trim(s).len() > 0 {
            Some(s)
        } else {
            None
        },
        None => None,
    }
}

/// The editor to start: `$VISUAL`, else `$EDITOR`, else `vi`.
pub open spec fn chosen_editor(visual: Option<Seq<char>>, editor: Option<Seq<char>>) -> Seq<char> {
    match non_blank(visual) {
        Some(v) => v,
        None => match non_blank(editor) {
            Some(e) => e,
            None => "vi"@,
        },
    }
}

fn non_blank_exec(v: Option<&str>) -> (r: Option<&str>)
    ensures
        match v {
            Some(s) => if trim(s@).len() > 0 {
                r == Some(s)
            } else {
                r is None
            },
            None => r is None,
        },
{
    match v {
        Some(s) => {
            let c = to_chars(s);
            if trim_chars(&c).len() > 0 {
                Some(s)
            } else {
                None
            }
        },
        None => None,
    }
}

/// The editor command as words (see `chosen_editor`), split as a shell would.
pub fn editor_command(visual: Option<&str>, editor: Option<&str>) -> (r: Result<Vec<String>, EditorError>)
    ensures
        ({
            let c = chosen_editor(
                match visual {
                    Some(v) => Some(v@),
                    None => None,
                },
                match editor {
                    Some(e) => Some(e@),
                    None => None,
                },
            );
            match shell_split(c) {
                None => r == Err::<Vec<String>, EditorError>(EditorError::Parse),
                Some(words) => if words.len() == 0 {
                    r == Err::<Vec<String>, EditorError>(EditorError::Empty)
                } else {
                    r matches Ok(w) && strings_view(w@) == words
                },
            }
        }),
{
    let chosen = match non_blank_exec(visual) {
        Some(v) => v,
        None => match non_blank_exec(editor) {
            Some(e) => e,
            None => "vi",
        },
    };
    match split_words(chosen) {
        None => Err(EditorError::Parse),
        Some(words) => {
            if words.len() == 0 {
                Err(EditorError::Empty)
            } else {
                Ok(words)
            }
        },
    }
}

/// `s` without the dots it starts with.
pub open spec fn strip_dots(s: Seq<char>) -> Seq<char>
    decreases s.len(),
{
    if s.len() > 0 && s[0] == '.' {
        strip_dots(s.skip(1))
    } else {
        s
    }
}

fn strip_dots_exec(s: &Vec<char>) -> (r: Vec<char>)
    ensures
        r@ == strip_dots(s@),
{
    let mut k: usize = 0;
    let n = s.len();
    assert(s@.skip(0) =~= s@);
    while k < n && s[k] == '.'
        invariant
            k <= n,
            n == s@.len(),
            strip_dots(s@) == strip_dots(s@.skip(k as int)),
        decreases n - k,
    {
        assert(s@.skip(k as int).skip(1) =~= s@.skip(k + 1));
        k += 1;
    }
    let r = sub_chars(s, k, n);
    assert(r@ =~= s@.skip(k as int));
    r
}

/// The suffix of a file to edit: the extension asked for (trimmed, without leading dots),
/// else that of the path hinted at, each after a dot; nothing when there is neither.
pub open spec fn edit_suffix_of(path_hint: Option<Seq<char>>, ext_hint: Option<Seq<char>>) -> Seq<char> {
    match ext_hint {
        Some(e) if trim(e).len() > 0 => seq!['.'] + strip_dots(trim(e)),
        _ => match path_hint {
            Some(p) => match extension(p) {
                Some(x) => seq!['.'] + x,
                None => Seq::empty(),
            },
            None => Seq::empty(),
        },
    }
}

/// The suffix of a file to edit (see `edit_suffix_of`).
pub fn edit_suffix(path_hint: Option<&str>, ext_hint: Option<&str>) -> (r: String)
    ensures
        r@ == edit_suffix_of(
            match path_hint {
                Some(p) => Some(p@),
                None => None,
            },
            match ext_hint {
                Some(e) => Some(e@),
                None => None,
            },
        ),
{
    if let Some(e) = ext_hint {
        let t = trim_chars(&to_chars(e));
        if t.len() > 0 {
            let mut v: Vec<char> = Vec::new();
            v.push('.');
            let rest = strip_dots_exec(&t);
            let mut i: usize = 0;
            while i < rest.len()
                invariant
                    i <= rest@.len(),
                    v@ == seq!['.'] + rest@.take(i as int),
                decreases rest@.len() - i,
            {
                v.push(rest[i]);
                assert(rest@.take(i + 1) =~= rest@.take(i as int).push(rest[i as int]));
                i += 1;
            }
            assert(rest@.take(i as int) =~= rest@);
            return from_chars(v.as_slice());
        }
    }
    match path_hint {
        Some(p) => match path_extension(p) {
            Some(x) => {
                let mut r = String::from_str(".");
                r.append(x.as_str());
                proof {
                    reveal_strlit(".");
                    assert("."@ =~= seq!['.']);
                }
                r
            },
            None => {
                let r = String::new();
                assert(r@ =~= Seq::<char>::empty());
                r
            },
        },
        None => {
            let r = String::new();
            assert(r@ =~= Seq::<char>::empty());
            r
        },
    }
}

/// The name of the temporary file an editor opens: `lazydeck-edit-<pid>-<nanos><suffix>`.
pub fn edit_tempfile_name(pid: u32, nanos: u128, suffix: &str) -> (r: String)
    ensures
        r@ == "lazydeck-edit-"@ + decimal(pid as nat) + "-"@ + decimal(nanos as nat) + suffix@,
{
    let mut r = String::from_str("lazydeck-edit-");
    r.append(decimal_string(pid as u128).as_str());
    r.append("-");
    r.append(decimal_string(nanos).as_str());
    r.append(suffix);
    r
}

/// The lowercase hexadecimal notation of `n`.
pub open spec fn hex_lower(n: nat) -> Seq<char>
    decreases n,
{
    if n < 16 {
        seq![hex_digit(n as int)]
    } else {
        hex_lower(n / 16).push(hex_digit((n % 16) as int))
    }
}

fn hex_chars(n: u128) -> (v: Vec<char>)
    ensures
        v@ == hex_lower(n as nat),
    decreases n,
{
    let d = (n % 16) as u8;
    let c = if d < 10 {
        ((48u8 + d) as char)
    } else {
        ((87u8 + d) as char)
    };
    if n < 16 {
        let mut v: Vec<char> = Vec::new();
        v.push(c);
        v
    } else {
        let mut v = hex_chars(n / 16);
        v.push(c);
        v
    }
}

/// The name of a new temporary file: eight hexadecimal digits of the time in nanoseconds,
/// after the prefix (or `tmp.` without prefix and suffix) and before the suffix, which
/// follows a dot.
pub open spec fn tempfile_name_of(prefix: Option<Seq<char>>, suffix: Option<Seq<char>>, nanos: nat) -> Seq<char> {
    let r = hex_lower(nanos).take(8);
    match (prefix, suffix) {
        (Some(p), Some(s)) => p + r + seq!['.'] + strip_dots(s),
        (Some(p), None) => p + r,
        (None, Some(s)) => r + seq!['.'] + strip_dots(s),
        (None, None) => "tmp."@ + r,
    }
}

/// The name of a new temporary file (see `tempfile_name_of`); the time has at least eight
/// hexadecimal digits.
pub fn tempfile_name(prefix: Option<&str>, suffix: Option<&str>, nanos: u128) -> (r: String)
    requires
        hex_lower(nanos as nat).len() >= 8,
    ensures
        r@ == tempfile_name_of(
            match prefix {
                Some(p) => Some(p@),
                None => None,
            },
            match suffix {
                Some(s) => Some(s@),
                None => None,
            },
            nanos as nat,
        ),
{
    let hex = hex_chars(nanos);
    let head = sub_chars(&hex, 0, 8);
    assert(head@ =~= hex@.take(8));
    let random = from_chars(head.as_slice());
    let dotted = match suffix {
        Some(s) => {
            let rest = from_chars(strip_dots_exec(&to_chars(s)).as_slice());
            let mut d = String::from_str(".");
            d.append(rest.as_str());
            proof {
                reveal_strlit(".");
                assert("."@ =~= seq!['.']);
            }
            Some(d)
        },
        None => None,
    };
    let mut r = match prefix {
        Some(p) => String::from_str(p),
        None => if dotted.is_none() {
            String::from_str("tmp.")
        } else {
            String::new()
        },
    };
    r.append(random.as_str());
    if let Some(d) = dotted {
        r.append(d.as_str());
    }
    r
}

/// What a command that could not be started reports: exit code 127 and `command not found`
/// when the program does not exist, else exit code 1 and the error's text.
pub fn start_failure(not_found: bool, command: &str, detail: String) -> (r: (i32, String))
    ensures
        not_found ==> r.0 == 127 && r.1@ == "command not found: "@ + command@,
        !not_found ==> r.0 == 1 && r.1@ == detail@,
{
    if not_found {
        let mut m = String::from_str("command not found: ");
        m.append(command);
        (127, m)
    } else {
        (1, detail)
    }
}

/// The decimal text of a signed number.
pub open spec fn signed_decimal(n: int) -> Seq<char> {
    if n < 0 {
        seq!['-'] + decimal((-n) as nat)
    } else {
        decimal(n as nat)
    }
}

fn signed_decimal_string(n: i32) -> (r: String)
    ensures
        r@ == signed_decimal(n as int),
{
    if n < 0 {
        let magnitude: u128 = (0i64 - n as i64) as u128;
        let mut r = String::from_str("-");
        r.append(decimal_string(magnitude).as_str());
        proof {
            reveal_strlit("-");
        }
        r
    } else {
        decimal_string(n as u128)
    }
}

/// What an edit hands back to the plugin once the editor has exited with `exit_code` and
/// the file at `path` was read back (`read`): the file's bytes when they could be read, and
/// the error, if any: a nonzero exit code comes first, then a file that could not be read.
pub fn edit_result(exit_code: i32, read: Result<Vec<u8>, String>, path: &str) -> (r: (Option<Vec<u8>>, Option<String>))
    ensures
        match read {
            Ok(b) => r.0 matches Some(c) && c@ == b@,
            Err(_) => r.0 is None,
        },
        exit_code != 0 ==> (r.1 matches Some(e) && e@ == "Editor exited with code "@ + signed_decimal(
            exit_code as int,
        )),
        exit_code == 0 ==> match read {
            Ok(_) => r.1 is None,
            Err(reason) => r.1 matches Some(e) && e@ == "Failed to read edited file '"@ + path@ + "': "@ + reason@,
        },
{
    let mut error: Option<String> = None;
    if exit_code != 0 {
        let mut e = String::from_str("Editor exited with code ");
        e.append(signed_decimal_string(exit_code).as_str());
        error = Some(e);
    }
    let content = match read {
        Ok(bytes) => Some(bytes),
        Err(reason) => {
            if error.is_none() {
                let mut e = String::from_str("Failed to read edited file '");
                e.append(path);
                e.append("': ");
                e.append(reason.as_str());
                error = Some(e);
            }
            None
        },
    };
    proof {
        reveal_strlit("Editor exited with code ");
        reveal_strlit("Failed to read edited file '");
        reveal_strlit("': ");
    }
    (content, error)
}

} // verus!
