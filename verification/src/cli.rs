//! The command line: `lazydeck [OPTIONS] [initial-path]`.

use vstd::prelude::*;
use vstd::string::*;
use crate::keymap::{split_path, split_segments, strings_view};
use crate::keys::has_prefix;
use crate::path_codec::{decode_path_segment_input, decode_segment};
use crate::paths::str_is;
use crate::text::{chars_eq, from_chars, sub_chars, to_chars};

verus! {

broadcast use vstd::seq_lib::group_seq_properties;

/// The configuration path given on the command line: text, or the raw argument at a
/// position when it is not valid UTF-8.
#[derive(Debug)]
pub enum CliPath {
    Text(String),
    Arg(usize),
}

/// The options of a run.
#[derive(Debug)]
pub struct CliOptions {
    pub initial_path: Vec<String>,
    pub config_path: Option<CliPath>,
}

/// What the command line asks for.
#[derive(Debug)]
pub enum CliCommand {
    Help,
    Version,
    Run(CliOptions),
}

/// A command line that is refused.
#[derive(Debug)]
pub enum CliError {
    /// An argument that is not valid UTF-8.
    NotUtf8,
    /// `-c` or `--config` (as written) without a following path.
    MissingValue(String),
    /// `--config=` with nothing after it.
    EmptyValue,
    UnknownOption(String),
    /// A second initial path.
    UnexpectedArgument,
    /// A path segment whose escapes do not decode to text.
    InvalidSegment(String),
}

/// The configuration path as plain values.
pub ghost enum CliPathSpec {
    Text(Seq<char>),
    Arg(int),
}

/// The outcome of parsing as plain values.
pub ghost enum CliOutcome {
    Help,
    Version,
    Run(Seq<Seq<char>>, Option<CliPathSpec>),
    NotUtf8,
    MissingValue(Seq<char>),
    EmptyValue,
    UnknownOption(Seq<char>),
    UnexpectedArgument,
    InvalidSegment(Seq<char>),
}

pub open spec fn path_spec(p: CliPath) -> CliPathSpec {
    match p {
        CliPath::Text(t) => CliPathSpec::Text(t@),
        CliPath::Arg(i) => CliPathSpec::Arg(i as int),
    }
}

pub open spec fn outcome_of(r: Result<CliCommand, CliError>) -> CliOutcome {
    match r {
        Ok(CliCommand::Help) => CliOutcome::Help,
        Ok(CliCommand::Version) => CliOutcome::Version,
        Ok(CliCommand::Run(o)) => CliOutcome::Run(
            strings_view(o.initial_path@),
            match o.config_path {
                Some(p) => Some(path_spec(p)),
                None => None,
            },
        ),
        Err(CliError::NotUtf8) => CliOutcome::NotUtf8,
        Err(CliError::MissingValue(a)) => CliOutcome::MissingValue(a@),
        Err(CliError::EmptyValue) => CliOutcome::EmptyValue,
        Err(CliError::UnknownOption(a)) => CliOutcome::UnknownOption(a@),
        Err(CliError::UnexpectedArgument) => CliOutcome::UnexpectedArgument,
        Err(CliError::InvalidSegment(s)) => CliOutcome::InvalidSegment(s@),
    }
}

/// The arguments as plain values (`None` for one that is not valid UTF-8).
pub open spec fn args_view(args: Seq<Option<String>>) -> Seq<Option<Seq<char>>> {
    args.map_values(
        |a: Option<String>|
            match a {
                Some(s) => Some(s@),
                None => None,
            },
    )
}

/// `s` without every leading repetition of `p` (as `str::trim_start_matches`).
pub open spec fn strip_prefixes(s: Seq<char>, p: Seq<char>) -> Seq<char>
    decreases s.len(),
{
    if p.len() > 0 && has_prefix(s, p) {
        strip_prefixes(s.skip(p.len() as int), p)
    } else {
        s
    }
}

/// The decoded segments, or the first segment that does not decode.
pub open spec fn decode_all(segs: Seq<Seq<char>>) -> Result<Seq<Seq<char>>, Seq<char>>
    decreases segs.len(),
{
    if segs.len() == 0 {
        Ok(Seq::empty())
    } else {
        match decode_all(segs.drop_last()) {
            Err(bad) => Err(bad),
            Ok(done) => match decode_segment(segs.last()) {
                Some(d) => Ok(done.push(d)),
                None => Err(segs.last()),
            },
        }
    }
}

/// The initial path that an argument names: its non-empty `/`-separated segments, decoded.
pub open spec fn initial_path_of(a: Seq<char>) -> Result<Seq<Seq<char>>, Seq<char>> {
    decode_all(split_segments(a))
}

/// The outcome of parsing the arguments from position `i` on, with the initial path and the
/// configuration path found so far.
pub open spec fn parse_from(
    args: Seq<Option<Seq<char>>>,
    i: int,
    path: Seq<Seq<char>>,
    path_set: bool,
    config: Option<CliPathSpec>,
) -> CliOutcome
    decreases args.len() - i,
{
    if i < 0 || i >= args.len() {
        CliOutcome::Run(path, config)
    } else {
        match args[i] {
            None => CliOutcome::NotUtf8,
            Some(a) => if a == "-h"@ || a == "--help"@ {
                CliOutcome::Help
            } else if a == "-V"@ || a == "--version"@ {
                CliOutcome::Version
            } else if a == "-c"@ || a == "--config"@ {
                if i + 1 >= args.len() {
                    CliOutcome::MissingValue(a)
                } else {
                    let value = match args[i + 1] {
                        Some(t) => CliPathSpec::Text(t),
                        None => CliPathSpec::Arg(i + 1),
                    };
                    parse_from(args, i + 2, path, path_set, Some(value))
                }
            } else if has_prefix(a, "--config="@) {
                let v = strip_prefixes(a, "--config="@);
                if v.len() == 0 {
                    CliOutcome::EmptyValue
                } else {
                    parse_from(args, i + 1, path, path_set, Some(CliPathSpec::Text(v)))
                }
            } else if a.len() > 0 && a[0] == '-' {
                CliOutcome::UnknownOption(a)
            } else if path_set {
                CliOutcome::UnexpectedArgument
            } else {
                match initial_path_of(a) {
                    Ok(p) => parse_from(args, i + 1, p, true, config),
                    Err(bad) => CliOutcome::InvalidSegment(bad),
                }
            },
        }
    }
}

/// `s` without its leading repetitions of `p`.
fn strip_all_prefixes(s: &Vec<char>, p: &Vec<char>) -> (r: Vec<char>)
    ensures
        r@ == strip_prefixes(s@, p@),
{
    let mut cur: Vec<char> = sub_chars(s, 0, s.len());
    proof {
        assert(cur@ =~= s@);
    }
    let n = p.len();
    if n == 0 {
        return cur;
    }
    while cur.len() >= n && chars_eq(&cur.as_slice()[0..n], p.as_slice())
        invariant
            n == p@.len(),
            n > 0,
            strip_prefixes(cur@, p@) == strip_prefixes(s@, p@),
        decreases cur@.len(),
    {
        proof {
            assert(cur@.subrange(0, n as int) =~= cur@.take(n as int));
        }
        cur = sub_chars(&cur, n, cur.len());
    }
    proof {
        if cur@.len() >= n {
            assert(cur@.subrange(0, n as int) =~= cur@.take(n as int));
        }
    }
    cur
}

/// Decodes every segment, stopping at the first that does not decode.
fn decode_segments(segs: &Vec<String>) -> (r: Result<Vec<String>, String>)
    ensures
        match r {
            Ok(v) => decode_all(strings_view(segs@)) == Ok::<Seq<Seq<char>>, Seq<char>>(strings_view(v@)),
            Err(bad) => decode_all(strings_view(segs@)) == Err::<Seq<Seq<char>>, Seq<char>>(bad@),
        },
{
    let ghost sv = strings_view(segs@);
    let mut out: Vec<String> = Vec::new();
    let mut i: usize = 0;
    proof {
        assert(sv.take(0) =~= Seq::<Seq<char>>::empty());
        assert(strings_view(out@) =~= Seq::<Seq<char>>::empty());
    }
    while i < segs.len()
        invariant
            i <= segs@.len(),
            sv == strings_view(segs@),
            decode_all(sv.take(i as int)) == Ok::<Seq<Seq<char>>, Seq<char>>(strings_view(out@)),
        decreases segs@.len() - i,
    {
        let ghost pre = sv.take(i as int);
        let ghost post = sv.take(i + 1);
        let ghost before = strings_view(out@);
        proof {
            assert(post.drop_last() =~= pre);
            assert(post.last() == segs@[i as int]@);
        }
        match decode_path_segment_input(segs[i].as_str()) {
            Ok(d) => {
                out.push(d);
                proof {
                    assert(strings_view(out@) =~= before.push(d@));
                    assert(decode_all(post) == Ok::<Seq<Seq<char>>, Seq<char>>(before.push(d@)));
                }
            },
            Err(e) => {
                proof {
                    assert(decode_all(post) == Err::<Seq<Seq<char>>, Seq<char>>(segs@[i as int]@));
                    lemma_decode_all_err_prefix(sv, i + 1);
                }
                return Err(e.segment);
            },
        }
        i += 1;
    }
    proof {
        assert(sv.take(i as int) =~= sv);
    }
    Ok(out)
}

/// A prefix that fails to decode decides the whole sequence.
proof fn lemma_decode_all_err_prefix(segs: Seq<Seq<char>>, k: int)
    requires
        0 <= k <= segs.len(),
        decode_all(segs.take(k)) is Err,
    ensures
        decode_all(segs) == decode_all(segs.take(k)),
    decreases segs.len() - k,
{
    if k < segs.len() {
        assert(segs.take(k + 1).drop_last() =~= segs.take(k));
        lemma_decode_all_err_prefix(segs, k + 1);
    } else {
        assert(segs.take(k) =~= segs);
    }
}

/// Parses the command line; `args` holds the arguments after the program name, `None` for
/// one that is not valid UTF-8.
pub fn parse_cli_options(args: &Vec<Option<String>>) -> (r: Result<CliCommand, CliError>)
    ensures
        outcome_of(r) == parse_from(args_view(args@), 0, Seq::empty(), false, None),
{
    let n = args.len();
    let mut i: usize = 0;
    let mut path: Vec<String> = Vec::new();
    let mut path_set = false;
    let mut config: Option<CliPath> = None;
    let ghost av = args_view(args@);
    let prefix = to_chars("--config=");
    proof {
        assert(strings_view(path@) =~= Seq::<Seq<char>>::empty());
    }
    while i < n
        invariant
            n == args@.len(),
            av == args_view(args@),
            prefix@ == "--config="@,
            i <= n + 1,
            parse_from(av, 0, Seq::empty(), false, None) == parse_from(
                av,
                i as int,
                strings_view(path@),
                path_set,
                match config {
                    Some(p) => Some(path_spec(p)),
                    None => None,
                },
            ),
        decreases n + 1 - i,
    {
        let a = match &args[i] {
            Some(a) => a,
            None => {
                return Err(CliError::NotUtf8);
            },
        };
        let s = a.as_str();
        if str_is(s, "-h") || str_is(s, "--help") {
            return Ok(CliCommand::Help);
        }
        if str_is(s, "-V") || str_is(s, "--version") {
            return Ok(CliCommand::Version);
        }
        if str_is(s, "-c") || str_is(s, "--config") {
            if i + 1 >= n {
                return Err(CliError::MissingValue(a.clone()));
            }
            config = Some(
                match &args[i + 1] {
                    Some(t) => CliPath::Text(t.clone()),
                    None => CliPath::Arg(i + 1),
                },
            );
            i = i + 2;
            continue;
        }
        let chars = to_chars(s);
        let starts = chars.len() >= prefix.len() && chars_eq(
            &chars.as_slice()[0..prefix.len()],
            prefix.as_slice(),
        );
        proof {
            if chars@.len() >= prefix@.len() {
                assert(chars@.subrange(0, prefix@.len() as int) =~= chars@.take(prefix@.len() as int));
            }
        }
        if starts {
            let v = strip_all_prefixes(&chars, &prefix);
            if v.len() == 0 {
                return Err(CliError::EmptyValue);
            }
            config = Some(CliPath::Text(from_chars(v.as_slice())));
            i = i + 1;
            continue;
        }
        if chars.len() > 0 && chars[0] == '-' {
            return Err(CliError::UnknownOption(a.clone()));
        }
        if path_set {
            return Err(CliError::UnexpectedArgument);
        }
        let segs = split_path(s);
        match decode_segments(&segs) {
            Ok(p) => {
                path = p;
                path_set = true;
            },
            Err(bad) => {
                return Err(CliError::InvalidSegment(bad));
            },
        }
        i = i + 1;
    }
    Ok(CliCommand::Run(CliOptions { initial_path: path, config_path: config }))
}

} // verus!
