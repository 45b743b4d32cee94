//! Reading the system clipboard. The clipboard commands are tried in turn, those that are not
//! installed skipped; the first that succeeds gives the clipboard's text. When none succeeds
//! the error names what went wrong with each one tried, or, when none was installed, all of
//! them.
//!
//! Running the commands is left to the caller: `ClipboardRead::step` takes what came of
//! the last command and says which command to run next or what the answer is.

use vstd::prelude::*;
use vstd::utf8::*;
use crate::text::{from_chars, to_chars, trim, trim_chars};

verus! {

broadcast use {vstd::seq_lib::group_seq_properties, vstd::string::to_string_from_display_ensures_for_str};

/// What `String::from_utf8_lossy` makes of a byte sequence.
pub uninterp spec fn utf8_lossy(b: Seq<u8>) -> Seq<char>;

/// `String::from_utf8_lossy`: the text of the bytes, each invalid sequence replaced by
/// U+FFFD. The contract names the result and, as std documents, says that valid UTF-8 comes
/// back as it is; the replacement of invalid sequences is not claimed.
#[verifier::external_body]
fn lossy_text(b: &[u8]) -> (r: String)
    ensures
        r@ == utf8_lossy(b@),
        valid_utf8(b@) ==> r@ == decode_utf8(b@),
{
    String::from_utf8_lossy(b).to_string()
}

/// How many clipboard commands there are.
pub const CLIPBOARD_COMMANDS: usize = 8;

/// The program of the clipboard command at `i`, in the order they are tried.
pub open spec fn clipboard_program(i: int) -> Seq<char> {
    if i == 0 {
        "termux-clipboard-get"@
    } else if i == 1 {
        "pbpaste"@
    } else if i == 2 {
        "wl-paste"@
    } else if i == 3 {
        "xclip"@
    } else if i == 4 {
        "xsel"@
    } else if i == 5 {
        "powershell.exe"@
    } else if i == 6 {
        "powershell"@
    } else {
        "pwsh"@
    }
}

/// The arguments of the clipboard command at `i`.
pub open spec fn clipboard_args(i: int) -> Seq<Seq<char>> {
    if i == 0 || i == 1 {
        Seq::empty()
    } else if i == 2 {
        seq!["--no-newline"@]
    } else if i == 3 {
        seq!["-selection"@, "clipboard"@, "-out"@]
    } else if i == 4 {
        seq!["--clipboard"@, "--output"@]
    } else {
        seq!["-NoProfile"@, "-Command"@, "Get-Clipboard -Raw"@]
    }
}

/// The texts of string slices.
pub open spec fn strs_view(v: Seq<&str>) -> Seq<Seq<char>> {
    v.map_values(|s: &str| s@)
}

/// The program and arguments of the clipboard command at `i`.
pub fn clipboard_command(i: usize) -> (r: (&'static str, Vec<&'static str>))
    requires
        i < CLIPBOARD_COMMANDS,
    ensures
        r.0@ == clipboard_program(i as int),
        strs_view(r.1@) == clipboard_args(i as int),
{
    let powershell_args = vec!["-NoProfile", "-Command", "Get-Clipboard -Raw"];
    let r = if i == 0 {
        ("termux-clipboard-get", Vec::new())
    } else if i == 1 {
        ("pbpaste", Vec::new())
    } else if i == 2 {
        ("wl-paste", vec!["--no-newline"])
    } else if i == 3 {
        ("xclip", vec!["-selection", "clipboard", "-out"])
    } else if i == 4 {
        ("xsel", vec!["--clipboard", "--output"])
    } else if i == 5 {
        ("powershell.exe", powershell_args)
    } else if i == 6 {
        ("powershell", powershell_args)
    } else {
        ("pwsh", powershell_args)
    };
    assert(strs_view(r.1@) =~= clipboard_args(i as int));
    r
}

/// The pieces joined, `sep` between each two.
pub open spec fn join_with(parts: Seq<Seq<char>>, sep: Seq<char>) -> Seq<char>
    decreases parts.len(),
{
    if parts.len() == 0 {
        Seq::empty()
    } else if parts.len() == 1 {
        parts[0]
    } else {
        join_with(parts.drop_last(), sep) + sep + parts.last()
    }
}

fn join_strings(parts: &Vec<String>, sep: &str) -> (r: String)
    ensures
        r@ == join_with(parts@.map_values(|s: String| s@), sep@),
{
    let ghost p = parts@.map_values(|s: String| s@);
    let mut out = String::new();
    let mut i: usize = 0;
    while i < parts.len()
        invariant
            i <= parts@.len(),
            p == parts@.map_values(|s: String| s@),
            out@ == join_with(p.take(i as int), sep@),
        decreases parts@.len() - i,
    {
        if i > 0 {
            out.append(sep);
        }
        out.append(parts[i].as_str());
        proof {
            assert(p.take(i + 1).drop_last() =~= p.take(i as int));
            if i == 0 {
                assert(p.take(1) =~= seq![p[0]]);
                assert(Seq::<char>::empty() + p[0] =~= p[0]);
            }
        }
        i += 1;
    }
    assert(p.take(parts@.len() as int) =~= p);
    out
}

/// What came of running a clipboard command.
pub enum CommandOutcome {
    /// The program is not installed; it was not run.
    Missing,
    /// It succeeded with this output.
    Succeeded(Vec<u8>),
    /// It ran and failed, with this exit status (as text) and error output.
    Exited(String, Vec<u8>),
    /// It could not be started, for this reason.
    FailedToRun(String),
}

/// What to do next.
pub enum ClipboardAction {
    /// Run the clipboard command at this position.
    Run(usize),
    /// Reading is over: the clipboard's text, or the error.
    Done(Result<String, String>),
}

/// The failure that an outcome of `program` records, if any.
pub open spec fn failure_of(program: Seq<char>, outcome: CommandOutcome) -> Option<Seq<char>> {
    match outcome {
        CommandOutcome::Exited(status, stderr) => {
            let err = trim(utf8_lossy(stderr@));
            Some(
                if err.len() == 0 {
                    program + " exited with "@ + status@
                } else {
                    program + " exited with "@ + status@ + ": "@ + err
                },
            )
        },
        CommandOutcome::FailedToRun(reason) => Some(program + " failed to run: "@ + reason@),
        _ => None,
    }
}

/// The error when no command succeeded, with `tried` the programs that were installed and
/// `failures` what went wrong with them.
pub open spec fn final_error(tried: Seq<Seq<char>>, failures: Seq<Seq<char>>) -> Seq<char> {
    if tried.len() == 0 {
        "Failed to get clipboard content: no clipboard command available (tried: "@ + join_with(
            Seq::new(CLIPBOARD_COMMANDS as nat, |i: int| clipboard_program(i)),
            ", "@,
        ) + ")"@
    } else {
        "Failed to get clipboard content: "@ + join_with(failures, "; "@)
    }
}

/// The state of reading the clipboard: the position of the command being run, the programs
/// tried so far and what went wrong with them.
pub struct ClipboardRead {
    pub next: usize,
    pub tried: Vec<String>,
    pub failures: Vec<String>,
}

impl ClipboardRead {
    pub open spec fn tried_view(&self) -> Seq<Seq<char>> {
        self.tried@.map_values(|s: String| s@)
    }

    pub open spec fn failures_view(&self) -> Seq<Seq<char>> {
        self.failures@.map_values(|s: String| s@)
    }

    /// Starts reading: nothing tried, the first command to run.
    pub fn start() -> (r: (ClipboardRead, ClipboardAction))
        ensures
            r.0.next == 0,
            r.0.tried@.len() == 0,
            r.0.failures@.len() == 0,
            r.1 == ClipboardAction::Run(0),
    {
        (ClipboardRead { next: 0, tried: Vec::new(), failures: Vec::new() }, ClipboardAction::Run(0))
    }

    fn all_programs() -> (r: String)
        ensures
            r@ == join_with(Seq::new(CLIPBOARD_COMMANDS as nat, |i: int| clipboard_program(i)), ", "@),
    {
        let mut names: Vec<String> = Vec::new();
        let mut i: usize = 0;
        while i < CLIPBOARD_COMMANDS
            invariant
                i <= CLIPBOARD_COMMANDS,
                names@.map_values(|s: String| s@) == Seq::new(i as nat, |k: int| clipboard_program(k)),
            decreases CLIPBOARD_COMMANDS - i,
        {
            let (program, _) = clipboard_command(i);
            let ghost before = names@.map_values(|s: String| s@);
            let name = program.to_string();
            assert(name@ == clipboard_program(i as int));
            names.push(name);
            proof {
                assert(names@.map_values(|s: String| s@) =~= before.push(name@));
                assert(names@.map_values(|s: String| s@) =~= Seq::new((i + 1) as nat, |k: int| clipboard_program(k)));
            }
            i += 1;
        }
        join_strings(&names, ", ")
    }

    /// Takes what came of running the command at `self.next`: a success ends the reading
    /// with its output as text; otherwise the program is recorded as tried when it was
    /// installed, with what went wrong, and the next command is to run, or, after the last,
    /// the reading ends with the error (see `final_error`).
    pub fn step(self, outcome: CommandOutcome) -> (r: (ClipboardRead, ClipboardAction))
        requires
            self.next < CLIPBOARD_COMMANDS,
        ensures
            match outcome {
                CommandOutcome::Succeeded(out) => r.1 matches ClipboardAction::Done(Ok(text)) && text@
                    == utf8_lossy(out@),
                _ => {
                    let program = clipboard_program(self.next as int);
                    &&& r.0.next == self.next + 1
                    &&& r.0.tried_view() == if outcome is Missing {
                        self.tried_view()
                    } else {
                        self.tried_view().push(program)
                    }
                    &&& r.0.failures_view() == match failure_of(program, outcome) {
                        Some(f) => self.failures_view().push(f),
                        None => self.failures_view(),
                    }
                    &&& if r.0.next < CLIPBOARD_COMMANDS {
                        r.1 == ClipboardAction::Run(r.0.next)
                    } else {
                        r.1 matches ClipboardAction::Done(Err(e)) && e@ == final_error(
                            r.0.tried_view(),
                            r.0.failures_view(),
                        )
                    }
                },
            },
    {
        let ClipboardRead { next, mut tried, mut failures } = self;
        let ghost tried0 = tried@.map_values(|s: String| s@);
        let ghost failures0 = failures@.map_values(|s: String| s@);
        let (program, _) = clipboard_command(next);
        match outcome {
            CommandOutcome::Succeeded(out) => {
                let text = lossy_text(out.as_slice());
                return (ClipboardRead { next, tried, failures }, ClipboardAction::Done(Ok(text)));
            },
            CommandOutcome::Missing => {},
            CommandOutcome::Exited(status, stderr) => {
                tried.push(program.to_string());
                let err_chars = to_chars(lossy_text(stderr.as_slice()).as_str());
                let err = from_chars(trim_chars(&err_chars).as_slice());
                let mut m = program.to_string();
                m.append(" exited with ");
                m.append(status.as_str());
                if err.as_str().unicode_len() > 0 {
                    m.append(": ");
                    m.append(err.as_str());
                }
                failures.push(m);
                proof {
                    reveal_strlit(" exited with ");
                    reveal_strlit(": ");
                }
            },
            CommandOutcome::FailedToRun(reason) => {
                tried.push(program.to_string());
                let mut m = program.to_string();
                m.append(" failed to run: ");
                m.append(reason.as_str());
                failures.push(m);
                proof {
                    reveal_strlit(" failed to run: ");
                }
            },
        }
        proof {
            assert(tried@.map_values(|s: String| s@) =~= if outcome is Missing {
                tried0
            } else {
                tried0.push(clipboard_program(next as int))
            });
            assert(failures@.map_values(|s: String| s@) =~= match failure_of(clipboard_program(next as int), outcome) {
                Some(f) => failures0.push(f),
                None => failures0,
            });
        }
        let next = next + 1;
        if next < CLIPBOARD_COMMANDS {
            return (ClipboardRead { next, tried, failures }, ClipboardAction::Run(next));
        }
        let e = if tried.len() == 0 {
            let mut e = "Failed to get clipboard content: no clipboard command available (tried: ".to_string();
            e.append(Self::all_programs().as_str());
            e.append(")");
            e
        } else {
            let mut e = "Failed to get clipboard content: ".to_string();
            e.append(join_strings(&failures, "; ").as_str());
            e
        };
        proof {
            reveal_strlit("Failed to get clipboard content: no clipboard command available (tried: ");
            reveal_strlit("Failed to get clipboard content: ");
            reveal_strlit(")");
        }
        (ClipboardRead { next, tried, failures }, ClipboardAction::Done(Err(e)))
    }
}

} // verus!
