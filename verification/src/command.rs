//! The commands that key bindings and the command prompt send, such as `scroll_by -1` or
//! `cd ../repo`. A command line is split into words as a POSIX shell would (by the
//! `shell-words` crate); the first word names the command.

use vstd::prelude::*;
use vstd::string::*;
use crate::keymap::{clone_path, split_path, split_segments, strings_view};
use crate::path_codec::{decode_path_segment_input, decode_segment};
use crate::paths::str_is;
use crate::text::{from_chars, to_chars, trim, trim_chars};

verus! {

broadcast use vstd::seq_lib::group_seq_properties;

/// The words of a command line as `shell_words::split` splits it, or nothing for a line it
/// refuses (an unclosed quote).
pub uninterp spec fn shell_split(s: Seq<char>) -> Option<Seq<Seq<char>>>;

/// Calls `shell_words::split`: the words of the line, or nothing when it refuses the line.
/// The contract only names the result (`shell_split`); how quotes and escapes split is not
/// claimed.
#[verifier::external_body]
pub(crate) fn split_words(s: &str) -> (r: Option<Vec<String>>)
    ensures
        match r {
            Some(v) => shell_split(s@) == Some(strings_view(v@)),
            None => shell_split(s@) is None,
        },
{
    match shell_words::split(s) {
        Ok(words) => Some(words),
        Err(_) => None,
    }
}

/// `c` is a decimal digit.
pub open spec fn is_digit(c: char) -> bool {
    '0' <= c && c <= '9'
}

/// The value of a string of decimal digits.
pub open spec fn digits_value(d: Seq<char>) -> int
    decreases d.len(),
{
    if d.len() == 0 {
        0
    } else {
        digits_value(d.drop_last()) * 10 + (d.last() as int - '0' as int)
    }
}

/// Length of the optional sign in front of a number.
pub open spec fn sign_len(s: Seq<char>) -> int {
    if s.len() > 0 && (s[0] == '-' || s[0] == '+') {
        1
    } else {
        0
    }
}

/// Every character of `d` is a decimal digit.
pub open spec fn all_digits(d: Seq<char>) -> bool {
    forall|i: int| 0 <= i < d.len() ==> is_digit(#[trigger] d[i])
}

/// `i16::from_str`: an optional sign, then one or more decimal digits, in range.
pub open spec fn parse_i16_spec(s: Seq<char>) -> Option<i16> {
    let d = s.skip(sign_len(s));
    if d.len() == 0 || !all_digits(d) {
        None
    } else {
        let v = if s[0] == '-' {
            -digits_value(d)
        } else {
            digits_value(d)
        };
        if i16::MIN <= v <= i16::MAX {
            Some(v as i16)
        } else {
            None
        }
    }
}

proof fn lemma_digits_grow(d: Seq<char>, i: int)
    requires
        0 <= i < d.len(),
        forall|k: int| 0 <= k < d.len() ==> is_digit(#[trigger] d[k]),
    ensures
        digits_value(d.take(i + 1)) == digits_value(d.take(i)) * 10 + (d[i] as int - '0' as int),
        digits_value(d.take(i)) >= 0,
{
    assert(d.take(i + 1).drop_last() =~= d.take(i));
    lemma_digits_nonneg(d.take(i));
}

proof fn lemma_digits_nonneg(d: Seq<char>)
    requires
        forall|k: int| 0 <= k < d.len() ==> is_digit(#[trigger] d[k]),
    ensures
        digits_value(d) >= 0,
    decreases d.len(),
{
    if d.len() > 0 {
        lemma_digits_nonneg(d.drop_last());
    }
}

/// Parses a 16-bit signed integer as `str::parse::<i16>` does.
pub fn parse_i16(s: &str) -> (r: Option<i16>)
    ensures
        r == parse_i16_spec(s@),
{
    let c = to_chars(s);
    let n = c.len();
    let signed = n > 0 && (c[0] == '-' || c[0] == '+');
    let neg = n > 0 && c[0] == '-';
    let start: usize = if signed {
        1
    } else {
        0
    };
    let ghost d = s@.skip(sign_len(s@));
    proof {
        assert(d =~= c@.subrange(start as int, n as int));
    }
    if start == n {
        return None;
    }
    let mut i: usize = start;
    let mut acc: u32 = 0;
    let mut big = false;
    proof {
        assert(d.take(0) =~= Seq::<char>::empty());
    }
    while i < n
        invariant
            start <= i <= n,
            n == c@.len(),
            c@ == s@,
            d == s@.skip(sign_len(s@)),
            start == sign_len(s@),
            d == c@.subrange(start as int, n as int),
            forall|k: int| 0 <= k < i - start ==> is_digit(#[trigger] d[k]),
            !big ==> acc == digits_value(d.take(i - start)) && acc <= 32768,
            big ==> digits_value(d.take(i - start)) > 32768,
        decreases n - i,
    {
        let ch = c[i];
        if !('0' <= ch && ch <= '9') {
            proof {
                assert(!is_digit(d[i - start]));
                assert(!all_digits(d));
            }
            return None;
        }
        let ghost k = i - start;
        proof {
            let t = d.take(k + 1);
            assert(forall|j: int| 0 <= j < t.len() ==> is_digit(#[trigger] t[j]));
            lemma_digits_grow(t, k);
            assert(t.take(k + 1) =~= t);
            assert(t.take(k) =~= d.take(k));
            lemma_digits_nonneg(t.take(k));
        }
        let digit = (ch as u32) - ('0' as u32);
        if !big {
            let next = acc * 10 + digit;
            if next > 32768 {
                big = true;
            } else {
                acc = next;
            }
        }
        i += 1;
    }
    proof {
        assert(d.take(n - start) =~= d);
    }
    if big {
        return None;
    }
    if neg {
        if acc <= 32768 {
            Some((0 - (acc as i32)) as i16)
        } else {
            None
        }
    } else if acc <= 32767 {
        Some(acc as i16)
    } else {
        None
    }
}

/// A command to carry out.
#[derive(Debug, PartialEq, Eq)]
pub enum Command {
    Quit,
    ScrollBy(i16),
    ScrollPreviewBy(i16),
    Reload,
    /// Change to the path written after `cd` (the remaining words joined by spaces).
    Cd(String),
    /// Open the command prompt holding the remaining words joined by spaces.
    CommandPrompt(String),
    Enter,
    Back,
    HistoryBack,
    InputSubmit,
    InputCancel,
    InputClearBeforeCursor,
    InputCursorToStart,
    InputCursorToEnd,
    /// A command name that is not known.
    Unsupported,
}

/// A command line that cannot be carried out.
#[derive(Debug, PartialEq, Eq)]
pub enum CommandError {
    /// The line does not split into words (an unclosed quote).
    Syntax,
    /// The line holds no word.
    Empty,
    /// The count after `scroll_by` is not a 16-bit integer.
    BadScrollCount,
    /// The count after `scroll_preview_by` is not a 16-bit integer.
    BadPreviewScrollCount,
}

impl CommandError {
    /// The text the error is reported with; an empty line is reported followed by the line.
    pub fn message(&self) -> (m: &'static str)
        ensures
            m@ == match *self {
                CommandError::Syntax => "missing closing quote"@,
                CommandError::Empty => "Empty command"@,
                CommandError::BadScrollCount => "wrong format for scroll_by"@,
                CommandError::BadPreviewScrollCount => "wrong format for scroll_preview_by"@,
            },
    {
        match self {
            CommandError::Syntax => "missing closing quote",
            CommandError::Empty => "Empty command",
            CommandError::BadScrollCount => "wrong format for scroll_by",
            CommandError::BadPreviewScrollCount => "wrong format for scroll_preview_by",
        }
    }
}

/// A command as plain values.
pub ghost enum CommandSpec {
    Quit,
    ScrollBy(i16),
    ScrollPreviewBy(i16),
    Reload,
    Cd(Seq<char>),
    CommandPrompt(Seq<char>),
    Enter,
    Back,
    HistoryBack,
    InputSubmit,
    InputCancel,
    InputClearBeforeCursor,
    InputCursorToStart,
    InputCursorToEnd,
    Unsupported,
    Syntax,
    Empty,
    BadScrollCount,
    BadPreviewScrollCount,
}

pub open spec fn command_view(r: Result<Command, CommandError>) -> CommandSpec {
    match r {
        Ok(Command::Quit) => CommandSpec::Quit,
        Ok(Command::ScrollBy(n)) => CommandSpec::ScrollBy(n),
        Ok(Command::ScrollPreviewBy(n)) => CommandSpec::ScrollPreviewBy(n),
        Ok(Command::Reload) => CommandSpec::Reload,
        Ok(Command::Cd(p)) => CommandSpec::Cd(p@),
        Ok(Command::CommandPrompt(p)) => CommandSpec::CommandPrompt(p@),
        Ok(Command::Enter) => CommandSpec::Enter,
        Ok(Command::Back) => CommandSpec::Back,
        Ok(Command::HistoryBack) => CommandSpec::HistoryBack,
        Ok(Command::InputSubmit) => CommandSpec::InputSubmit,
        Ok(Command::InputCancel) => CommandSpec::InputCancel,
        Ok(Command::InputClearBeforeCursor) => CommandSpec::InputClearBeforeCursor,
        Ok(Command::InputCursorToStart) => CommandSpec::InputCursorToStart,
        Ok(Command::InputCursorToEnd) => CommandSpec::InputCursorToEnd,
        Ok(Command::Unsupported) => CommandSpec::Unsupported,
        Err(CommandError::Syntax) => CommandSpec::Syntax,
        Err(CommandError::Empty) => CommandSpec::Empty,
        Err(CommandError::BadScrollCount) => CommandSpec::BadScrollCount,
        Err(CommandError::BadPreviewScrollCount) => CommandSpec::BadPreviewScrollCount,
    }
}

/// The words joined by single spaces.
pub open spec fn join_words(w: Seq<Seq<char>>) -> Seq<char>
    decreases w.len(),
{
    if w.len() == 0 {
        Seq::empty()
    } else if w.len() == 1 {
        w[0]
    } else {
        join_words(w.drop_last()) + seq![' '] + w.last()
    }
}

/// A scroll count: the word after the command, 1 when there is none.
pub open spec fn count_of(w: Seq<Seq<char>>) -> Option<i16> {
    if w.len() < 2 {
        Some(1i16)
    } else {
        parse_i16_spec(w[1])
    }
}

/// The command that the words `w` name.
pub open spec fn command_of_words(w: Seq<Seq<char>>) -> CommandSpec {
    if w.len() == 0 {
        CommandSpec::Empty
    } else {
        let name = w[0];
        if name == "quit"@ {
            CommandSpec::Quit
        } else if name == "scroll_by"@ {
            match count_of(w) {
                Some(n) => CommandSpec::ScrollBy(n),
                None => CommandSpec::BadScrollCount,
            }
        } else if name == "scroll_preview_by"@ {
            match count_of(w) {
                Some(n) => CommandSpec::ScrollPreviewBy(n),
                None => CommandSpec::BadPreviewScrollCount,
            }
        } else if name == "reload"@ {
            CommandSpec::Reload
        } else if name == "cd"@ {
            CommandSpec::Cd(join_words(w.skip(1)))
        } else if name == "command_prompt"@ {
            CommandSpec::CommandPrompt(join_words(w.skip(1)))
        } else if name == "enter"@ {
            CommandSpec::Enter
        } else if name == "back"@ {
            CommandSpec::Back
        } else if name == "history_back"@ {
            CommandSpec::HistoryBack
        } else if name == "input_submit"@ {
            CommandSpec::InputSubmit
        } else if name == "input_cancel"@ {
            CommandSpec::InputCancel
        } else if name == "input_clear_before_cursor"@ {
            CommandSpec::InputClearBeforeCursor
        } else if name == "input_cursor_to_start"@ {
            CommandSpec::InputCursorToStart
        } else if name == "input_cursor_to_end"@ {
            CommandSpec::InputCursorToEnd
        } else {
            CommandSpec::Unsupported
        }
    }
}

/// Each command word names the command of that name, whatever follows it: `back` goes to
/// the parent path and `history_back` back through the history; `scroll_by` and
/// `scroll_preview_by` move by the count after them, one step when there is none; `cd` and
/// `command_prompt` take the rest of the words; no other word names a known command.
pub proof fn law_command_names(w: Seq<Seq<char>>)
    requires
        w.len() > 0,
    ensures
        w[0] == "quit"@ ==> command_of_words(w) == CommandSpec::Quit,
        w[0] == "reload"@ ==> command_of_words(w) == CommandSpec::Reload,
        w[0] == "enter"@ ==> command_of_words(w) == CommandSpec::Enter,
        w[0] == "back"@ ==> command_of_words(w) == CommandSpec::Back,
        w[0] == "history_back"@ ==> command_of_words(w) == CommandSpec::HistoryBack,
        w[0] == "input_submit"@ ==> command_of_words(w) == CommandSpec::InputSubmit,
        w[0] == "input_cancel"@ ==> command_of_words(w) == CommandSpec::InputCancel,
        w[0] == "input_clear_before_cursor"@ ==> command_of_words(w) == CommandSpec::InputClearBeforeCursor,
        w[0] == "input_cursor_to_start"@ ==> command_of_words(w) == CommandSpec::InputCursorToStart,
        w[0] == "input_cursor_to_end"@ ==> command_of_words(w) == CommandSpec::InputCursorToEnd,
        w[0] == "scroll_by"@ && w.len() == 1 ==> command_of_words(w) == CommandSpec::ScrollBy(1),
        w[0] == "scroll_by"@ && w.len() > 1 ==> command_of_words(w) == match parse_i16_spec(w[1]) {
            Some(n) => CommandSpec::ScrollBy(n),
            None => CommandSpec::BadScrollCount,
        },
        w[0] == "scroll_preview_by"@ && w.len() == 1 ==> command_of_words(w) == CommandSpec::ScrollPreviewBy(1),
        w[0] == "scroll_preview_by"@ && w.len() > 1 ==> command_of_words(w) == match parse_i16_spec(w[1]) {
            Some(n) => CommandSpec::ScrollPreviewBy(n),
            None => CommandSpec::BadPreviewScrollCount,
        },
        w[0] == "cd"@ ==> command_of_words(w) == CommandSpec::Cd(join_words(w.skip(1))),
        w[0] == "command_prompt"@ ==> command_of_words(w) == CommandSpec::CommandPrompt(join_words(w.skip(1))),
{
    reveal_strlit("quit");
    reveal_strlit("reload");
    reveal_strlit("enter");
    reveal_strlit("back");
    reveal_strlit("history_back");
    reveal_strlit("input_submit");
    reveal_strlit("input_cancel");
    reveal_strlit("input_clear_before_cursor");
    reveal_strlit("input_cursor_to_start");
    reveal_strlit("input_cursor_to_end");
    reveal_strlit("scroll_by");
    reveal_strlit("scroll_preview_by");
    reveal_strlit("cd");
    reveal_strlit("command_prompt");
    if w[0] == "scroll_by"@ {
        assert("scroll_by"@.len() != "quit"@.len());
    }
    if w[0] == "scroll_preview_by"@ {
        assert("scroll_preview_by"@.len() != "quit"@.len());
        assert("scroll_preview_by"@.len() != "scroll_by"@.len());
    }
    if w[0] == "reload"@ {
        assert("reload"@.len() != "quit"@.len());
        assert("reload"@.len() != "scroll_by"@.len());
        assert("reload"@.len() != "scroll_preview_by"@.len());
    }
    if w[0] == "cd"@ {
        assert("cd"@.len() != "quit"@.len());
        assert("cd"@.len() != "scroll_by"@.len());
        assert("cd"@.len() != "scroll_preview_by"@.len());
        assert("cd"@.len() != "reload"@.len());
    }
    if w[0] == "command_prompt"@ {
        assert("command_prompt"@.len() != "quit"@.len());
        assert("command_prompt"@.len() != "scroll_by"@.len());
        assert("command_prompt"@.len() != "scroll_preview_by"@.len());
        assert("command_prompt"@.len() != "reload"@.len());
        assert("command_prompt"@.len() != "cd"@.len());
    }
    if w[0] == "enter"@ {
        assert("enter"@.len() != "quit"@.len());
        assert("enter"@.len() != "scroll_by"@.len());
        assert("enter"@.len() != "scroll_preview_by"@.len());
        assert("enter"@.len() != "reload"@.len());
        assert("enter"@.len() != "cd"@.len());
        assert("enter"@.len() != "command_prompt"@.len());
    }
    if w[0] == "back"@ {
        assert("back"@[0] != "quit"@[0]);
        assert("back"@.len() != "scroll_by"@.len());
        assert("back"@.len() != "scroll_preview_by"@.len());
        assert("back"@.len() != "reload"@.len());
        assert("back"@.len() != "cd"@.len());
        assert("back"@.len() != "command_prompt"@.len());
        assert("back"@.len() != "enter"@.len());
    }
    if w[0] == "history_back"@ {
        assert("history_back"@.len() != "quit"@.len());
        assert("history_back"@.len() != "scroll_by"@.len());
        assert("history_back"@.len() != "scroll_preview_by"@.len());
        assert("history_back"@.len() != "reload"@.len());
        assert("history_back"@.len() != "cd"@.len());
        assert("history_back"@.len() != "command_prompt"@.len());
        assert("history_back"@.len() != "enter"@.len());
        assert("history_back"@.len() != "back"@.len());
    }
    if w[0] == "input_submit"@ {
        assert("input_submit"@.len() != "quit"@.len());
        assert("input_submit"@.len() != "scroll_by"@.len());
        assert("input_submit"@.len() != "scroll_preview_by"@.len());
        assert("input_submit"@.len() != "reload"@.len());
        assert("input_submit"@.len() != "cd"@.len());
        assert("input_submit"@.len() != "command_prompt"@.len());
        assert("input_submit"@.len() != "enter"@.len());
        assert("input_submit"@.len() != "back"@.len());
        assert("input_submit"@[0] != "history_back"@[0]);
    }
    if w[0] == "input_cancel"@ {
        assert("input_cancel"@.len() != "quit"@.len());
        assert("input_cancel"@.len() != "scroll_by"@.len());
        assert("input_cancel"@.len() != "scroll_preview_by"@.len());
        assert("input_cancel"@.len() != "reload"@.len());
        assert("input_cancel"@.len() != "cd"@.len());
        assert("input_cancel"@.len() != "command_prompt"@.len());
        assert("input_cancel"@.len() != "enter"@.len());
        assert("input_cancel"@.len() != "back"@.len());
        assert("input_cancel"@[0] != "history_back"@[0]);
        assert("input_cancel"@[6] != "input_submit"@[6]);
    }
    if w[0] == "input_clear_before_cursor"@ {
        assert("input_clear_before_cursor"@.len() != "quit"@.len());
        assert("input_clear_before_cursor"@.len() != "scroll_by"@.len());
        assert("input_clear_before_cursor"@.len() != "scroll_preview_by"@.len());
        assert("input_clear_before_cursor"@.len() != "reload"@.len());
        assert("input_clear_before_cursor"@.len() != "cd"@.len());
        assert("input_clear_before_cursor"@.len() != "command_prompt"@.len());
        assert("input_clear_before_cursor"@.len() != "enter"@.len());
        assert("input_clear_before_cursor"@.len() != "back"@.len());
        assert("input_clear_before_cursor"@.len() != "history_back"@.len());
        assert("input_clear_before_cursor"@.len() != "input_submit"@.len());
        assert("input_clear_before_cursor"@.len() != "input_cancel"@.len());
    }
    if w[0] == "input_cursor_to_start"@ {
        assert("input_cursor_to_start"@.len() != "quit"@.len());
        assert("input_cursor_to_start"@.len() != "scroll_by"@.len());
        assert("input_cursor_to_start"@.len() != "scroll_preview_by"@.len());
        assert("input_cursor_to_start"@.len() != "reload"@.len());
        assert("input_cursor_to_start"@.len() != "cd"@.len());
        assert("input_cursor_to_start"@.len() != "command_prompt"@.len());
        assert("input_cursor_to_start"@.len() != "enter"@.len());
        assert("input_cursor_to_start"@.len() != "back"@.len());
        assert("input_cursor_to_start"@.len() != "history_back"@.len());
        assert("input_cursor_to_start"@.len() != "input_submit"@.len());
        assert("input_cursor_to_start"@.len() != "input_cancel"@.len());
        assert("input_cursor_to_start"@.len() != "input_clear_before_cursor"@.len());
    }
    if w[0] == "input_cursor_to_end"@ {
        assert("input_cursor_to_end"@.len() != "quit"@.len());
        assert("input_cursor_to_end"@.len() != "scroll_by"@.len());
        assert("input_cursor_to_end"@.len() != "scroll_preview_by"@.len());
        assert("input_cursor_to_end"@.len() != "reload"@.len());
        assert("input_cursor_to_end"@.len() != "cd"@.len());
        assert("input_cursor_to_end"@.len() != "command_prompt"@.len());
        assert("input_cursor_to_end"@.len() != "enter"@.len());
        assert("input_cursor_to_end"@.len() != "back"@.len());
        assert("input_cursor_to_end"@.len() != "history_back"@.len());
        assert("input_cursor_to_end"@.len() != "input_submit"@.len());
        assert("input_cursor_to_end"@.len() != "input_cancel"@.len());
        assert("input_cursor_to_end"@.len() != "input_clear_before_cursor"@.len());
        assert("input_cursor_to_end"@.len() != "input_cursor_to_start"@.len());
    }
}

/// Joins `words[from..]` with single spaces.
fn join_from(words: &Vec<String>, from: usize) -> (r: String)
    requires
        from <= words@.len(),
    ensures
        r@ == join_words(strings_view(words@).skip(from as int)),
{
    let ghost w = strings_view(words@).skip(from as int);
    let mut r = String::new();
    let mut i = from;
    proof {
        assert(w.take(0) =~= Seq::<Seq<char>>::empty());
    }
    while i < words.len()
        invariant
            from <= i <= words@.len(),
            w == strings_view(words@).skip(from as int),
            r@ == join_words(w.take(i - from)),
        decreases words@.len() - i,
    {
        proof {
            assert(w.take(i - from + 1).drop_last() =~= w.take(i - from));
            assert(w.take(i - from + 1).last() == words@[i as int]@);
        }
        if i > from {
            proof {
                reveal_strlit(" ");
            }
            r.append(" ");
        } else {
            proof {
                assert(w.take(1) =~= seq![words@[i as int]@]);
            }
        }
        r.append(words[i].as_str());
        i += 1;
    }
    proof {
        assert(w.take(i - from) =~= w);
    }
    r
}

/// A scroll count from the words.
fn count_from(words: &Vec<String>) -> (r: Option<i16>)
    ensures
        r == count_of(strings_view(words@)),
{
    if words.len() < 2 {
        Some(1)
    } else {
        parse_i16(words[1].as_str())
    }
}

/// The command that `words` name (see `command_of_words`).
pub fn command_from_words(words: &Vec<String>) -> (r: Result<Command, CommandError>)
    ensures
        command_view(r) == command_of_words(strings_view(words@)),
{
    if words.len() == 0 {
        return Err(CommandError::Empty);
    }
    let name = words[0].as_str();
    if str_is(name, "quit") {
        Ok(Command::Quit)
    } else if str_is(name, "scroll_by") {
        match count_from(words) {
            Some(n) => Ok(Command::ScrollBy(n)),
            None => Err(CommandError::BadScrollCount),
        }
    } else if str_is(name, "scroll_preview_by") {
        match count_from(words) {
            Some(n) => Ok(Command::ScrollPreviewBy(n)),
            None => Err(CommandError::BadPreviewScrollCount),
        }
    } else if str_is(name, "reload") {
        Ok(Command::Reload)
    } else if str_is(name, "cd") {
        Ok(Command::Cd(join_from(words, 1)))
    } else if str_is(name, "command_prompt") {
        Ok(Command::CommandPrompt(join_from(words, 1)))
    } else if str_is(name, "enter") {
        Ok(Command::Enter)
    } else if str_is(name, "back") {
        Ok(Command::Back)
    } else if str_is(name, "history_back") {
        Ok(Command::HistoryBack)
    } else if str_is(name, "input_submit") {
        Ok(Command::InputSubmit)
    } else if str_is(name, "input_cancel") {
        Ok(Command::InputCancel)
    } else if str_is(name, "input_clear_before_cursor") {
        Ok(Command::InputClearBeforeCursor)
    } else if str_is(name, "input_cursor_to_start") {
        Ok(Command::InputCursorToStart)
    } else if str_is(name, "input_cursor_to_end") {
        Ok(Command::InputCursorToEnd)
    } else {
        Ok(Command::Unsupported)
    }
}

/// Splits a command line into words and names the command.
pub fn parse_command(command: &str) -> (r: Result<Command, CommandError>)
    ensures
        match shell_split(command@) {
            Some(w) => command_view(r) == command_of_words(w),
            None => r == Err::<Command, CommandError>(CommandError::Syntax),
        },
{
    match split_words(command) {
        Some(words) => command_from_words(&words),
        None => Err(CommandError::Syntax),
    }
}

/// `cd` without a target, or a target segment whose escapes do not decode.
#[derive(Debug, PartialEq, Eq)]
pub enum CdError {
    MissingTarget,
    InvalidSegment(String),
}

/// Walks `segs` from `base`: `.` stays, `..` goes up (not above the root), any other segment
/// is decoded and entered.
pub open spec fn walk(base: Seq<Seq<char>>, segs: Seq<Seq<char>>) -> Result<Seq<Seq<char>>, Seq<char>>
    decreases segs.len(),
{
    if segs.len() == 0 {
        Ok(base)
    } else {
        match walk(base, segs.drop_last()) {
            Err(bad) => Err(bad),
            Ok(p) => {
                let s = segs.last();
                if s == seq!['.'] {
                    Ok(p)
                } else if s == seq!['.', '.'] {
                    Ok(
                        if p.len() > 0 {
                            p.drop_last()
                        } else {
                            p
                        },
                    )
                } else {
                    match decode_segment(s) {
                        Some(d) => Ok(p.push(d)),
                        None => Err(s),
                    }
                }
            },
        }
    }
}

/// The path that a `cd` target names from `current`: an absolute target (starting with `/`)
/// from the root, another one from `current`.
pub open spec fn cd_target(current: Seq<Seq<char>>, raw: Seq<char>) -> Result<Seq<Seq<char>>, Seq<char>> {
    let t = trim(raw);
    let base = if t.len() > 0 && t[0] == '/' {
        Seq::empty()
    } else {
        current
    };
    walk(base, split_segments(t))
}

/// Walks that reach the same place go on alike.
proof fn lemma_walk_same_prefix(base: Seq<Seq<char>>, a1: Seq<Seq<char>>, a2: Seq<Seq<char>>, b: Seq<Seq<char>>)
    requires
        walk(base, a1) == walk(base, a2),
    ensures
        walk(base, a1 + b) == walk(base, a2 + b),
    decreases b.len(),
{
    if b.len() == 0 {
        assert(a1 + b =~= a1);
        assert(a2 + b =~= a2);
    } else {
        lemma_walk_same_prefix(base, a1, a2, b.drop_last());
        assert((a1 + b).drop_last() =~= a1 + b.drop_last());
        assert((a2 + b).drop_last() =~= a2 + b.drop_last());
        assert((a1 + b).last() == b.last());
        assert((a2 + b).last() == b.last());
    }
}

/// A `.` segment leaves the path where it is: walking with it, wherever it stands, gives
/// what walking without it gives (so `./x` leads where `x` does).
pub proof fn law_dot_segment_stays(base: Seq<Seq<char>>, a: Seq<Seq<char>>, b: Seq<Seq<char>>)
    ensures
        walk(base, a + seq![seq!['.']] + b) == walk(base, a + b),
{
    let a1 = a.push(seq!['.']);
    assert(a1.drop_last() =~= a);
    assert(walk(base, a1) == walk(base, a));
    lemma_walk_same_prefix(base, a1, a, b);
    assert(a + seq![seq!['.']] + b =~= a1 + b);
}

/// A segment entered and then left with `..` leaves the path where it was.
pub proof fn law_dotdot_undoes_segment(base: Seq<Seq<char>>, a: Seq<Seq<char>>, s: Seq<char>, b: Seq<Seq<char>>)
    requires
        s != seq!['.'],
        s != seq!['.', '.'],
        decode_segment(s) is Some,
    ensures
        walk(base, a + seq![s, seq!['.', '.']] + b) == walk(base, a + b),
{
    let a1 = a.push(s);
    let a2 = a1.push(seq!['.', '.']);
    assert(a1.drop_last() =~= a);
    assert(a2.drop_last() =~= a1);
    assert(a1.last() == s);
    assert(a2.last() == seq!['.', '.']);
    assert(seq!['.', '.'] != seq!['.']) by {
        assert(seq!['.', '.'].len() != seq!['.'].len());
    }
    match walk(base, a) {
        Ok(p) => {
            let d = decode_segment(s)->0;
            assert(walk(base, a1) == Ok::<Seq<Seq<char>>, Seq<char>>(p.push(d)));
            assert(p.push(d).drop_last() =~= p);
        },
        Err(_) => {},
    }
    assert(walk(base, a2) == walk(base, a));
    lemma_walk_same_prefix(base, a2, a, b);
    assert(a + seq![s, seq!['.', '.']] + b =~= a2 + b);
}

/// An absolute `cd` target leads to the same path from wherever it starts.
pub proof fn law_absolute_target_ignores_current(c1: Seq<Seq<char>>, c2: Seq<Seq<char>>, raw: Seq<char>)
    requires
        trim(raw).len() > 0,
        trim(raw)[0] == '/',
    ensures
        cd_target(c1, raw) == cd_target(c2, raw),
{
}

proof fn lemma_walk_err_prefix(base: Seq<Seq<char>>, segs: Seq<Seq<char>>, k: int)
    requires
        0 <= k <= segs.len(),
        walk(base, segs.take(k)) is Err,
    ensures
        walk(base, segs) == walk(base, segs.take(k)),
    decreases segs.len() - k,
{
    if k < segs.len() {
        assert(segs.take(k + 1).drop_last() =~= segs.take(k));
        lemma_walk_err_prefix(base, segs, k + 1);
    } else {
        assert(segs.take(k) =~= segs);
    }
}

/// The path that `cd raw_path` leads to from `current_path`.
pub fn resolve_command_path(current_path: &[String], raw_path: &str) -> (r: Result<Vec<String>, CdError>)
    ensures
        trim(raw_path@).len() == 0 ==> r == Err::<Vec<String>, CdError>(CdError::MissingTarget),
        trim(raw_path@).len() > 0 ==> match r {
            Ok(p) => cd_target(strings_view(current_path@), raw_path@) == Ok::<
                Seq<Seq<char>>,
                Seq<char>,
            >(strings_view(p@)),
            Err(CdError::InvalidSegment(bad)) => cd_target(strings_view(current_path@), raw_path@)
                == Err::<Seq<Seq<char>>, Seq<char>>(bad@),
            Err(CdError::MissingTarget) => false,
        },
{
    let chars = to_chars(raw_path);
    let t = trim_chars(&chars);
    if t.len() == 0 {
        return Err(CdError::MissingTarget);
    }
    let ts = from_chars(t.as_slice());
    let segs = split_path(ts.as_str());
    let ghost sv = strings_view(segs@);
    let mut path: Vec<String> = if t[0] == '/' {
        Vec::new()
    } else {
        clone_path(current_path)
    };
    let ghost base = strings_view(path@);
    proof {
        assert(base =~= (if t@[0] == '/' {
            Seq::<Seq<char>>::empty()
        } else {
            strings_view(current_path@)
        }));
        reveal_strlit(".");
        reveal_strlit("..");
        assert("."@ =~= seq!['.']);
        assert(".."@ =~= seq!['.', '.']);
        assert(sv.take(0) =~= Seq::<Seq<char>>::empty());
    }
    let mut i: usize = 0;
    while i < segs.len()
        invariant
            i <= segs@.len(),
            sv == strings_view(segs@),
            t@ == trim(raw_path@),
            t@.len() > 0,
            sv == split_segments(t@),
            base == (if t@[0] == '/' {
                Seq::<Seq<char>>::empty()
            } else {
                strings_view(current_path@)
            }),
            "."@ == seq!['.'],
            ".."@ == seq!['.', '.'],
            walk(base, sv.take(i as int)) == Ok::<Seq<Seq<char>>, Seq<char>>(strings_view(path@)),
        decreases segs@.len() - i,
    {
        let ghost before = strings_view(path@);
        proof {
            assert(sv.take(i + 1).drop_last() =~= sv.take(i as int));
            assert(sv.take(i + 1).last() == segs@[i as int]@);
        }
        let seg = segs[i].as_str();
        if str_is(seg, ".") {
        } else if str_is(seg, "..") {
            if path.len() > 0 {
                path.pop();
                proof {
                    assert(strings_view(path@) =~= before.drop_last());
                }
            }
        } else {
            match decode_path_segment_input(seg) {
                Ok(d) => {
                    path.push(d);
                    proof {
                        assert(strings_view(path@) =~= before.push(d@));
                    }
                },
                Err(e) => {
                    proof {
                        lemma_walk_err_prefix(base, sv, i + 1);
                    }
                    return Err(CdError::InvalidSegment(e.segment));
                },
            }
        }
        i += 1;
    }
    proof {
        assert(sv.take(i as int) =~= sv);
    }
    Ok(path)
}

} // verus!
