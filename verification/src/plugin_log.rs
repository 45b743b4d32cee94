//! Messages that plugins write to their log: a format whose `{}` placeholders are filled
//! with the arguments in turn, and the entry written for a message.

use vstd::prelude::*;
use crate::http::find_from;
use crate::text::{from_chars, sub_chars, to_chars};

verus! {

broadcast use vstd::seq_lib::group_seq_properties;

/// The placeholder.
pub open spec fn placeholder() -> Seq<char> {
    seq!['{', '}']
}

/// `text` with its first `{}` replaced by the first argument, then the first `{}` of the
/// result by the next argument, and so on while arguments and placeholders last.
pub open spec fn fill_placeholders(text: Seq<char>, args: Seq<Seq<char>>) -> Seq<char>
    decreases args.len(),
{
    if args.len() == 0 {
        text
    } else {
        match find_from(text, placeholder(), 0) {
            None => text,
            Some(p) => fill_placeholders(text.take(p) + args[0] + text.skip(p + 2), args.drop_first()),
        }
    }
}

/// The texts of the strings.
pub open spec fn texts(v: Seq<String>) -> Seq<Seq<char>> {
    v.map_values(|s: String| s@)
}

/// The message of a log call (see `fill_placeholders`).
pub fn format_log_message(format: &str, args: &Vec<String>) -> (r: String)
    ensures
        r@ == fill_placeholders(format@, texts(args@)),
{
    let mut text = to_chars(format);
    let mut pattern: Vec<char> = Vec::new();
    pattern.push('{');
    pattern.push('}');
    assert(pattern@ =~= placeholder());
    let mut i: usize = 0;
    while i < args.len()
        invariant
            i <= args@.len(),
            pattern@ == placeholder(),
            fill_placeholders(text@, texts(args@).skip(i as int)) == fill_placeholders(format@, texts(args@)),
        decreases args@.len() - i,
    {
        let ghost rest = texts(args@).skip(i as int);
        proof {
            assert(rest.drop_first() =~= texts(args@).skip(i + 1));
            assert(rest[0] == args@[i as int]@);
        }
        match crate::http::find_seq(&text, &pattern, 0) {
            None => {
                proof {
                    assert(texts(args@).skip(args@.len() as int) =~= Seq::<Seq<char>>::empty());
                }
                return from_chars(text.as_slice());
            },
            Some(p) => {
                proof {
                    crate::http::lemma_find_from_bound(text@, pattern@, 0);
                    assert(pattern@.len() == 2);
                    assert(p + 2 <= text@.len());
                }
                let n = text.len();
                assert(p + 2 <= n);
                let head = sub_chars(&text, 0, p);
                let tail = sub_chars(&text, p + 2, n);
                let arg = to_chars(args[i].as_str());
                let mut next: Vec<char> = Vec::new();
                let mut k: usize = 0;
                while k < head.len()
                    invariant
                        k <= head@.len(),
                        next@ == head@.take(k as int),
                    decreases head@.len() - k,
                {
                    next.push(head[k]);
                    assert(next@ =~= head@.take(k + 1));
                    k += 1;
                }
                assert(head@.take(head@.len() as int) =~= head@);
                let mut k: usize = 0;
                while k < arg.len()
                    invariant
                        k <= arg@.len(),
                        next@ == head@ + arg@.take(k as int),
                    decreases arg@.len() - k,
                {
                    next.push(arg[k]);
                    assert(next@ =~= head@ + arg@.take(k + 1));
                    k += 1;
                }
                assert(arg@.take(arg@.len() as int) =~= arg@);
                let mut k: usize = 0;
                while k < tail.len()
                    invariant
                        k <= tail@.len(),
                        next@ == head@ + arg@ + tail@.take(k as int),
                    decreases tail@.len() - k,
                {
                    next.push(tail[k]);
                    assert(next@ =~= head@ + arg@ + tail@.take(k + 1));
                    k += 1;
                }
                assert(tail@.take(tail@.len() as int) =~= tail@);
                proof {
                    assert(head@ =~= text@.take(p as int));
                    assert(tail@ =~= text@.skip(p + 2));
                }
                text = next;
            },
        }
        i += 1;
    }
    proof {
        assert(texts(args@).skip(i as int) =~= Seq::<Seq<char>>::empty());
    }
    from_chars(text.as_slice())
}

/// The line written to the log for a message: `[time][level] message`.
pub open spec fn log_entry_of(time: Seq<char>, level: Seq<char>, message: Seq<char>) -> Seq<char> {
    seq!['['] + time + seq![']', '['] + level + seq![']', ' '] + message + seq!['\n']
}

/// The line written to the log (see `log_entry_of`).
pub fn log_entry(time: &str, level: &str, message: &str) -> (r: String)
    ensures
        r@ == log_entry_of(time@, level@, message@),
{
    let mut r = String::from_str("[");
    r.append(time);
    r.append("][");
    r.append(level);
    r.append("] ");
    r.append(message);
    r.append("\n");
    proof {
        reveal_strlit("[");
        reveal_strlit("][");
        reveal_strlit("] ");
        reveal_strlit("\n");
        assert(r@ =~= log_entry_of(time@, level@, message@));
    }
    r
}

} // verus!
