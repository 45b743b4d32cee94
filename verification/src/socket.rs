//! Line-based Unix socket connections: the address a plugin names, and how lines are framed
//! on the wire.

use vstd::prelude::*;
use crate::text::{from_chars, sub_chars, to_chars};

verus! {

broadcast use vstd::seq_lib::group_seq_properties;

/// A socket address that cannot be connected to.
#[derive(Debug, PartialEq, Eq)]
pub enum SocketAddrError {
    /// No path was given.
    Empty,
    /// The address names a scheme other than `unix:`.
    Unsupported(String),
}

impl SocketAddrError {
    /// The error message.
    pub fn message(&self) -> (m: String)
        ensures
            self is Empty ==> m@ == "Socket address cannot be empty"@,
            self matches SocketAddrError::Unsupported(a) ==> m@ == "Unsupported socket address '"@ + a@
                + "'"@,
    {
        match self {
            SocketAddrError::Empty => String::from_str("Socket address cannot be empty"),
            SocketAddrError::Unsupported(a) => {
                let mut m = String::from_str("Unsupported socket address '");
                m.append(a.as_str());
                m.append("'");
                m
            },
        }
    }
}

/// The socket path an address names: what follows `unix:`, or the address itself when it
/// holds no `:`.
pub open spec fn socket_path_of(addr: Seq<char>) -> Result<Seq<char>, Option<Seq<char>>> {
    if addr.len() >= 5 && addr.take(5) == "unix:"@ {
        if addr.len() == 5 {
            Err(None)
        } else {
            Ok(addr.skip(5))
        }
    } else if addr.contains(':') {
        Err(Some(addr))
    } else if addr.len() == 0 {
        Err(None)
    } else {
        Ok(addr)
    }
}

/// The error as plain values: `None` for an empty path, the address for an unsupported one.
pub open spec fn addr_error_view(e: SocketAddrError) -> Option<Seq<char>> {
    match e {
        SocketAddrError::Empty => None,
        SocketAddrError::Unsupported(a) => Some(a@),
    }
}

/// The socket path that `addr` names (see `socket_path_of`).
pub fn parse_socket_addr(addr: &str) -> (r: Result<String, SocketAddrError>)
    ensures
        match (r, socket_path_of(addr@)) {
            (Ok(p), Ok(q)) => p@ == q,
            (Err(e), Err(q)) => addr_error_view(e) == q,
            _ => false,
        },
{
    let c = to_chars(addr);
    let n = c.len();
    proof {
        reveal_strlit("unix:");
    }
    if n >= 5 && c[0] == 'u' && c[1] == 'n' && c[2] == 'i' && c[3] == 'x' && c[4] == ':' {
        assert(c@.take(5) =~= "unix:"@);
        if n == 5 {
            return Err(SocketAddrError::Empty);
        }
        let rest = sub_chars(&c, 5, n);
        assert(rest@ =~= c@.skip(5));
        return Ok(from_chars(rest.as_slice()));
    }
    proof {
        assert("unix:"@ =~= seq!['u', 'n', 'i', 'x', ':']);
        if c@.len() >= 5 && c@.take(5) == "unix:"@ {
            assert(c@[0] == c@.take(5)[0]);
            assert(c@[1] == c@.take(5)[1]);
            assert(c@[2] == c@.take(5)[2]);
            assert(c@[3] == c@.take(5)[3]);
            assert(c@[4] == c@.take(5)[4]);
        }
    }
    let mut i: usize = 0;
    while i < n
        invariant
            n == c@.len(),
            c@ == addr@,
            !(c@.len() >= 5 && c@.take(5) == "unix:"@),
            i <= n,
            forall|k: int| 0 <= k < i ==> c@[k] != ':',
        decreases n - i,
    {
        if c[i] == ':' {
            assert(c@.contains(':'));
            return Err(SocketAddrError::Unsupported(String::from_str(addr)));
        }
        i += 1;
    }
    if n == 0 {
        return Err(SocketAddrError::Empty);
    }
    Ok(String::from_str(addr))
}

/// `s` without the line breaks (`\r` and `\n`) at its end.
pub open spec fn strip_line_end(s: Seq<char>) -> Seq<char>
    decreases s.len(),
{
    if s.len() > 0 && (s.last() == '\r' || s.last() == '\n') {
        strip_line_end(s.drop_last())
    } else {
        s
    }
}

/// A line read from the socket, without its line break, as handed to the line callback.
pub fn line_text(line: &str) -> (r: String)
    ensures
        r@ == strip_line_end(line@),
{
    let c = to_chars(line);
    let mut k: usize = c.len();
    assert(c@.take(k as int) =~= c@);
    while k > 0 && (c[k - 1] == '\r' || c[k - 1] == '\n')
        invariant
            k <= c@.len(),
            strip_line_end(c@) == strip_line_end(c@.take(k as int)),
        decreases k,
    {
        assert(c@.take(k as int).drop_last() =~= c@.take(k - 1));
        k -= 1;
    }
    let kept = sub_chars(&c, 0, k);
    assert(kept@ =~= c@.take(k as int));
    from_chars(kept.as_slice())
}

/// What is written for a message: the message, and a line break unless it ends with one.
pub open spec fn framed_message(message: Seq<char>) -> Seq<char> {
    if message.len() > 0 && message.last() == '\n' {
        message
    } else {
        message.push('\n')
    }
}

/// The text written to the socket for `message`.
pub fn frame_message(message: &str) -> (r: String)
    ensures
        r@ == framed_message(message@),
{
    let c = to_chars(message);
    let n = c.len();
    let mut r = String::from_str(message);
    if n > 0 && c[n - 1] == '\n' {
        return r;
    }
    proof {
        reveal_strlit("\n");
        assert("\n"@ =~= seq!['\n']);
    }
    r.append("\n");
    r
}

} // verus!
