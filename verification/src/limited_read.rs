//! Reading a text file up to a number of characters. The bytes arrive in chunks; each chunk
//! is decoded as far as it holds whole UTF-8 sequences, and the bytes of a sequence cut by
//! the chunk's end wait for the next chunk. Once the limit is reached the reader stops and
//! looks whether anything follows, which marks the text as truncated.

use vstd::prelude::*;
use vstd::utf8::*;
use crate::utf8_check::{check_utf8, lemma_decode_concat, utf8_error_len};

verus! {

broadcast use vstd::seq_lib::group_seq_properties;

/// Bytes that are not UTF-8; the text says where.
#[derive(Debug)]
pub struct InvalidUtf8 {
    pub detail: String,
}

impl InvalidUtf8 {
    /// The error message.
    pub fn message(&self) -> (m: String)
        ensures
            m@ == "stream did not contain valid UTF-8: "@ + self.detail@,
    {
        let mut m = String::from_str("stream did not contain valid UTF-8: ");
        m.append(self.detail.as_str());
        m
    }
}

/// The state of a limited read: the characters kept so far, bytes that await the rest of
/// their sequence, and whether characters were dropped at the limit.
pub struct LimitedRead {
    pub limit: usize,
    pub output: String,
    pub char_count: usize,
    pub pending: Vec<u8>,
    pub truncated: bool,
}

/// How many of `n` characters still fit when `count` of `limit` are taken.
pub open spec fn room(count: int, limit: int, n: int) -> int {
    if n <= limit - count {
        n
    } else {
        limit - count
    }
}

/// No non-empty prefix of `b` is valid UTF-8: it holds at most the start of a sequence.
pub open spec fn no_valid_prefix(b: Seq<u8>) -> bool {
    forall|j: int| 1 <= j <= b.len() ==> !valid_utf8(#[trigger] b.take(j))
}

/// `new` took the first `c` bytes of `p` from `old`: they are valid UTF-8, their characters
/// are appended up to the limit, the truncation mark is set when some did not fit, and
/// the rest of `p` waits.
pub open spec fn took(old: LimitedRead, new: LimitedRead, p: Seq<u8>, c: int) -> bool {
    let chars = decode_utf8(p.take(c));
    &&& 0 <= c <= p.len()
    &&& valid_utf8(p.take(c))
    &&& new.pending@ == p.skip(c)
    &&& new.output@ == old.output@ + chars.take(room(old.char_count as int, old.limit as int, chars.len() as int))
    &&& new.truncated == (old.truncated || old.char_count + chars.len() > old.limit)
    &&& new.limit == old.limit
}

/// Taking `v` more bytes, whose characters are `dv`, after the first `c`.
proof fn lemma_took_step(
    start: LimitedRead,
    before: LimitedRead,
    after: LimitedRead,
    p: Seq<u8>,
    c: int,
    v: int,
    dv: Seq<char>,
)
    requires
        took(start, before, p, c),
        !start.truncated,
        start.wf(),
        before.wf(),
        before.char_count == start.char_count + decode_utf8(p.take(c)).len(),
        0 <= c <= c + v <= p.len(),
        valid_utf8(p.take(c + v)),
        decode_utf8(p.take(c + v)) == decode_utf8(p.take(c)) + dv,
        after.output@ == before.output@ + dv.take(room(before.char_count as int, before.limit as int, dv.len() as int)),
        after.truncated == (before.truncated || before.char_count + dv.len() > before.limit),
        after.pending@ == p.skip(c + v),
        after.limit == before.limit,
    ensures
        took(start, after, p, c + v),
{
    let dc = decode_utf8(p.take(c));
    assert(room(start.char_count as int, start.limit as int, dc.len() as int) == dc.len());
    assert(dc.take(dc.len() as int) =~= dc);
    assert(before.output@ == start.output@ + dc);
    let r = room(before.char_count as int, before.limit as int, dv.len() as int);
    assert(room(start.char_count as int, start.limit as int, (dc + dv).len() as int) == dc.len() + r);
    assert((dc + dv).take(dc.len() + r) =~= dc + dv.take(r));
    assert(after.output@ =~= start.output@ + (dc + dv).take(dc.len() + r));
}

impl LimitedRead {
    /// The count is that of the kept characters, within the limit, and the text is marked
    /// truncated only at the limit.
    pub open spec fn wf(&self) -> bool {
        &&& self.output@.len() == self.char_count
        &&& self.char_count <= self.limit
        &&& self.truncated ==> self.char_count == self.limit
    }

    /// A read that keeps at most `limit` characters.
    pub fn new(limit: usize) -> (r: Self)
        ensures
            r.wf(),
            r.limit == limit,
            r.output@.len() == 0,
            r.pending@.len() == 0,
            !r.truncated,
    {
        LimitedRead { limit, output: String::new(), char_count: 0, pending: Vec::new(), truncated: false }
    }

    /// Keeps the characters of `text` while the limit allows; marks the text truncated when
    /// one does not fit.
    fn take_chars(&mut self, text: &str)
        requires
            old(self).wf(),
        ensures
            final(self).wf(),
            final(self).output@ == old(self).output@ + text@.take(
                room(old(self).char_count as int, old(self).limit as int, text@.len() as int),
            ),
            final(self).truncated == (old(self).truncated || old(self).char_count + text@.len()
                > old(self).limit),
            final(self).limit == old(self).limit,
            final(self).pending == old(self).pending,
    {
        let n = text.unicode_len();
        let ghost out0 = self.output@;
        let ghost count0 = self.char_count;
        let mut i: usize = 0;
        while i < n
            invariant_except_break
                i <= n,
                n == text@.len(),
                self.wf(),
                self.char_count == count0 + i,
                self.output@ == out0 + text@.take(i as int),
                self.truncated == old(self).truncated,
            invariant
                self.limit == old(self).limit,
                self.pending == old(self).pending,
                out0 == old(self).output@,
                count0 == old(self).char_count,
                old(self).wf(),
            ensures
                self.wf(),
                self.output@ == out0 + text@.take(room(count0 as int, self.limit as int, n as int)),
                self.truncated == (old(self).truncated || count0 + n > self.limit),
            decreases n - i,
        {
            if self.char_count >= self.limit {
                self.truncated = true;
                break;
            }
            let c = text.get_char(i);
            let mut s = String::new();
            proof {
                assert(s@ =~= Seq::<char>::empty());
            }
            push_char(&mut s, c);
            self.output.append(s.as_str());
            self.char_count = self.char_count + 1;
            proof {
                assert(text@.take(i + 1) =~= text@.take(i as int).push(c));
            }
            i += 1;
        }
    }

    /// Takes in a chunk of bytes; returns whether to stop reading (the limit was reached),
    /// or the invalid UTF-8 met. The waiting bytes and the chunk are read together: when
    /// they are valid UTF-8 their characters are taken; otherwise the longest valid prefix
    /// is taken and the rest waits, unless the rest holds an invalid sequence (not one merely
    /// cut by the chunk's end), which is an error.
    pub fn feed(&mut self, chunk: &[u8]) -> (r: Result<bool, InvalidUtf8>)
        requires
            old(self).wf(),
            !old(self).truncated,
            old(self).pending@.len() + chunk@.len() <= usize::MAX,
        ensures
            final(self).wf(),
            r is Err <==> (!valid_utf8(old(self).pending@ + chunk@) && utf8_error_len(
                old(self).pending@ + chunk@,
            ) is Some),
            r matches Ok(stop) ==> {
                &&& exists|c: int| #[trigger] took(*old(self), *final(self), old(self).pending@ + chunk@, c)
                &&& !final(self).truncated ==> no_valid_prefix(final(self).pending@)
                &&& stop == (final(self).truncated || final(self).char_count >= final(self).limit)
            },
    {
        let ghost p = self.pending@ + chunk@;
        let ghost start = *self;
        let mut k: usize = 0;
        while k < chunk.len()
            invariant
                k <= chunk@.len(),
                self.pending@ == start.pending@ + chunk@.take(k as int),
                self.output == start.output,
                self.char_count == start.char_count,
                self.truncated == start.truncated,
                self.limit == start.limit,
            decreases chunk@.len() - k,
        {
            self.pending.push(chunk[k]);
            assert(chunk@.take(k + 1) =~= chunk@.take(k as int).push(chunk[k as int]));
            k += 1;
        }
        assert(chunk@.take(k as int) =~= chunk@);
        assert(self.pending@ == p);
        proof {
            assert(p.take(0) =~= Seq::<u8>::empty());
            assert(p.skip(0) =~= p);
            assert(decode_utf8(Seq::<u8>::empty()) =~= Seq::<char>::empty());
            assert(self.output@ =~= start.output@ + Seq::<char>::empty().take(0));
            assert(took(start, *self, p, 0));
        }
        let ghost before = *self;
        match check_utf8(self.pending.as_slice()) {
            Ok(valid) => {
                proof {
                    encode_utf8_decode_utf8(valid@);
                    assert(p.take(p.len() as int) =~= p);
                    assert(p.take(0) + p =~= p.take(p.len() as int));
                    assert(decode_utf8(p.take(0)) =~= Seq::<char>::empty());
                    assert(decode_utf8(p.take(p.len() as int)) =~= decode_utf8(p.take(0)) + valid@);
                }
                self.take_chars(valid.as_str());
                self.pending.clear();
                proof {
                    assert(p.skip(p.len() as int) =~= Seq::<u8>::empty());
                    lemma_took_step(start, before, *self, p, 0, p.len() as int, valid@);
                    assert(no_valid_prefix(self.pending@));
                }
            },
            Err(e) => {
                if e.error_len.is_some() {
                    return Err(InvalidUtf8 { detail: e.message });
                }
                let v = e.valid_up_to;
                if v > 0 {
                    let head = copy_range(&self.pending, 0, v);
                    let valid = match check_utf8(head.as_slice()) {
                        Ok(t) => t,
                        Err(e2) => {
                            return Err(InvalidUtf8 { detail: e2.message });
                        },
                    };
                    let rest = copy_range(&self.pending, v, self.pending.len());
                    proof {
                        encode_utf8_decode_utf8(valid@);
                        assert(head@ =~= p.take(v as int));
                        assert(p.take(0) + head@ =~= p.take(v as int));
                        assert(decode_utf8(p.take(0)) =~= Seq::<char>::empty());
                        assert(decode_utf8(p.take(v as int)) =~= decode_utf8(p.take(0)) + valid@);
                        assert(rest@ =~= p.skip(v as int));
                        assert forall|j: int| 1 <= j <= rest@.len() implies !valid_utf8(#[trigger] rest@.take(j)) by {
                            if valid_utf8(rest@.take(j)) {
                                lemma_decode_concat(p.take(v as int), rest@.take(j));
                                assert(p.take(v as int) + rest@.take(j) =~= p.take(v + j));
                            }
                        }
                    }
                    self.take_chars(valid.as_str());
                    self.pending = rest;
                    proof {
                        lemma_took_step(start, before, *self, p, 0, v as int, valid@);
                    }
                } else {
                    proof {
                        assert forall|j: int| 1 <= j <= self.pending@.len() implies !valid_utf8(
                            #[trigger] self.pending@.take(j),
                        ) by {}
                    }
                }
            },
        }
        Ok(self.truncated || self.char_count >= self.limit)
    }

    /// After stopping at the limit: whether more bytes followed marks the text truncated, as
    /// do bytes still waiting.
    pub fn probe(&mut self, more: bool)
        requires
            old(self).wf(),
            old(self).char_count == old(self).limit,
        ensures
            final(self).wf(),
            final(self).truncated == (old(self).truncated || more || old(self).pending@.len() > 0),
            final(self).output == old(self).output,
            final(self).pending == old(self).pending,
    {
        self.truncated = self.truncated || more || self.pending.len() > 0;
    }

    /// At the end of the file: the waiting bytes must complete the text.
    pub fn finish(&mut self) -> (r: Result<(), InvalidUtf8>)
        requires
            old(self).wf(),
        ensures
            final(self).wf(),
            r is Ok <==> valid_utf8(old(self).pending@),
            r is Ok ==> took(*old(self), *final(self), old(self).pending@, old(self).pending@.len() as int),
    {
        if self.pending.len() == 0 {
            proof {
                assert(self.pending@.take(0) =~= self.pending@);
                assert(self.pending@.skip(0) =~= self.pending@);
                assert(decode_utf8(self.pending@) =~= Seq::<char>::empty());
                assert(self.output@ =~= self.output@ + Seq::<char>::empty().take(0));
            }
            return Ok(());
        }
        let ghost p = self.pending@;
        match check_utf8(self.pending.as_slice()) {
            Ok(text) => {
                proof {
                    encode_utf8_decode_utf8(text@);
                    assert(p.take(p.len() as int) =~= p);
                }
                self.take_chars(text.as_str());
                self.pending.clear();
                proof {
                    assert(p.skip(p.len() as int) =~= Seq::<u8>::empty());
                }
                Ok(())
            },
            Err(e) => Err(InvalidUtf8 { detail: e.message }),
        }
    }

    /// The text read and whether it was cut short.
    pub fn into_result(self) -> (r: (String, bool))
        ensures
            r.0@ == self.output@,
            r.1 == self.truncated,
    {
        (self.output, self.truncated)
    }
}

/// Appends `c` to `s`.
fn push_char(s: &mut String, c: char)
    ensures
        final(s)@ == old(s)@.push(c),
{
    let mut v: Vec<char> = Vec::new();
    v.push(c);
    let t = crate::text::from_chars(v.as_slice());
    s.append(t.as_str());
    assert(t@ =~= seq![c]);
}

/// The bytes `lo..hi` of `v`.
fn copy_range(v: &Vec<u8>, lo: usize, hi: usize) -> (r: Vec<u8>)
    requires
        lo <= hi <= v@.len(),
    ensures
        r@ == v@.subrange(lo as int, hi as int),
{
    let mut r: Vec<u8> = Vec::new();
    let mut i: usize = lo;
    while i < hi
        invariant
            lo <= i <= hi <= v@.len(),
            r@ == v@.subrange(lo as int, i as int),
        decreases hi - i,
    {
        r.push(v[i]);
        assert(v@.subrange(lo as int, i + 1) =~= v@.subrange(lo as int, i as int).push(v[i as int]));
        i += 1;
    }
    r
}

} // verus!

verus! {

/// Reading in chunks reads the concatenation: when `b` took `c` bytes of `p` from `a` without
/// reaching the limit, and `d` then took `e` bytes of what `b` held waiting followed by the
/// next chunk `ch`, then `d` took `c + e` bytes of `p` followed by `ch` from `a`.
pub proof fn law_chunks_concatenate(
    a: LimitedRead,
    b: LimitedRead,
    d: LimitedRead,
    p: Seq<u8>,
    ch: Seq<u8>,
    c: int,
    e: int,
)
    requires
        a.wf(),
        b.wf(),
        took(a, b, p, c),
        !b.truncated,
        took(b, d, b.pending@ + ch, e),
    ensures
        took(a, d, p + ch, c + e),
{
    let q = p + ch;
    assert(b.pending@ + ch =~= q.skip(c));
    let x = p.take(c);
    let y = q.skip(c).take(e);
    assert(q.take(c + e) =~= x + y);
    lemma_decode_concat(x, y);
    let dx = decode_utf8(x);
    let dy = decode_utf8(y);
    assert(room(a.char_count as int, a.limit as int, dx.len() as int) == dx.len());
    assert(dx.take(dx.len() as int) =~= dx);
    assert(b.output@ == a.output@ + dx);
    assert(b.char_count == a.char_count + dx.len());
    let r = room(b.char_count as int, b.limit as int, dy.len() as int);
    assert(room(a.char_count as int, a.limit as int, (dx + dy).len() as int) == dx.len() + r);
    assert((dx + dy).take(dx.len() + r) =~= dx + dy.take(r));
    assert(decode_utf8((b.pending@ + ch).take(e)) == dy);
    assert(d.output@ =~= a.output@ + (dx + dy).take(dx.len() + r));
    assert(q.skip(c).skip(e) =~= q.skip(c + e));
}

/// A read that took the whole of valid text `bytes` from a fresh start holds its first
/// `limit` characters, and is marked truncated exactly when the text has more.
pub proof fn law_whole_text_read(start: LimitedRead, end: LimitedRead, bytes: Seq<u8>)
    requires
        start.output@.len() == 0,
        start.char_count == 0,
        !start.truncated,
        took(start, end, bytes, bytes.len() as int),
    ensures
        valid_utf8(bytes),
        end.output@ == decode_utf8(bytes).take(
            if decode_utf8(bytes).len() <= start.limit {
                decode_utf8(bytes).len() as int
            } else {
                start.limit as int
            },
        ),
        end.truncated == (decode_utf8(bytes).len() > start.limit),
        end.pending@.len() == 0,
{
    assert(bytes.take(bytes.len() as int) =~= bytes);
    assert(Seq::<char>::empty() + decode_utf8(bytes).take(
        room(0, start.limit as int, decode_utf8(bytes).len() as int),
    ) =~= decode_utf8(bytes).take(room(0, start.limit as int, decode_utf8(bytes).len() as int)));
}

} // verus!

verus! {

/// A read stopped at the limit: when a fresh read took the first `c` bytes of `bytes` and
/// stopped with the limit reached, and `probed` is that read after looking whether the file
/// held more (`more`), it holds exactly the first `limit` characters of what was taken, and
/// it is marked truncated exactly when more characters were taken than fit, bytes of
/// `bytes` still wait, or the file held more.
pub proof fn law_stopped_read(
    start: LimitedRead,
    end: LimitedRead,
    probed: LimitedRead,
    bytes: Seq<u8>,
    c: int,
    more: bool,
)
    requires
        start.output@.len() == 0,
        start.char_count == 0,
        !start.truncated,
        took(start, end, bytes, c),
        end.wf(),
        end.char_count == end.limit,
        probed.truncated == (end.truncated || more || end.pending@.len() > 0),
        probed.output == end.output,
    ensures
        probed.output@ == decode_utf8(bytes.take(c)).take(start.limit as int),
        probed.output@.len() == start.limit,
        probed.truncated == (decode_utf8(bytes.take(c)).len() > start.limit || more || c < bytes.len()),
{
    let d = decode_utf8(bytes.take(c));
    assert(Seq::<char>::empty() + d.take(room(0, start.limit as int, d.len() as int)) =~= d.take(
        room(0, start.limit as int, d.len() as int),
    ));
    assert(end.pending@.len() == bytes.len() - c);
}

} // verus!

verus! {

/// The chunks one after another.
pub open spec fn joined_bytes(chunks: Seq<Seq<u8>>) -> Seq<u8>
    decreases chunks.len(),
{
    if chunks.len() == 0 {
        Seq::empty()
    } else {
        joined_bytes(chunks.drop_last()) + chunks.last()
    }
}

/// `b` is the read `a` after it was fed the chunk `ch`.
pub open spec fn fed(a: LimitedRead, b: LimitedRead, ch: Seq<u8>) -> bool {
    exists|c: int| #[trigger] took(a, b, a.pending@ + ch, c)
}

/// `states[i + 1]` is the read `states[i]` after it was fed the `i`th chunk, and no state
/// reached the limit.
pub open spec fn fed_in_turn(states: Seq<LimitedRead>, chunks: Seq<Seq<u8>>) -> bool {
    &&& states.len() == chunks.len() + 1
    &&& forall|i: int| 0 <= i < states.len() ==> #[trigger] states[i].wf() && !states[i].truncated
    &&& forall|i: int| 0 <= i < chunks.len() ==> #[trigger] fed(states[i], states[i + 1], chunks[i])
}

/// After the first `k` chunks, the read took a prefix of their concatenation.
proof fn lemma_read_prefix(states: Seq<LimitedRead>, chunks: Seq<Seq<u8>>, k: int) -> (c: int)
    requires
        fed_in_turn(states, chunks),
        0 <= k <= chunks.len(),
        states[0].output@.len() == 0,
        states[0].pending@.len() == 0,
    ensures
        took(states[0], states[k], joined_bytes(chunks.take(k)), c),
    decreases k,
{
    if k == 0 {
        let s0 = states[0];
        assert(s0.wf());
        assert(chunks.take(0) =~= Seq::<Seq<u8>>::empty());
        let p = joined_bytes(chunks.take(0));
        assert(p =~= Seq::<u8>::empty());
        assert(p.take(0) =~= Seq::<u8>::empty());
        assert(p.skip(0) =~= s0.pending@);
        assert(decode_utf8(Seq::<u8>::empty()) =~= Seq::<char>::empty());
        assert(s0.output@ =~= s0.output@ + Seq::<char>::empty().take(0));
        0
    } else {
        let c = lemma_read_prefix(states, chunks, k - 1);
        let a = states[0];
        let b = states[k - 1];
        let d = states[k];
        assert(states.len() == chunks.len() + 1);
        assert(states[k - 1].wf());
        assert(a.wf() && b.wf() && !b.truncated);
        assert(fed(states[k - 1], states[k - 1 + 1], chunks[k - 1]));
        assert(fed(b, d, chunks[k - 1]));
        let e = choose|e: int| #[trigger] took(b, d, b.pending@ + chunks[k - 1], e);
        law_chunks_concatenate(a, b, d, joined_bytes(chunks.take(k - 1)), chunks[k - 1], c, e);
        assert(chunks.take(k).drop_last() =~= chunks.take(k - 1));
        assert(joined_bytes(chunks.take(k)) == joined_bytes(chunks.take(k - 1)) + chunks[k - 1]);
        c + e
    }
}

/// Reading a whole file in chunks: when a fresh read is fed the chunks one after another
/// (see `fed_in_turn`), none of them reaching the limit, and is then finished, it holds the
/// first `limit` characters of the file's text, and is marked truncated exactly when the
/// text has more.
pub proof fn law_read_in_chunks(states: Seq<LimitedRead>, chunks: Seq<Seq<u8>>, end: LimitedRead)
    requires
        fed_in_turn(states, chunks),
        states[0].output@.len() == 0,
        states[0].char_count == 0,
        states[0].pending@.len() == 0,
        took(states.last(), end, states.last().pending@, states.last().pending@.len() as int),
    ensures
        valid_utf8(joined_bytes(chunks)),
        end.output@ == decode_utf8(joined_bytes(chunks)).take(
            if decode_utf8(joined_bytes(chunks)).len() <= states[0].limit {
                decode_utf8(joined_bytes(chunks)).len() as int
            } else {
                states[0].limit as int
            },
        ),
        end.truncated == (decode_utf8(joined_bytes(chunks)).len() > states[0].limit),
{
    let n = chunks.len() as int;
    let c = lemma_read_prefix(states, chunks, n);
    assert(chunks.take(n) =~= chunks);
    let p = joined_bytes(chunks);
    let first = states[0];
    let last = states[n];
    assert(first.wf() && !first.truncated);
    assert(last.wf() && !last.truncated);
    assert(last.pending@ + Seq::<u8>::empty() =~= last.pending@);
    law_chunks_concatenate(first, last, end, p, Seq::<u8>::empty(), c, last.pending@.len() as int);
    assert(p + Seq::<u8>::empty() =~= p);
    assert(last.pending@.len() == p.len() - c);
    law_whole_text_read(first, end, p);
}

} // verus!
