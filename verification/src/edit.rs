//! Editing a line of text with a cursor kept as a byte offset on a character boundary.

use vstd::prelude::*;
use crate::text::{
    byte_len, byte_offset, char_index, char_width_utf8, from_chars, is_boundary, lemma_byte_len_concat,
    lemma_byte_len_ge_len, lemma_byte_len_single, lemma_char_index, lemma_offset_full,
    lemma_offset_step, lemma_offset_strict, lemma_width_pos, str_byte_len, sub_chars, to_chars, utf8_width,
};

verus! {

broadcast use vstd::seq_lib::group_seq_properties;

/// A text and cursor that editing accepts: the cursor is on a character boundary and the
/// text is no longer than a Rust string can be.
pub open spec fn edit_ok(text: Seq<char>, cursor: int) -> bool {
    is_boundary(text, cursor) && byte_len(text) <= isize::MAX
}

/// Text after inserting `c` at character position `k`.
pub open spec fn insert_at(text: Seq<char>, k: int, c: char) -> Seq<char> {
    text.take(k) + seq![c] + text.skip(k)
}

/// Text after removing the character at position `k`.
pub open spec fn remove_at(text: Seq<char>, k: int) -> Seq<char> {
    text.take(k) + text.skip(k + 1)
}

pub proof fn lemma_boundary_bounds(text: Seq<char>, b: int)
    requires
        is_boundary(text, b),
    ensures
        0 <= char_index(text, b) <= text.len(),
        byte_offset(text, char_index(text, b)) == b,
        0 <= b <= byte_len(text),
        b == byte_len(text) <==> char_index(text, b) == text.len(),
        b == 0 <==> char_index(text, b) == 0,
{
    let k = char_index(text, b);
    lemma_offset_full(text);
    assert(text.take(0) =~= Seq::<char>::empty());
    if k < text.len() {
        lemma_offset_strict(text, k, text.len() as int);
    }
    if k > 0 {
        lemma_offset_strict(text, 0, k);
    }
}

/// Character index of the byte offset `b`.
pub fn char_index_exec(v: &Vec<char>, b: usize) -> (k: usize)
    requires
        is_boundary(v@, b as int),
    ensures
        k as int == char_index(v@, b as int),
        k <= v@.len(),
{
    proof {
        lemma_boundary_bounds(v@, b as int);
    }
    let ghost target = char_index(v@, b as int);
    let n = v.len();
    let mut k: usize = 0;
    let mut acc: usize = 0;
    assert(v@.take(0) =~= Seq::<char>::empty());
    while acc < b
        invariant
            n == v@.len(),
            0 <= target <= v@.len(),
            byte_offset(v@, target) == b,
            k <= target,
            acc == byte_offset(v@, k as int),
        decreases target - k,
    {
        proof {
            if k == target {
                assert(false);
            }
            lemma_offset_step(v@, k as int);
            if k + 1 < target {
                lemma_offset_strict(v@, k + 1, target);
            }
        }
        acc = acc + char_width_utf8(v[k]);
        k += 1;
        proof {
            if k < target {
                lemma_offset_strict(v@, k as int, target);
            }
        }
    }
    proof {
        if k < target {
            lemma_offset_strict(v@, k as int, target);
        }
    }
    k
}

/// `String::insert(cursor, c)` followed by moving the cursor past `c`.
pub fn insert_char_at(text: &mut String, cursor: &mut usize, c: char)
    requires
        edit_ok(old(text)@, *old(cursor) as int),
        byte_len(old(text)@) + utf8_width(c) <= isize::MAX,
    ensures
        final(text)@ == insert_at(old(text)@, char_index(old(text)@, *old(cursor) as int), c),
        *final(cursor) == *old(cursor) + utf8_width(c),
        edit_ok(final(text)@, *final(cursor) as int),
        byte_len(final(text)@) == byte_len(old(text)@) + utf8_width(c),
{
    let ghost t = text@;
    let v = to_chars(text.as_str());
    let k = char_index_exec(&v, *cursor);
    proof {
        lemma_boundary_bounds(t, *cursor as int);
    }
    let mut nv = sub_chars(&v, 0, k);
    nv.push(c);
    let tail = sub_chars(&v, k, v.len());
    let mut i: usize = 0;
    let ghost head = nv@;
    while i < tail.len()
        invariant
            i <= tail@.len(),
            nv@ == head + tail@.take(i as int),
        decreases tail@.len() - i,
    {
        nv.push(tail[i]);
        assert(tail@.take(i + 1) =~= tail@.take(i as int).push(tail@[i as int]));
        i += 1;
    }
    assert(tail@.take(tail@.len() as int) =~= tail@);
    assert(nv@ =~= insert_at(t, k as int, c));
    *text = from_chars(nv.as_slice());
    let w = char_width_utf8(c);
    proof {
        lemma_width_pos(c);
        let nt = insert_at(t, k as int, c);
        assert(nt.take(k + 1) =~= t.take(k as int) + seq![c]);
        lemma_byte_len_concat(t.take(k as int), seq![c]);
        lemma_byte_len_single(c);
        lemma_char_index(nt, k + 1);
        assert(nt =~= (t.take(k as int) + seq![c]) + t.skip(k as int));
        assert(t =~= t.take(k as int) + t.skip(k as int));
        lemma_byte_len_concat(t.take(k as int) + seq![c], t.skip(k as int));
        lemma_byte_len_concat(t.take(k as int), t.skip(k as int));
    }
    *cursor = *cursor + w;
}

/// Removes the character at position `k` of `v`.
fn remove_char(v: &Vec<char>, k: usize) -> (r: Vec<char>)
    requires
        k < v@.len(),
    ensures
        r@ == remove_at(v@, k as int),
{
    let n = v.len();
    let mut nv = sub_chars(v, 0, k);
    let mut i = k + 1;
    let ghost head = nv@;
    while i < n
        invariant
            n == v@.len(),
            k + 1 <= i <= v@.len(),
            nv@ == head + v@.subrange(k + 1, i as int),
            head == v@.take(k as int),
        decreases v@.len() - i,
    {
        nv.push(v[i]);
        assert(v@.subrange(k + 1, i + 1) =~= v@.subrange(k + 1, i as int).push(v@[i as int]));
        i += 1;
    }
    assert(nv@ =~= remove_at(v@, k as int));
    nv
}

pub proof fn lemma_remove_len(t: Seq<char>, k: int)
    requires
        0 <= k < t.len(),
    ensures
        byte_len(remove_at(t, k)) + utf8_width(t[k]) == byte_len(t),
        byte_offset(remove_at(t, k), k) == byte_offset(t, k),
        is_boundary(remove_at(t, k), byte_offset(t, k) as int),
        remove_at(t, k).len() == t.len() - 1,
{
    let a = t.take(k);
    let b = t.skip(k + 1);
    assert(t =~= a + (seq![t[k]] + b));
    lemma_byte_len_concat(a, seq![t[k]] + b);
    lemma_byte_len_concat(seq![t[k]], b);
    lemma_byte_len_single(t[k]);
    lemma_byte_len_concat(a, b);
    assert(remove_at(t, k).take(k) =~= a);
    lemma_char_index(remove_at(t, k), k);
}

/// Deletes the character before the cursor and moves the cursor onto its start.
pub fn backspace_at(text: &mut String, cursor: &mut usize)
    requires
        edit_ok(old(text)@, *old(cursor) as int),
    ensures
        *old(cursor) == 0 ==> final(text)@ == old(text)@ && *final(cursor) == 0,
        *old(cursor) > 0 ==> ({
            let k = char_index(old(text)@, *old(cursor) as int);
            &&& final(text)@ == remove_at(old(text)@, k - 1)
            &&& *final(cursor) == byte_offset(old(text)@, k - 1)
        }),
        edit_ok(final(text)@, *final(cursor) as int),
{
    if *cursor == 0 {
        return;
    }
    let ghost t = text@;
    let v = to_chars(text.as_str());
    let k = char_index_exec(&v, *cursor);
    proof {
        lemma_boundary_bounds(t, *cursor as int);
        lemma_remove_len(t, k - 1);
        lemma_offset_step(t, k - 1);
    }
    let nv = remove_char(&v, k - 1);
    *text = from_chars(nv.as_slice());
    *cursor = *cursor - char_width_utf8(v[k - 1]);
}

/// Deletes the character at the cursor.
pub fn delete_at(text: &mut String, cursor: &mut usize)
    requires
        edit_ok(old(text)@, *old(cursor) as int),
    ensures
        *final(cursor) == *old(cursor),
        *old(cursor) == byte_len(old(text)@) ==> final(text)@ == old(text)@,
        *old(cursor) < byte_len(old(text)@) ==> final(text)@ == remove_at(
            old(text)@,
            char_index(old(text)@, *old(cursor) as int),
        ),
        edit_ok(final(text)@, *final(cursor) as int),
{
    let ghost t = text@;
    proof {
        lemma_boundary_bounds(t, *cursor as int);
    }
    let len = str_byte_len(text.as_str());
    if *cursor < len {
        let v = to_chars(text.as_str());
        let k = char_index_exec(&v, *cursor);
        proof {
            lemma_remove_len(t, k as int);
        }
        let nv = remove_char(&v, k);
        *text = from_chars(nv.as_slice());
    }
}

/// Moves the cursor to the start of the character before it.
pub fn cursor_left_at(text: &String, cursor: &mut usize)
    requires
        edit_ok(text@, *old(cursor) as int),
    ensures
        *old(cursor) == 0 ==> *final(cursor) == 0,
        *old(cursor) > 0 ==> *final(cursor) == byte_offset(text@, char_index(text@, *old(cursor) as int) - 1),
        edit_ok(text@, *final(cursor) as int),
{
    if *cursor > 0 {
        let v = to_chars(text.as_str());
        let k = char_index_exec(&v, *cursor);
        proof {
            lemma_boundary_bounds(text@, *cursor as int);
            lemma_offset_step(text@, k - 1);
            lemma_char_index(text@, k - 1);
        }
        *cursor = *cursor - char_width_utf8(v[k - 1]);
    }
}

/// Moves the cursor past the character at it.
pub fn cursor_right_at(text: &String, cursor: &mut usize)
    requires
        edit_ok(text@, *old(cursor) as int),
    ensures
        *old(cursor) == byte_len(text@) ==> *final(cursor) == *old(cursor),
        *old(cursor) < byte_len(text@) ==> *final(cursor) == byte_offset(text@, char_index(text@, *old(cursor) as int) + 1),
        edit_ok(text@, *final(cursor) as int),
{
    proof {
        lemma_boundary_bounds(text@, *cursor as int);
    }
    let len = str_byte_len(text.as_str());
    if *cursor < len {
        let v = to_chars(text.as_str());
        let k = char_index_exec(&v, *cursor);
        proof {
            lemma_offset_step(text@, k as int);
            lemma_char_index(text@, k + 1);
            lemma_offset_full(text@);
            if k + 1 < text@.len() {
                lemma_offset_strict(text@, k + 1, text@.len() as int);
            }
        }
        *cursor = *cursor + char_width_utf8(v[k]);
    }
}

/// Moves the cursor to the end of the text.
pub fn cursor_to_end_at(text: &String, cursor: &mut usize)
    requires
        byte_len(text@) <= isize::MAX,
    ensures
        *final(cursor) == byte_len(text@),
        edit_ok(text@, *final(cursor) as int),
{
    proof {
        lemma_offset_full(text@);
        lemma_char_index(text@, text@.len() as int);
    }
    *cursor = str_byte_len(text.as_str());
}

/// The start of the text is a boundary.
pub proof fn lemma_zero_boundary(text: Seq<char>)
    ensures
        is_boundary(text, 0),
        char_index(text, 0) == 0,
{
    assert(text.take(0) =~= Seq::<char>::empty());
    lemma_char_index(text, 0);
}

/// Drops everything before the cursor; the cursor moves to the start.
pub fn clear_before_at(text: &mut String, cursor: &mut usize)
    requires
        edit_ok(old(text)@, *old(cursor) as int),
    ensures
        *final(cursor) == 0,
        *old(cursor) == 0 ==> final(text)@ == old(text)@,
        *old(cursor) > 0 ==> final(text)@ == old(text)@.skip(char_index(old(text)@, *old(cursor) as int)),
        edit_ok(final(text)@, 0),
{
    let ghost t = text@;
    proof {
        lemma_boundary_bounds(t, *cursor as int);
    }
    if *cursor > 0 {
        let v = to_chars(text.as_str());
        let k = char_index_exec(&v, *cursor);
        let rest = sub_chars(&v, k, v.len());
        *text = from_chars(rest.as_slice());
        proof {
            assert(t =~= t.take(k as int) + t.skip(k as int));
            lemma_byte_len_concat(t.take(k as int), t.skip(k as int));
        }
        *cursor = 0;
    }
    proof {
        lemma_zero_boundary(text@);
    }
}

} // verus!

verus! {

/// Typing a character and deleting it again with backspace gives back the text and the
/// cursor: after `insert_char_at` the cursor stands just past the new character, and
/// `backspace_at` removes exactly that character and puts the cursor where it was.
pub proof fn law_backspace_undoes_insert(text: Seq<char>, cursor: int, c: char)
    requires
        is_boundary(text, cursor),
    ensures
        ({
            let k = char_index(text, cursor);
            let typed = insert_at(text, k, c);
            let typed_cursor = cursor + utf8_width(c);
            &&& typed_cursor > 0
            &&& is_boundary(typed, typed_cursor)
            &&& char_index(typed, typed_cursor) - 1 == k
            &&& remove_at(typed, char_index(typed, typed_cursor) - 1) == text
            &&& byte_offset(typed, char_index(typed, typed_cursor) - 1) == cursor
        }),
{
    lemma_boundary_bounds(text, cursor);
    let k = char_index(text, cursor);
    let typed = insert_at(text, k, c);
    lemma_width_pos(c);
    assert(typed.take(k) =~= text.take(k));
    assert(typed.take(k + 1) =~= text.take(k) + seq![c]);
    lemma_byte_len_concat(text.take(k), seq![c]);
    lemma_byte_len_single(c);
    assert(byte_offset(typed, k + 1) == cursor + utf8_width(c));
    lemma_char_index(typed, k + 1);
    assert(remove_at(typed, k) =~= text);
    assert(byte_offset(typed, k) == byte_offset(text, k));
}

} // verus!
