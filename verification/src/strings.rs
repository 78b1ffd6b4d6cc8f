//! Editing operations of `String` that the verifier's standard library does not specify.
use vstd::prelude::*;
use crate::unicode::{char_at_byte, is_boundary, utf8_len};

verus! {

/// `String::push`.
///
/// Trusted: the string afterwards is the old string followed by `c` (std documents it as
/// appending the given char to the end).
#[verifier::external_body]
pub(crate) fn push_char(s: &mut String, c: char)
    ensures
        final(s)@ == old(s)@.push(c),
{
    s.push(c);
}

/// The characters of `s`, in order.
pub fn chars_of(s: &str) -> (r: Vec<char>)
    ensures
        r@ == s@,
{
    broadcast use vstd::string::axiom_spec_iter;

    let mut out: Vec<char> = Vec::new();
    for c in it: s.chars()
        invariant
            it.seq() == s@,
            out@ == it.seq().take(it.index() as int),
    {
        proof {
            assert(it.seq().take(it.index() + 1) =~= it.seq().take(it.index() as int).push(c));
        }
        out.push(c);
    }
    proof {
        assert(out@ =~= s@);
    }
    out
}

/// The string of the characters `cs`.
pub fn string_of(cs: &Vec<char>) -> (r: String)
    ensures
        r@ == cs@,
{
    let mut out = String::new();
    let mut i: usize = 0;
    while i < cs.len()
        invariant
            i <= cs@.len(),
            out@ == cs@.take(i as int),
        decreases cs@.len() - i,
    {
        push_char(&mut out, cs[i]);
        i = i + 1;
        proof {
            assert(out@ =~= cs@.take(i as int));
        }
    }
    proof {
        assert(out@ =~= cs@);
    }
    out
}

/// `String::insert_str`.
///
/// Trusted: inserts `t` at byte index `idx`, which std requires to be a character boundary
/// (it panics otherwise): the characters before it, then `t`, then the rest.
#[verifier::external_body]
pub(crate) fn string_insert_str(s: &mut String, idx: usize, t: &str)
    requires
        is_boundary(old(s)@, idx as int),
    ensures
        final(s)@ == old(s)@.take(char_at_byte(old(s)@, idx as int)) + t@ + old(s)@.skip(
            char_at_byte(old(s)@, idx as int),
        ),
{
    s.insert_str(idx, t);
}

/// `String::insert`.
///
/// Trusted: inserts `c` at byte index `idx`, which std requires to be a character boundary
/// (it panics otherwise).
#[verifier::external_body]
pub(crate) fn string_insert(s: &mut String, idx: usize, c: char)
    requires
        is_boundary(old(s)@, idx as int),
    ensures
        final(s)@ == old(s)@.take(char_at_byte(old(s)@, idx as int)).push(c) + old(s)@.skip(
            char_at_byte(old(s)@, idx as int),
        ),
{
    s.insert(idx, c);
}

/// `String::replace_range` on the byte range `start..end`.
///
/// Trusted: both ends must be character boundaries in order (std panics otherwise); the
/// characters between them are replaced by `t`.
#[verifier::external_body]
pub(crate) fn string_replace_range(s: &mut String, start: usize, end: usize, t: &str)
    requires
        start <= end,
        is_boundary(old(s)@, start as int),
        is_boundary(old(s)@, end as int),
    ensures
        final(s)@ == old(s)@.take(char_at_byte(old(s)@, start as int)) + t@ + old(s)@.skip(
            char_at_byte(old(s)@, end as int),
        ),
{
    s.replace_range(start..end, t);
}

/// `String::drain` on the byte range `start..end`, collected into a `String`.
///
/// Trusted: both ends must be character boundaries in order (std panics otherwise); the
/// characters between them are removed and returned.
#[verifier::external_body]
pub(crate) fn string_drain(s: &mut String, start: usize, end: usize) -> (r: String)
    requires
        start <= end,
        is_boundary(old(s)@, start as int),
        is_boundary(old(s)@, end as int),
    ensures
        r@ == old(s)@.subrange(char_at_byte(old(s)@, start as int), char_at_byte(old(s)@, end as int)),
        final(s)@ == old(s)@.take(char_at_byte(old(s)@, start as int)) + old(s)@.skip(
            char_at_byte(old(s)@, end as int),
        ),
{
    s.drain(start..end).collect()
}

/// `str::get` with the byte range `start..end`.
///
/// Trusted: the slice exists exactly when the range is in order and both ends are character
/// boundaries; it holds the characters between them.
#[verifier::external_body]
pub(crate) fn str_get(s: &str, start: usize, end: usize) -> (r: Option<&str>)
    ensures
        r is Some <==> (start <= end && is_boundary(s@, start as int) && is_boundary(s@, end as int)),
        r matches Some(t) ==> t@ == s@.subrange(char_at_byte(s@, start as int), char_at_byte(s@, end as int)),
{
    s.get(start..end)
}

} // verus!
