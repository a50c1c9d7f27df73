//! Strings, character by character.

use vstd::prelude::*;
use vstd::std_specs::iter::IteratorSpec;

verus! {

/// `String::push` appends the character `c` to the end of the string and leaves the characters
/// before it as they were.
pub assume_specification[ String::push ](text: &mut String, c: char)
    ensures
        final(text)@ == old(text)@.push(c),
;

/// A string that holds the one character `c`.
pub fn single(c: char) -> (r: String)
    ensures
        r@ == seq![c],
{
    let mut text = String::new();
    text.push(c);
    assert(text@ =~= seq![c]);
    text
}

/// The characters of `input`.
pub fn chars_of(input: &str) -> (r: Vec<char>)
    ensures
        r@ == input@,
{
    let mut out: Vec<char> = Vec::new();
    for c in it: input.chars()
        invariant
            out@ == it.seq().take(it.index() as int),
            it.seq() == input@,
    {
        out.push(c);
    }
    out
}

/// The characters of `s` from `from` up to `to`, as a string.
pub fn text_of(s: &[char], from: usize, to: usize) -> (r: String)
    requires
        from <= to <= s.len(),
    ensures
        r@ == s@.subrange(from as int, to as int),
{
    let mut out = String::new();
    let mut i = from;
    while i < to
        invariant
            from <= i <= to <= s.len(),
            out@ == s@.subrange(from as int, i as int),
        decreases to - i,
    {
        out.push(s[i]);
        i += 1;
        assert(out@ =~= s@.subrange(from as int, i as int));
    }
    out
}

} // verus!
