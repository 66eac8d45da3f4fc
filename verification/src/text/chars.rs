//! Strings as vectors of characters, and back.

use crate::text::flat::{lemma_newlines_push, newlines};
use vstd::prelude::*;
use vstd::std_specs::iter::IteratorSpec;

verus! {

/// `String::push` puts one character behind those the string holds.
pub assume_specification[ String::push ](s: &mut String, c: char)
    ensures
        final(s)@ == old(s)@.push(c),
;

/// The characters of `s`, in order.
pub fn chars_of(s: &str) -> (chars: Vec<char>)
    ensures
        chars@ == s@,
{
    let mut chars: Vec<char> = Vec::new();
    let mut it = s.chars();
    proof {
        vstd::string::axiom_spec_iter(s);
    }
    loop
        invariant
            it.obeys_prophetic_iter_laws(),
            it.decrease() is Some,
            chars@ + it.remaining() == s@,
        decreases it.decrease()->0,
    {
        let ghost before = it;
        match it.next() {
            Some(c) => {
                proof {
                    vstd::string::next_postcondition(&before, &it, Some(c));
                    assert(chars@.push(c) + it.remaining() =~= chars@ + before.remaining());
                }
                chars.push(c);
            },
            None => {
                proof {
                    vstd::string::next_postcondition(&before, &it, None);
                    assert(chars@ + before.remaining() =~= chars@);
                }
                return chars;
            },
        }
    }
}

/// The characters of `chars` from `from` up to `to`, as a string.
pub fn string_of(chars: &Vec<char>, from: usize, to: usize) -> (s: String)
    requires
        from <= to <= chars@.len(),
    ensures
        s@ == chars@.subrange(from as int, to as int),
{
    let mut s = String::new();
    let mut i: usize = from;
    while i < to
        invariant
            from <= i <= to <= chars@.len(),
            s@ == chars@.subrange(from as int, i as int),
        decreases to - i,
    {
        s.push(chars[i]);
        i = i + 1;
        proof {
            assert(s@ =~= chars@.subrange(from as int, i as int));
        }
    }
    s
}

/// Puts the characters of `chars` from `from` up to `to` behind those of `s`.
pub fn push_chars(s: &mut String, chars: &Vec<char>, from: usize, to: usize)
    requires
        from <= to <= chars@.len(),
    ensures
        final(s)@ == old(s)@ + chars@.subrange(from as int, to as int),
{
    let mut i: usize = from;
    assert(s@ =~= old(s)@ + chars@.subrange(from as int, from as int));
    while i < to
        invariant
            from <= i <= to <= chars@.len(),
            s@ == old(s)@ + chars@.subrange(from as int, i as int),
        decreases to - i,
    {
        s.push(chars[i]);
        i = i + 1;
        proof {
            assert(s@ =~= old(s)@ + chars@.subrange(from as int, i as int));
        }
    }
}

/// The number of line breaks among the characters `from..to`.
pub fn count_newlines(chars: &Vec<char>, from: usize, to: usize) -> (count: usize)
    requires
        from <= to <= chars@.len(),
    ensures
        count == newlines(chars@.subrange(from as int, to as int)),
{
    let mut count: usize = 0;
    let mut i: usize = from;
    assert(chars@.subrange(from as int, from as int) =~= Seq::<char>::empty());
    while i < to
        invariant
            from <= i <= to <= chars@.len(),
            count == newlines(chars@.subrange(from as int, i as int)),
            count <= i - from,
        decreases to - i,
    {
        proof {
            lemma_newlines_push(chars@.subrange(from as int, i as int), chars@[i as int]);
            assert(chars@.subrange(from as int, i as int).push(chars@[i as int])
                =~= chars@.subrange(from as int, i + 1));
        }
        if chars[i] == '\n' {
            count = count + 1;
        }
        i = i + 1;
    }
    count
}

/// The offset of the first line break among the characters `from..to`.
pub fn find_newline(chars: &Vec<char>, from: usize, to: usize) -> (found: Option<usize>)
    requires
        from <= to <= chars@.len(),
    ensures
        match found {
            Some(at) => from <= at < to && chars@[at as int] == '\n' && forall|i: int|
                from <= i < at ==> chars@[i] != '\n',
            None => forall|i: int| from <= i < to ==> chars@[i] != '\n',
        },
{
    let mut i: usize = from;
    while i < to
        invariant
            from <= i <= to <= chars@.len(),
            forall|j: int| from <= j < i ==> chars@[j] != '\n',
        decreases to - i,
    {
        if chars[i] == '\n' {
            return Some(i);
        }
        i = i + 1;
    }
    None
}

} // verus!
