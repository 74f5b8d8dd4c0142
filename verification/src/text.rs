//! Bridges between `String` and the character sequences the library works
//! on: the parser reads `Vec<char>` and builds the `String`s held by the
//! tree, the translator appends rendered text to a `String`.

use vstd::prelude::*;

use crate::lexer::escape_value;
use crate::lexer::str_body_len;
use crate::lexer::unescape;

verus! {

/// Relies on `String::push`: it appends exactly the given character.
#[verifier::external_body]
pub fn push_char(s: &mut String, c: char)
    ensures
        final(s)@ == old(s)@.push(c),
{
    s.push(c);
}

/// Relies on `str::chars`: it yields the characters of the slice in order,
/// so collecting them gives a vector whose view is the slice's view.
#[verifier::external_body]
pub fn chars_of(s: &str) -> (r: Vec<char>)
    ensures
        r@ == s@,
{
    s.chars().collect()
}

/// Copy the characters `[start, end)` of `src` into a fresh string.
pub fn substring(src: &Vec<char>, start: usize, end: usize) -> (r: String)
    requires
        start <= end <= src@.len(),
    ensures
        r@ == src@.subrange(start as int, end as int),
{
    let mut r = String::new();
    let mut k = start;
    while k < end
        invariant
            start <= k <= end <= src@.len(),
            r@ == src@.subrange(start as int, k as int),
        decreases end - k,
    {
        push_char(&mut r, src[k]);
        proof {
            assert(src@.subrange(start as int, k as int).push(src@[k as int]) =~= src@.subrange(
                start as int,
                k + 1,
            ));
        }
        k = k + 1;
    }
    r
}

fn escape_char(c: char) -> (r: char)
    ensures
        r == escape_value(c),
{
    if c == 'n' {
        '\n'
    } else if c == 't' {
        '\t'
    } else if c == 'r' {
        '\r'
    } else {
        c
    }
}

/// Build the text a string-literal body `[start, end)` stands for, with its
/// escape sequences resolved.
pub fn unescape_string(src: &Vec<char>, start: usize, end: usize) -> (r: String)
    requires
        start <= end <= src@.len(),
        str_body_len(src@, start as int) == Ok::<nat, int>((end - start) as nat),
    ensures
        r@ == unescape(src@.subrange(start as int, end as int)),
{
    let mut r = String::new();
    let mut k = start;
    while k < end
        invariant
            start <= k <= end <= src@.len(),
            str_body_len(src@, k as int) == Ok::<nat, int>((end - k) as nat),
            unescape(src@.subrange(start as int, end as int)) == r@ + unescape(
                src@.subrange(k as int, end as int),
            ),
        decreases end - k,
    {
        let ghost old_r = r@;
        let ghost tail = src@.subrange(k as int, end as int);
        let c = src[k];
        if c == '\\' {
            proof {
                assert(tail[0] == '\\' && tail.len() >= 2);
                assert(tail.skip(2) =~= src@.subrange(k + 2, end as int));
                assert(unescape(tail) == seq![escape_value(src@[k + 1])] + unescape(
                    src@.subrange(k + 2, end as int),
                ));
            }
            push_char(&mut r, escape_char(src[k + 1]));
            proof {
                assert(old_r + unescape(tail) =~= r@ + unescape(src@.subrange(k + 2, end as int)));
            }
            k = k + 2;
        } else {
            proof {
                assert(tail[0] == c && tail[0] != '\\');
                assert(tail.skip(1) =~= src@.subrange(k + 1, end as int));
                assert(unescape(tail) == seq![c] + unescape(src@.subrange(k + 1, end as int)));
            }
            push_char(&mut r, c);
            proof {
                assert(old_r + unescape(tail) =~= r@ + unescape(src@.subrange(k + 1, end as int)));
            }
            k = k + 1;
        }
    }
    proof {
        assert(unescape(src@.subrange(k as int, end as int)) =~= Seq::<char>::empty());
        assert(r@ + Seq::<char>::empty() =~= r@);
    }
    r
}

} // verus!
