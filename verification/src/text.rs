//! Character-level helpers shared by the string code of this crate.

use vstd::prelude::*;
use vstd::std_specs::iter::IteratorSpec;

verus! {

/// Trusted contract of `String::push`: the character is appended to the end
/// of the string and nothing else changes.
pub assume_specification[ String::push ](s: &mut String, c: char)
    ensures
        final(s)@ == old(s)@.push(c),
;

/// Whether `c` is one of the characters with the Unicode property
/// `White_Space`: the controls from tab to carriage return, the space, the
/// next-line control, the no-break space, and the spaces and separators
/// beyond the Latin range.
pub open spec fn is_whitespace(c: char) -> bool {
    ||| '\u{9}' <= c <= '\u{d}'
    ||| c == ' '
    ||| c == '\u{85}'
    ||| c == '\u{a0}'
    ||| c == '\u{1680}'
    ||| '\u{2000}' <= c <= '\u{200a}'
    ||| c == '\u{2028}'
    ||| c == '\u{2029}'
    ||| c == '\u{202f}'
    ||| c == '\u{205f}'
    ||| c == '\u{3000}'
}

/// Decides whether `c` is whitespace.
pub fn whitespace(c: char) -> (r: bool)
    ensures
        r == is_whitespace(c),
{
    (c >= '\u{9}' && c <= '\u{d}') || c == ' ' || c == '\u{85}' || c == '\u{a0}' || c
        == '\u{1680}' || (c >= '\u{2000}' && c <= '\u{200a}') || c == '\u{2028}' || c
        == '\u{2029}' || c == '\u{202f}' || c == '\u{205f}' || c == '\u{3000}'
}

/// The letters `A` to `Z` and `a` to `z` and the digits `0` to `9`.
pub open spec fn is_ascii_alphanumeric(c: char) -> bool {
    ||| 'a' <= c <= 'z'
    ||| 'A' <= c <= 'Z'
    ||| '0' <= c <= '9'
}

/// Decides whether `c` is an ASCII letter or digit.
pub fn ascii_alphanumeric(c: char) -> (r: bool)
    ensures
        r == is_ascii_alphanumeric(c),
{
    (c >= 'a' && c <= 'z') || (c >= 'A' && c <= 'Z') || (c >= '0' && c <= '9')
}

/// The characters of `s`, in order, as a vector that can be indexed in
/// constant time.
pub fn to_chars(s: &str) -> (r: Vec<char>)
    ensures
        r@ == s@,
{
    let mut out: Vec<char> = Vec::new();
    let mut it = s.chars();
    let ghost mut n: int = 0;
    loop
        invariant
            0 <= n <= s@.len(),
            it.remaining() == s@.skip(n),
            out@ == s@.take(n),
        decreases s@.len() - n,
    {
        match it.next() {
            Some(c) => {
                out.push(c);
                proof {
                    assert(s@.skip(n)[0] == s@[n]);
                    assert(s@.skip(n).drop_first() =~= s@.skip(n + 1));
                    assert(s@.take(n).push(s@[n]) =~= s@.take(n + 1));
                    n = n + 1;
                }
            },
            None => {
                assert(s@.take(n) =~= s@);
                return out;
            },
        }
    }
}

} // verus!
