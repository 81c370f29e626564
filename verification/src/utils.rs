//! Small text helpers used around the library.

use vstd::prelude::*;

use crate::words::lower_char;

verus! {

/// Truncates text to at most `length` characters.
pub fn clamp<'a>(text: &'a str, length: usize) -> (r: &'a str)
    ensures
        text@.len() <= length ==> r@ == text@,
        text@.len() > length ==> r@ == text@.subrange(0, length as int),
{
    let n = text.unicode_len();
    if n <= length {
        text
    } else {
        text.substring_char(0, length)
    }
}

/// Text with ASCII uppercase letters folded to lowercase.
pub open spec fn lower_seq(s: Seq<char>) -> Seq<char> {
    s.map_values(|c: char| lower_char(c))
}

/// A string whose ASCII letters are all lowercase.
#[derive(Debug, PartialEq, Eq, Hash, Clone)]
pub struct LowercaseString(String);

impl View for LowercaseString {
    type V = Seq<char>;

    closed spec fn view(&self) -> Seq<char> {
        self.0@
    }
}

impl LowercaseString {
    /// Folds the text's ASCII uppercase letters to lowercase.
    pub fn new(text: &str) -> (r: LowercaseString)
        ensures
            r@ == lower_seq(text@),
    {
        let n = text.unicode_len();
        let mut out = String::new();
        let mut i: usize = 0;
        proof {
            assert(out@ =~= lower_seq(text@.subrange(0, 0)));
        }
        while i < n
            invariant
                i <= n,
                n == text@.len(),
                out@ == lower_seq(text@.subrange(0, i as int)),
            decreases n - i,
        {
            let c = text.get_char(i);
            let lc: char = if 'A' <= c && c <= 'Z' {
                ((c as u8) + 32) as char
            } else {
                c
            };
            crate::strutil::push_char(&mut out, lc);
            proof {
                assert(lc == lower_char(text@[i as int]));
                assert(out@ =~= lower_seq(text@.subrange(0, i + 1)));
            }
            i += 1;
        }
        proof {
            assert(text@.subrange(0, n as int) =~= text@);
        }
        LowercaseString(out)
    }

    /// The folded text.
    pub fn as_str(&self) -> (r: &str)
        ensures
            r@ == self@,
    {
        self.0.as_str()
    }
}

} // verus!
