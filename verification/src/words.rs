//! The normalizer: raw text becomes a sequence of lowercase alphanumeric
//! word tokens, with punctuation dropped and whitespace collapsed.

use vstd::prelude::*;

use crate::strutil::push_char;

verus! {

/// Whether a character separates words after cleaning.
pub open spec fn is_sep(c: char) -> bool {
    c == ' ' || c == '\t' || c == '\n'
}

/// ASCII uppercase letters fold to lowercase; all else is unchanged.
pub open spec fn lower_char(c: char) -> char {
    if 'A' <= c && c <= 'Z' {
        ((c as u8) + 32) as char
    } else {
        c
    }
}

/// Characters that survive cleaning: lowercase letters, digits, separators.
pub open spec fn keep_char(c: char) -> bool {
    ('a' <= c && c <= 'z') || ('0' <= c && c <= '9') || is_sep(c)
}

/// Text after cleaning: lowercased, with disallowed characters removed.
pub open spec fn clean_seq(s: Seq<char>) -> Seq<char>
    decreases s.len(),
{
    if s.len() == 0 {
        Seq::empty()
    } else {
        let rest = clean_seq(s.drop_last());
        let c = lower_char(s.last());
        if keep_char(c) {
            rest.push(c)
        } else {
            rest
        }
    }
}

/// Index of the first separator in `s`, or `s.len()` if there is none.
pub open spec fn first_sep(s: Seq<char>) -> nat
    decreases s.len(),
{
    if s.len() == 0 {
        0
    } else if is_sep(s[0]) {
        0
    } else {
        1 + first_sep(s.subrange(1, s.len() as int))
    }
}

pub proof fn lemma_first_sep(s: Seq<char>)
    ensures
        first_sep(s) <= s.len(),
        forall|k: int| 0 <= k < first_sep(s) ==> !is_sep(s[k]),
        first_sep(s) < s.len() ==> is_sep(s[first_sep(s) as int]),
    decreases s.len(),
{
    if s.len() == 0 || is_sep(s[0]) {
    } else {
        let t = s.subrange(1, s.len() as int);
        lemma_first_sep(t);
        assert(forall|k: int| 1 <= k < s.len() ==> s[k] == t[k - 1]);
    }
}

/// If the first `k` characters are not separators and position `k` is a
/// separator (or the end), then `k` is the first separator position.
pub proof fn lemma_first_sep_at(s: Seq<char>, k: int)
    requires
        0 <= k <= s.len(),
        forall|j: int| 0 <= j < k ==> !is_sep(s[j]),
        k < s.len() ==> is_sep(s[k]),
    ensures
        first_sep(s) == k,
    decreases s.len(),
{
    if s.len() == 0 {
    } else if is_sep(s[0]) {
    } else {
        let t = s.subrange(1, s.len() as int);
        lemma_first_sep_at(t, k - 1);
    }
}

/// The words of a cleaned character sequence: split at separators, with
/// empty fragments dropped.
pub open spec fn tokenize(s: Seq<char>) -> Seq<Seq<char>>
    decreases s.len(),
{
    if s.len() == 0 {
        Seq::empty()
    } else {
        let k = first_sep(s) as int;
        if k >= s.len() {
            seq![s]
        } else {
            let rest = tokenize(s.subrange(k + 1, s.len() as int));
            if k > 0 {
                seq![s.subrange(0, k)] + rest
            } else {
                rest
            }
        }
    }
}

fn is_sep_exec(c: char) -> (r: bool)
    ensures
        r == is_sep(c),
{
    c == ' ' || c == '\t' || c == '\n'
}

/// Cleans a string: lowercases it and keeps only letters, digits and
/// whitespace.
fn clean_str(text: &str) -> (r: String)
    ensures
        r@ == clean_seq(text@),
{
    let n = text.unicode_len();
    let mut cleaned = String::new();
    let mut i: usize = 0;
    while i < n
        invariant
            i <= n,
            n == text@.len(),
            cleaned@ == clean_seq(text@.subrange(0, i as int)),
        decreases n - i,
    {
        let c = text.get_char(i);
        let lc: char = if 'A' <= c && c <= 'Z' {
            ((c as u8) + 32) as char
        } else {
            c
        };
        proof {
            assert(lc == lower_char(text@[i as int]));
        }
        if ('a' <= lc && lc <= 'z') || ('0' <= lc && lc <= '9') || lc == ' ' || lc == '\t' || lc
            == '\n' {
            push_char(&mut cleaned, lc);
        }
        proof {
            let pre = text@.subrange(0, i as int);
            let ext = text@.subrange(0, i + 1);
            assert(ext.drop_last() =~= pre);
            assert(ext.last() == text@[i as int]);
        }
        i += 1;
    }
    proof {
        assert(text@.subrange(0, n as int) =~= text@);
    }
    cleaned
}

/// A tokenized phrase: the cleaned text together with the character ranges
/// of its words.  The view of a `Words` value is its token sequence.
#[derive(Debug, PartialEq)]
pub struct Words {
    phrase: String,
    defs: Vec<(usize, usize)>,
}

impl View for Words {
    type V = Seq<Seq<char>>;

    closed spec fn view(&self) -> Seq<Seq<char>> {
        self.defs@.map_values(|d: (usize, usize)| self.phrase@.subrange(d.0 as int, d.1 as int))
    }
}

impl Words {
    /// The cleaned text that the tokens were cut from.
    pub closed spec fn text(&self) -> Seq<char> {
        self.phrase@
    }

    #[verifier::type_invariant]
    spec fn wf(&self) -> bool {
        &&& forall|k: int|
            0 <= k < self.defs@.len() ==> 0 <= (#[trigger] self.defs@[k]).0 < self.defs@[k].1
                <= self.phrase@.len()
        &&& self@ == tokenize(self.phrase@)
    }

    /// Cleans a string in place, as `new` does before splitting.
    pub fn clean(text: &mut String)
        ensures
            final(text)@ == clean_seq(old(text)@),
    {
        let cleaned = clean_str(text.as_str());
        *text = cleaned;
    }

    /// Tokenizes a phrase: cleaning first, then splitting at whitespace.
    pub fn new(text: &str) -> (r: Words)
        ensures
            r.text() == clean_seq(text@),
            r@ == tokenize(clean_seq(text@)),
    {
        let cleaned = clean_str(text);
        let cn = cleaned.as_str().unicode_len();
        let mut defs: Vec<(usize, usize)> = Vec::new();
        let mut pos: usize = 0;
        proof {
            assert(cleaned@.subrange(0, cn as int) =~= cleaned@);
            assert(defs@.map_values(
                |d: (usize, usize)| cleaned@.subrange(d.0 as int, d.1 as int),
            ) =~= Seq::<Seq<char>>::empty());
        }
        while pos < cn
            invariant
                cn == cleaned@.len(),
                pos <= cn,
                forall|k: int|
                    0 <= k < defs@.len() ==> 0 <= (#[trigger] defs@[k]).0 < defs@[k].1 <= cn,
                tokenize(cleaned@) =~= defs@.map_values(
                    |d: (usize, usize)| cleaned@.subrange(d.0 as int, d.1 as int),
                ) + tokenize(cleaned@.subrange(pos as int, cn as int)),
            decreases cn - pos,
        {
            let ghost tail = cleaned@.subrange(pos as int, cn as int);
            let mut e: usize = pos;
            while e < cn && !is_sep_exec(cleaned.as_str().get_char(e))
                invariant
                    cn == cleaned@.len(),
                    pos <= e <= cn,
                    forall|j: int| pos <= j < e ==> !is_sep(cleaned@[j]),
                decreases cn - e,
            {
                e += 1;
            }
            proof {
                assert(forall|j: int| 0 <= j < e - pos ==> tail[j] == cleaned@[pos + j]);
                lemma_first_sep_at(tail, e - pos);
                assert(first_sep(tail) == e - pos);
            }
            if e > pos {
                let ghost old_defs = defs@;
                defs.push((pos, e));
                proof {
                    let f = |d: (usize, usize)| cleaned@.subrange(d.0 as int, d.1 as int);
                    assert(defs@.map_values(f) =~= old_defs.map_values(f).push(
                        cleaned@.subrange(pos as int, e as int),
                    ));
                    if e < cn {
                        assert(tail.subrange(0, e - pos) =~= cleaned@.subrange(
                            pos as int,
                            e as int,
                        ));
                        assert(tail.subrange(e - pos + 1, tail.len() as int) =~= cleaned@.subrange(
                            e + 1,
                            cn as int,
                        ));
                    } else {
                        assert(tail =~= cleaned@.subrange(pos as int, e as int));
                        assert(cleaned@.subrange(cn as int, cn as int) =~= Seq::<char>::empty());
                    }
                }
            } else {
                proof {
                    assert(tail.subrange(e - pos + 1, tail.len() as int) =~= cleaned@.subrange(
                        e + 1,
                        cn as int,
                    ));
                }
            }
            pos = if e < cn {
                e + 1
            } else {
                cn
            };
        }
        proof {
            assert(cleaned@.subrange(pos as int, cn as int) =~= Seq::<char>::empty());
        }
        let r = Words { phrase: cleaned, defs };
        proof {
            assert(r@ =~= tokenize(r.phrase@));
        }
        r
    }

    /// The cleaned text.
    pub fn full_text(&self) -> (r: &str)
        ensures
            r@ == self.text(),
    {
        self.phrase.as_str()
    }

    /// How many tokens the phrase holds.
    pub fn len(&self) -> (r: usize)
        ensures
            r == self@.len(),
    {
        proof {
            use_type_invariant(self);
        }
        self.defs.len()
    }

    /// The tokens, as string slices into the cleaned text.
    pub fn as_words(&self) -> (r: Vec<&str>)
        ensures
            r.deep_view() == self@,
            r@.len() == self@.len(),
    {
        proof {
            use_type_invariant(self);
        }
        let mut r: Vec<&str> = Vec::new();
        let mut k: usize = 0;
        while k < self.defs.len()
            invariant
                self.wf(),
                k <= self.defs@.len(),
                r@.len() == k,
                forall|j: int| 0 <= j < k ==> r.deep_view()[j] == self@[j],
            decreases self.defs@.len() - k,
        {
            let (s, e) = self.defs[k];
            r.push(self.phrase.as_str().substring_char(s, e));
            k += 1;
        }
        proof {
            assert(r.deep_view() =~= self@);
        }
        r
    }
}

} // verus!
