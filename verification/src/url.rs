//! A small address splitter: scheme, domain, path and query of an address
//! of the shape `scheme://domain/path?query`, kept as character positions
//! into the original text.

use vstd::prelude::*;

verus! {

/// Whether the three-character scheme separator sits at position `k`.
pub open spec fn sep_at(s: Seq<char>, k: int) -> bool {
    &&& 0 <= k
    &&& k + 3 <= s.len()
    &&& s[k] == ':'
    &&& s[k + 1] == '/'
    &&& s[k + 2] == '/'
}

/// The first position at or after `k` where the scheme separator sits, or
/// -1 when there is none.
pub open spec fn find_sep_from(s: Seq<char>, k: int) -> int
    decreases s.len() - k,
    when 0 <= k
{
    if k + 3 > s.len() {
        -1
    } else if sep_at(s, k) {
        k
    } else {
        find_sep_from(s, k + 1)
    }
}

/// The first position at or after `k` holding the character `c`, or -1.
pub open spec fn find_char_from(s: Seq<char>, k: int, c: char) -> int
    decreases s.len() - k,
    when 0 <= k
{
    if k >= s.len() {
        -1
    } else if s[k] == c {
        k
    } else {
        find_char_from(s, k + 1, c)
    }
}

pub proof fn lemma_find_sep_facts(s: Seq<char>, k: int)
    requires
        0 <= k,
    ensures
        find_sep_from(s, k) == -1 || find_sep_from(s, k) >= k,
        find_sep_from(s, k) == -1 ==> forall|t: int| k <= t ==> !(#[trigger] sep_at(s, t)),
        find_sep_from(s, k) >= 0 ==> k <= find_sep_from(s, k) && sep_at(s, find_sep_from(s, k)),
    decreases s.len() - k,
{
    if k + 3 > s.len() {
    } else if sep_at(s, k) {
    } else {
        lemma_find_sep_facts(s, k + 1);
    }
}

pub proof fn lemma_find_char_facts(s: Seq<char>, k: int, c: char)
    requires
        0 <= k,
    ensures
        find_char_from(s, k, c) == -1 || (k <= find_char_from(s, k, c) < s.len() && s[find_char_from(
            s,
            k,
            c,
        )] == c),
    decreases s.len() - k,
{
    if k < s.len() && s[k] != c {
        lemma_find_char_facts(s, k + 1, c);
    }
}

/// The positions the splitter derives from a text: the scheme end, the
/// domain end, and the optional path and query ends.
pub open spec fn url_parse(s: Seq<char>) -> Option<(int, int, Option<int>, Option<int>)> {
    let sep = find_sep_from(s, 0);
    if sep < 0 {
        None
    } else {
        let ds = sep + 3;
        let slash = find_char_from(s, ds, '/');
        if slash >= 0 {
            let q = find_char_from(s, slash + 1, '?');
            if q >= 0 {
                Some((sep, slash, Some(q), Some(s.len() as int)))
            } else {
                Some((sep, slash, Some(s.len() as int), None))
            }
        } else {
            let q = find_char_from(s, ds, '?');
            if q >= 0 {
                Some((sep, q, None, Some(s.len() as int)))
            } else {
                Some((sep, s.len() as int, None, None))
            }
        }
    }
}

/// Every position a successful split yields is in range and ordered.
pub proof fn lemma_url_parse_bounds(s: Seq<char>)
    requires
        url_parse(s) is Some,
    ensures
        ({
            let m = url_parse(s)->0;
            &&& 0 <= m.0
            &&& m.0 + 3 <= m.1 <= s.len()
            &&& (m.2 matches Some(p) ==> m.1 <= p <= s.len())
            &&& (m.3 matches Some(q) ==> m.1 <= q <= s.len())
            &&& (m.2 is Some && m.3 is Some ==> m.2->0 <= m.3->0)
        }),
{
    lemma_find_sep_facts(s, 0);
    let sep = find_sep_from(s, 0);
    assert(sep >= 0);
    assert(sep_at(s, sep));
    assert(sep + 3 <= s.len());
    lemma_find_char_facts(s, sep + 3, '/');
    let slash = find_char_from(s, sep + 3, '/');
    if slash >= 0 {
        lemma_find_char_facts(s, slash + 1, '?');
    } else {
        lemma_find_char_facts(s, sep + 3, '?');
    }
}

/// The scheme of a splittable text.
pub open spec fn scheme_of(s: Seq<char>) -> Seq<char> {
    s.subrange(0, (url_parse(s)->0).0)
}

/// The domain of a splittable text.
pub open spec fn domain_of(s: Seq<char>) -> Seq<char> {
    s.subrange((url_parse(s)->0).0 + 3, (url_parse(s)->0).1)
}

/// The path of a splittable text, empty when there is none; it keeps its
/// leading slash.
pub open spec fn path_of(s: Seq<char>) -> Seq<char> {
    match (url_parse(s)->0).2 {
        Some(p) => s.subrange((url_parse(s)->0).1, p),
        None => Seq::empty(),
    }
}

/// The query of a splittable text, empty when there is none; it keeps its
/// leading question mark.
pub open spec fn query_of(s: Seq<char>) -> Seq<char> {
    let m = url_parse(s)->0;
    match m.3 {
        Some(q) => match m.2 {
            Some(p) => s.subrange(p, q),
            None => s.subrange(m.1, q),
        },
        None => Seq::empty(),
    }
}

/// A split address: the text together with the separator positions.
#[derive(Debug, PartialEq)]
pub struct Url {
    text: String,
    scheme_end: usize,
    domain_end: usize,
    path_end: Option<usize>,
    query_end: Option<usize>,
}

fn find_sep(text: &str) -> (r: Option<usize>)
    ensures
        match r {
            Some(k) => find_sep_from(text@, 0) == k,
            None => find_sep_from(text@, 0) == -1,
        },
{
    let n = text.unicode_len();
    if n < 3 {
        proof {
            lemma_find_sep_facts(text@, 0);
        }
        return None;
    }
    let mut k: usize = 0;
    while k <= n - 3
        invariant
            k <= n - 2,
            n == text@.len(),
            3 <= n,
            find_sep_from(text@, 0) == find_sep_from(text@, k as int),
        decreases n - k,
    {
        if text.get_char(k) == ':' && text.get_char(k + 1) == '/' && text.get_char(k + 2) == '/' {
            return Some(k);
        }
        k += 1;
    }
    None
}

pub(crate) fn find_char(text: &str, from: usize, c: char) -> (r: Option<usize>)
    requires
        from <= text@.len(),
    ensures
        match r {
            Some(k) => find_char_from(text@, from as int, c) == k,
            None => find_char_from(text@, from as int, c) == -1,
        },
{
    let n = text.unicode_len();
    let mut k: usize = from;
    while k < n
        invariant
            from <= k <= n,
            n == text@.len(),
            find_char_from(text@, from as int, c) == find_char_from(text@, k as int, c),
        decreases n - k,
    {
        if text.get_char(k) == c {
            return Some(k);
        }
        k += 1;
    }
    None
}

impl Url {
    /// The whole text of the address.
    pub closed spec fn text(&self) -> Seq<char> {
        self.text@
    }

    #[verifier::type_invariant]
    spec fn wf(&self) -> bool {
        url_parse(self.text@) == Some(
            (
                self.scheme_end as int,
                self.domain_end as int,
                match self.path_end {
                    Some(p) => Some(p as int),
                    None => None,
                },
                match self.query_end {
                    Some(q) => Some(q as int),
                    None => None,
                },
            ),
        )
    }

    /// Splits a text of the shape `scheme://domain/path?query`; only the
    /// scheme separator is required.
    pub fn parse(text: &str) -> (r: Result<Url, ()>)
        ensures
            match r {
                Ok(u) => url_parse(text@) is Some && u.text() == text@,
                Err(()) => url_parse(text@) is None,
            },
    {
        let n = text.unicode_len();
        match find_sep(text) {
            None => Err(()),
            Some(sep) => {
                proof {
                    lemma_find_sep_facts(text@, 0);
                }
                let ds = sep + 3;
                let (domain_end, path_end, query_end) = match find_char(text, ds, '/') {
                    Some(slash) => {
                        proof {
                            lemma_find_char_facts(text@, ds as int, '/');
                        }
                        match find_char(text, slash + 1, '?') {
                            Some(q) => (slash, Some(q), Some(n)),
                            None => (slash, Some(n), None),
                        }
                    },
                    None => {
                        match find_char(text, ds, '?') {
                            Some(q) => (q, None, Some(n)),
                            None => (n, None, None),
                        }
                    },
                };
                Ok(
                    Url {
                        text: text.to_owned(),
                        scheme_end: sep,
                        domain_end,
                        path_end,
                        query_end,
                    },
                )
            },
        }
    }

    /// The scheme: everything before the separator.
    pub fn scheme(&self) -> (r: &str)
        ensures
            r@ == scheme_of(self.text()),
            url_parse(self.text()) is Some,
    {
        proof {
            use_type_invariant(self);
            lemma_url_parse_bounds(self.text@);
        }
        self.text.as_str().substring_char(0, self.scheme_end)
    }

    /// The domain: between the separator and the first slash (or question
    /// mark, or the end).
    pub fn domain(&self) -> (r: &str)
        ensures
            r@ == domain_of(self.text()),
    {
        proof {
            use_type_invariant(self);
            lemma_url_parse_bounds(self.text@);
        }
        self.text.as_str().substring_char(self.scheme_end + 3, self.domain_end)
    }

    /// The path including its leading slash, or empty.
    pub fn path(&self) -> (r: &str)
        ensures
            r@ == path_of(self.text()),
    {
        proof {
            use_type_invariant(self);
            lemma_url_parse_bounds(self.text@);
        }
        proof {
            reveal_strlit("");
            assert(("")@ =~= Seq::<char>::empty());
        }
        match self.path_end {
            Some(path_end) => self.text.as_str().substring_char(self.domain_end, path_end),
            None => "",
        }
    }

    /// The query including its leading question mark, or empty.
    pub fn query(&self) -> (r: &str)
        ensures
            r@ == query_of(self.text()),
    {
        proof {
            use_type_invariant(self);
            lemma_url_parse_bounds(self.text@);
        }
        proof {
            reveal_strlit("");
            assert(("")@ =~= Seq::<char>::empty());
        }
        match (self.path_end, self.query_end) {
            (None, None) => "",
            (Some(_), None) => "",
            (None, Some(end)) => self.text.as_str().substring_char(self.domain_end, end),
            (Some(start), Some(end)) => self.text.as_str().substring_char(start, end),
        }
    }

    /// An owned copy of this address.
    pub fn duplicate(&self) -> (r: Url)
        ensures
            r.text() == self.text(),
    {
        proof {
            use_type_invariant(self);
        }
        Url {
            text: self.text.clone(),
            scheme_end: self.scheme_end,
            domain_end: self.domain_end,
            path_end: self.path_end,
            query_end: self.query_end,
        }
    }

    /// The whole text.
    pub fn as_str(&self) -> (r: &str)
        ensures
            r@ == self.text(),
    {
        self.text.as_str()
    }

    /// Replaces the domain, re-splitting the rebuilt text.
    pub fn set_domain(&mut self, domain: &str)
        ensures
            final(self).text() == scheme_of(old(self).text()) + ("://")@ + domain@ + path_of(
                old(self).text(),
            ) + query_of(old(self).text()),
            url_parse(final(self).text()) is Some,
    {
        let mut text = String::new();
        text.append(self.scheme());
        text.append("://");
        text.append(domain);
        text.append(self.path());
        text.append(self.query());
        proof {
            reveal_strlit("://");
            let pre = scheme_of(old(self).text());
            assert(text@[pre.len() as int] == ':');
            assert(text@[pre.len() as int + 1] == '/');
            assert(text@[pre.len() as int + 2] == '/');
            assert(sep_at(text@, pre.len() as int));
        }
        let rebuilt = Self::reparse(text, Ghost(scheme_of(old(self).text()).len() as int));
        *self = rebuilt;
    }

    /// Replaces the path, re-splitting the rebuilt text.
    pub fn set_path(&mut self, path: &str)
        ensures
            final(self).text() == scheme_of(old(self).text()) + ("://")@ + domain_of(
                old(self).text(),
            ) + path@ + query_of(old(self).text()),
            url_parse(final(self).text()) is Some,
    {
        let mut text = String::new();
        text.append(self.scheme());
        text.append("://");
        let dom = domain_of_exec(self);
        text.append(dom.as_str());
        text.append(path);
        text.append(self.query());
        proof {
            reveal_strlit("://");
            let pre = scheme_of(old(self).text());
            assert(text@[pre.len() as int] == ':');
            assert(text@[pre.len() as int + 1] == '/');
            assert(text@[pre.len() as int + 2] == '/');
            assert(sep_at(text@, pre.len() as int));
        }
        let rebuilt = Self::reparse(text, Ghost(scheme_of(old(self).text()).len() as int));
        *self = rebuilt;
    }

    /// Splits a rebuilt text that provably holds a scheme separator.
    fn reparse(text: String, Ghost(pos): Ghost<int>) -> (r: Url)
        requires
            sep_at(text@, pos),
        ensures
            r.text() == text@,
            url_parse(text@) is Some,
    {
        proof {
            lemma_find_sep_facts(text@, 0);
            if find_sep_from(text@, 0) == -1 {
                assert(!sep_at(text@, pos));
            }
        }
        match Self::parse(text.as_str()) {
            Ok(u) => u,
            Err(()) => vstd::pervasive::unreached(),
        }
    }
}

/// The domain as an owned string, for rebuilding.
fn domain_of_exec(u: &Url) -> (r: String)
    ensures
        r@ == domain_of(u.text()),
{
    u.domain().to_owned()
}

} // verus!
