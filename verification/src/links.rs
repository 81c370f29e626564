//! Gathering image links out of free text: candidate addresses are found
//! with a pattern, normalized to direct image hosts, and kept only when
//! they name an image file.

use vstd::prelude::*;

use crate::strutil::str_eq;
use crate::url::{
    domain_of, find_char, find_char_from, lemma_find_char_facts, path_of, query_of, scheme_of,
    url_parse, Url,
};

verus! {

/// The pattern candidate links are gathered with.
pub open spec fn spec_link_pattern() -> Seq<char> {
    ("(?:\\bhttps://)?[-A-Za-z0-9+&@#/%?=~_|!:,.;]+[-A-Za-z0-9+&@#/%=~_|]")@
}

/// The pattern, for the matcher.
pub fn link_pattern() -> (r: &'static str)
    ensures
        r@ == spec_link_pattern(),
{
    "(?:\\bhttps://)?[-A-Za-z0-9+&@#/%?=~_|!:,.;]+[-A-Za-z0-9+&@#/%=~_|]"
}

/// The non-overlapping, leftmost-first matches of a pattern in a text: a
/// function of the pattern and the text alone.
pub uninterp spec fn regex_matches_of(pattern: Seq<char>, text: Seq<char>) -> Seq<Seq<char>>;

/// Relies on `regex::Regex::new` and `Regex::find_iter`: the
/// non-overlapping matches of the pattern in the text, leftmost first.  A
/// pattern that does not compile yields no matches.
#[verifier::external_body]
fn regex_find_all(pattern: &str, text: &str) -> (r: Vec<String>)
    ensures
        r.deep_view() == regex_matches_of(pattern@, text@),
{
    match regex::Regex::new(pattern) {
        Ok(re) => re.find_iter(text).map(|m| m.as_str().to_owned()).collect(),
        Err(_) => Vec::new(),
    }
}

/// A candidate link after normalization: it must split and use `https`;
/// two preview hosts are rewritten to their direct image hosts.
pub open spec fn fixed_link(s: Seq<char>) -> Option<Seq<char>> {
    if url_parse(s) is None {
        None
    } else if scheme_of(s) != ("https")@ {
        None
    } else if domain_of(s) == ("preview.redd.it")@ {
        Some(scheme_of(s) + ("://")@ + ("i.redd.it")@ + path_of(s) + query_of(s))
    } else if domain_of(s) == ("gyazo.com")@ {
        let t1 = scheme_of(s) + ("://")@ + ("i.gyazo.com")@ + path_of(s) + query_of(s);
        Some(
            scheme_of(t1) + ("://")@ + domain_of(t1) + (path_of(t1) + (".png")@) + query_of(t1),
        )
    } else {
        Some(s)
    }
}

/// Splits and normalizes one candidate link.
pub fn parse_url(text: &str) -> (r: Option<Url>)
    ensures
        match r {
            Some(u) => fixed_link(text@) == Some(u.text()),
            None => fixed_link(text@) is None,
        },
{
    match Url::parse(text) {
        Err(()) => None,
        Ok(url) => fix_url(url),
    }
}

/// Normalizes a split link: keeps only `https` addresses, rewriting two
/// preview hosts to their direct image hosts.
pub fn fix_url(url: Url) -> (r: Option<Url>)
    ensures
        match r {
            Some(u) => fixed_link(url.text()) == Some(u.text()),
            None => fixed_link(url.text()) is None,
        },
{
    let mut url = url;
    if !str_eq(url.scheme(), "https") {
        None
    } else {
        let hostname_is_preview = str_eq(url.domain(), "preview.redd.it");
        let hostname_is_gyazo = str_eq(url.domain(), "gyazo.com");
        if hostname_is_preview {
            url.set_domain("i.redd.it");
        } else if hostname_is_gyazo {
            url.set_domain("i.gyazo.com");
            let mut path = url.path().to_owned();
            path.append(".png");
            url.set_path(path.as_str());
        }
        Some(url)
    }
}

/// The file name a link points at: the part of the path after its first
/// slash, or nothing when the path is empty or holds no separator.
pub open spec fn filename_of(s: Seq<char>) -> Option<Seq<char>> {
    let p = path_of(s);
    if p.len() == 0 {
        None
    } else {
        let idx = find_char_from(p, 0, '/');
        let idx2 = if idx >= 0 {
            idx
        } else {
            find_char_from(p, 0, '\\')
        };
        if idx2 >= 0 {
            Some(p.subrange(idx2 + 1, p.len() as int))
        } else {
            None
        }
    }
}

/// The file name of a split link, if any.
pub fn extract_filename(url: &Url) -> (r: Option<String>)
    ensures
        match r {
            Some(f) => filename_of(url.text()) == Some(f@),
            None => filename_of(url.text()) is None,
        },
{
    let path = url.path();
    let n = path.unicode_len();
    if n == 0 {
        return None;
    }
    let idx = match find_char(path, 0, '/') {
        Some(i) => Some(i),
        None => find_char(path, 0, '\\'),
    };
    proof {
        lemma_find_char_facts(path@, 0, '/');
        lemma_find_char_facts(path@, 0, '\\');
    }
    match idx {
        Some(i) => Some(path.substring_char(i + 1, n).to_owned()),
        None => None,
    }
}

/// Whether a file name carries one of the accepted image extensions.
pub open spec fn spec_ends_with(s: Seq<char>, suffix: Seq<char>) -> bool {
    s.len() >= suffix.len() && s.subrange(s.len() - suffix.len(), s.len() as int) == suffix
}

/// Whether the string ends with the given suffix.
pub fn str_ends_with(s: &str, suffix: &str) -> (r: bool)
    ensures
        r == spec_ends_with(s@, suffix@),
{
    let n = s.unicode_len();
    let m = suffix.unicode_len();
    if n < m {
        return false;
    }
    let tail = s.substring_char(n - m, n);
    str_eq(tail, suffix)
}

/// The extensions of links worth downloading as images.
pub fn valid_extensions() -> (r: Vec<&'static str>)
    ensures
        r@.len() == 3,
        r@[0]@ == (".png")@,
        r@[1]@ == (".jpeg")@,
        r@[2]@ == (".jpg")@,
{
    let mut r: Vec<&'static str> = Vec::new();
    r.push(".png");
    r.push(".jpeg");
    r.push(".jpg");
    r
}

/// Whether a link names an image file.
pub open spec fn spec_allowed_link(s: Seq<char>) -> bool {
    match filename_of(s) {
        Some(f) => spec_ends_with(f, (".png")@) || spec_ends_with(f, (".jpeg")@)
            || spec_ends_with(f, (".jpg")@),
        None => false,
    }
}

/// Whether the split link names an image file.
pub fn allowed_url(url: &Url) -> (r: bool)
    ensures
        r == spec_allowed_link(url.text()),
{
    match extract_filename(url) {
        Some(filename) => {
            let f = filename.as_str();
            str_ends_with(f, ".png") || str_ends_with(f, ".jpeg") || str_ends_with(f, ".jpg")
        },
        None => false,
    }
}

/// The normalized link texts among the first `k` candidates.
pub open spec fn links_of_to(cands: Seq<Seq<char>>, k: int) -> Seq<Seq<char>>
    decreases k,
{
    if k <= 0 {
        Seq::empty()
    } else {
        let rest = links_of_to(cands, k - 1);
        match fixed_link(cands[k - 1]) {
            Some(t) => rest.push(t),
            None => rest,
        }
    }
}

/// The normalized link texts gathered from a text.
pub open spec fn all_link_texts(text: Seq<char>) -> Seq<Seq<char>> {
    let cands = regex_matches_of(spec_link_pattern(), text);
    links_of_to(cands, cands.len() as int)
}

/// Gathers and normalizes every candidate link in the text.
pub fn extract_all_links(text: &str) -> (r: Vec<Url>)
    ensures
        r@.len() == all_link_texts(text@).len(),
        forall|k: int| 0 <= k < r@.len() ==> (#[trigger] r@[k]).text() == all_link_texts(text@)[k],
{
    let cands = regex_find_all(link_pattern(), text);
    let ghost cv = cands.deep_view();
    let n = cands.len();
    let mut r: Vec<Url> = Vec::new();
    let mut k: usize = 0;
    while k < n
        invariant
            k <= n,
            n == cv.len(),
            cv == cands.deep_view(),
            n == cands@.len(),
            cv == regex_matches_of(spec_link_pattern(), text@),
            r@.len() == links_of_to(cv, k as int).len(),
            forall|j: int|
                0 <= j < r@.len() ==> (#[trigger] r@[j]).text() == links_of_to(cv, k as int)[j],
        decreases n - k,
    {
        let cand: &String = &cands[k];
        proof {
            assert(cand@ == cv[k as int]);
        }
        match parse_url(cand.as_str()) {
            Some(url) => {
                r.push(url);
            },
            None => {},
        }
        k += 1;
    }
    proof {
        assert(links_of_to(cv, n as int) == all_link_texts(text@));
    }
    r
}

/// The image links among the normalized candidates.
pub open spec fn image_links_to(texts: Seq<Seq<char>>, k: int) -> Seq<Seq<char>>
    decreases k,
{
    if k <= 0 {
        Seq::empty()
    } else {
        let rest = image_links_to(texts, k - 1);
        if spec_allowed_link(texts[k - 1]) {
            rest.push(texts[k - 1])
        } else {
            rest
        }
    }
}

/// Gathers the links of the text that name image files.
pub fn extract_image_links(text: &str) -> (r: Vec<Url>)
    ensures
        ({
            let all = all_link_texts(text@);
            let kept = image_links_to(all, all.len() as int);
            r@.len() == kept.len() && forall|k: int|
                0 <= k < r@.len() ==> (#[trigger] r@[k]).text() == kept[k]
        }),
{
    let all = extract_all_links(text);
    let ghost av = all_link_texts(text@);
    let n = all.len();
    let mut r: Vec<Url> = Vec::new();
    let mut k: usize = 0;
    while k < n
        invariant
            k <= n,
            n == av.len(),
            av == all_link_texts(text@),
            n == all@.len(),
            forall|j: int| 0 <= j < n ==> (#[trigger] all@[j]).text() == av[j],
            r@.len() == image_links_to(av, k as int).len(),
            forall|j: int|
                0 <= j < r@.len() ==> (#[trigger] r@[j]).text() == image_links_to(av, k as int)[j],
        decreases n - k,
    {
        let url = &all[k];
        if allowed_url(url) {
            r.push(url.duplicate());
        }
        k += 1;
    }
    r
}

} // verus!
