//! The detection aggregator: per-source match results collected into one
//! detection outcome, the best score across rules, and rendering of the
//! matched words for review.

use vstd::prelude::*;

use crate::detected::{has_key, DetectedItem, DetectedWord, IndexMap};
use crate::matchers::kind::{spec_matches, MatcherKind};
use crate::similarity::SCALE;

use crate::words::{clean_seq, tokenize, Words};

verus! {

/// One rendered word: wrapped in emphasis markers when flagged.
pub open spec fn word_part(w: Seq<char>, marked: bool) -> Seq<char> {
    if marked {
        ("**")@ + w + ("**")@
    } else {
        w
    }
}

/// The first `k` words rendered, separated by single spaces.
pub open spec fn markdown_to(
    words: Seq<Seq<char>>,
    marks: Seq<(usize, DetectedWord)>,
    k: int,
) -> Seq<char>
    decreases k,
{
    if k <= 0 {
        Seq::empty()
    } else if k == 1 {
        word_part(words[0], has_key(marks, 0))
    } else {
        markdown_to(words, marks, k - 1) + (" ")@ + word_part(
            words[k - 1],
            has_key(marks, (k - 1) as usize),
        )
    }
}

/// The full rendering of a token sequence with flagged words emphasized.
pub open spec fn spec_markdown(words: Seq<Seq<char>>, marks: Seq<(usize, DetectedWord)>) -> Seq<
    char,
> {
    markdown_to(words, marks, words.len() as int)
}

impl DetectedItem {
    /// Renders the observed tokens, wrapping every flagged word in emphasis
    /// markers, separated by single spaces.
    pub fn write_markdown(&self, text: &[&str]) -> (r: String)
        ensures
            r@ == spec_markdown(text.deep_view(), self.words@),
    {
        let ghost tv = text.deep_view();
        let n = text.len();
        let mut out = String::new();
        let mut k: usize = 0;
        proof {
            assert(out@ =~= markdown_to(tv, self.words@, 0));
        }
        while k < n
            invariant
                k <= n,
                n == tv.len(),
                tv == text.deep_view(),
                n == text@.len(),
                out@ == markdown_to(tv, self.words@, k as int),
            decreases n - k,
        {
            if k > 0 {
                out.append(" ");
            }
            let w: &str = text[k];
            proof {
                assert(w@ == tv[k as int]);
            }
            if self.words.contains_key(&k) {
                out.append("**");
                out.append(w);
                out.append("**");
            } else {
                out.append(w);
            }
            proof {
                assert(out@ =~= markdown_to(tv, self.words@, k + 1));
            }
            k += 1;
        }
        out
    }
}

/// The best score among a prefix of held image items, or zero.
pub open spec fn images_best_to(s: Seq<(usize, DetectedItem)>, k: int) -> int
    decreases k,
{
    if k <= 0 {
        0
    } else {
        let prev = images_best_to(s, k - 1);
        if s[k - 1].1.score as int > prev {
            s[k - 1].1.score as int
        } else {
            prev
        }
    }
}

/// The score of an optional item, or zero.
pub open spec fn opt_score(o: Option<DetectedItem>) -> int {
    match o {
        Some(item) => item.score as int,
        None => 0,
    }
}

/// The outcome for one candidate: detected items keyed by image index, plus
/// optional title and body items.
#[derive(Debug, PartialEq)]
pub struct Detection {
    pub images: IndexMap<DetectedItem>,
    pub title: Option<DetectedItem>,
    pub body: Option<DetectedItem>,
}

impl Detection {
    /// The best score across all held items: the maximum, or zero if none.
    pub open spec fn spec_best_score(&self) -> int {
        let ib = images_best_to(self.images@, self.images@.len() as int);
        let tb = opt_score(self.title);
        let bb = opt_score(self.body);
        if ib >= tb && ib >= bb {
            ib
        } else if tb >= bb {
            tb
        } else {
            bb
        }
    }

    /// Whether anything at all was detected.
    pub open spec fn spec_has_items(&self) -> bool {
        self.images@.len() > 0 || self.title is Some || self.body is Some
    }

    /// An empty detection.
    pub fn new() -> (r: Detection)
        ensures
            r.images@ == Seq::<(usize, DetectedItem)>::empty(),
            r.title is None,
            r.body is None,
    {
        Detection { images: IndexMap::new(), title: None, body: None }
    }

    /// Records the detected item for one image.
    pub fn add_image(&mut self, index: usize, value: DetectedItem)
        ensures
            final(self).images@ == crate::detected::spec_insert(old(self).images@, index, value),
            final(self).title == old(self).title,
            final(self).body == old(self).body,
    {
        self.images.insert(index, value);
    }

    /// Records the detected item for the title.
    pub fn set_title(&mut self, value: DetectedItem)
        ensures
            final(self).title == Some(value),
            final(self).images@ == old(self).images@,
            final(self).body == old(self).body,
    {
        self.title = Some(value);
    }

    /// Records the detected item for the body.
    pub fn set_body(&mut self, value: DetectedItem)
        ensures
            final(self).body == Some(value),
            final(self).images@ == old(self).images@,
            final(self).title == old(self).title,
    {
        self.body = Some(value);
    }

    /// Keeps the detection only if it holds at least one item: an empty
    /// detection is indistinguishable from nothing detected.
    pub fn finish(self) -> (r: Option<Detection>)
        ensures
            self.spec_has_items() ==> r == Some(self),
            !self.spec_has_items() ==> r is None,
    {
        if self.images.len() > 0 || self.title.is_some() || self.body.is_some() {
            Some(self)
        } else {
            None
        }
    }

    /// The maximum score across all held items, or zero if none are held.
    pub fn best_score(&self) -> (r: u64)
        ensures
            r as int == self.spec_best_score(),
    {
        let n = self.images.len();
        let mut best: u64 = 0;
        let mut k: usize = 0;
        while k < n
            invariant
                k <= n,
                n == self.images@.len(),
                best as int == images_best_to(self.images@, k as int),
            decreases n - k,
        {
            let e = self.images.entry_at(k);
            if e.1.score > best {
                best = e.1.score;
            }
            k += 1;
        }
        let tb: u64 = match &self.title {
            Some(item) => item.score,
            None => 0,
        };
        let bb: u64 = match &self.body {
            Some(item) => item.score,
            None => 0,
        };
        if best >= tb && best >= bb {
            best
        } else if tb >= bb {
            tb
        } else {
            bb
        }
    }
}

/// The text sources of one candidate, as plain data: the token lists of its
/// images (for example from character recognition), and its title and body.
#[derive(Debug)]
pub struct Context {
    pub images: Vec<Vec<String>>,
    pub title: Option<String>,
    pub body: Option<String>,
    pub debug: bool,
}

/// Borrows a list of owned strings as string slices.
pub fn as_ref(words: &Vec<String>) -> (r: Vec<&str>)
    ensures
        r.deep_view() == words.deep_view(),
        r@.len() == words@.len(),
{
    let mut r: Vec<&str> = Vec::new();
    let mut k: usize = 0;
    while k < words.len()
        invariant
            k <= words@.len(),
            r@.len() == k,
            forall|j: int| 0 <= j < k ==> r.deep_view()[j] == words.deep_view()[j],
        decreases words@.len() - k,
    {
        r.push(words[k].as_str());
        k += 1;
    }
    proof {
        assert(r.deep_view() =~= words.deep_view());
    }
    r
}

/// The image results a matcher produces over the first `k` image sources:
/// for each image whose tokens match, the image index and the match model.
pub open spec fn image_results_to(m: MatcherKind, images: Seq<Seq<Seq<char>>>, k: int) -> Seq<
    (usize, (int, Seq<(usize, DetectedWord)>)),
>
    decreases k,
{
    if k <= 0 {
        Seq::empty()
    } else {
        let rest = image_results_to(m, images, k - 1);
        match spec_matches(m, images[k - 1]) {
            Some(r) => rest.push((((k - 1) as usize), r)),
            None => rest,
        }
    }
}

/// An optional held item read as its model.
pub open spec fn opt_model(o: Option<DetectedItem>) -> Option<
    (int, Seq<(usize, DetectedWord)>),
> {
    match o {
        Some(item) => Some((item.score as int, item.words@)),
        None => None,
    }
}

/// What a matcher says of an optional text source: nothing when the source
/// is absent, else the match model of its normalized tokens.
pub open spec fn text_result(m: Option<MatcherKind>, text: Option<Seq<char>>) -> Option<
    (int, Seq<(usize, DetectedWord)>),
> {
    match m {
        Some(matcher) => match text {
            Some(t) => spec_matches(matcher, tokenize(clean_seq(t))),
            None => None,
        },
        None => None,
    }
}

/// A detection read as its model: image entries plus the two text items.
pub open spec fn detection_model(d: Detection) -> (
    Seq<(usize, (int, Seq<(usize, DetectedWord)>))>,
    Option<(int, Seq<(usize, DetectedWord)>)>,
    Option<(int, Seq<(usize, DetectedWord)>)>,
) {
    (
        d.images@.map_values(|p: (usize, DetectedItem)| (p.0, (p.1.score as int, p.1.words@))),
        opt_model(d.title),
        opt_model(d.body),
    )
}

/// The token lists of the image sources.
pub open spec fn images_tokens(images: Seq<Vec<String>>) -> Seq<Seq<Seq<char>>> {
    images.map_values(|v: Vec<String>| v.deep_view())
}

/// What a text analyzer detects over a whole context.
pub open spec fn spec_str_analyze(a: StrAnalzyer, ctx: Context) -> (
    Seq<(usize, (int, Seq<(usize, DetectedWord)>))>,
    Option<(int, Seq<(usize, DetectedWord)>)>,
    Option<(int, Seq<(usize, DetectedWord)>)>,
) {
    let imgs = match a.ocr {
        Some(m) => image_results_to(m, images_tokens(ctx.images@), ctx.images@.len() as int),
        None => Seq::empty(),
    };
    (
        imgs,
        text_result(a.title, match ctx.title {
            Some(t) => Some(t@),
            None => None,
        }),
        text_result(a.body, match ctx.body {
            Some(t) => Some(t@),
            None => None,
        }),
    )
}

/// A text analyzer: one optional matcher per text source.
#[derive(Debug)]
pub struct StrAnalzyer {
    pub ocr: Option<MatcherKind>,
    pub title: Option<MatcherKind>,
    pub body: Option<MatcherKind>,
}

impl StrAnalzyer {
    /// Runs each configured matcher over its source and collects the
    /// per-source results; an empty outcome is discarded.
    pub fn analyze(&self, context: &Context) -> (r: Option<Detection>)
        ensures
            ({
                let sp = spec_str_analyze(*self, *context);
                match r {
                    Some(d) => detection_model(d) == sp && (sp.0.len() > 0 || sp.1 is Some
                        || sp.2 is Some),
                    None => sp.0.len() == 0 && sp.1 is None && sp.2 is None,
                }
            }),
    {
        let mut detection = Detection::new();
        let ghost itoks = images_tokens(context.images@);
        match &self.ocr {
            Some(ocr) => {
                let ni = context.images.len();
                let mut idx: usize = 0;
                proof {
                    assert(detection.images@.map_values(
                        |p: (usize, DetectedItem)| (p.0, (p.1.score as int, p.1.words@)),
                    ) =~= image_results_to(*ocr, itoks, 0));
                }
                while idx < ni
                    invariant
                        idx <= ni,
                        ni == context.images@.len(),
                        itoks == images_tokens(context.images@),
                        self.ocr == Some(*ocr),
                        detection.title is None,
                        detection.body is None,
                        detection.images@.map_values(
                            |p: (usize, DetectedItem)| (p.0, (p.1.score as int, p.1.words@)),
                        ) == image_results_to(*ocr, itoks, idx as int),
                        forall|t: int|
                            0 <= t < detection.images@.len() ==> (
                            #[trigger] detection.images@[t]).0 < idx,
                    decreases ni - idx,
                {
                    let words = as_ref(&context.images[idx]);
                    let ws = words.as_slice();
                    proof {
                        assert(ws.deep_view() =~= itoks[idx as int]);
                    }
                    let ghost pre = detection.images@;
                    match ocr.matches(ws, context.debug) {
                        Some(result) => {
                            detection.add_image(idx, result);
                            proof {
                                assert(detection.images@ =~= pre.push(
                                    (idx, detection.images@.last().1),
                                ));
                                assert(detection.images@.map_values(
                                    |p: (usize, DetectedItem)| (
                                        p.0,
                                        (p.1.score as int, p.1.words@),
                                    ),
                                ) =~= image_results_to(*ocr, itoks, idx + 1));
                            }
                        },
                        None => {
                            proof {
                                assert(detection.images@.map_values(
                                    |p: (usize, DetectedItem)| (
                                        p.0,
                                        (p.1.score as int, p.1.words@),
                                    ),
                                ) =~= image_results_to(*ocr, itoks, idx + 1));
                            }
                        },
                    }
                    idx += 1;
                }
            },
            None => {},
        }
        match &self.title {
            Some(title) => {
                match &context.title {
                    Some(text) => {
                        let w = Words::new(text.as_str());
                        let tokens = w.as_words();
                        match title.matches(tokens.as_slice(), context.debug) {
                            Some(value) => {
                                detection.set_title(value);
                            },
                            None => {},
                        }
                    },
                    None => {},
                }
            },
            None => {},
        }
        match &self.body {
            Some(body) => {
                match &context.body {
                    Some(text) => {
                        let w = Words::new(text.as_str());
                        let tokens = w.as_words();
                        match body.matches(tokens.as_slice(), context.debug) {
                            Some(value) => {
                                detection.set_body(value);
                            },
                            None => {},
                        }
                    },
                    None => {},
                }
            },
            None => {},
        }
        detection.finish()
    }
}

/// Whether any text source of the context matches the given matcher.
pub open spec fn spec_any_source(m: MatcherKind, ctx: Context) -> bool {
    ||| exists|k: int|
        0 <= k < ctx.images@.len() && spec_matches(m, images_tokens(ctx.images@)[k]) is Some
    ||| (ctx.title is Some && spec_matches(m, tokenize(clean_seq(ctx.title->0@))) is Some)
    ||| (ctx.body is Some && spec_matches(m, tokenize(clean_seq(ctx.body->0@))) is Some)
}

impl MatcherKind {
    /// Whether this matcher matches any of the context's text sources.
    pub fn any_matches(&self, ctx: &Context) -> (r: bool)
        ensures
            r == spec_any_source(*self, *ctx),
    {
        let ghost itoks = images_tokens(ctx.images@);
        let ni = ctx.images.len();
        let mut k: usize = 0;
        while k < ni
            invariant
                k <= ni,
                ni == ctx.images@.len(),
                itoks == images_tokens(ctx.images@),
                forall|t: int| 0 <= t < k ==> spec_matches(*self, itoks[t]) is None,
            decreases ni - k,
        {
            let words = as_ref(&ctx.images[k]);
            let ws = words.as_slice();
            proof {
                assert(ws.deep_view() =~= itoks[k as int]);
            }
            if self.matches(ws, ctx.debug).is_some() {
                return true;
            }
            k += 1;
        }
        match &ctx.title {
            Some(text) => {
                let w = Words::new(text.as_str());
                let tokens = w.as_words();
                if self.matches(tokens.as_slice(), ctx.debug).is_some() {
                    return true;
                }
            },
            None => {},
        }
        match &ctx.body {
            Some(text) => {
                let w = Words::new(text.as_str());
                let tokens = w.as_words();
                if self.matches(tokens.as_slice(), ctx.debug).is_some() {
                    return true;
                }
            },
            None => {},
        }
        false
    }
}

/// A rule driven by an external function; no such functions are wired in,
/// so it never detects anything.
#[derive(Debug)]
pub struct FuncAnalyzer {
    pub function: String,
}

impl FuncAnalyzer {
    /// Always reports nothing detected.
    pub fn analyze(&self, context: &Context) -> (r: Option<Detection>)
        ensures
            r is None,
    {
        let _unused = context;
        None
    }
}

/// A rule driven by an image pattern; no pattern engine is wired in, so it
/// never detects anything.
#[derive(Debug)]
pub struct PatternAnalyzer {
    pub img: String,
}

impl PatternAnalyzer {
    /// Always reports nothing detected.
    pub fn analyze(&self, context: &Context) -> (r: Option<Detection>)
        ensures
            r is None,
    {
        let _unused = context;
        None
    }
}

/// The top of a rule: which engine the rule runs.
#[derive(Debug)]
pub enum AnalyzerKind {
    Function(FuncAnalyzer),
    Pattern(PatternAnalyzer),
    Text(StrAnalzyer),
}

/// What a rule kind detects: only text analysis detects anything.
pub open spec fn spec_kind_result(k: AnalyzerKind, ctx: Context) -> Option<
    (
        Seq<(usize, (int, Seq<(usize, DetectedWord)>))>,
        Option<(int, Seq<(usize, DetectedWord)>)>,
        Option<(int, Seq<(usize, DetectedWord)>)>,
    ),
> {
    match k {
        AnalyzerKind::Text(a) => {
            let sp = spec_str_analyze(a, ctx);
            if sp.0.len() > 0 || sp.1 is Some || sp.2 is Some {
                Some(sp)
            } else {
                None
            }
        },
        _ => None,
    }
}

impl AnalyzerKind {
    /// Runs this rule kind over the context.
    pub fn analyze(&self, context: &Context) -> (r: Option<Detection>)
        ensures
            ({
                let sp = spec_kind_result(*self, *context);
                match r {
                    Some(d) => sp is Some && detection_model(d) == sp->0,
                    None => sp is None,
                }
            }),
    {
        match self {
            AnalyzerKind::Text(v) => v.analyze(context),
            AnalyzerKind::Function(v) => v.analyze(context),
            AnalyzerKind::Pattern(v) => v.analyze(context),
        }
    }
}

/// A configured rule: a name, downstream flags, an optional blacklist that
/// discards the rule's detection wholesale, and the matcher tree to run.
#[derive(Debug)]
pub struct Analyzer {
    pub name: String,
    pub report: bool,
    pub ignore_self_posts: bool,
    pub template: String,
    pub blacklist: Option<MatcherKind>,
    pub kind: AnalyzerKind,
}

/// What a rule detects: its kind's result, unless any text source matches
/// the blacklist, which discards the detection.
pub open spec fn spec_analyzer_result(a: Analyzer, ctx: Context) -> Option<
    (
        Seq<(usize, (int, Seq<(usize, DetectedWord)>))>,
        Option<(int, Seq<(usize, DetectedWord)>)>,
        Option<(int, Seq<(usize, DetectedWord)>)>,
    ),
> {
    match spec_kind_result(a.kind, ctx) {
        None => None,
        Some(m) => match a.blacklist {
            Some(b) => if spec_any_source(b, ctx) {
                None
            } else {
                Some(m)
            },
            None => Some(m),
        },
    }
}

impl Analyzer {
    /// Runs the rule over the context, discarding the detection when the
    /// blacklist matches any text source.
    pub fn analyze(&self, context: &Context) -> (r: Option<Detection>)
        ensures
            ({
                let sp = spec_analyzer_result(*self, *context);
                match r {
                    Some(d) => sp is Some && detection_model(d) == sp->0,
                    None => sp is None,
                }
            }),
    {
        let result = self.kind.analyze(context);
        match result {
            Some(result) => {
                match &self.blacklist {
                    Some(blacklist) => {
                        if blacklist.any_matches(context) {
                            return None;
                        }
                        Some(result)
                    },
                    None => Some(result),
                }
            },
            None => None,
        }
    }
}

/// The best score held in a detection model's image part, up to entry `k`.
pub open spec fn model_images_best_to(
    s: Seq<(usize, (int, Seq<(usize, DetectedWord)>))>,
    k: int,
) -> int
    decreases k,
{
    if k <= 0 {
        0
    } else {
        let prev = model_images_best_to(s, k - 1);
        if (s[k - 1].1).0 > prev {
            (s[k - 1].1).0
        } else {
            prev
        }
    }
}

/// The best score of a detection model.
pub open spec fn model_best_score(
    m: (
        Seq<(usize, (int, Seq<(usize, DetectedWord)>))>,
        Option<(int, Seq<(usize, DetectedWord)>)>,
        Option<(int, Seq<(usize, DetectedWord)>)>,
    ),
) -> int {
    let ib = model_images_best_to(m.0, m.0.len() as int);
    let tb = match m.1 {
        Some(p) => p.0,
        None => 0,
    };
    let bb = match m.2 {
        Some(p) => p.0,
        None => 0,
    };
    if ib >= tb && ib >= bb {
        ib
    } else if tb >= bb {
        tb
    } else {
        bb
    }
}

proof fn lemma_model_best_to(d: Detection, k: int)
    requires
        0 <= k <= d.images@.len(),
    ensures
        model_images_best_to(detection_model(d).0, k) == images_best_to(d.images@, k),
    decreases k,
{
    if k > 0 {
        lemma_model_best_to(d, k - 1);
    }
}

/// A detection's best score agrees with its model's.
pub proof fn lemma_model_best_score(d: Detection)
    ensures
        model_best_score(detection_model(d)) == d.spec_best_score(),
{
    lemma_model_best_to(d, d.images@.len() as int);
}

/// Scanning the rules for the best-scoring detection: a strictly better
/// score replaces the held best, and a full score stops the scan early.
pub open spec fn spec_best_from(
    analyzers: Seq<Analyzer>,
    ctx: Context,
    k: int,
    best: Option<(int, int)>,
) -> Option<(int, int)>
    decreases analyzers.len() - k,
    when 0 <= k <= analyzers.len()
{
    if k >= analyzers.len() {
        best
    } else {
        match spec_analyzer_result(analyzers[k], ctx) {
            Some(m) => {
                let sc = model_best_score(m);
                if best is None || sc > (best->0).1 {
                    if sc >= SCALE {
                        Some((k, sc))
                    } else {
                        spec_best_from(analyzers, ctx, k + 1, Some((k, sc)))
                    }
                } else {
                    spec_best_from(analyzers, ctx, k + 1, best)
                }
            },
            None => spec_best_from(analyzers, ctx, k + 1, best),
        }
    }
}

/// Runs every rule over the context and returns the best-scoring detection
/// together with its rule, stopping early on a full score.
pub fn get_best_analysis<'a>(ctx: &Context, analyzer: &'a [Analyzer]) -> (r: Option<
    (Detection, &'a Analyzer),
>)
    ensures
        ({
            let sp = spec_best_from(analyzer@, *ctx, 0, None);
            match r {
                Some(p) => sp is Some && *p.1 == analyzer@[(sp->0).0] && spec_analyzer_result(
                    *p.1,
                    *ctx,
                ) is Some && detection_model(p.0) == spec_analyzer_result(*p.1, *ctx)->0
                    && model_best_score(detection_model(p.0)) == (sp->0).1,
                None => sp is None,
            }
        }),
{
    let n = analyzer.len();
    let mut best: Option<(u64, Detection, usize)> = None;
    let mut k: usize = 0;
    while k < n
        invariant_except_break
            k <= n,
            n == analyzer@.len(),
            match best {
                Some(b) => b.2 < k && spec_analyzer_result(analyzer@[b.2 as int], *ctx) is Some
                    && detection_model(b.1) == spec_analyzer_result(analyzer@[b.2 as int], *ctx)->0
                    && b.0 as int == model_best_score(detection_model(b.1)),
                None => true,
            },
            spec_best_from(analyzer@, *ctx, 0, None) == spec_best_from(
                analyzer@,
                *ctx,
                k as int,
                match best {
                    Some(b) => Some((b.2 as int, b.0 as int)),
                    None => None,
                },
            ),
        ensures
            match best {
                Some(b) => b.2 < n && spec_analyzer_result(analyzer@[b.2 as int], *ctx) is Some
                    && detection_model(b.1) == spec_analyzer_result(analyzer@[b.2 as int], *ctx)->0
                    && b.0 as int == model_best_score(detection_model(b.1)),
                None => true,
            },
            spec_best_from(analyzer@, *ctx, 0, None) == (match best {
                Some(b) => Some((b.2 as int, b.0 as int)),
                None => None,
            }),
        decreases n - k,
    {
        let next = &analyzer[k];
        match next.analyze(ctx) {
            Some(detection) => {
                let score = detection.best_score();
                proof {
                    lemma_model_best_score(detection);
                }
                let better = match &best {
                    None => true,
                    Some(b) => score > b.0,
                };
                if better {
                    best = Some((score, detection, k));
                    if score >= SCALE {
                        k += 1;
                        proof {
                            assert(spec_best_from(analyzer@, *ctx, 0, None) == Some(
                                ((k - 1) as int, score as int),
                            ));
                        }
                        break ;
                    }
                }
            },
            None => {},
        }
        k += 1;
    }
    match best {
        Some(b) => Some((b.1, &analyzer[b.2])),
        None => None,
    }
}

/// The renderings of the first `k` held image items, in ascending image
/// order.
pub open spec fn images_markdown_to(
    entries: Seq<(usize, DetectedItem)>,
    images: Seq<Vec<String>>,
    k: int,
) -> Seq<Seq<char>>
    decreases k,
{
    if k <= 0 {
        Seq::empty()
    } else {
        images_markdown_to(entries, images, k - 1).push(
            spec_markdown(images[entries[k - 1].0 as int].deep_view(), entries[k - 1].1.words@),
        )
    }
}

/// Every rendered source of a detection: the held images in ascending
/// order, then the title, then the body.
pub open spec fn spec_get_markdown(d: Detection, ctx: Context) -> Seq<Seq<char>> {
    let imgs = images_markdown_to(d.images@, ctx.images@, d.images@.len() as int);
    let with_title = match d.title {
        Some(item) => imgs.push(
            spec_markdown(tokenize(clean_seq(ctx.title->0@)), item.words@),
        ),
        None => imgs,
    };
    match d.body {
        Some(item) => with_title.push(
            spec_markdown(tokenize(clean_seq(ctx.body->0@)), item.words@),
        ),
        None => with_title,
    }
}

impl Detection {
    /// Renders every source that detected something, with the trigger words
    /// emphasized.  Note that the normalized tokens are rendered, not the
    /// original casing and punctuation.
    pub fn get_markdown(&self, ctx: &Context) -> (r: Vec<String>)
        requires
            forall|t: int|
                0 <= t < self.images@.len() ==> (#[trigger] self.images@[t]).0 < ctx.images@.len(),
            self.title is Some ==> ctx.title is Some,
            self.body is Some ==> ctx.body is Some,
        ensures
            r.deep_view() == spec_get_markdown(*self, *ctx),
    {
        let mut v: Vec<String> = Vec::new();
        let n = self.images.len();
        let mut k: usize = 0;
        while k < n
            invariant
                k <= n,
                n == self.images@.len(),
                forall|t: int|
                    0 <= t < self.images@.len() ==> (#[trigger] self.images@[t]).0
                        < ctx.images@.len(),
                v.deep_view() == images_markdown_to(self.images@, ctx.images@, k as int),
            decreases n - k,
        {
            let e = self.images.entry_at(k);
            let idx = e.0;
            let words = as_ref(&ctx.images[idx]);
            let ws = words.as_slice();
            proof {
                assert(ws.deep_view() =~= ctx.images@[idx as int].deep_view());
            }
            let s = e.1.write_markdown(ws);
            v.push(s);
            proof {
                assert(v.deep_view() =~= images_markdown_to(self.images@, ctx.images@, k + 1));
            }
            k += 1;
        }
        match (&self.title, &ctx.title) {
            (Some(item), Some(text)) => {
                let w = Words::new(text.as_str());
                let tokens = w.as_words();
                let ts = tokens.as_slice();
                proof {
                    assert(ts.deep_view() =~= tokenize(clean_seq(text@)));
                }
                let s = item.write_markdown(ts);
                v.push(s);
            },
            (Some(_), None) => {
                vstd::pervasive::unreached()
            },
            _ => {},
        }
        match (&self.body, &ctx.body) {
            (Some(item), Some(text)) => {
                let w = Words::new(text.as_str());
                let tokens = w.as_words();
                let ts = tokens.as_slice();
                proof {
                    assert(ts.deep_view() =~= tokenize(clean_seq(text@)));
                }
                let s = item.write_markdown(ts);
                v.push(s);
            },
            (Some(_), None) => {
                vstd::pervasive::unreached()
            },
            _ => {},
        }
        proof {
            assert(v.deep_view() =~= spec_get_markdown(*self, *ctx));
        }
        v
    }
}

} // verus!
