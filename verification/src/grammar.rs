//! The configuration grammar: a matcher tree is written as a string, a list
//! of alternatives, or a tagged node with children, recursively.

use vstd::prelude::*;

use crate::matchers::all::AllMatcher;
use crate::matchers::any::AnyMatcher;
use crate::matchers::exact::ExactMatcher;
use crate::matchers::kind::MatcherKind;
use crate::matchers::ordered::OrderedMatcher;
use crate::matchers::phrase::PhraseMatcher;
use crate::strutil::str_eq;
use crate::words::{clean_seq, tokenize};

verus! {

/// The shape of a configuration value, as a deserializer reports it: a
/// string, a list, or a map of string keys to further values.
#[derive(Debug, PartialEq)]
pub enum ConfigValue {
    Text(String),
    List(Vec<ConfigValue>),
    Node(Vec<(String, ConfigValue)>),
}

/// A configuration error, raised at load time and naming the offending
/// field or value.
#[derive(Debug, PartialEq)]
pub enum GrammarError {
    UnknownField(String),
    MissingField(String),
    UnknownVariant(String),
    WrongFieldType(String),
}

/// The mathematical shape of a parsed matcher tree.
pub enum TreeModel {
    Phrase(Seq<Seq<char>>),
    Exact(Seq<Seq<char>>),
    Ordered(Seq<TreeModel>),
    All(Seq<TreeModel>),
    Any(Seq<TreeModel>),
}

/// The mathematical shape of a configuration error.
pub enum ErrModel {
    UnknownField(Seq<char>),
    MissingField(Seq<char>),
    UnknownVariant(Seq<char>),
    WrongFieldType(Seq<char>),
}

/// A configuration error read as its model.
pub open spec fn err_model(e: GrammarError) -> ErrModel {
    match e {
        GrammarError::UnknownField(s) => ErrModel::UnknownField(s@),
        GrammarError::MissingField(s) => ErrModel::MissingField(s@),
        GrammarError::UnknownVariant(s) => ErrModel::UnknownVariant(s@),
        GrammarError::WrongFieldType(s) => ErrModel::WrongFieldType(s@),
    }
}

/// A matcher tree read as its model.
pub open spec fn matcher_model(m: MatcherKind) -> TreeModel
    decreases m, 0int,
{
    match m {
        MatcherKind::Phrase(pm) => TreeModel::Phrase(pm@),
        MatcherKind::Exact(em) => TreeModel::Exact(em@),
        MatcherKind::Ordered(om) => TreeModel::Ordered(models_from(om.0@, 0)),
        MatcherKind::All(am) => TreeModel::All(models_from(am.0@, 0)),
        MatcherKind::Any(ym) => TreeModel::Any(models_from(ym.0@, 0)),
    }
}

/// The models of a list of matchers, from position `k` on.
pub open spec fn models_from(s: Seq<MatcherKind>, k: int) -> Seq<TreeModel>
    decreases s, s.len() - k,
    when 0 <= k <= s.len()
{
    if k >= s.len() {
        Seq::empty()
    } else {
        seq![matcher_model(s[k])] + models_from(s, k + 1)
    }
}

pub proof fn lemma_models_from_index(s: Seq<MatcherKind>, k: int)
    requires
        0 <= k <= s.len(),
    ensures
        models_from(s, k).len() == s.len() - k,
        forall|j: int| k <= j < s.len() ==> models_from(s, k)[j - k] == matcher_model(s[j]),
    decreases s.len() - k,
{
    if k < s.len() {
        lemma_models_from_index(s, k + 1);
    }
}

/// What parsing a configuration value must produce: a string is a phrase, a
/// list is an any-of over its parsed members, and a map is a tagged node.
pub open spec fn spec_parse(v: ConfigValue) -> Result<TreeModel, ErrModel>
    decreases v, 0int,
{
    match v {
        ConfigValue::Text(s) => Ok(TreeModel::Phrase(tokenize(clean_seq(s@)))),
        ConfigValue::List(vs) => match spec_parse_list(vs@, 0) {
            Ok(ts) => Ok(TreeModel::Any(ts)),
            Err(e) => Err(e),
        },
        ConfigValue::Node(entries) => spec_parse_map(entries@),
    }
}

/// Parsing the members of a list; the first failure wins.
pub open spec fn spec_parse_list(vs: Seq<ConfigValue>, k: int) -> Result<Seq<TreeModel>, ErrModel>
    decreases vs, vs.len() - k,
    when 0 <= k <= vs.len()
{
    if k >= vs.len() {
        Ok(Seq::empty())
    } else {
        match spec_parse(vs[k]) {
            Ok(t) => match spec_parse_list(vs, k + 1) {
                Ok(rest) => Ok(seq![t] + rest),
                Err(e) => Err(e),
            },
            Err(e) => Err(e),
        }
    }
}

/// Scanning the entries of a map node: the keys `type`, `children` and
/// `phrase` are accepted (the last occurrence winning), anything else is an
/// unknown field, and each value must have the right shape.
pub open spec fn spec_scan_map(
    entries: Seq<(String, ConfigValue)>,
    k: int,
    tag: Option<Seq<char>>,
    children: Option<Seq<TreeModel>>,
    phrase: Option<Seq<char>>,
) -> Result<(Option<Seq<char>>, Option<Seq<TreeModel>>, Option<Seq<char>>), ErrModel>
    decreases entries, entries.len() - k,
    when 0 <= k <= entries.len()
{
    if k >= entries.len() {
        Ok((tag, children, phrase))
    } else {
        let key = entries[k].0@;
        let value = entries[k].1;
        if key == ("type")@ {
            match value {
                ConfigValue::Text(s) => spec_scan_map(entries, k + 1, Some(s@), children, phrase),
                _ => Err(ErrModel::WrongFieldType(("type")@)),
            }
        } else if key == ("children")@ {
            match value {
                ConfigValue::List(vs) => match spec_parse_list(vs@, 0) {
                    Ok(ts) => spec_scan_map(entries, k + 1, tag, Some(ts), phrase),
                    Err(e) => Err(e),
                },
                _ => Err(ErrModel::WrongFieldType(("children")@)),
            }
        } else if key == ("phrase")@ {
            match value {
                ConfigValue::Text(s) => spec_scan_map(entries, k + 1, tag, children, Some(s@)),
                _ => Err(ErrModel::WrongFieldType(("phrase")@)),
            }
        } else {
            Err(ErrModel::UnknownField(key))
        }
    }
}

/// Dispatching a scanned map node on its `type` tag.
pub open spec fn spec_finish_map(
    tag: Option<Seq<char>>,
    children: Option<Seq<TreeModel>>,
    phrase: Option<Seq<char>>,
) -> Result<TreeModel, ErrModel> {
    match tag {
        None => Err(ErrModel::MissingField(("type")@)),
        Some(t) => if t == ("ordered")@ {
            match children {
                Some(ts) => Ok(TreeModel::Ordered(ts)),
                None => Err(ErrModel::MissingField(("children")@)),
            }
        } else if t == ("any")@ {
            match children {
                Some(ts) => Ok(TreeModel::Any(ts)),
                None => Err(ErrModel::MissingField(("children")@)),
            }
        } else if t == ("all")@ {
            match children {
                Some(ts) => Ok(TreeModel::All(ts)),
                None => Err(ErrModel::MissingField(("children")@)),
            }
        } else if t == ("exact")@ {
            match phrase {
                Some(p) => Ok(TreeModel::Exact(tokenize(clean_seq(p)))),
                None => Err(ErrModel::MissingField(("phrase")@)),
            }
        } else {
            Err(ErrModel::UnknownVariant(t))
        },
    }
}

/// Parsing a map node: scan the entries, then dispatch on the tag.
pub open spec fn spec_parse_map(entries: Seq<(String, ConfigValue)>) -> Result<
    TreeModel,
    ErrModel,
>
    decreases entries, entries.len() + 1,
{
    match spec_scan_map(entries, 0, None, None, None) {
        Ok((tag, children, phrase)) => spec_finish_map(tag, children, phrase),
        Err(e) => Err(e),
    }
}

proof fn lemma_parse_list_split(vs: Seq<ConfigValue>, k: int)
    requires
        0 <= k <= vs.len(),
        forall|j: int| 0 <= j < k ==> spec_parse(#[trigger] vs[j]) is Ok,
    ensures
        spec_parse_list(vs, 0) == match spec_parse_list(vs, k) {
            Ok(rest) => Ok::<Seq<TreeModel>, ErrModel>(
                Seq::new(k as nat, |j: int| spec_parse(vs[j])->Ok_0) + rest,
            ),
            Err(e) => Err::<Seq<TreeModel>, ErrModel>(e),
        },
    decreases k,
{
    if k == 0 {
        match spec_parse_list(vs, 0) {
            Ok(rest) => {
                assert(Seq::new(0, |j: int| spec_parse(vs[j])->Ok_0) + rest =~= rest);
            },
            Err(_) => {},
        }
    } else {
        lemma_parse_list_split(vs, k - 1);
        let pre1 = Seq::new((k - 1) as nat, |j: int| spec_parse(vs[j])->Ok_0);
        let pre = Seq::new(k as nat, |j: int| spec_parse(vs[j])->Ok_0);
        match spec_parse_list(vs, k) {
            Ok(rest) => {
                assert(spec_parse_list(vs, k - 1) == Ok::<Seq<TreeModel>, ErrModel>(
                    seq![spec_parse(vs[k - 1])->Ok_0] + rest,
                ));
                assert(pre1 + (seq![spec_parse(vs[k - 1])->Ok_0] + rest) =~= pre + rest);
            },
            Err(e) => {
                assert(spec_parse_list(vs, k - 1) == Err::<Seq<TreeModel>, ErrModel>(e));
            },
        }
    }
}

/// Parses the members of a configuration list into matchers.
fn parse_children(vs: &Vec<ConfigValue>) -> (r: Result<Vec<MatcherKind>, GrammarError>)
    ensures
        match r {
            Ok(ms) => spec_parse_list(vs@, 0) is Ok && models_from(ms@, 0) == spec_parse_list(
                vs@,
                0,
            )->Ok_0,
            Err(e) => spec_parse_list(vs@, 0) is Err && err_model(e) == spec_parse_list(
                vs@,
                0,
            )->Err_0,
        },
    decreases *vs, 0int,
{
    let n = vs.len();
    let mut ms: Vec<MatcherKind> = Vec::new();
    let mut k: usize = 0;
    while k < n
        invariant
            k <= n,
            n == vs@.len(),
            ms@.len() == k,
            forall|j: int| 0 <= j < k ==> spec_parse(#[trigger] vs@[j]) is Ok,
            forall|j: int|
                0 <= j < k ==> matcher_model(#[trigger] ms@[j]) == spec_parse(vs@[j])->Ok_0,
        decreases n - k,
    {
        proof {
            assert(decreases_to!(*vs => vs@[k as int]));
        }
        let child = &vs[k];
        match parse_matcher(child) {
            Ok(m) => {
                ms.push(m);
            },
            Err(e) => {
                proof {
                    lemma_parse_list_split(vs@, k as int);
                }
                return Err(e);
            },
        }
        k += 1;
    }
    proof {
        lemma_parse_list_split(vs@, n as int);
        lemma_models_from_index(ms@, 0);
        assert forall|j: int|
            0 <= j < n implies models_from(ms@, 0)[j] == spec_parse(vs@[j])->Ok_0 by {
            assert(models_from(ms@, 0)[j] == matcher_model(ms@[j]));
        }
        assert(models_from(ms@, 0) =~= Seq::new(
            n as nat,
            |j: int| spec_parse(vs@[j])->Ok_0,
        ) + Seq::<TreeModel>::empty());
    }
    Ok(ms)
}

/// Parses one configuration value into a matcher tree.  A plain string is a
/// phrase matcher; a list is an any-of matcher over its members; a map is a
/// tagged `ordered`, `all`, `any` or `exact` node.  Malformed input is a
/// configuration error naming the offending field or value.
pub fn parse_matcher(v: &ConfigValue) -> (r: Result<MatcherKind, GrammarError>)
    ensures
        match r {
            Ok(m) => spec_parse(*v) is Ok && matcher_model(m) == spec_parse(*v)->Ok_0,
            Err(e) => spec_parse(*v) is Err && err_model(e) == spec_parse(*v)->Err_0,
        },
    decreases *v, 1int,
{
    match v {
        ConfigValue::Text(s) => Ok(MatcherKind::Phrase(PhraseMatcher::new(s.as_str()))),
        ConfigValue::List(vs) => {
            proof {
                assert(decreases_to!(*v => v->List_0));
            }
            match parse_children(vs) {
                Ok(ms) => Ok(MatcherKind::Any(AnyMatcher(ms))),
                Err(e) => Err(e),
            }
        },
        ConfigValue::Node(entries) => {
            let ghost ev = entries@;
            let n = entries.len();
            let mut tag: Option<String> = None;
            let mut children: Option<Vec<MatcherKind>> = None;
            let mut phrase: Option<String> = None;
            let mut k: usize = 0;
            while k < n
                invariant
                    k <= n,
                    n == ev.len(),
                    ev == entries@,
                    v is Node && v->Node_0@ == ev,
                    spec_scan_map(ev, 0, None, None, None) == spec_scan_map(
                        ev,
                        k as int,
                        match tag {
                            Some(t) => Some(t@),
                            None => None,
                        },
                        match children {
                            Some(ms) => Some(models_from(ms@, 0)),
                            None => None,
                        },
                        match phrase {
                            Some(p) => Some(p@),
                            None => None,
                        },
                    ),
                decreases n - k,
            {
                let key: &String = &entries[k].0;
                let value: &ConfigValue = &entries[k].1;
                if str_eq(key.as_str(), "type") {
                    match value {
                        ConfigValue::Text(s) => {
                            tag = Some(s.clone());
                        },
                        _ => {
                            return Err(GrammarError::WrongFieldType("type".to_owned()));
                        },
                    }
                } else if str_eq(key.as_str(), "children") {
                    match value {
                        ConfigValue::List(vs) => {
                            proof {
                                assert(decreases_to!(*v => v->Node_0));
                                assert(decreases_to!(v->Node_0 => v->Node_0[k as int]));
                                assert(decreases_to!(v->Node_0[k as int] => v->Node_0[k as int].1));
                                assert(decreases_to!(v->Node_0[k as int].1 => v->Node_0[
                                k as int].1->List_0));
                                assert(*vs == v->Node_0[k as int].1->List_0);
                            }
                            match parse_children(vs) {
                                Ok(ms) => {
                                    children = Some(ms);
                                },
                                Err(e) => {
                                    return Err(e);
                                },
                            }
                        },
                        _ => {
                            return Err(GrammarError::WrongFieldType("children".to_owned()));
                        },
                    }
                } else if str_eq(key.as_str(), "phrase") {
                    match value {
                        ConfigValue::Text(s) => {
                            phrase = Some(s.clone());
                        },
                        _ => {
                            return Err(GrammarError::WrongFieldType("phrase".to_owned()));
                        },
                    }
                } else {
                    return Err(GrammarError::UnknownField(key.clone()));
                }
                k += 1;
            }
            match tag {
                None => Err(GrammarError::MissingField("type".to_owned())),
                Some(t) => {
                    if str_eq(t.as_str(), "ordered") {
                        match children {
                            Some(ms) => Ok(MatcherKind::Ordered(OrderedMatcher(ms))),
                            None => Err(GrammarError::MissingField("children".to_owned())),
                        }
                    } else if str_eq(t.as_str(), "any") {
                        match children {
                            Some(ms) => Ok(MatcherKind::Any(AnyMatcher(ms))),
                            None => Err(GrammarError::MissingField("children".to_owned())),
                        }
                    } else if str_eq(t.as_str(), "all") {
                        match children {
                            Some(ms) => Ok(MatcherKind::All(AllMatcher(ms))),
                            None => Err(GrammarError::MissingField("children".to_owned())),
                        }
                    } else if str_eq(t.as_str(), "exact") {
                        match phrase {
                            Some(p) => Ok(
                                MatcherKind::Exact(ExactMatcher::new(p.as_str())),
                            ),
                            None => Err(GrammarError::MissingField("phrase".to_owned())),
                        }
                    } else {
                        Err(GrammarError::UnknownVariant(t))
                    }
                },
            }
        },
    }
}

} // verus!
