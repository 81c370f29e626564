//! Match results: which observed tokens triggered, and with what score.

use vstd::prelude::*;

verus! {

/// A flag for one observed token that belongs to a detection.
#[derive(Clone, Copy, Debug, PartialEq, Eq, Structural)]
pub struct DetectedWord {
    /// whether this word was part of the threshold triggering phrase
    pub matched: bool,
}

/// Whether a pair sequence is sorted strictly ascending by key.
pub open spec fn sorted_keys<V>(s: Seq<(usize, V)>) -> bool {
    forall|p: int, q: int| 0 <= p < q < s.len() ==> s[p].0 < s[q].0
}

/// Insertion into a key-sorted pair sequence, replacing an equal key.
pub open spec fn spec_insert<V>(s: Seq<(usize, V)>, key: usize, value: V) -> Seq<(usize, V)>
    decreases s.len(),
{
    if s.len() == 0 {
        seq![(key, value)]
    } else if s.last().0 < key {
        s.push((key, value))
    } else if s.last().0 == key {
        s.drop_last().push((key, value))
    } else {
        spec_insert(s.drop_last(), key, value).push(s.last())
    }
}

/// The mark entries for a sequence of flagged indices.
pub open spec fn marks_of(flags: Seq<usize>) -> Seq<(usize, DetectedWord)> {
    flags.map_values(|f: usize| (f, DetectedWord { matched: true }))
}

/// Sound mark entries for an observed sequence of `n` tokens: the keys are
/// ascending token indices below `n`.
pub open spec fn item_keys_ok(s: Seq<(usize, DetectedWord)>, n: int) -> bool {
    &&& forall|t: int| 0 <= t < s.len() ==> (#[trigger] s[t]).0 < n
    &&& sorted_keys(s)
}

/// Whether some pair in the sequence carries the given key.
pub open spec fn has_key<V>(s: Seq<(usize, V)>, key: usize) -> bool {
    exists|i: int| 0 <= i < s.len() && s[i].0 == key
}

/// Merging a whole pair sequence, keys shifted by `shift`, into another.
pub open spec fn spec_insert_all<V>(s: Seq<(usize, V)>, o: Seq<(usize, V)>, shift: usize) -> Seq<
    (usize, V),
>
    decreases o.len(),
{
    if o.len() == 0 {
        s
    } else {
        spec_insert_all(
            spec_insert(s, (o[0].0 + shift) as usize, o[0].1),
            o.drop_first(),
            shift,
        )
    }
}

pub proof fn lemma_spec_insert_keys<V>(s: Seq<(usize, V)>, key: usize, value: V)
    requires
        sorted_keys(s),
    ensures
        sorted_keys(spec_insert(s, key, value)),
        forall|k: usize| #[trigger]
            has_key(spec_insert(s, key, value), k) <==> (k == key || has_key(s, k)),
        spec_insert(s, key, value).len() <= s.len() + 1,
        spec_insert(s, key, value).len() >= s.len(),
        spec_insert(s, key, value).len() == s.len() + 1 <==> !has_key(s, key),
    decreases s.len(),
{
    let r = spec_insert(s, key, value);
    if s.len() == 0 {
        assert forall|k: usize| #[trigger] has_key(r, k) implies (k == key || has_key(s, k)) by {
            let i = choose|i: int| 0 <= i < r.len() && r[i].0 == k;
            assert(i == 0);
        }
        assert(r[0].0 == key);
        assert(has_key(r, key));
    } else if s.last().0 < key {
        assert forall|k: usize| #[trigger] has_key(r, k) implies (k == key || has_key(s, k)) by {
            let i = choose|i: int| 0 <= i < r.len() && r[i].0 == k;
            if i < s.len() {
                assert(s[i].0 == k);
            }
        }
        assert(r[s.len() as int].0 == key);
        assert(has_key(r, key));
        assert forall|k: usize| has_key(s, k) implies #[trigger] has_key(r, k) by {
            let i = choose|i: int| 0 <= i < s.len() && s[i].0 == k;
            assert(r[i].0 == k);
        }
        assert(!has_key(s, key));
    } else if s.last().0 == key {
        assert(r =~= s.update(s.len() - 1, (key, value)));
        assert forall|k: usize| #[trigger] has_key(r, k) implies (k == key || has_key(s, k)) by {
            let i = choose|i: int| 0 <= i < r.len() && r[i].0 == k;
            if i < s.len() - 1 {
                assert(s[i].0 == k);
            }
        }
        assert forall|k: usize| has_key(s, k) implies #[trigger] has_key(r, k) by {
            let i = choose|i: int| 0 <= i < s.len() && s[i].0 == k;
            assert(r[i].0 == k);
        }
        assert(has_key(s, key));
        assert(r[s.len() - 1].0 == key);
        assert(has_key(r, key));
    } else {
        lemma_spec_insert_keys(s.drop_last(), key, value);
        let rr = spec_insert(s.drop_last(), key, value);
        assert forall|i: int| 0 <= i < rr.len() implies (#[trigger] rr[i]).0 < s.last().0 by {
            assert(has_key(rr, rr[i].0));
            if rr[i].0 == key {
            } else {
                assert(has_key(s.drop_last(), rr[i].0));
                let t = choose|t: int|
                    0 <= t < s.drop_last().len() && s.drop_last()[t].0 == rr[i].0;
                assert(s[t].0 == rr[i].0);
            }
        }
        assert(sorted_keys(r));
        assert forall|k: usize| #[trigger] has_key(r, k) implies (k == key || has_key(s, k)) by {
            let i = choose|i: int| 0 <= i < r.len() && r[i].0 == k;
            if i < rr.len() {
                assert(has_key(rr, k));
                if k != key {
                    let t = choose|t: int| 0 <= t < s.drop_last().len() && s.drop_last()[t].0 == k;
                    assert(s[t].0 == k);
                }
            } else {
                assert(s.last().0 == k);
            }
        }
        assert(has_key(r, key)) by {
            assert(has_key(rr, key));
            let t = choose|t: int| 0 <= t < rr.len() && rr[t].0 == key;
            assert(r[t].0 == key);
        }
        assert forall|k: usize| has_key(s, k) implies #[trigger] has_key(r, k) by {
            let i = choose|i: int| 0 <= i < s.len() && s[i].0 == k;
            if i < s.len() - 1 {
                assert(s.drop_last()[i].0 == k);
                assert(has_key(s.drop_last(), k));
                assert(has_key(rr, k));
                let t = choose|t: int| 0 <= t < rr.len() && rr[t].0 == k;
                assert(r[t].0 == k);
            } else {
                assert(r.last().0 == k);
            }
        }
        assert(has_key(s, key) <==> has_key(s.drop_last(), key)) by {
            if has_key(s, key) {
                let i = choose|i: int| 0 <= i < s.len() && s[i].0 == key;
                assert(i < s.len() - 1);
                assert(s.drop_last()[i].0 == key);
                assert(has_key(s.drop_last(), key));
            } else if has_key(s.drop_last(), key) {
                let i = choose|i: int| 0 <= i < s.drop_last().len() && s.drop_last()[i].0 == key;
                assert(s[i].0 == key);
            }
        }
    }
}

/// Merging keeps the entries sorted, and keeps every key under the bound
/// when both sides respect it.
pub proof fn lemma_insert_all_keys<V>(s: Seq<(usize, V)>, o: Seq<(usize, V)>, shift: usize, n: int)
    requires
        sorted_keys(s),
        forall|t: int| 0 <= t < s.len() ==> (#[trigger] s[t]).0 < n,
        forall|i: int| 0 <= i < o.len() ==> (#[trigger] o[i]).0 + shift < n,
        n <= usize::MAX + 1,
    ensures
        sorted_keys(spec_insert_all(s, o, shift)),
        forall|t: int|
            0 <= t < spec_insert_all(s, o, shift).len() ==> (#[trigger] spec_insert_all(
                s,
                o,
                shift,
            )[t]).0 < n,
    decreases o.len(),
{
    if o.len() == 0 {
    } else {
        let key = (o[0].0 + shift) as usize;
        lemma_spec_insert_keys(s, key, o[0].1);
        let ins = spec_insert(s, key, o[0].1);
        assert forall|t: int| 0 <= t < ins.len() implies (#[trigger] ins[t]).0 < n by {
            assert(has_key(ins, ins[t].0));
        }
        assert(forall|i: int| 0 <= i < o.drop_first().len() ==> (#[trigger] o.drop_first()[i]).0
            + shift < n);
        lemma_insert_all_keys(ins, o.drop_first(), shift, n);
    }
}

/// A map from observed-token index to a value, kept as a key-sorted vector.
/// It stands in for a hash map so that iteration order, and with it every
/// result built from it, is deterministic.
#[derive(Debug, PartialEq)]
pub struct IndexMap<V> {
    entries: Vec<(usize, V)>,
}

impl<V> View for IndexMap<V> {
    type V = Seq<(usize, V)>;

    closed spec fn view(&self) -> Seq<(usize, V)> {
        self.entries@
    }
}

impl<V> IndexMap<V> {
    #[verifier::type_invariant]
    spec fn wf(&self) -> bool {
        sorted_keys(self.entries@)
    }

    /// An empty map.
    pub fn new() -> (r: IndexMap<V>)
        ensures
            r@ == Seq::<(usize, V)>::empty(),
    {
        IndexMap { entries: Vec::new() }
    }

    /// How many keys are present.
    pub fn len(&self) -> (r: usize)
        ensures
            r == self@.len(),
    {
        self.entries.len()
    }

    /// Whether the key is present.
    pub fn contains_key(&self, key: &usize) -> (r: bool)
        ensures
            r == has_key(self@, *key),
    {
        let mut i: usize = 0;
        while i < self.entries.len()
            invariant
                i <= self@.len(),
                self@ == self.entries@,
                forall|t: int| 0 <= t < i ==> (#[trigger] self@[t]).0 != *key,
            decreases self@.len() - i,
        {
            if self.entries[i].0 == *key {
                return true;
            }
            i += 1;
        }
        false
    }

    /// The value stored under a key, if any.
    pub fn get(&self, key: &usize) -> (r: Option<&V>)
        ensures
            match r {
                Some(v) => exists|i: int|
                    0 <= i < self@.len() && self@[i].0 == *key && self@[i].1 == *v,
                None => !has_key(self@, *key),
            },
    {
        let mut i: usize = 0;
        while i < self.entries.len()
            invariant
                i <= self@.len(),
                self@ == self.entries@,
                forall|t: int| 0 <= t < i ==> (#[trigger] self@[t]).0 != *key,
            decreases self@.len() - i,
        {
            if self.entries[i].0 == *key {
                return Some(&self.entries[i].1);
            }
            i += 1;
        }
        None
    }

    /// The entry at a position, in ascending key order.
    pub fn entry_at(&self, i: usize) -> (r: &(usize, V))
        requires
            i < self@.len(),
        ensures
            *r == self@[i as int],
    {
        &self.entries[i]
    }

    /// Stores a value under a key, replacing any previous value.
    pub fn insert(&mut self, key: usize, value: V)
        ensures
            final(self)@ == spec_insert(old(self)@, key, value),
    {
        proof {
            use_type_invariant(&*self);
            lemma_spec_insert_keys(self.entries@, key, value);
        }
        let ghost s = self.entries@;
        let mut idx: usize = 0;
        while idx < self.entries.len() && self.entries[idx].0 < key
            invariant
                idx <= s.len(),
                s == self.entries@,
                forall|t: int| 0 <= t < idx ==> (#[trigger] s[t]).0 < key,
            decreases s.len() - idx,
        {
            idx += 1;
        }
        let replace = idx < self.entries.len() && self.entries[idx].0 == key;
        let mut v: Vec<(usize, V)> = Vec::new();
        core::mem::swap(&mut self.entries, &mut v);
        if replace {
            v.remove(idx);
            v.insert(idx, (key, value));
            proof {
                lemma_insert_shape(s, key, value, idx as int);
                assert(v@ =~= s.update(idx as int, (key, value)));
            }
        } else {
            v.insert(idx, (key, value));
            proof {
                lemma_insert_shape(s, key, value, idx as int);
                assert(v@ =~= s.subrange(0, idx as int) + seq![(key, value)] + s.subrange(
                    idx as int,
                    s.len() as int,
                ));
            }
        }
        core::mem::swap(&mut self.entries, &mut v);
    }
}

/// Where an insertion lands in a sorted pair sequence.
proof fn lemma_insert_shape<V>(s: Seq<(usize, V)>, key: usize, value: V, idx: int)
    requires
        sorted_keys(s),
        0 <= idx <= s.len(),
        forall|t: int| 0 <= t < idx ==> (#[trigger] s[t]).0 < key,
        idx < s.len() ==> s[idx].0 >= key,
    ensures
        idx < s.len() && s[idx].0 == key ==> spec_insert(s, key, value) =~= s.update(
            idx,
            (key, value),
        ),
        !(idx < s.len() && s[idx].0 == key) ==> spec_insert(s, key, value) =~= s.subrange(0, idx)
            + seq![(key, value)] + s.subrange(idx, s.len() as int),
    decreases s.len(),
{
    if s.len() == 0 {
    } else if s.last().0 < key {
        assert(idx == s.len());
    } else if s.last().0 == key {
        assert(idx == s.len() - 1);
    } else {
        assert(idx < s.len());
        let d = s.drop_last();
        lemma_insert_shape(d, key, value, idx);
        if idx < d.len() && d[idx].0 == key {
            assert(spec_insert(s, key, value) =~= s.update(idx, (key, value)));
        } else {
            assert(d.subrange(0, idx) =~= s.subrange(0, idx));
            assert(spec_insert(s, key, value) =~= s.subrange(0, idx) + seq![(key, value)]
                + s.subrange(idx, s.len() as int));
        }
    }
}

impl IndexMap<DetectedWord> {
    /// Merges all of another map's entries, keys shifted by `shift`.
    pub fn insert_all_shifted(&mut self, other: &IndexMap<DetectedWord>, shift: usize)
        requires
            forall|i: int|
                0 <= i < other@.len() ==> (#[trigger] other@[i]).0 + shift <= usize::MAX,
        ensures
            final(self)@ == spec_insert_all(old(self)@, other@, shift),
    {
        let n = other.len();
        let mut k: usize = 0;
        proof {
            assert(other@.skip(0) =~= other@);
        }
        while k < n
            invariant
                k <= n,
                n == other@.len(),
                forall|i: int|
                    0 <= i < other@.len() ==> (#[trigger] other@[i]).0 + shift <= usize::MAX,
                spec_insert_all(self@, other@.skip(k as int), shift) == spec_insert_all(
                    old(self)@,
                    other@,
                    shift,
                ),
            decreases n - k,
        {
            let ghost pre = self@;
            let (key, value) = *other.entry_at(k);
            self.insert(key + shift, value);
            proof {
                let rest = other@.skip(k as int);
                assert(rest[0] == other@[k as int]);
                assert(rest.drop_first() =~= other@.skip(k + 1));
            }
            k += 1;
        }
        proof {
            assert(other@.skip(n as int) =~= Seq::<(usize, DetectedWord)>::empty());
        }
    }
}

/// The result of one successful matcher invocation: a fixed-point confidence
/// score and the observed-token indices that triggered it.
#[derive(Debug, PartialEq)]
pub struct DetectedItem {
    /// the words that were present or triggered
    pub words: IndexMap<DetectedWord>,
    pub score: u64,
}

impl DetectedItem {
    /// An item with the given score and no flagged words yet.
    pub fn new(score: u64) -> (r: DetectedItem)
        ensures
            r.score == score,
            r.words@ == Seq::<(usize, DetectedWord)>::empty(),
    {
        DetectedItem { words: IndexMap::new(), score }
    }

    /// Flags the observed token at `index` as part of the trigger.
    pub fn mark_match(&mut self, index: usize)
        ensures
            final(self).score == old(self).score,
            final(self).words@ == spec_insert(
                old(self).words@,
                index,
                DetectedWord { matched: true },
            ),
    {
        self.words.insert(index, DetectedWord { matched: true });
    }

    /// The least and greatest flagged indices, if any word is flagged.
    pub fn min_max_word_indexes(&self) -> (r: Option<(usize, usize)>)
        ensures
            match r {
                Some(p) => self.words@.len() > 0 && p.0 == self.words@.first().0 && p.1
                    == self.words@.last().0,
                None => self.words@.len() == 0,
            },
    {
        let n = self.words.len();
        if n == 0 {
            None
        } else {
            Some((self.words.entry_at(0).0, self.words.entry_at(n - 1).0))
        }
    }
}

} // verus!
