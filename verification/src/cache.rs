//! The persistent translation cache.
//!
//! A mapping from exact source text (case- and whitespace-sensitive) to
//! its translation. Entries are only added during a session, never
//! evicted; a source text in the cache is never translated again until
//! the process restarts. The wire format lives in the json module; the
//! caller reads and writes the store file.

use vstd::prelude::*;

verus! {

use vstd::pervasive::VecAdditionalExecFns;

/// The views of a sequence of entry pairs.
pub open spec fn pair_views(es: Seq<(String, String)>) -> Seq<(Seq<char>, Seq<char>)> {
    es.map_values(|e: (String, String)| (e.0@, e.1@))
}

/// The mapping an association list denotes; a later pair with an equal
/// key wins.
pub open spec fn assoc_map(es: Seq<(Seq<char>, Seq<char>)>) -> Map<Seq<char>, Seq<char>>
    decreases es.len(),
{
    if es.len() == 0 {
        Map::empty()
    } else {
        assoc_map(es.drop_last()).insert(es.last().0, es.last().1)
    }
}

/// No key occurs twice.
pub open spec fn keys_distinct(es: Seq<(Seq<char>, Seq<char>)>) -> bool {
    forall|i: int, j: int| 0 <= i < j < es.len() ==> (#[trigger] es[i]).0 != (#[trigger] es[j]).0
}

pub proof fn lemma_assoc_contains(es: Seq<(Seq<char>, Seq<char>)>, k: Seq<char>)
    ensures
        assoc_map(es).contains_key(k) <==> exists|i: int|
            0 <= i < es.len() && (#[trigger] es[i]).0 == k,
    decreases es.len(),
{
    if es.len() > 0 {
        lemma_assoc_contains(es.drop_last(), k);
        if es.last().0 == k {
            assert(es[es.len() - 1].0 == k);
        } else {
            if assoc_map(es).contains_key(k) {
                let i = choose|i: int| 0 <= i < es.drop_last().len() && (#[trigger] es.drop_last()[
                    i]).0 == k;
                assert(es[i].0 == k);
            }
            if exists|i: int| 0 <= i < es.len() && (#[trigger] es[i]).0 == k {
                let i = choose|i: int| 0 <= i < es.len() && (#[trigger] es[i]).0 == k;
                assert(i < es.len() - 1);
                assert(es.drop_last()[i].0 == k);
            }
        }
    }
}

pub proof fn lemma_assoc_get(es: Seq<(Seq<char>, Seq<char>)>, i: int)
    requires
        keys_distinct(es),
        0 <= i < es.len(),
    ensures
        assoc_map(es).contains_key(es[i].0),
        assoc_map(es)[es[i].0] == es[i].1,
    decreases es.len(),
{
    if i == es.len() - 1 {
    } else {
        lemma_assoc_get(es.drop_last(), i);
        assert(es.drop_last()[i] == es[i]);
        assert(es[es.len() - 1].0 != es[i].0);
    }
}

/// The in-memory translation cache.
pub struct TranslationCache {
    pub entries: Vec<(String, String)>,
}

impl TranslationCache {
    /// The entries as mathematical pairs, in insertion order.
    pub open spec fn entry_views(self) -> Seq<(Seq<char>, Seq<char>)> {
        pair_views(self.entries@)
    }

    /// The mapping the cache holds.
    pub open spec fn as_map(self) -> Map<Seq<char>, Seq<char>> {
        assoc_map(self.entry_views())
    }

    /// Each source text has at most one entry.
    pub open spec fn wf(self) -> bool {
        keys_distinct(self.entry_views())
    }

    /// An empty cache.
    pub fn new() -> (c: TranslationCache)
        ensures
            c.wf(),
            c.entry_views().len() == 0,
            c.as_map() == Map::<Seq<char>, Seq<char>>::empty(),
    {
        let c = TranslationCache { entries: Vec::new() };
        proof {
            assert(c.entry_views() =~= Seq::<(Seq<char>, Seq<char>)>::empty());
        }
        c
    }

    /// How many entries the cache holds.
    pub fn len(&self) -> (r: usize)
        ensures
            r == self.entry_views().len(),
    {
        self.entries.len()
    }

    /// Whether this exact source text already has a translation.
    pub fn contains(&self, text: &String) -> (r: bool)
        ensures
            r == self.as_map().contains_key(text@),
    {
        proof {
            lemma_assoc_contains(self.entry_views(), text@);
        }
        let n = self.entries.len();
        let mut i: usize = 0;
        while i < n
            invariant
                i <= n == self.entries@.len(),
                forall|k: int| 0 <= k < i ==> (#[trigger] self.entry_views()[k]).0 != text@,
            decreases n - i,
        {
            if self.entries[i].0.eq(text) {
                proof {
                    assert(self.entry_views()[i as int].0 == text@);
                    lemma_assoc_contains(self.entry_views(), text@);
                }
                return true;
            }
            i = i + 1;
        }
        proof {
            lemma_assoc_contains(self.entry_views(), text@);
        }
        false
    }

    /// The cached translation of this exact source text, if any.
    pub fn get(&self, text: &String) -> (r: Option<&String>)
        requires
            self.wf(),
        ensures
            match r {
                Some(t) => self.as_map().contains_key(text@) && self.as_map()[text@] == t@,
                None => !self.as_map().contains_key(text@),
            },
    {
        let n = self.entries.len();
        let mut i: usize = 0;
        while i < n
            invariant
                i <= n == self.entries@.len(),
                self.wf(),
                forall|k: int| 0 <= k < i ==> (#[trigger] self.entry_views()[k]).0 != text@,
            decreases n - i,
        {
            if self.entries[i].0.eq(text) {
                proof {
                    assert(self.entry_views()[i as int].0 == text@);
                    lemma_assoc_get(self.entry_views(), i as int);
                }
                return Some(&self.entries[i].1);
            }
            i = i + 1;
        }
        proof {
            lemma_assoc_contains(self.entry_views(), text@);
        }
        None
    }

    /// Add or replace the translation for a source text. A fresh source
    /// text appends an entry; a known one has its entry replaced in
    /// place.
    pub fn insert(&mut self, text: String, translation: String)
        requires
            old(self).wf(),
        ensures
            final(self).wf(),
            final(self).as_map() == old(self).as_map().insert(text@, translation@),
            !old(self).as_map().contains_key(text@) ==> final(self).entry_views() == old(
                self,
            ).entry_views().push((text@, translation@)),
            old(self).as_map().contains_key(text@) ==> final(self).entry_views().len() == old(
                self,
            ).entry_views().len(),
    {
        proof {
            lemma_assoc_contains(old(self).entry_views(), text@);
        }
        let n = self.entries.len();
        let mut i: usize = 0;
        while i < n
            invariant
                i <= n == self.entries@.len(),
                *self == *old(self),
                old(self).wf(),
                forall|k: int| 0 <= k < i ==> (#[trigger] self.entry_views()[k]).0 != text@,
            decreases n - i,
        {
            if self.entries[i].0.eq(&text) {
                proof {
                    assert(old(self).entry_views()[i as int].0 == text@);
                    lemma_assoc_contains(old(self).entry_views(), text@);
                }
                self.entries.set(i, (text, translation));
                proof {
                    assert(self.entry_views() =~= old(self).entry_views().update(
                        i as int,
                        (text@, translation@),
                    ));
                    lemma_assoc_update(old(self).entry_views(), i as int, text@, translation@);
                    assert(forall|j: int|
                        0 <= j < self.entry_views().len() ==> (#[trigger] self.entry_views()[j]).0
                            == old(self).entry_views()[j].0);
                }
                return ;
            }
            i = i + 1;
        }
        proof {
            lemma_assoc_contains(old(self).entry_views(), text@);
            assert(!old(self).as_map().contains_key(text@));
        }
        self.entries.push((text, translation));
        proof {
            assert(self.entry_views() =~= old(self).entry_views().push((text@, translation@)));
            assert(self.entry_views().drop_last() =~= old(self).entry_views());
            assert(self.as_map() == old(self).as_map().insert(text@, translation@));
        }
    }
}

/// Replacing the entry of a known key denotes the same mapping as a map
/// insert of that key.
pub proof fn lemma_assoc_update(
    es: Seq<(Seq<char>, Seq<char>)>,
    i: int,
    k: Seq<char>,
    v: Seq<char>,
)
    requires
        keys_distinct(es),
        0 <= i < es.len(),
        es[i].0 == k,
    ensures
        assoc_map(es.update(i, (k, v))) == assoc_map(es).insert(k, v),
    decreases es.len(),
{
    let eu = es.update(i, (k, v));
    if i == es.len() - 1 {
        assert(eu.drop_last() =~= es.drop_last());
        assert(eu.last() == (k, v));
        assert(assoc_map(eu) == assoc_map(es.drop_last()).insert(k, v));
        assert(assoc_map(es.drop_last()).insert(k, es.last().1).insert(k, v) =~= assoc_map(
            es.drop_last(),
        ).insert(k, v));
    } else {
        assert(eu.drop_last() =~= es.drop_last().update(i, (k, v)));
        assert(eu.last() == es.last());
        assert(es.drop_last()[i] == es[i]);
        lemma_assoc_update(es.drop_last(), i, k, v);
        assert(es.last().0 != k);
        assert(assoc_map(es).insert(k, v) =~= assoc_map(es.drop_last()).insert(k, v).insert(
            es.last().0,
            es.last().1,
        ));
    }
}

} // verus!
