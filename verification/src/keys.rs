//! Sets of storage keys.

use crate::summary::lemma_push_contains;
use crate::text::texts;
use vstd::hash_set::StringHashSet;
use vstd::prelude::*;

verus! {

/// A set of keys that remembers in which order they came.
pub struct KeySet {
    order: Vec<String>,
    index: StringHashSet,
}

/// The keys of a list, each once, in the order of their first occurrence.
pub open spec fn distinct(list: Seq<Seq<char>>) -> Seq<Seq<char>>
    decreases list.len(),
{
    if list.len() == 0 {
        Seq::empty()
    } else {
        with_key(distinct(list.drop_last()), list.last())
    }
}

/// The keys with one more key, unless it is there already.
pub open spec fn with_key(keys: Seq<Seq<char>>, key: Seq<char>) -> Seq<Seq<char>> {
    if keys.contains(key) {
        keys
    } else {
        keys.push(key)
    }
}

impl View for KeySet {
    type V = Seq<Seq<char>>;

    closed spec fn view(&self) -> Seq<Seq<char>> {
        texts(self.order@)
    }
}

impl KeySet {
    /// No key occurs twice, and the index holds the same keys.
    #[verifier::type_invariant]
    spec fn is_indexed(self) -> bool {
        &&& self@.no_duplicates()
        &&& forall|key: Seq<char>| #[trigger] self.index@.contains(key) <==> self@.contains(key)
    }

    /// An empty set.
    pub fn new() -> (res: Self)
        ensures
            res@ == Seq::<Seq<char>>::empty(),
    {
        let order: Vec<String> = Vec::new();
        assert(texts(order@) =~= Seq::<Seq<char>>::empty());
        KeySet { order, index: StringHashSet::new() }
    }

    /// Add a key, unless it is there already.
    pub fn insert(self, key: String) -> (res: Self)
        ensures
            res@ == with_key(self@, key@),
    {
        proof {
            use_type_invariant(&self);
        }
        if self.index.contains(key.as_str()) {
            return self;
        }
        let mut order = self.order;
        let mut index = self.index;
        let ghost before = texts(order@);
        index.insert(key.clone());
        order.push(key);
        proof {
            assert(texts(order@) =~= before.push(key@));
            assert forall|k: Seq<char>| #[trigger]
                index@.contains(k) <==> texts(order@).contains(k) by {
                lemma_push_contains(before, key@, k);
            }
        }
        KeySet { order, index }
    }

    /// Decide whether a key is in the set.
    pub fn contains(&self, key: &str) -> (res: bool)
        ensures
            res == self@.contains(key@),
    {
        proof {
            use_type_invariant(self);
        }
        self.index.contains(key)
    }

    /// The keys, in the order in which they came.
    pub fn keys(&self) -> (res: &Vec<String>)
        ensures
            texts(res@) == self@,
            self@.no_duplicates(),
    {
        proof {
            use_type_invariant(self);
        }
        &self.order
    }

    /// The keys, in the order in which they came.
    pub fn into_keys(self) -> (res: Vec<String>)
        ensures
            texts(res@) == self@,
            self@.no_duplicates(),
    {
        proof {
            use_type_invariant(&self);
        }
        self.order
    }

    /// The set of the keys in a list.
    pub fn from_list(list: Vec<String>) -> (res: Self)
        ensures
            res@ == distinct(texts(list@)),
    {
        let mut out = KeySet::new();
        for key in it: list
            invariant
                it.seq() == list@,
                out@ == distinct(texts(list@.take(it.index() as int))),
        {
            let ghost i = it.index() as int;
            assert(texts(list@.take(i + 1)).drop_last() =~= texts(list@.take(i)));
            assert(texts(list@.take(i + 1)).last() == key@);
            out = out.insert(key);
        }
        assert(list@.take(list@.len() as int) =~= list@);
        out
    }
}

/// The set of a list holds the same keys as the list, and none of them twice.
pub proof fn law_distinct_keeps_keys(list: Seq<Seq<char>>)
    ensures
        distinct(list).no_duplicates(),
        forall|key: Seq<char>| #[trigger] distinct(list).contains(key) <==> list.contains(key),
    decreases list.len(),
{
    if list.len() > 0 {
        let before = distinct(list.drop_last());
        law_distinct_keeps_keys(list.drop_last());
        assert(list =~= list.drop_last().push(list.last()));
        assert forall|key: Seq<char>| #[trigger]
            distinct(list).contains(key) <==> list.contains(key) by {
            lemma_push_contains(list.drop_last(), list.last(), key);
            lemma_push_contains(before, list.last(), key);
            assert(before.contains(key) <==> list.drop_last().contains(key));
        }
    }
}

/// A key that is added comes last, unless it is there already: then nothing changes.
pub proof fn law_key_is_added_once(keys: Seq<Seq<char>>, key: Seq<char>)
    ensures
        keys.contains(key) ==> with_key(keys, key) == keys,
        !keys.contains(key) ==> with_key(keys, key) == keys.push(key),
        with_key(keys, key).contains(key),
        with_key(with_key(keys, key), key) == with_key(keys, key),
{
    lemma_push_contains(keys, key, key);
}

/// The set of a list has the keys in the order of their first occurrence: a longer list changes
/// nothing of what it has from its beginning, and adds its next key last if that is new.
pub proof fn law_distinct_keeps_order(list: Seq<Seq<char>>, key: Seq<char>)
    ensures
        distinct(Seq::empty()) == Seq::<Seq<char>>::empty(),
        distinct(list.push(key)) == if list.contains(key) {
            distinct(list)
        } else {
            distinct(list).push(key)
        },
{
    law_distinct_keeps_keys(list);
    assert(list.push(key).drop_last() =~= list);
    assert(distinct(list).contains(key) <==> list.contains(key));
}

} // verus!
