//! The state store: the mapping from key to target URL.

use crate::text::same_text;
use vstd::prelude::*;

verus! {

/// The key that every store starts with.
pub const SEED_KEY: &'static str = "google";

/// The target URL of the seed key.
pub const SEED_URL: &'static str = "https://google.com";

/// The mapping that the store holds at startup: the seed key alone.
pub open spec fn seed() -> Map<Seq<char>, Seq<char>> {
    Map::<Seq<char>, Seq<char>>::empty().insert(SEED_KEY@, SEED_URL@)
}

/// The texts of a list of stored pairs.
pub open spec fn texts(items: Seq<(String, String)>) -> Seq<(Seq<char>, Seq<char>)> {
    items.map_values(|item: (String, String)| (item.0@, item.1@))
}

/// Whether some pair of the list has the given key.
pub open spec fn has_key(items: Seq<(Seq<char>, Seq<char>)>, key: Seq<char>) -> bool {
    exists|i: int| 0 <= i < items.len() && (#[trigger] items[i]).0 == key
}

/// Whether no key stands twice in the list.
pub open spec fn distinct_keys(items: Seq<(Seq<char>, Seq<char>)>) -> bool {
    forall|i: int, j: int|
        0 <= i < j < items.len() ==> (#[trigger] items[i]).0 != (#[trigger] items[j]).0
}

/// The mapping that a list of pairs stands for.
pub open spec fn listed(items: Seq<(Seq<char>, Seq<char>)>) -> Map<Seq<char>, Seq<char>> {
    Map::new(
        |key: Seq<char>| has_key(items, key),
        |key: Seq<char>|
            items[choose|i: int| 0 <= i < items.len() && (#[trigger] items[i]).0 == key].1,
    )
}

/// Whether a list of pairs is a listing of the mapping: every key once, each
/// with the URL that the mapping gives it.
pub open spec fn is_listing(
    items: Seq<(Seq<char>, Seq<char>)>,
    mapping: Map<Seq<char>, Seq<char>>,
) -> bool {
    distinct_keys(items) && listed(items) == mapping
}

/// In a list without a repeated key, the mapping gives each key the URL that
/// stands beside it.
proof fn lemma_listed_at(items: Seq<(Seq<char>, Seq<char>)>, i: int)
    requires
        distinct_keys(items),
        0 <= i < items.len(),
    ensures
        listed(items).contains_key(items[i].0),
        listed(items)[items[i].0] == items[i].1,
{
    let key = items[i].0;
    let j = choose|j: int| 0 <= j < items.len() && (#[trigger] items[j]).0 == key;
    assert(i == j);
}

/// A pair with a new key, put at the end, adds that key to the mapping.
proof fn lemma_listed_push(items: Seq<(Seq<char>, Seq<char>)>, key: Seq<char>, url: Seq<char>)
    requires
        distinct_keys(items),
        !has_key(items, key),
    ensures
        distinct_keys(items.push((key, url))),
        listed(items.push((key, url))) == listed(items).insert(key, url),
{
    let grown = items.push((key, url));
    assert(distinct_keys(grown)) by {
        assert forall|i: int, j: int| 0 <= i < j < grown.len() implies (#[trigger] grown[i]).0
            != (#[trigger] grown[j]).0 by {
            if j == items.len() {
                assert(items[i].0 != key);
            } else {
                assert(items[i].0 != items[j].0);
            }
        }
    }
    let target = listed(items).insert(key, url);
    assert forall|k: Seq<char>| listed(grown).contains_key(k) <==> target.contains_key(k) by {
        if has_key(grown, k) {
            let i = choose|i: int| 0 <= i < grown.len() && (#[trigger] grown[i]).0 == k;
            if i < items.len() {
                assert(items[i].0 == k);
            }
        }
        if has_key(items, k) {
            let i = choose|i: int| 0 <= i < items.len() && (#[trigger] items[i]).0 == k;
            assert(grown[i].0 == k);
        }
        if k == key {
            assert(grown[items.len() as int].0 == k);
        }
    }
    assert forall|k: Seq<char>| listed(grown).contains_key(k) implies listed(grown)[k]
        == target[k] by {
        let i = choose|i: int| 0 <= i < grown.len() && (#[trigger] grown[i]).0 == k;
        lemma_listed_at(grown, i);
        if i < items.len() {
            assert(items[i].0 == k);
            lemma_listed_at(items, i);
        }
    }
    assert(listed(grown) =~= target);
}

/// A new URL written beside a key that is in the list changes that key alone.
proof fn lemma_listed_update(items: Seq<(Seq<char>, Seq<char>)>, at: int, url: Seq<char>)
    requires
        distinct_keys(items),
        0 <= at < items.len(),
    ensures
        distinct_keys(items.update(at, (items[at].0, url))),
        listed(items.update(at, (items[at].0, url))) == listed(items).insert(items[at].0, url),
{
    let key = items[at].0;
    let changed = items.update(at, (key, url));
    assert(distinct_keys(changed)) by {
        assert forall|i: int, j: int| 0 <= i < j < changed.len() implies (#[trigger] changed[i]).0
            != (#[trigger] changed[j]).0 by {
            assert(items[i].0 != items[j].0);
        }
    }
    let target = listed(items).insert(key, url);
    assert forall|k: Seq<char>| listed(changed).contains_key(k) <==> target.contains_key(k) by {
        if has_key(changed, k) {
            let i = choose|i: int| 0 <= i < changed.len() && (#[trigger] changed[i]).0 == k;
            assert(items[i].0 == k);
        }
        if has_key(items, k) {
            let i = choose|i: int| 0 <= i < items.len() && (#[trigger] items[i]).0 == k;
            assert(changed[i].0 == k);
        }
        if k == key {
            assert(changed[at].0 == k);
        }
    }
    assert forall|k: Seq<char>| listed(changed).contains_key(k) implies listed(changed)[k]
        == target[k] by {
        let i = choose|i: int| 0 <= i < changed.len() && (#[trigger] changed[i]).0 == k;
        lemma_listed_at(changed, i);
        if i != at {
            assert(items[i].0 == k);
            lemma_listed_at(items, i);
        }
    }
    assert(listed(changed) =~= target);
}

/// Where the pair at `i` of a list stood before the pair at `at` was taken out.
spec fn before_removal(i: int, at: int) -> int {
    if i < at {
        i
    } else {
        i + 1
    }
}

/// A pair taken out of the list takes its key out of the mapping.
proof fn lemma_listed_remove(items: Seq<(Seq<char>, Seq<char>)>, at: int)
    requires
        distinct_keys(items),
        0 <= at < items.len(),
    ensures
        distinct_keys(items.remove(at)),
        listed(items.remove(at)) == listed(items).remove(items[at].0),
{
    let key = items[at].0;
    let rest = items.remove(at);
    assert forall|i: int| 0 <= i < rest.len() implies #[trigger] rest[i] == items[before_removal(
        i,
        at,
    )] by {}
    assert(distinct_keys(rest)) by {
        assert forall|i: int, j: int| 0 <= i < j < rest.len() implies (#[trigger] rest[i]).0
            != (#[trigger] rest[j]).0 by {
            assert(items[before_removal(i, at)].0 != items[before_removal(j, at)].0);
        }
    }
    let target = listed(items).remove(key);
    assert forall|k: Seq<char>| listed(rest).contains_key(k) <==> target.contains_key(k) by {
        if has_key(rest, k) {
            let i = choose|i: int| 0 <= i < rest.len() && (#[trigger] rest[i]).0 == k;
            let a = before_removal(i, at);
            assert(items[a].0 == k);
            if a < at {
                assert(items[a].0 != items[at].0);
            } else {
                assert(items[at].0 != items[a].0);
            }
        }
        if has_key(items, k) && k != key {
            let a = choose|a: int| 0 <= a < items.len() && (#[trigger] items[a]).0 == k;
            let i = if a < at {
                a
            } else {
                a - 1
            };
            assert(rest[i].0 == k);
        }
    }
    assert forall|k: Seq<char>| listed(rest).contains_key(k) implies listed(rest)[k]
        == target[k] by {
        let i = choose|i: int| 0 <= i < rest.len() && (#[trigger] rest[i]).0 == k;
        let a = before_removal(i, at);
        lemma_listed_at(rest, i);
        assert(items[a].0 == k);
        lemma_listed_at(items, a);
    }
    assert(listed(rest) =~= target);
}

/// A listing of a mapping shows each entry of the mapping.
pub proof fn lemma_listing_shows(
    items: Seq<(Seq<char>, Seq<char>)>,
    mapping: Map<Seq<char>, Seq<char>>,
    key: Seq<char>,
    url: Seq<char>,
)
    requires
        is_listing(items, mapping),
        mapping.contains_pair(key, url),
    ensures
        items.contains((key, url)),
{
    let i = choose|i: int| 0 <= i < items.len() && (#[trigger] items[i]).0 == key;
    lemma_listed_at(items, i);
    assert(items[i] == (key, url));
}

/// The mapping from key to target URL. A key stands in it at most once, and
/// writing under a key that is there replaces its URL.
pub struct Store {
    entries: Vec<(String, String)>,
}

impl View for Store {
    type V = Map<Seq<char>, Seq<char>>;

    closed spec fn view(&self) -> Map<Seq<char>, Seq<char>> {
        listed(texts(self.entries@))
    }
}

impl Store {
    #[verifier::type_invariant]
    spec fn keys_are_distinct(&self) -> bool {
        distinct_keys(texts(self.entries@))
    }

    /// A store without any key.
    pub fn new() -> (store: Store)
        ensures
            store@ == Map::<Seq<char>, Seq<char>>::empty(),
    {
        let store = Store { entries: Vec::new() };
        assert(store@ =~= Map::<Seq<char>, Seq<char>>::empty());
        store
    }

    /// The store as it is at startup: the seed key alone.
    pub fn seeded() -> (store: Store)
        ensures
            store@ == seed(),
    {
        let mut store = Store::new();
        store.insert(SEED_KEY.to_owned(), SEED_URL.to_owned());
        store
    }

    /// Where the key stands in the list, if it is there.
    fn position(&self, key: &str) -> (at: Option<usize>)
        ensures
            match at {
                Some(i) => i < self.entries@.len() && self.entries@[i as int].0@ == key@,
                None => !has_key(texts(self.entries@), key@),
            },
    {
        let mut i: usize = 0;
        while i < self.entries.len()
            invariant
                i <= self.entries@.len(),
                forall|j: int| 0 <= j < i ==> self.entries@[j].0@ != key@,
            decreases self.entries@.len() - i,
        {
            if same_text(self.entries[i].0.as_str(), key) {
                return Some(i);
            }
            i += 1;
        }
        proof {
            let items = texts(self.entries@);
            assert forall|j: int| 0 <= j < items.len() implies (#[trigger] items[j]).0 != key@ by {
                assert(items[j].0 == self.entries@[j].0@);
            }
        }
        None
    }

    /// The URL stored under the key, if the key is there.
    pub fn get(&self, key: &str) -> (url: Option<&String>)
        ensures
            url is Some <==> self@.contains_key(key@),
            url matches Some(found) ==> found@ == self@[key@],
    {
        proof {
            use_type_invariant(self);
        }
        match self.position(key) {
            Some(i) => {
                proof {
                    lemma_listed_at(texts(self.entries@), i as int);
                }
                Some(&self.entries[i].1)
            },
            None => None,
        }
    }

    /// Stores the URL under the key, in place of the URL that was there.
    pub fn insert(&mut self, key: String, value: String)
        ensures
            final(self)@ == old(self)@.insert(key@, value@),
    {
        proof {
            use_type_invariant(&*self);
        }
        let ghost before = texts(self.entries@);
        let found = self.position(key.as_str());
        let mut entries: Vec<(String, String)> = Vec::new();
        core::mem::swap(&mut self.entries, &mut entries);
        match found {
            Some(i) => {
                proof {
                    lemma_listed_update(before, i as int, value@);
                    assert(texts(entries@.update(i as int, (key, value))) =~= before.update(
                        i as int,
                        (key@, value@),
                    ));
                }
                entries.set(i, (key, value));
            },
            None => {
                proof {
                    lemma_listed_push(before, key@, value@);
                    assert(texts(entries@.push((key, value))) =~= before.push((key@, value@)));
                }
                entries.push((key, value));
            },
        }
        core::mem::swap(&mut self.entries, &mut entries);
    }

    /// Takes the key out of the store. A key that is not there changes nothing.
    pub fn remove(&mut self, key: &str)
        ensures
            final(self)@ == old(self)@.remove(key@),
    {
        proof {
            use_type_invariant(&*self);
        }
        let ghost before = texts(self.entries@);
        match self.position(key) {
            Some(i) => {
                let mut entries: Vec<(String, String)> = Vec::new();
                core::mem::swap(&mut self.entries, &mut entries);
                proof {
                    lemma_listed_remove(before, i as int);
                    assert(texts(entries@.remove(i as int)) =~= before.remove(i as int));
                }
                entries.remove(i);
                core::mem::swap(&mut self.entries, &mut entries);
            },
            None => {
                assert(listed(before).remove(key@) =~= listed(before));
            },
        }
    }

    /// A copy of what the store holds: every key once, with its URL. The copy
    /// does not follow later changes of the store.
    pub fn snapshot(&self) -> (copy: Vec<(String, String)>)
        ensures
            is_listing(texts(copy@), self@),
    {
        proof {
            use_type_invariant(self);
        }
        let mut copy: Vec<(String, String)> = Vec::new();
        let mut i: usize = 0;
        while i < self.entries.len()
            invariant
                i <= self.entries@.len(),
                copy@ == self.entries@.subrange(0, i as int),
            decreases self.entries@.len() - i,
        {
            let key = self.entries[i].0.clone();
            let url = self.entries[i].1.clone();
            copy.push((key, url));
            assert(copy@ =~= self.entries@.subrange(0, i as int + 1));
            i += 1;
        }
        assert(copy@ =~= self.entries@);
        copy
    }
}

} // verus!
