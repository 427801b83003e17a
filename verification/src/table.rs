//! A map from texts to values that can drop entries by their values.

use vstd::hash_map::StringHashMap;
use vstd::prelude::*;

use crate::text::views;

verus! {

/// A hash map together with the list of its keys.
#[verifier::reject_recursive_types(V)]
pub struct Table<V> {
    map: StringHashMap<V>,
    keys: Vec<String>,
}

/// The entries of `m` whose values satisfy `keep`.
pub open spec fn kept<V>(m: Map<Seq<char>, V>, keep: spec_fn(V) -> bool) -> Map<Seq<char>, V> {
    Map::new(|k: Seq<char>| m.contains_key(k) && keep(m[k]), |k: Seq<char>| m[k])
}

proof fn lemma_contains_push(s: Seq<Seq<char>>, last: Seq<char>)
    ensures
        forall|k: Seq<char>| #[trigger] s.push(last).contains(k) <==> s.contains(k) || k == last,
{
    let t = s.push(last);
    assert forall|k: Seq<char>| #[trigger] t.contains(k) <==> s.contains(k) || k == last by {
        if s.contains(k) {
            let j = choose|j: int| 0 <= j < s.len() && s[j] == k;
            assert(t[j] == k);
        }
        if k == last {
            assert(t[s.len() as int] == k);
        }
        if t.contains(k) {
            let j = choose|j: int| 0 <= j < t.len() && t[j] == k;
            if j < s.len() {
                assert(s[j] == k);
            }
        }
    }
}

impl<V: Copy> Table<V> {
    pub closed spec fn view(&self) -> Map<Seq<char>, V> {
        self.map@
    }

    /// The list holds each key of the map once, and no other.
    pub closed spec fn wf(&self) -> bool {
        &&& views(self.keys@).no_duplicates()
        &&& views(self.keys@).to_set() == self.map@.dom()
    }

    pub fn new() -> (r: Self)
        ensures
            r.wf(),
            r@ == Map::<Seq<char>, V>::empty(),
    {
        let r = Table { map: StringHashMap::new(), keys: Vec::new() };
        assert(views(r.keys@).to_set() =~= r.map@.dom());
        r
    }

    pub fn len(&self) -> (r: usize)
        requires
            self.wf(),
        ensures
            r == self@.len(),
            self@.dom().finite(),
    {
        proof {
            views(self.keys@).unique_seq_to_set();
        }
        self.keys.len()
    }

    pub fn get(&self, key: &str) -> (r: Option<V>)
        ensures
            match r {
                Some(v) => self@.contains_key(key@) && self@[key@] == v,
                None => !self@.contains_key(key@),
            },
    {
        match self.map.get(key) {
            Some(v) => Some(*v),
            None => None,
        }
    }

    pub fn insert(&mut self, key: &str, value: V)
        requires
            old(self).wf(),
        ensures
            final(self).wf(),
            final(self)@ == old(self)@.insert(key@, value),
    {
        let ghost before = views(self.keys@);
        if !self.map.contains_key(key) {
            self.keys.push(key.to_string());
            proof {
                assert(views(self.keys@) =~= before.push(key@));
                assert(!before.contains(key@)) by {
                    assert(!before.to_set().contains(key@));
                }
                assert(views(self.keys@).to_set() =~= before.to_set().insert(key@)) by {
                    before.lemma_push_to_set_commute(key@);
                }
            }
        }
        self.map.insert(key.to_string(), value);
        assert(views(self.keys@).to_set() =~= self.map@.dom());
    }

    /// Drops the entries whose values do not satisfy `keep`.
    pub fn retain<F: Fn(V) -> bool>(&mut self, keep: F, Ghost(p): Ghost<spec_fn(V) -> bool>)
        requires
            old(self).wf(),
            forall|v: V| call_requires(keep, (v,)),
            forall|v: V, b: bool| call_ensures(keep, (v,), b) ==> b == p(v),
        ensures
            final(self).wf(),
            final(self)@ == kept(old(self)@, p),
    {
        let mut map: StringHashMap<V> = StringHashMap::new();
        let mut keys: Vec<String> = Vec::new();
        let ghost all = views(self.keys@);
        let ghost m = self.map@;
        let mut i: usize = 0;
        assert(views(keys@).to_set() =~= map@.dom());
        while i < self.keys.len()
            invariant
                i <= self.keys@.len(),
                all == views(self.keys@),
                m == self.map@,
                all.no_duplicates(),
                all.to_set() == m.dom(),
                forall|v: V| call_requires(keep, (v,)),
                forall|v: V, b: bool| call_ensures(keep, (v,), b) ==> b == p(v),
                views(keys@).no_duplicates(),
                views(keys@).to_set() == map@.dom(),
                forall|k: Seq<char>| #[trigger]
                    map@.contains_key(k) <==> all.take(i as int).contains(k) && p(m[k]),
                forall|k: Seq<char>| #[trigger] map@.contains_key(k) ==> map@[k] == m[k],
            decreases self.keys@.len() - i,
        {
            let key = self.keys[i].as_str();
            let ghost before_keys = views(keys@);
            let ghost before_map = map@;
            proof {
                assert(all[i as int] == key@);
                assert(all.take(i + 1) =~= all.take(i as int).push(key@));
                assert(all.to_set().contains(key@));
                assert(!all.take(i as int).contains(key@)) by {
                    if all.take(i as int).contains(key@) {
                        let j = choose|j: int| 0 <= j < i && all.take(i as int)[j] == key@;
                        assert(all[j] == all[i as int]);
                    }
                }
                lemma_contains_push(all.take(i as int), key@);
            }
            if let Some(v) = self.map.get(key) {
                let value: V = *v;
                if keep(value) {
                    map.insert(key.to_string(), value);
                    keys.push(key.to_string());
                    proof {
                        assert(views(keys@) =~= before_keys.push(key@));
                        assert(!before_map.contains_key(key@));
                        assert(!before_keys.contains(key@)) by {
                            assert(!before_keys.to_set().contains(key@));
                        }
                        before_keys.lemma_push_to_set_commute(key@);
                        assert(views(keys@).to_set() =~= map@.dom());
                    }
                }
            }
            i = i + 1;
        }
        proof {
            assert(all.take(all.len() as int) =~= all);
            assert forall|k: Seq<char>| m.contains_key(k) <==> all.contains(k) by {
                assert(all.to_set().contains(k) <==> all.contains(k));
            }
            assert(map@ =~= kept(m, p));
        }
        self.map = map;
        self.keys = keys;
    }
}

} // verus!
