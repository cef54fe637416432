//! A header map whose names are compared case-insensitively.
use vstd::prelude::*;

use crate::text::{lower_of, lowercase};

verus! {

/// HTTP headers: a map from lowercased name to value. Each name occurs once;
/// inserting a name again replaces its value.
pub struct HttpHeaders {
    entries: Vec<(String, String)>,
    model: Ghost<Map<Seq<char>, Seq<char>>>,
}

impl View for HttpHeaders {
    type V = Map<Seq<char>, Seq<char>>;

    closed spec fn view(&self) -> Map<Seq<char>, Seq<char>> {
        self.model@
    }
}

/// The map that inserting `pairs` one after the other into `m` gives, each
/// name lowercased.
pub open spec fn insert_all(m: Map<Seq<char>, Seq<char>>, pairs: Seq<(Seq<char>, Seq<char>)>) -> Map<
    Seq<char>,
    Seq<char>,
>
    decreases pairs.len(),
{
    if pairs.len() == 0 {
        m
    } else {
        insert_all(m, pairs.drop_last()).insert(lower_of(pairs.last().0), pairs.last().1)
    }
}

/// The name of the header that gives a body's length.
pub open spec fn content_length_name() -> Seq<char> {
    lower_of("content-length"@)
}

impl HttpHeaders {
    /// The entries are the map, in the order in which their names first came.
    pub closed spec fn wf(&self) -> bool {
        let e = self.entries@;
        let m = self.model@;
        &&& forall|i: int, j: int|
            0 <= i < j < e.len() ==> (#[trigger] e[i]).0@ != (#[trigger] e[j]).0@
        &&& forall|i: int|
            0 <= i < e.len() ==> m.contains_key((#[trigger] e[i]).0@) && m[e[i].0@] == e[i].1@
        &&& forall|k: Seq<char>|
            m.contains_key(k) ==> exists|i: int| 0 <= i < e.len() && (#[trigger] e[i]).0@ == k
    }

    /// The entries' names and values, in order.
    pub closed spec fn pairs(&self) -> Seq<(Seq<char>, Seq<char>)> {
        self.entries@.map_values(|p: (String, String)| (p.0@, p.1@))
    }

    pub proof fn lemma_pairs_cover(&self)
        requires
            self.wf(),
        ensures
            forall|k: Seq<char>|
                self@.contains_key(k) <==> exists|i: int|
                    0 <= i < self.pairs().len() && (#[trigger] self.pairs()[i]).0 == k,
            forall|i: int|
                0 <= i < self.pairs().len() ==> self@[(#[trigger] self.pairs()[i]).0]
                    == self.pairs()[i].1,
    {
        assert forall|k: Seq<char>| self@.contains_key(k) implies exists|i: int|
            0 <= i < self.pairs().len() && (#[trigger] self.pairs()[i]).0 == k by {
            let i = choose|i: int| 0 <= i < self.entries@.len() && (#[trigger] self.entries@[i]).0@ == k;
            assert(self.pairs()[i].0 == k);
        }
        assert forall|k: Seq<char>|
            (exists|i: int| 0 <= i < self.pairs().len() && (#[trigger] self.pairs()[i]).0 == k)
            implies self@.contains_key(k) by {
            let i = choose|i: int| 0 <= i < self.pairs().len() && (#[trigger] self.pairs()[i]).0 == k;
            assert(self.entries@[i].0@ == k);
        }
        assert forall|i: int| 0 <= i < self.pairs().len() implies self@[(#[trigger] self.pairs()[i]).0]
            == self.pairs()[i].1 by {
            assert(self.entries@[i].0@ == self.pairs()[i].0);
        }
    }

    /// An empty header map.
    pub fn new() -> (r: HttpHeaders)
        ensures
            r.wf(),
            r@ == Map::<Seq<char>, Seq<char>>::empty(),
    {
        HttpHeaders { entries: Vec::new(), model: Ghost(Map::empty()) }
    }

    /// Position of the entry named `name`.
    fn find(&self, name: &String) -> (r: Option<usize>)
        requires
            self.wf(),
        ensures
            match r {
                Some(i) => i < self.entries@.len() && self.entries@[i as int].0@ == name@,
                None => !self@.contains_key(name@),
            },
    {
        let mut i: usize = 0;
        while i < self.entries.len()
            invariant
                self.wf(),
                i <= self.entries@.len(),
                forall|j: int| 0 <= j < i ==> (#[trigger] self.entries@[j]).0@ != name@,
            decreases self.entries@.len() - i,
        {
            if self.entries[i].0 == *name {
                return Some(i);
            }
            i = i + 1;
        }
        None
    }

    /// Sets the header `key`, in lowercase, to `value`, replacing any value
    /// that a name of the same lowercase form had.
    pub fn insert(&mut self, key: &str, value: &str)
        requires
            old(self).wf(),
        ensures
            final(self).wf(),
            final(self)@ == old(self)@.insert(lower_of(key@), value@),
            old(self)@.contains_key(lower_of(key@)) ==> final(self).pairs().len() == old(
                self,
            ).pairs().len(),
            !old(self)@.contains_key(lower_of(key@)) ==> final(self).pairs().len() == old(
                self,
            ).pairs().len() + 1,
    {
        let name = lowercase(key);
        let text = value.to_owned();
        let ghost m = self.model@.insert(name@, text@);
        let ghost e0 = self.entries@;
        match self.find(&name) {
            Some(i) => {
                assert(self@.contains_key(name@));
                self.entries.set(i, (name, text));
                self.model = Ghost(m);
                assert forall|k: Seq<char>| m.contains_key(k) implies exists|j: int|
                    0 <= j < self.entries@.len() && (#[trigger] self.entries@[j]).0@ == k by {
                    if k != self.entries@[i as int].0@ {
                        let j = choose|j: int| 0 <= j < e0.len() && (#[trigger] e0[j]).0@ == k;
                        assert(self.entries@[j].0@ == k);
                    }
                }
            },
            None => {
                self.entries.push((name, text));
                self.model = Ghost(m);
                let ghost n = self.entries@.len() - 1;
                assert forall|k: Seq<char>| m.contains_key(k) implies exists|j: int|
                    0 <= j < self.entries@.len() && (#[trigger] self.entries@[j]).0@ == k by {
                    if k != self.entries@[n].0@ {
                        let j = choose|j: int| 0 <= j < e0.len() && (#[trigger] e0[j]).0@ == k;
                        assert(self.entries@[j].0@ == k);
                    }
                }
            },
        }
    }

    /// The value of the header `key`, whatever the case of its letters.
    pub fn get(&self, key: &str) -> (r: Option<&String>)
        requires
            self.wf(),
        ensures
            match r {
                Some(v) => self@.contains_key(lower_of(key@)) && v@ == self@[lower_of(key@)],
                None => !self@.contains_key(lower_of(key@)),
            },
    {
        let name = lowercase(key);
        match self.find(&name) {
            Some(i) => Some(&self.entries[i].1),
            None => None,
        }
    }

    /// Whether a header `key` is set, whatever the case of its letters.
    pub fn contains_key(&mut self, key: &str) -> (r: bool)
        requires
            old(self).wf(),
        ensures
            *final(self) == *old(self),
            r == old(self)@.contains_key(lower_of(key@)),
    {
        let name = lowercase(key);
        self.find(&name).is_some()
    }

    /// Removes the header `key`, whatever the case of its letters, and gives
    /// back its value.
    pub fn unset(&mut self, key: &str) -> (r: Option<String>)
        requires
            old(self).wf(),
        ensures
            final(self).wf(),
            final(self)@ == old(self)@.remove(lower_of(key@)),
            match r {
                Some(v) => old(self)@.contains_key(lower_of(key@)) && v@ == old(self)@[lower_of(
                    key@,
                )],
                None => !old(self)@.contains_key(lower_of(key@)),
            },
    {
        let name = lowercase(key);
        match self.find(&name) {
            Some(i) => {
                let ghost e0 = self.entries@;
                let ghost m = self.model@.remove(name@);
                let (_, v) = self.entries.remove(i);
                self.model = Ghost(m);
                let ghost e = self.entries@;
                assert forall|a: int, b: int| 0 <= a < b < e.len() implies (#[trigger] e[a]).0@
                    != (#[trigger] e[b]).0@ by {
                    let a0 = if a < i { a } else { a + 1 };
                    let b0 = if b < i { b } else { b + 1 };
                    assert(e[a] == e0[a0] && e[b] == e0[b0]);
                }
                assert forall|a: int| 0 <= a < e.len() implies m.contains_key(
                    (#[trigger] e[a]).0@,
                ) && m[e[a].0@] == e[a].1@ by {
                    let a0 = if a < i { a } else { a + 1 };
                    assert(e[a] == e0[a0]);
                }
                assert forall|k: Seq<char>| m.contains_key(k) implies exists|j: int|
                    0 <= j < e.len() && (#[trigger] e[j]).0@ == k by {
                    let j0 = choose|j: int| 0 <= j < e0.len() && (#[trigger] e0[j]).0@ == k;
                    let j = if j0 < i { j0 } else { j0 - 1 };
                    assert(e[j] == e0[j0]);
                }
                Some(v)
            },
            None => {
                assert(self.model@.remove(name@) =~= self.model@);
                None
            },
        }
    }

    /// Headers that ask for JSON: `accept: application/json`.
    pub fn default() -> (r: HttpHeaders)
        ensures
            r.wf(),
            r@ == Map::<Seq<char>, Seq<char>>::empty().insert(
                lower_of("accept"@),
                "application/json"@,
            ),
    {
        let mut result = Self::new();
        result.insert("accept", "application/json");
        result
    }

    /// The headers that inserting each of `pairs` in turn gives.
    pub fn from_pairs(pairs: Vec<(String, String)>) -> (r: HttpHeaders)
        ensures
            r.wf(),
            r@ == insert_all(
                Map::empty(),
                pairs@.map_values(|p: (String, String)| (p.0@, p.1@)),
            ),
    {
        let ghost ps = pairs@.map_values(|p: (String, String)| (p.0@, p.1@));
        let mut result = Self::new();
        let mut i: usize = 0;
        while i < pairs.len()
            invariant
                i <= pairs@.len(),
                ps == pairs@.map_values(|p: (String, String)| (p.0@, p.1@)),
                result.wf(),
                result@ == insert_all(Map::empty(), ps.subrange(0, i as int)),
            decreases pairs@.len() - i,
        {
            result.insert(pairs[i].0.as_str(), pairs[i].1.as_str());
            assert(ps.subrange(0, i + 1).drop_last() == ps.subrange(0, i as int));
            i = i + 1;
        }
        assert(ps.subrange(0, pairs@.len() as int) == ps);
        result
    }

    /// The number of headers.
    pub fn len(&self) -> (r: usize)
        ensures
            r == self.pairs().len(),
    {
        self.entries.len()
    }

    /// The name and value of the entry at `i`.
    pub fn entry(&self, i: usize) -> (r: (&String, &String))
        requires
            i < self.pairs().len(),
        ensures
            r.0@ == self.pairs()[i as int].0,
            r.1@ == self.pairs()[i as int].1,
    {
        (&self.entries[i].0, &self.entries[i].1)
    }
}

/// Header names are matched whatever the case of their letters: where two
/// names have the same lowercase form, a value set under one is found under
/// the other, and setting the second replaces the value of the first instead
/// of adding a header.
pub proof fn lemma_names_fold_together(
    m: Map<Seq<char>, Seq<char>>,
    k1: Seq<char>,
    k2: Seq<char>,
    v1: Seq<char>,
    v2: Seq<char>,
)
    requires
        lower_of(k1) == lower_of(k2),
    ensures
        m.insert(lower_of(k1), v1).contains_key(lower_of(k2)),
        m.insert(lower_of(k1), v1)[lower_of(k2)] == v1,
        m.insert(lower_of(k1), v1).insert(lower_of(k2), v2) == m.insert(lower_of(k2), v2),
        m.insert(lower_of(k1), v1).insert(lower_of(k2), v2).dom() == m.insert(
            lower_of(k1),
            v1,
        ).dom(),
{
    assert(m.insert(lower_of(k1), v1).insert(lower_of(k2), v2) =~= m.insert(lower_of(k2), v2));
    assert(m.insert(lower_of(k1), v1).insert(lower_of(k2), v2).dom() =~= m.insert(
        lower_of(k1),
        v1,
    ).dom());
}

} // verus!
