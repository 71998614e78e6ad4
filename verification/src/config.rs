//! The security template: named sections of named values.
use vstd::prelude::*;

use crate::lgpo::copy_string;
use crate::text::str_eq;

verus! {

/// Keys with values, the first occurrence of a key winning.
pub open spec fn assoc<V>(es: Seq<(Seq<char>, V)>) -> Map<Seq<char>, V>
    decreases es.len(),
{
    if es.len() == 0 {
        Map::empty()
    } else {
        assoc(es.drop_first()).insert(es[0].0, es[0].1)
    }
}

pub open spec fn keys_distinct<V>(es: Seq<(Seq<char>, V)>) -> bool {
    forall|i: int, j: int| 0 <= i < j < es.len() ==> es[i].0 != es[j].0
}

pub proof fn lemma_assoc_get<V>(es: Seq<(Seq<char>, V)>, i: int)
    requires
        keys_distinct(es),
        0 <= i < es.len(),
    ensures
        assoc(es).contains_key(es[i].0),
        assoc(es)[es[i].0] == es[i].1,
    decreases es.len(),
{
    if i > 0 {
        lemma_assoc_get(es.drop_first(), i - 1);
        assert(es.drop_first()[i - 1] == es[i]);
        assert(es[0].0 != es[i].0);
    }
}

pub proof fn lemma_assoc_absent<V>(es: Seq<(Seq<char>, V)>, k: Seq<char>)
    requires
        forall|i: int| 0 <= i < es.len() ==> es[i].0 != k,
    ensures
        !assoc(es).contains_key(k),
    decreases es.len(),
{
    if es.len() > 0 {
        assert forall|i: int| 0 <= i < es.drop_first().len() implies es.drop_first()[i].0 != k by {
            assert(es.drop_first()[i] == es[i + 1]);
        }
        lemma_assoc_absent(es.drop_first(), k);
    }
}

pub proof fn lemma_assoc_update<V>(es: Seq<(Seq<char>, V)>, i: int, v: V)
    requires
        keys_distinct(es),
        0 <= i < es.len(),
    ensures
        assoc(es.update(i, (es[i].0, v))) == assoc(es).insert(es[i].0, v),
        keys_distinct(es.update(i, (es[i].0, v))),
    decreases es.len(),
{
    let u = es.update(i, (es[i].0, v));
    if i == 0 {
        assert(u.drop_first() =~= es.drop_first());
        assert(assoc(u) =~= assoc(es).insert(es[0].0, v));
    } else {
        assert(u.drop_first() =~= es.drop_first().update(i - 1, (es[i].0, v)));
        assert(es.drop_first()[i - 1] == es[i]);
        lemma_assoc_update(es.drop_first(), i - 1, v);
        assert(es[0].0 != es[i].0);
        assert(assoc(u) =~= assoc(es).insert(es[i].0, v));
    }
}

pub proof fn lemma_assoc_push<V>(es: Seq<(Seq<char>, V)>, k: Seq<char>, v: V)
    requires
        keys_distinct(es),
        forall|i: int| 0 <= i < es.len() ==> es[i].0 != k,
    ensures
        assoc(es.push((k, v))) == assoc(es).insert(k, v),
        keys_distinct(es.push((k, v))),
    decreases es.len(),
{
    let p = es.push((k, v));
    if es.len() == 0 {
        assert(p.drop_first() =~= Seq::<(Seq<char>, V)>::empty());
        assert(p[0] == (k, v));
        assert(assoc(p.drop_first()) == Map::<Seq<char>, V>::empty());
        assert(assoc(es) == Map::<Seq<char>, V>::empty());
        assert(assoc(p) =~= assoc(es).insert(k, v));
    } else {
        assert(p.drop_first() =~= es.drop_first().push((k, v)));
        assert forall|i: int| 0 <= i < es.drop_first().len() implies es.drop_first()[i].0 != k by {
            assert(es.drop_first()[i] == es[i + 1]);
        }
        lemma_assoc_push(es.drop_first(), k, v);
        assert(assoc(p) =~= assoc(es).insert(k, v));
    }
}

pub proof fn lemma_assoc_remove<V>(es: Seq<(Seq<char>, V)>, i: int)
    requires
        keys_distinct(es),
        0 <= i < es.len(),
    ensures
        assoc(es.remove(i)) == assoc(es).remove(es[i].0),
        keys_distinct(es.remove(i)),
    decreases es.len(),
{
    let r = es.remove(i);
    if i == 0 {
        assert(r =~= es.drop_first());
        assert forall|j: int| 0 <= j < r.len() implies r[j].0 != es[0].0 by {
            assert(r[j] == es[j + 1]);
        }
        lemma_assoc_absent(r, es[0].0);
        assert(assoc(r) =~= assoc(es).remove(es[0].0));
    } else {
        assert(r.drop_first() =~= es.drop_first().remove(i - 1));
        assert(es.drop_first()[i - 1] == es[i]);
        lemma_assoc_remove(es.drop_first(), i - 1);
        assert(es[0].0 != es[i].0);
        assert(r[0] == es[0]);
        assert(assoc(r) =~= assoc(es).remove(es[i].0));
    }
}

/// The values of one section of the template, by key.
pub struct Section {
    name: String,
    entries: Vec<(String, String)>,
}

pub open spec fn pairs_view(v: Seq<(String, String)>) -> Seq<(Seq<char>, Seq<char>)> {
    v.map_values(|p: (String, String)| (p.0@, p.1@))
}

impl Section {
    pub closed spec fn name_view(&self) -> Seq<char> {
        self.name@
    }

    pub closed spec fn pairs(&self) -> Seq<(Seq<char>, Seq<char>)> {
        pairs_view(self.entries@)
    }

    pub closed spec fn wf(&self) -> bool {
        keys_distinct(self.pairs())
    }

    pub open spec fn values(&self) -> Map<Seq<char>, Seq<char>> {
        assoc(self.pairs())
    }

    fn find(&self, key: &str) -> (r: Option<usize>)
        ensures
            match r {
                Some(i) => i < self.pairs().len() && self.pairs()[i as int].0 == key@,
                None => forall|i: int| 0 <= i < self.pairs().len() ==> self.pairs()[i].0 != key@,
            },
    {
        let mut i: usize = 0;
        while i < self.entries.len()
            invariant
                i <= self.entries@.len(),
                forall|j: int| 0 <= j < i ==> self.pairs()[j].0 != key@,
            decreases self.entries@.len() - i,
        {
            if str_eq(self.entries[i].0.as_str(), key) {
                return Some(i);
            }
            i = i + 1;
        }
        None
    }

    fn get(&self, key: &str) -> (r: Option<String>)
        requires
            self.wf(),
        ensures
            match r {
                Some(v) => self.values().contains_key(key@) && self.values()[key@] == v@,
                None => !self.values().contains_key(key@),
            },
    {
        match self.find(key) {
            Some(i) => {
                proof {
                    lemma_assoc_get(self.pairs(), i as int);
                }
                Some(copy_string(&self.entries[i].1))
            },
            None => {
                proof {
                    lemma_assoc_absent(self.pairs(), key@);
                }
                None
            },
        }
    }

    fn insert(&mut self, key: &str, value: &str)
        requires
            old(self).wf(),
        ensures
            final(self).wf(),
            final(self).name_view() == old(self).name_view(),
            final(self).values() == old(self).values().insert(key@, value@),
    {
        let ghost before = self.pairs();
        match self.find(key) {
            Some(i) => {
                proof {
                    lemma_assoc_update(before, i as int, value@);
                }
                self.entries.set(i, (copy_string(&self.entries[i].0), crate::text::owned(value)));
                assert(self.pairs() =~= before.update(i as int, (before[i as int].0, value@)));
            },
            None => {
                proof {
                    lemma_assoc_push(before, key@, value@);
                }
                self.entries.push((crate::text::owned(key), crate::text::owned(value)));
                assert(self.pairs() =~= before.push((key@, value@)));
            },
        }
    }

    fn remove(&mut self, key: &str)
        requires
            old(self).wf(),
        ensures
            final(self).wf(),
            final(self).name_view() == old(self).name_view(),
            final(self).values() == old(self).values().remove(key@),
    {
        let ghost before = self.pairs();
        match self.find(key) {
            Some(i) => {
                proof {
                    lemma_assoc_remove(before, i as int);
                }
                self.entries.remove(i);
                assert(self.pairs() =~= before.remove(i as int));
            },
            None => {
                proof {
                    lemma_assoc_absent(before, key@);
                }
                assert(self.values() =~= self.values().remove(key@));
            },
        }
    }
}

/// The security template: for each section name, the values by key.
pub struct SecEditConfig {
    sections: Vec<Section>,
}

impl SecEditConfig {
    pub closed spec fn named(&self) -> Seq<(Seq<char>, Map<Seq<char>, Seq<char>>)> {
        self.sections@.map_values(|s: Section| (s.name_view(), s.values()))
    }

    #[verifier::type_invariant]
    closed spec fn inv(self) -> bool {
        &&& keys_distinct(self.named())
        &&& forall|i: int| 0 <= i < self.sections@.len() ==> (#[trigger] self.sections@[i]).wf()
    }

    /// The sections by name.
    pub closed spec fn view(&self) -> Map<Seq<char>, Map<Seq<char>, Seq<char>>> {
        assoc(self.named())
    }

    /// An empty template.
    pub fn new() -> (r: SecEditConfig)
        ensures
            r.view() == Map::<Seq<char>, Map<Seq<char>, Seq<char>>>::empty(),
    {
        let r = SecEditConfig { sections: Vec::new() };
        assert(r.named() =~= Seq::<(Seq<char>, Map<Seq<char>, Seq<char>>)>::empty());
        r
    }

    fn find(&self, name: &str) -> (r: Option<usize>)
        ensures
            match r {
                Some(i) => i < self.named().len() && self.named()[i as int].0 == name@,
                None => forall|i: int| 0 <= i < self.named().len() ==> self.named()[i].0 != name@,
            },
    {
        let mut i: usize = 0;
        while i < self.sections.len()
            invariant
                i <= self.sections@.len(),
                forall|j: int| 0 <= j < i ==> self.named()[j].0 != name@,
            decreases self.sections@.len() - i,
        {
            if str_eq(self.sections[i].name.as_str(), name) {
                return Some(i);
            }
            i = i + 1;
        }
        None
    }

    /// Whether the template has a section of that name.
    pub fn has_section(&self, name: &str) -> (r: bool)
        ensures
            r == self.view().contains_key(name@),
    {
        proof {
            use_type_invariant(self);
        }
        match self.find(name) {
            Some(i) => {
                proof {
                    lemma_assoc_get(self.named(), i as int);
                }
                true
            },
            None => {
                proof {
                    lemma_assoc_absent(self.named(), name@);
                }
                false
            },
        }
    }

    /// The value of `key` in section `name`, if both exist.
    pub fn get(&self, name: &str, key: &str) -> (r: Option<String>)
        ensures
            match r {
                Some(v) => self.view().contains_key(name@) && self.view()[name@].contains_key(key@)
                    && self.view()[name@][key@] == v@,
                None => !self.view().contains_key(name@) || !self.view()[name@].contains_key(
                    key@,
                ),
            },
    {
        proof {
            use_type_invariant(self);
        }
        match self.find(name) {
            Some(i) => {
                proof {
                    lemma_assoc_get(self.named(), i as int);
                }
                assert(self.sections@[i as int].wf());
                self.sections[i].get(key)
            },
            None => {
                proof {
                    lemma_assoc_absent(self.named(), name@);
                }
                None
            },
        }
    }

    /// Sets `key` in section `name`, creating the section when it is missing.
    pub fn set(&mut self, name: &str, key: &str, value: &str)
        ensures
            final(self).view() == old(self).view().insert(
                name@,
                if old(self).view().contains_key(name@) {
                    old(self).view()[name@]
                } else {
                    Map::empty()
                }.insert(key@, value@),
            ),
    {
        proof {
            use_type_invariant(&*self);
        }
        let ghost before = self.named();
        match self.find(name) {
            Some(i) => {
                proof {
                    lemma_assoc_get(before, i as int);
                }
                let mut sections: Vec<Section> = Vec::new();
                std::mem::swap(&mut sections, &mut self.sections);
                let mut s = sections.remove(i);
                assert(s.wf()) by {
                    assert(s == old(self).sections@[i as int]);
                }
                s.insert(key, value);
                sections.insert(i, s);
                proof {
                    lemma_assoc_update(before, i as int, before[i as int].1.insert(key@, value@));
                    assert(sections@.map_values(|s: Section| (s.name_view(), s.values()))
                        =~= before.update(i as int, (before[i as int].0, before[i as int].1.insert(key@, value@))));
                    assert forall|j: int| 0 <= j < sections@.len() implies (#[trigger] sections@[j]).wf() by {
                        if j != i {
                            assert(sections@[j] == old(self).sections@[j]);
                        }
                    }
                }
                self.sections = sections;
            },
            None => {
                proof {
                    lemma_assoc_absent(before, name@);
                }
                let mut s = Section { name: crate::text::owned(name), entries: Vec::new() };
                assert(s.pairs() =~= Seq::<(Seq<char>, Seq<char>)>::empty());
                assert(s.values() =~= Map::<Seq<char>, Seq<char>>::empty());
                s.insert(key, value);
                let mut sections: Vec<Section> = Vec::new();
                std::mem::swap(&mut sections, &mut self.sections);
                sections.push(s);
                proof {
                    lemma_assoc_push(before, name@, Map::<Seq<char>, Seq<char>>::empty().insert(key@, value@));
                    assert(sections@.map_values(|s: Section| (s.name_view(), s.values()))
                        =~= before.push((name@, Map::<Seq<char>, Seq<char>>::empty().insert(key@, value@))));
                    assert forall|j: int| 0 <= j < sections@.len() implies (#[trigger] sections@[j]).wf() by {
                        if j < sections@.len() - 1 {
                            assert(sections@[j] == old(self).sections@[j]);
                        }
                    }
                }
                self.sections = sections;
            },
        }
    }

    /// Removes `key` from section `name`, when that section exists.
    pub fn remove(&mut self, name: &str, key: &str)
        ensures
            final(self).view() == if old(self).view().contains_key(name@) {
                old(self).view().insert(name@, old(self).view()[name@].remove(key@))
            } else {
                old(self).view()
            },
    {
        proof {
            use_type_invariant(&*self);
        }
        let ghost before = self.named();
        match self.find(name) {
            Some(i) => {
                proof {
                    lemma_assoc_get(before, i as int);
                }
                let mut sections: Vec<Section> = Vec::new();
                std::mem::swap(&mut sections, &mut self.sections);
                let mut s = sections.remove(i);
                assert(s.wf()) by {
                    assert(s == old(self).sections@[i as int]);
                }
                s.remove(key);
                sections.insert(i, s);
                proof {
                    lemma_assoc_update(before, i as int, before[i as int].1.remove(key@));
                    assert(sections@.map_values(|s: Section| (s.name_view(), s.values()))
                        =~= before.update(i as int, (before[i as int].0, before[i as int].1.remove(key@))));
                    assert forall|j: int| 0 <= j < sections@.len() implies (#[trigger] sections@[j]).wf() by {
                        if j != i {
                            assert(sections@[j] == old(self).sections@[j]);
                        }
                    }
                }
                self.sections = sections;
            },
            None => {
                proof {
                    lemma_assoc_absent(before, name@);
                }
            },
        }
    }

    /// The names of the sections, in the order they were created.
    pub fn section_names(&self) -> (r: Vec<String>)
        ensures
            forall|i: int| 0 <= i < r@.len() ==> self.view().contains_key(#[trigger] r@[i]@),
            forall|n: Seq<char>| self.view().contains_key(n) ==> exists|i: int| 0 <= i < r@.len() && r@[i]@ == n,
    {
        proof {
            use_type_invariant(self);
        }
        let mut r: Vec<String> = Vec::new();
        let mut i: usize = 0;
        while i < self.sections.len()
            invariant
                i <= self.sections@.len(),
                keys_distinct(self.named()),
                r@.len() == i,
                forall|j: int| 0 <= j < i ==> (#[trigger] r@[j])@ == self.named()[j].0,
            decreases self.sections@.len() - i,
        {
            r.push(copy_string(&self.sections[i].name));
            i = i + 1;
        }
        proof {
            assert forall|j: int| 0 <= j < r@.len() implies self.view().contains_key(#[trigger] r@[j]@) by {
                lemma_assoc_get(self.named(), j);
            }
            assert forall|n: Seq<char>| self.view().contains_key(n) implies exists|j: int|
                0 <= j < r@.len() && r@[j]@ == n by {
                if forall|j: int| 0 <= j < r@.len() ==> r@[j]@ != n {
                    assert forall|j: int| 0 <= j < self.named().len() implies self.named()[j].0 != n by {
                        assert(r@[j]@ != n);
                    }
                    lemma_assoc_absent(self.named(), n);
                }
            }
        }
        r
    }

    /// The keys and values of section `name`, in the order they were set.
    pub fn section_entries(&self, name: &str) -> (r: Vec<(String, String)>)
        ensures
            forall|i: int| 0 <= i < r@.len() ==> self.view().contains_key(name@) && #[trigger] self.view()[name@].contains_key(r@[i].0@)
                && self.view()[name@][r@[i].0@] == r@[i].1@,
            self.view().contains_key(name@) ==> forall|k: Seq<char>| self.view()[name@].contains_key(k) ==> exists|i: int| 0 <= i < r@.len() && r@[i].0@ == k,
    {
        proof {
            use_type_invariant(self);
        }
        match self.find(name) {
            None => {
                proof {
                    lemma_assoc_absent(self.named(), name@);
                }
                Vec::new()
            },
            Some(i) => {
                proof {
                    lemma_assoc_get(self.named(), i as int);
                }
                let s = &self.sections[i];
                assert(s.wf());
                let mut r: Vec<(String, String)> = Vec::new();
                let mut k: usize = 0;
                while k < s.entries.len()
                    invariant
                        k <= s.entries@.len(),
                        s.wf(),
                        r@.len() == k,
                        forall|j: int| 0 <= j < k ==> (#[trigger] r@[j]).0@ == s.pairs()[j].0 && r@[j].1@ == s.pairs()[j].1,
                    decreases s.entries@.len() - k,
                {
                    r.push((copy_string(&s.entries[k].0), copy_string(&s.entries[k].1)));
                    k = k + 1;
                }
                proof {
                    assert forall|j: int| 0 <= j < r@.len() implies self.view().contains_key(name@) && #[trigger] self.view()[name@].contains_key(r@[j].0@)
                        && self.view()[name@][r@[j].0@] == r@[j].1@ by {
                        lemma_assoc_get(s.pairs(), j);
                    }
                    assert forall|key: Seq<char>| self.view()[name@].contains_key(key) implies exists|j: int| 0 <= j < r@.len() && r@[j].0@ == key by {
                        if forall|j: int| 0 <= j < r@.len() ==> r@[j].0@ != key {
                            assert forall|j: int| 0 <= j < s.pairs().len() implies s.pairs()[j].0 != key by {
                                assert(r@[j].0@ != key);
                            }
                            lemma_assoc_absent(s.pairs(), key);
                        }
                    }
                }
                r
            },
        }
    }
}

} // verus!
