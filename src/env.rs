use vstd::prelude::*;
use crate::value::{Val, Value};

verus! {

/// The flat variable namespace: names bound to values, each name at most once.
pub struct Env {
    entries: Vec<(String, Value)>,
}

impl Env {
    pub closed spec fn key(&self, i: int) -> Seq<char> {
        self.entries@[i].0@
    }

    pub closed spec fn has(&self, k: Seq<char>) -> bool {
        exists|i: int| 0 <= i < self.entries@.len() && #[trigger] self.key(i) == k
    }

    pub closed spec fn find(&self, k: Seq<char>) -> int {
        choose|i: int| 0 <= i < self.entries@.len() && #[trigger] self.key(i) == k
    }

    /// Each name is bound at most once.
    pub closed spec fn wf(&self) -> bool {
        forall|i: int, j: int|
            0 <= i < j < self.entries@.len() ==> #[trigger] self.key(i) != #[trigger] self.key(j)
    }

    pub closed spec fn view(&self) -> Map<Seq<char>, Val> {
        Map::new(|k: Seq<char>| self.has(k), |k: Seq<char>| self.entries@[self.find(k)].1@)
    }

    /// An empty namespace.
    pub fn new() -> (r: Env)
        ensures
            r.wf(),
            r.view() == Map::<Seq<char>, Val>::empty(),
    {
        let r = Env { entries: Vec::new() };
        assert(r.view() =~= Map::<Seq<char>, Val>::empty());
        r
    }

    /// The position of `name`, if it is bound.
    fn position(&self, name: &String) -> (r: Option<usize>)
        requires
            self.wf(),
        ensures
            match r {
                Some(i) => i < self.entries@.len() && self.key(i as int) == name@
                    && self.find(name@) == i,
                None => !self.has(name@),
            },
    {
        let mut i: usize = 0;
        while i < self.entries.len()
            invariant
                0 <= i <= self.entries@.len(),
                self.wf(),
                forall|j: int| 0 <= j < i ==> #[trigger] self.key(j) != name@,
            decreases self.entries@.len() - i,
        {
            if self.entries[i].0 == *name {
                proof {
                    assert(self.key(i as int) == name@);
                    assert(self.has(name@));
                    let j = self.find(name@);
                    assert(self.key(j) == name@);
                    if j < i {
                        assert(self.key(j) != self.key(i as int));
                    } else if j > i {
                        assert(self.key(i as int) != self.key(j));
                    }
                }
                return Some(i);
            }
            i = i + 1;
        }
        None
    }

    /// A copy of the value bound to `name`, if any.
    pub fn get(&self, name: &String) -> (r: Option<Value>)
        requires
            self.wf(),
        ensures
            match r {
                Some(v) => self.view().contains_key(name@) && v@ == self.view()[name@],
                None => !self.view().contains_key(name@),
            },
    {
        match self.position(name) {
            Some(i) => Some(self.entries[i].1.copy()),
            None => None,
        }
    }

    /// Binds `name` to `v`, replacing any earlier binding.
    pub fn set(&mut self, name: &String, v: Value)
        requires
            old(self).wf(),
        ensures
            final(self).wf(),
            final(self).view() == old(self).view().insert(name@, v@),
    {
        let ghost old_view = self.view();
        let ghost vv = v@;
        match self.position(name) {
            Some(i) => {
                let ghost before = *self;
                self.entries.set(i, (name.clone(), v));
                assert forall|j: int| 0 <= j < self.entries@.len() implies #[trigger] self.key(j)
                    == before.key(j) by {}
                assert forall|k: Seq<char>| #[trigger] self.has(k) == before.has(k) by {
                    if before.has(k) {
                        let j = before.find(k);
                        assert(self.key(j) == k);
                    }
                    if self.has(k) {
                        let j = self.find(k);
                        assert(before.key(j) == k);
                    }
                }
                assert forall|k: Seq<char>| self.has(k) && k != name@ implies self.entries@[self.find(k)].1@
                    == before.entries@[before.find(k)].1@ by {
                    let j = self.find(k);
                    let j2 = before.find(k);
                    assert(before.key(j) == k);
                    assert(j == j2);
                }
                assert(self.key(i as int) == name@);
                assert(self.has(name@));
                let ghost j = self.find(name@);
                assert(self.key(j) == name@);
                assert(before.key(j) == name@);
                assert(j == i);
                assert(self.view() =~= old_view.insert(name@, vv));
            },
            None => {
                let ghost before = *self;
                self.entries.push((name.clone(), v));
                let ghost n = before.entries@.len();
                assert forall|j: int| 0 <= j < n implies #[trigger] self.key(j) == before.key(j) by {}
                assert(self.key(n as int) == name@);
                assert forall|k: Seq<char>| #[trigger] self.has(k) == (before.has(k) || k == name@) by {
                    if before.has(k) {
                        let j = before.find(k);
                        assert(self.key(j) == k);
                    }
                    if self.has(k) && k != name@ {
                        let j = self.find(k);
                        assert(before.key(j) == k);
                    }
                }
                assert forall|k: Seq<char>| self.has(k) && k != name@ implies self.entries@[self.find(k)].1@
                    == before.entries@[before.find(k)].1@ by {
                    let j = self.find(k);
                    let j2 = before.find(k);
                    assert(before.key(j) == k);
                    assert(before.key(j2) == k);
                    assert(j == j2);
                }
                assert(self.find(name@) == n);
                assert(self.view() =~= old_view.insert(name@, vv));
            },
        }
    }
}

} // verus!
