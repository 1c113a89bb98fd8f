//! Application settings: values upserted by key.

use vstd::prelude::*;
use crate::access::{AccessError, Operation, Session, allowed, authorize};

verus! {

pub struct Setting {
    pub key: String,
    pub value: String,
}

/// The settings; they change only through `upsert`.
pub struct Settings {
    pub(crate) entries: Vec<Setting>,
}

impl Settings {
    pub open(crate) spec fn spec_entries(&self) -> Seq<Setting> {
        self.entries@
    }

    pub fn entries(&self) -> (r: &Vec<Setting>)
        ensures
            r@ == self.spec_entries(),
    {
        &self.entries
    }

    /// Keys are unique.
    pub open spec fn wf(&self) -> bool {
        forall|i: int, j: int|
            0 <= i < j < self.spec_entries().len() ==> (#[trigger] self.spec_entries()[i]).key@
                != (#[trigger] self.spec_entries()[j]).key@
    }

    /// The settings as a map from key to value.
    pub open spec fn view_map(&self) -> Map<Seq<char>, Seq<char>> {
        Map::new(
            |k: Seq<char>| exists|i: int| 0 <= i < self.spec_entries().len() && (#[trigger] self.spec_entries()[i]).key@ == k,
            |k: Seq<char>|
                self.spec_entries()[choose|i: int| 0 <= i < self.spec_entries().len() && (#[trigger] self.spec_entries()[i]).key@
                    == k].value@,
        )
    }

    pub fn new() -> (r: Settings)
        ensures
            r.wf(),
            r.view_map() == Map::<Seq<char>, Seq<char>>::empty(),
    {
        let r = Settings { entries: Vec::new() };
        assert(r.view_map() =~= Map::<Seq<char>, Seq<char>>::empty());
        r
    }

    /// Checks that no two rows share a key.
    pub fn is_consistent(&self) -> (r: bool)
        ensures
            r == self.wf(),
    {
        let n = self.entries.len();
        let mut i: usize = 0;
        while i < n
            invariant
                n == self.spec_entries().len(),
                i <= n,
                forall|a: int, b: int|
                    0 <= a < b < i ==> (#[trigger] self.spec_entries()[a]).key@ != (#[trigger] self.spec_entries()[b]).key@,
            decreases n - i,
        {
            let mut k: usize = 0;
            while k < i
                invariant
                    n == self.spec_entries().len(),
                    k <= i < n,
                    forall|a: int| 0 <= a < k ==> (#[trigger] self.spec_entries()[a]).key@ != self.spec_entries()[i as int].key@,
                decreases i - k,
            {
                if self.entries[k].key == self.entries[i].key {
                    return false;
                }
                k = k + 1;
            }
            i = i + 1;
        }
        true
    }

    fn find(&self, key: &String) -> (r: Option<usize>)
        ensures
            r is None <==> !self.view_map().contains_key(key@),
            r is Some ==> r.unwrap() < self.spec_entries().len() && self.spec_entries()[r.unwrap() as int].key@ == key@,
    {
        let mut i: usize = 0;
        while i < self.entries.len()
            invariant
                i <= self.spec_entries().len(),
                forall|j: int| 0 <= j < i ==> (#[trigger] self.spec_entries()[j]).key@ != key@,
            decreases self.spec_entries().len() - i,
        {
            if self.entries[i].key == *key {
                assert(self.view_map().contains_key(key@));
                return Some(i);
            }
            i = i + 1;
        }
        None
    }

    proof fn lemma_value_at(&self, i: int)
        requires
            self.wf(),
            0 <= i < self.spec_entries().len(),
        ensures
            self.view_map().contains_key(self.spec_entries()[i].key@),
            self.view_map()[self.spec_entries()[i].key@] == self.spec_entries()[i].value@,
    {
        let k = self.spec_entries()[i].key@;
        assert(self.view_map().contains_key(k));
        let c = choose|j: int| 0 <= j < self.spec_entries().len() && (#[trigger] self.spec_entries()[j]).key@ == k;
        if c != i {
            if c < i {
                assert(self.spec_entries()[c].key@ != self.spec_entries()[i].key@);
            } else {
                assert(self.spec_entries()[i].key@ != self.spec_entries()[c].key@);
            }
        }
    }

    pub fn get(&self, key: &String) -> (r: Option<String>)
        requires
            self.wf(),
        ensures
            r is Some <==> self.view_map().contains_key(key@),
            r is Some ==> r.unwrap()@ == self.view_map()[key@],
    {
        match self.find(key) {
            Some(i) => {
                proof {
                    self.lemma_value_at(i as int);
                }
                Some(self.entries[i].value.clone())
            },
            None => None,
        }
    }

    /// Sets `key` to `value`, for a session whose role may change settings.
    pub fn upsert(&mut self, key: String, value: String, session: &Session) -> (r: Result<(), AccessError>)
        requires
            old(self).wf(),
        ensures
            final(self).wf(),
            allowed(session.spec_role(), Operation::ChangeSettings) ==> r is Ok && final(self).view_map()
                == old(self).view_map().insert(key@, value@),
            !allowed(session.spec_role(), Operation::ChangeSettings) ==> r == Err::<(), AccessError>(
                AccessError::Unauthorized(Operation::ChangeSettings),
            ) && final(self).spec_entries() == old(self).spec_entries(),
    {
        if !authorize(session.role(), Operation::ChangeSettings) {
            return Err(AccessError::Unauthorized(Operation::ChangeSettings));
        }
        let ghost before = *self;
        let ghost k = key@;
        let ghost v = value@;
        match self.find(&key) {
            Some(i) => {
                self.entries[i].value = value;
                proof {
                    assert forall|a: int, b: int| 0 <= a < b < self.spec_entries().len() implies (
                    #[trigger] self.spec_entries()[a]).key@ != (#[trigger] self.spec_entries()[b]).key@ by {
                        assert(before.spec_entries()[a].key@ != before.spec_entries()[b].key@);
                    }
                    assert forall|q: Seq<char>| #[trigger] self.view_map().contains_key(q)
                        == before.view_map().insert(k, v).contains_key(q) by {
                        if before.view_map().contains_key(q) {
                            let j = choose|j: int| 0 <= j < before.spec_entries().len() && (#[trigger] before.spec_entries()[j]).key@ == q;
                            assert(self.spec_entries()[j].key@ == q);
                        }
                        if self.view_map().contains_key(q) {
                            let j = choose|j: int| 0 <= j < self.spec_entries().len() && (#[trigger] self.spec_entries()[j]).key@ == q;
                            assert(before.spec_entries()[j].key@ == q);
                        }
                    }
                    assert forall|q: Seq<char>| #[trigger] self.view_map().contains_key(q) implies self.view_map()[q]
                        == before.view_map().insert(k, v)[q] by {
                        let j = choose|j: int| 0 <= j < self.spec_entries().len() && (#[trigger] self.spec_entries()[j]).key@ == q;
                        self.lemma_value_at(j);
                        if j != i {
                            before.lemma_value_at(j);
                        }
                    }
                    assert(self.view_map() =~= before.view_map().insert(k, v));
                }
            },
            None => {
                self.entries.push(Setting { key, value });
                proof {
                    let n = before.spec_entries().len() as int;
                    assert forall|a: int, b: int| 0 <= a < b < self.spec_entries().len() implies (
                    #[trigger] self.spec_entries()[a]).key@ != (#[trigger] self.spec_entries()[b]).key@ by {
                        if b == n {
                            assert(self.spec_entries()[a] == before.spec_entries()[a]);
                        }
                    }
                    assert forall|q: Seq<char>| #[trigger] self.view_map().contains_key(q)
                        == before.view_map().insert(k, v).contains_key(q) by {
                        if before.view_map().contains_key(q) {
                            let j = choose|j: int| 0 <= j < before.spec_entries().len() && (#[trigger] before.spec_entries()[j]).key@ == q;
                            assert(self.spec_entries()[j] == before.spec_entries()[j]);
                        }
                        if q == k {
                            assert(self.spec_entries()[n].key@ == q);
                        }
                        if self.view_map().contains_key(q) && q != k {
                            let j = choose|j: int| 0 <= j < self.spec_entries().len() && (#[trigger] self.spec_entries()[j]).key@ == q;
                            assert(j < n);
                            assert(before.spec_entries()[j].key@ == q);
                        }
                    }
                    assert forall|q: Seq<char>| #[trigger] self.view_map().contains_key(q) implies self.view_map()[q]
                        == before.view_map().insert(k, v)[q] by {
                        let j = choose|j: int| 0 <= j < self.spec_entries().len() && (#[trigger] self.spec_entries()[j]).key@ == q;
                        self.lemma_value_at(j);
                        if j < n {
                            assert(self.spec_entries()[j] == before.spec_entries()[j]);
                            before.lemma_value_at(j);
                        }
                    }
                    assert(self.view_map() =~= before.view_map().insert(k, v));
                }
            },
        }
        Ok(())
    }
}

} // verus!
