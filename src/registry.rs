use vstd::prelude::*;

verus! {

/// The set of identities whose elements are installed in the head.
pub struct Registry {
    ids: Vec<u64>,
}

impl View for Registry {
    type V = Set<u64>;

    closed spec fn view(&self) -> Set<u64> {
        self.ids@.to_set()
    }
}

impl Registry {
    /// Each identity is held once.
    pub closed spec fn wf(&self) -> bool {
        self.ids@.no_duplicates()
    }

    /// A registry with nothing installed.
    pub fn new() -> (r: Registry)
        ensures
            r.wf(),
            r@ == Set::<u64>::empty(),
    {
        let r = Registry { ids: Vec::new() };
        assert(r.ids@.to_set() =~= Set::<u64>::empty());
        r
    }

    fn position(&self, id: u64) -> (r: Option<usize>)
        ensures
            match r {
                Some(i) => i < self.ids@.len() && self.ids@[i as int] == id,
                None => !self.ids@.contains(id),
            },
    {
        let mut i: usize = 0;
        while i < self.ids.len()
            invariant
                i <= self.ids@.len(),
                forall|j: int| 0 <= j < i ==> self.ids@[j] != id,
            decreases self.ids@.len() - i,
        {
            if self.ids[i] == id {
                return Some(i);
            }
            i = i + 1;
        }
        None
    }

    /// Whether `id` is installed.
    pub fn contains(&self, id: u64) -> (r: bool)
        ensures
            r == self@.contains(id),
    {
        self.position(id).is_some()
    }

    /// Records `id` as installed. True where it was not installed before,
    /// so that the caller is the one to add its element.
    pub fn insert_if_absent(&mut self, id: u64) -> (r: bool)
        requires
            old(self).wf(),
        ensures
            final(self).wf(),
            r == !old(self)@.contains(id),
            final(self)@ == old(self)@.insert(id),
    {
        match self.position(id) {
            Some(_) => {
                assert(self@ =~= self@.insert(id));
                false
            },
            None => {
                let ghost before = self.ids@;
                self.ids.push(id);
                proof {
                    assert(self.ids@ == before.push(id));
                    assert forall|x: u64| #[trigger] self.ids@.contains(x) <==> (before.contains(x) || x == id) by {
                        if self.ids@.contains(x) {
                            let j = choose|j: int| 0 <= j < self.ids@.len() && self.ids@[j] == x;
                            if j < before.len() {
                                assert(before[j] == x);
                            }
                        }
                        if before.contains(x) {
                            let j = choose|j: int| 0 <= j < before.len() && before[j] == x;
                            assert(self.ids@[j] == x);
                        }
                        if x == id {
                            assert(self.ids@[before.len() as int] == x);
                        }
                    }
                    assert(self@ =~= before.to_set().insert(id));
                }
                true
            },
        }
    }

    /// Takes `id` out of the registry. True where it was installed.
    pub fn remove(&mut self, id: u64) -> (r: bool)
        requires
            old(self).wf(),
        ensures
            final(self).wf(),
            r == old(self)@.contains(id),
            final(self)@ == old(self)@.remove(id),
    {
        match self.position(id) {
            None => {
                assert(self@ =~= self@.remove(id));
                false
            },
            Some(i) => {
                let ghost before = self.ids@;
                self.ids.remove(i);
                proof {
                    assert(self.ids@ == before.remove(i as int));
                    assert forall|x: u64| #[trigger] self.ids@.contains(x) <==> (before.contains(x) && x != id) by {
                        if self.ids@.contains(x) {
                            let j = choose|j: int| 0 <= j < self.ids@.len() && self.ids@[j] == x;
                            if j < i {
                                assert(before[j] == x);
                            } else {
                                assert(before[j + 1] == x);
                            }
                        }
                        if before.contains(x) && x != id {
                            let j = choose|j: int| 0 <= j < before.len() && before[j] == x;
                            if j < i {
                                assert(self.ids@[j] == x);
                            } else {
                                assert(j != i);
                                assert(self.ids@[j - 1] == x);
                            }
                        }
                    }
                    assert forall|a: int, b: int| 0 <= a < b < self.ids@.len() implies self.ids@[a] != self.ids@[b] by {
                        let a2 = if a < i { a } else { a + 1 };
                        let b2 = if b < i { b } else { b + 1 };
                        assert(self.ids@[a] == before[a2]);
                        assert(self.ids@[b] == before[b2]);
                    }
                    assert(self@ =~= before.to_set().remove(id));
                }
                true
            },
        }
    }
}

} // verus!
