use vstd::prelude::*;

verus! {

/// An insert-only set of string keys that answers "seen before?" in the
/// same step as recording the key.
pub struct Store {
    items: Vec<String>,
}

impl View for Store {
    type V = Set<Seq<char>>;

    closed spec fn view(&self) -> Set<Seq<char>> {
        self.items@.map_values(|s: String| s@).to_set()
    }
}

impl Default for Store {
    fn default() -> (r: Store)
        ensures
            r@ == Set::<Seq<char>>::empty(),
    {
        Store::new()
    }
}

impl Store {
    pub fn new() -> (r: Store)
        ensures
            r@ == Set::<Seq<char>>::empty(),
    {
        let r = Store { items: Vec::new() };
        assert(r@ =~= Set::<Seq<char>>::empty());
        r
    }

    /// Whether `item` has been recorded.
    pub fn contains(&self, item: &String) -> (r: bool)
        ensures
            r == self@.contains(item@),
    {
        let mut i: usize = 0;
        while i < self.items.len()
            invariant
                0 <= i <= self.items@.len(),
                forall|j: int| 0 <= j < i ==> self.items@[j]@ != item@,
            decreases self.items@.len() - i,
        {
            if self.items[i] == *item {
                assert(self.items@.map_values(|s: String| s@)[i as int] == item@);
                return true;
            }
            i = i + 1;
        }
        proof {
            let m = self.items@.map_values(|s: String| s@);
            assert forall|j: int| 0 <= j < m.len() implies m[j] != item@ by {
                assert(self.items@[j]@ != item@);
            }
            assert(!m.contains(item@));
        }
        false
    }

    /// Records `item`; returns true when it had not been recorded before.
    pub fn insert(&mut self, item: String) -> (r: bool)
        ensures
            r == !old(self)@.contains(item@),
            final(self)@ == old(self)@.insert(item@),
    {
        if self.contains(&item) {
            assert(old(self)@.insert(item@) =~= old(self)@);
            false
        } else {
            let ghost prev = self.items@;
            self.items.push(item);
            proof {
                let m = self.items@.map_values(|s: String| s@);
                assert(m =~= prev.map_values(|s: String| s@).push(item@));
                assert(self@ =~= old(self)@.insert(item@)) by {
                    prev.map_values(|s: String| s@).lemma_push_to_set_commute(item@);
                }
            }
            true
        }
    }
}

} // verus!
